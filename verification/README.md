# lsfg_vk_gui

The logic of a configuration window for lsfg-vk, the Vulkan frame generation
layer, written in Verus and proved against its contracts.

- `src/` is the library: the configuration model and its validation, the
  profile editor's state, matching running processes against profile targets,
  the executable selector's candidates, `.desktop` and Steam manifest parsing,
  Proton set-up decisions, the layer's status and the texts the window shows.
  Every function there is verified; the few calls into other crates (`dirs`
  for the user's folders, `serde_json` for quoting a path as a JSON string,
  lower-casing from std) go through a few functions whose contracts are
  assumed rather than proved.
- `app/` is the GTK4/libadwaita program around it: it reads `/proc`, the
  file system and the environment, runs `vulkaninfo`, reads and writes the
  TOML configuration, and builds the window. It hands what it reads to the
  library and shows what comes back.
- `tests/` runs the library on concrete inputs.
