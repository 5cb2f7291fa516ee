//! Where the Vulkan layer and XDG data live, and whether the layer is installed
//! and enabled.
use vstd::prelude::*;
use crate::config::set_value;
use crate::paths::{home_dir, join2_str, path_join, path_join2, join_str};
use crate::text::opt_chars;
use crate::text::{chars_of, chars_eq, drop_empty, split, split_exec, string_of, text, CharSet};

verus! {

/// The data directories listed in `XDG_DATA_DIRS` when it is unset.
pub open spec fn default_data_dirs() -> Seq<char> {
    "/usr/local/share:/usr/share"@
}

/// The items of `parts` that are not empty, each joined with `sub1/sub2`.
pub open spec fn joined_nonempty(parts: Seq<Seq<char>>, sub1: Seq<char>, sub2: Seq<char>) -> Seq<
    Seq<char>,
>
    decreases parts.len(),
{
    if parts.len() == 0 {
        seq![]
    } else {
        let prev = joined_nonempty(parts.drop_last(), sub1, sub2);
        if parts.last().len() > 0 {
            prev.push(path_join2(parts.last(), sub1, sub2))
        } else {
            prev
        }
    }
}

/// Each non-empty item of the `:`-separated list `list` joined with `sub1/sub2`
/// (no component joined when both are empty).
fn push_joined_dirs(out: &mut Vec<String>, list: &str, sub1: &str, sub2: &str)
    ensures
        final(out).deep_view() == old(out).deep_view() + joined_nonempty(
            split(list@, CharSet::One(':')),
            sub1@,
            sub2@,
        ),
{
    let parts = split_exec(&chars_of(list), &CharSet::One(':'));
    let ghost pv = parts.deep_view();
    let ghost start = out.deep_view();
    let n = parts.len();
    let mut i: usize = 0;
    assert(start + joined_nonempty(pv.take(0), sub1@, sub2@) =~= start);
    while i < n
        invariant
            n == pv.len(),
            pv == parts.deep_view(),
            i <= n,
            out.deep_view() == start + joined_nonempty(pv.take(i as int), sub1@, sub2@),
        decreases n - i,
    {
        assert(pv.take(i + 1).drop_last() =~= pv.take(i as int));
        assert(pv.take(i + 1).last() == parts[i as int]@);
        if parts[i].len() > 0 {
            let p = string_of(&parts[i]);
            let d = join2_str(p.as_str(), sub1, sub2);
            let ghost before = out.deep_view();
            out.push(d);
            assert(out.deep_view() =~= before.push(d@));
        }
        i = i + 1;
    }
    assert(pv.take(n as int) =~= pv);
}

/// The directories searched for the layer's manifest, given the home directory
/// and the values of `XDG_DATA_HOME` and `XDG_DATA_DIRS` (`None` when unset).
pub open spec fn layer_dirs_from(home: Seq<char>, xdg_data_home: Option<Seq<char>>, xdg_data_dirs: Option<Seq<char>>) -> Seq<Seq<char>> {
    let data = match xdg_data_home {
        Some(x) => x,
        None => path_join2(home, ".local"@, "share"@),
    };
    seq![
        "/etc/vulkan/implicit_layer.d"@,
        path_join2(data, "vulkan"@, "implicit_layer.d"@),
        "/usr/share/vulkan/implicit_layer.d"@,
        "/usr/local/share/vulkan/implicit_layer.d"@,
    ] + joined_nonempty(
        split(
            match xdg_data_dirs {
                Some(d) => d,
                None => default_data_dirs(),
            },
            CharSet::One(':'),
        ),
        "vulkan"@,
        "implicit_layer.d"@,
    )
}

/// The directories searched for the layer's manifest, in order.
pub fn layer_dirs_from_exec(home: &str, xdg_data_home: &Option<String>, xdg_data_dirs: &Option<
    String,
>) -> (r: Vec<String>)
    ensures
        r.deep_view() == layer_dirs_from(home@, opt_chars(*xdg_data_home), opt_chars(*xdg_data_dirs)),
{
    let mut out: Vec<String> = Vec::new();
    out.push("/etc/vulkan/implicit_layer.d".to_owned());
    let data = match xdg_data_home {
        Some(x) => x.clone(),
        None => join2_str(home, ".local", "share"),
    };
    out.push(join2_str(data.as_str(), "vulkan", "implicit_layer.d"));
    out.push("/usr/share/vulkan/implicit_layer.d".to_owned());
    out.push("/usr/local/share/vulkan/implicit_layer.d".to_owned());
    let ghost fixed = out.deep_view();
    let extra = match xdg_data_dirs {
        Some(d) => d.clone(),
        None => "/usr/local/share:/usr/share".to_owned(),
    };
    push_joined_dirs(&mut out, extra.as_str(), "vulkan", "implicit_layer.d");
    out
}

/// The home directory the layer's manifest is looked for under: the user's, or
/// `/tmp` when there is none.
pub open spec fn home_or_tmp(home: Option<Seq<char>>) -> Seq<char> {
    match home {
        Some(h) => h,
        None => "/tmp"@,
    }
}

/// The directories searched for the layer's manifest, given the home directory
/// (`None` when there is none) and the values of `XDG_DATA_HOME` and
/// `XDG_DATA_DIRS`.
pub fn layer_dirs_for(home: &Option<String>, xdg_data_home: &Option<String>, xdg_data_dirs: &Option<
    String,
>) -> (r: Vec<String>)
    ensures
        r.deep_view() == layer_dirs_from(
            home_or_tmp(opt_chars(*home)),
            opt_chars(*xdg_data_home),
            opt_chars(*xdg_data_dirs),
        ),
{
    let h = match home {
        Some(h) => h.clone(),
        None => "/tmp".to_owned(),
    };
    layer_dirs_from_exec(h.as_str(), xdg_data_home, xdg_data_dirs)
}

/// The directories searched for the layer's manifest, given the values of
/// `XDG_DATA_HOME` and `XDG_DATA_DIRS`, with the home directory as `dirs`
/// reports it.
pub fn layer_search_dirs(xdg_data_home: &Option<String>, xdg_data_dirs: &Option<String>) -> (r: Vec<
    String,
>)
    ensures
        exists|home: Option<Seq<char>>|
            r.deep_view() == layer_dirs_from(
                home_or_tmp(home),
                opt_chars(*xdg_data_home),
                opt_chars(*xdg_data_dirs),
            ),
{
    layer_dirs_for(&home_dir(), xdg_data_home, xdg_data_dirs)
}

/// The data directories applications are searched under, given the home
/// directory (`None` when unknown) and the values of `XDG_DATA_HOME` and
/// `XDG_DATA_DIRS`.
pub open spec fn data_dirs_from(home: Option<Seq<char>>, xdg_data_home: Option<String>, xdg_data_dirs: Option<Seq<char>>) -> Seq<Seq<char>> {
    let first: Seq<Seq<char>> = match set_value(xdg_data_home) {
        Some(x) => seq![x],
        None => match home {
            Some(h) => seq![path_join2(h, ".local"@, "share"@)],
            None => seq![],
        },
    };
    first + drop_empty(
        split(
            match xdg_data_dirs {
                Some(d) => d,
                None => default_data_dirs(),
            },
            CharSet::One(':'),
        ),
    )
}

/// The XDG data directories, in order.
pub fn data_dirs_from_exec(home: &Option<String>, xdg_data_home: &Option<String>, xdg_data_dirs: &Option<
    String,
>) -> (r: Vec<String>)
    ensures
        r.deep_view() == data_dirs_from(opt_chars(*home), *xdg_data_home, opt_chars(*xdg_data_dirs)),
{
    let mut out: Vec<String> = Vec::new();
    let mut have_first = false;
    if let Some(x) = xdg_data_home {
        if !x.as_str().is_empty() {
            out.push(x.clone());
            have_first = true;
        }
    }
    if !have_first {
        if let Some(h) = home {
            out.push(join2_str(h.as_str(), ".local", "share"));
        }
    }
    let ghost first = out.deep_view();
    let extra = match xdg_data_dirs {
        Some(d) => d.clone(),
        None => "/usr/local/share:/usr/share".to_owned(),
    };
    let parts = split_exec(&chars_of(extra.as_str()), &CharSet::One(':'));
    let ghost pv = parts.deep_view();
    let n = parts.len();
    let mut i: usize = 0;
    assert(first + drop_empty(pv.take(0)) =~= first);
    while i < n
        invariant
            n == pv.len(),
            pv == parts.deep_view(),
            i <= n,
            out.deep_view() == first + drop_empty(pv.take(i as int)),
        decreases n - i,
    {
        assert(pv.take(i + 1).drop_last() =~= pv.take(i as int));
        assert(pv.take(i + 1).last() == parts[i as int]@);
        if parts[i].len() > 0 {
            let ghost before = out.deep_view();
            out.push(string_of(&parts[i]));
            assert(out.deep_view() =~= before.push(parts[i as int]@));
            assert(first + drop_empty(pv.take(i + 1)) =~= (first + drop_empty(pv.take(i as int))).push(
                parts[i as int]@,
            ));
        }
        i = i + 1;
    }
    assert(pv.take(n as int) =~= pv);
    out
}

/// The XDG data directories, given the values of `XDG_DATA_HOME` and
/// `XDG_DATA_DIRS`; the home directory is the one `dirs` reports.
pub fn xdg_data_dirs(data_home: &Option<String>, data_dirs: &Option<String>) -> (r: Vec<String>)
    ensures
        exists|home: Option<Seq<char>>|
            r.deep_view() == data_dirs_from(home, *data_home, opt_chars(*data_dirs)),
{
    let home = home_dir();
    data_dirs_from_exec(&home, data_home, data_dirs)
}

/// The file names the layer's manifest may have.
pub open spec fn layer_json_names() -> Seq<Seq<char>> {
    seq!["VkLayer_LS_frame_generation.json"@, "VkLayer_LSFGVK_frame_generation.json"@]
}

/// The places where the layer's manifest may be, in the order they are tried:
/// each directory of `dirs` with each manifest name.
pub open spec fn manifest_candidates(dirs: Seq<Seq<char>>) -> Seq<Seq<char>>
    decreases dirs.len(),
{
    if dirs.len() == 0 {
        seq![]
    } else {
        let d = dirs.last();
        manifest_candidates(dirs.drop_last()) + seq![
            path_join(d, layer_json_names()[0]),
            path_join(d, layer_json_names()[1]),
        ]
    }
}

/// The places where the layer's manifest may be, in the order they are tried.
pub fn layer_manifest_candidates(dirs: &Vec<String>) -> (r: Vec<String>)
    ensures
        r.deep_view() == manifest_candidates(dirs.deep_view()),
{
    let ghost dv = dirs.deep_view();
    let mut out: Vec<String> = Vec::new();
    let n = dirs.len();
    let mut i: usize = 0;
    assert(out.deep_view() =~= manifest_candidates(dv.take(0)));
    while i < n
        invariant
            n == dv.len(),
            dv == dirs.deep_view(),
            i <= n,
            out.deep_view() == manifest_candidates(dv.take(i as int)),
        decreases n - i,
    {
        assert(dv.take(i + 1).drop_last() =~= dv.take(i as int));
        assert(dv.take(i + 1).last() == dirs[i as int]@);
        let a = join_str(dirs[i].as_str(), "VkLayer_LS_frame_generation.json");
        let b = join_str(dirs[i].as_str(), "VkLayer_LSFGVK_frame_generation.json");
        let ghost before = out.deep_view();
        out.push(a);
        out.push(b);
        assert(out.deep_view() =~= before + seq![a@, b@]);
        i = i + 1;
    }
    assert(dv.take(n as int) =~= dv);
    out
}

/// The shared libraries of the layer, in the order they are looked for.
pub fn layer_library_paths() -> (r: Vec<String>)
    ensures
        r.deep_view() == seq![
            "/usr/lib/liblsfg-vk.so"@,
            "/usr/local/lib/liblsfg-vk.so"@,
            "/usr/lib/liblsfg-vk-layer.so"@,
        ],
{
    let mut out: Vec<String> = Vec::new();
    out.push("/usr/lib/liblsfg-vk.so".to_owned());
    out.push("/usr/local/lib/liblsfg-vk.so".to_owned());
    out.push("/usr/lib/liblsfg-vk-layer.so".to_owned());
    assert(out.deep_view() =~= seq![
        "/usr/lib/liblsfg-vk.so"@,
        "/usr/local/lib/liblsfg-vk.so"@,
        "/usr/lib/liblsfg-vk-layer.so"@,
    ]);
    out
}

/// Whether the lsfg-vk Vulkan layer is installed and enabled.
pub struct LayerStatus {
    pub installed: bool,
    pub disabled: bool,
    pub layer_path: Option<String>,
}

/// Some value of a variable that disables the layer is exactly "1".
pub open spec fn any_disables(values: Seq<Option<String>>) -> bool {
    exists|i: int| 0 <= i < values.len() && #[trigger] opt_chars(values[i]) == Some("1"@)
}

/// The layer's status: installed when its manifest was found (at `manifest`) and
/// one of its libraries exists; disabled when a disabling variable (`DISABLE_LSFG`
/// or `DISABLE_LSFGVK`, whose values are `disable_values`) is "1".
pub fn layer_status(manifest: Option<String>, library_exists: bool, disable_values: &[Option<String>]) -> (r: LayerStatus)
    ensures
        r.installed == (manifest is Some && library_exists),
        r.disabled == any_disables(disable_values@),
        opt_chars(r.layer_path) == opt_chars(manifest),
{
    let disabled = any_disabling_value(disable_values);
    let installed = manifest.is_some() && library_exists;
    LayerStatus { installed, disabled, layer_path: manifest }
}

fn any_disabling_value(disable_values: &[Option<String>]) -> (r: bool)
    ensures
        r == any_disables(disable_values@),
{
    let one = text("1");
    let n = disable_values.len();
    let mut i: usize = 0;
    while i < n
        invariant
            n == disable_values@.len(),
            i <= n,
            forall|k: int| 0 <= k < i ==> #[trigger] opt_chars(disable_values@[k]) != Some("1"@),
            one@ == "1"@,
        decreases n - i,
    {
        if let Some(v) = &disable_values[i] {
            if chars_eq(&chars_of(v.as_str()), &one) {
                assert(opt_chars(disable_values@[i as int]) == Some("1"@));
                return true;
            }
        }
        i = i + 1;
    }
    false
}

} // verus!
