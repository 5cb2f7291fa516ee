use lsfg_vk_gui::layer::layer_library_paths;
use lsfg_vk_gui::setup::{
    layer_manifest,
    layer_manifest_location, library_source, metrics_paths, missing_library_message,
    proton_copy_targets, proton_status_paths, require_steam_dir,
};


fn strings(v: &[&str]) -> Vec<String> {
    v.iter().map(|s| s.to_string()).collect()
}

#[test]
fn library_source_first_existing() {
    let c = layer_library_paths();
    assert_eq!(library_source(&c, &vec![false, true, true]), Ok("/usr/local/lib/liblsfg-vk.so".to_string()));
    assert_eq!(library_source(&c, &vec![true, true, false]), Ok("/usr/lib/liblsfg-vk.so".to_string()));
}

#[test]
fn library_source_missing_message() {
    let c = layer_library_paths();
    let expected = "liblsfg-vk.so not found. Searched: /usr/lib/liblsfg-vk.so, /usr/local/lib/liblsfg-vk.so, /usr/lib/liblsfg-vk-layer.so";
    assert_eq!(library_source(&c, &vec![false, false, false]), Err(expected.to_string()));
    assert_eq!(missing_library_message(&c), expected);
    assert_eq!(missing_library_message(&vec![]), "liblsfg-vk.so not found. Searched: ");
}

#[test]
fn steam_dir_required() {
    assert_eq!(require_steam_dir(Some("/s".to_string())), Ok("/s".to_string()));
    assert_eq!(require_steam_dir(None), Err("Steam installation not found".to_string()));
}

#[test]
fn proton_copy_target_paths() {
    let t = proton_copy_targets(&strings(&["/s/compatibilitytools.d/GE-Proton10", "/s/steamapps/common/Proton 9.0/dist"]))
        .expect("targets");
    assert_eq!(
        t,
        vec![
            (
                "/s/compatibilitytools.d/GE-Proton10/lib/x86_64-linux-gnu".to_string(),
                "/s/compatibilitytools.d/GE-Proton10/lib/x86_64-linux-gnu/liblsfg-vk.so".to_string(),
            ),
            (
                "/s/steamapps/common/Proton 9.0/dist/lib/x86_64-linux-gnu".to_string(),
                "/s/steamapps/common/Proton 9.0/dist/lib/x86_64-linux-gnu/liblsfg-vk.so".to_string(),
            ),
        ]
    );
    assert_eq!(proton_copy_targets(&vec![]), Err("No Proton installations found under Steam".to_string()));
}

#[test]
fn layer_manifest_locations() {
    let (dir, file) = layer_manifest_location(&Some("/xdg".to_string()), &Some("/home/u".to_string()));
    assert_eq!(dir, "/xdg/vulkan/implicit_layer.d");
    assert_eq!(file, "/xdg/vulkan/implicit_layer.d/VkLayer_LS_frame_generation.json");
    let (dir2, _) = layer_manifest_location(&None, &Some("/home/u".to_string()));
    assert_eq!(dir2, "/home/u/.local/share/vulkan/implicit_layer.d");
    let (dir3, _) = layer_manifest_location(&None, &None);
    assert_eq!(dir3, "/tmp/.local/share/vulkan/implicit_layer.d");
}

#[test]
fn proton_status_files() {
    let (lib, layer) = proton_status_paths("/home/u");
    assert_eq!(
        lib,
        "/home/u/.local/share/Steam/steamapps/common/Proton - Experimental/files/lib/x86_64-linux-gnu/liblsfg-vk.so"
    );
    assert_eq!(layer, "/home/u/.local/share/vulkan/implicit_layer.d/VkLayer_LS_frame_generation.json");
    let (lib2, _) = proton_status_paths("");
    assert!(lib2.starts_with(".local/share/Steam"));
}

#[test]
fn metrics_files() {
    assert_eq!(
        metrics_paths(&Some("/home/u/.cache".to_string())),
        strings(&["/tmp/lsfg-vk-metrics.json", "/home/u/.cache/lsfg-vk/metrics.json"])
    );
    assert_eq!(metrics_paths(&None), strings(&["/tmp/lsfg-vk-metrics.json"]));
}

fn manifest_value(library_path: &str) -> serde_json::Value {
    let mut enable = serde_json::Map::new();
    enable.insert("LSFGVK_ENABLE".to_string(), serde_json::Value::String("1".to_string()));
    let mut disable = serde_json::Map::new();
    disable.insert("DISABLE_LSFGVK".to_string(), serde_json::Value::String("1".to_string()));
    let mut layer = serde_json::Map::new();
    layer.insert("name".to_string(), serde_json::Value::String("VK_LAYER_LS_frame_generation".to_string()));
    layer.insert("type".to_string(), serde_json::Value::String("GLOBAL".to_string()));
    layer.insert("api_version".to_string(), serde_json::Value::String("1.3.0".to_string()));
    layer.insert("implementation_version".to_string(), serde_json::Value::String("1".to_string()));
    layer.insert("description".to_string(), serde_json::Value::String("Lossless Scaling Frame Generation (lsfg-vk)".to_string()));
    layer.insert("library_path".to_string(), serde_json::Value::String(library_path.to_string()));
    layer.insert("enable_environment".to_string(), serde_json::Value::Object(enable));
    layer.insert("disable_environment".to_string(), serde_json::Value::Object(disable));
    let mut top = serde_json::Map::new();
    top.insert("file_format_version".to_string(), serde_json::Value::String("1.0.0".to_string()));
    top.insert("layer".to_string(), serde_json::Value::Object(layer));
    serde_json::Value::Object(top)
}

#[test]
fn layer_manifest_text() {
    let text = layer_manifest("/usr/lib/liblsfg-vk.so");
    assert_eq!(text, serde_json::to_string_pretty(&manifest_value("/usr/lib/liblsfg-vk.so")).unwrap());
    assert!(text.contains("    \"library_path\": \"/usr/lib/liblsfg-vk.so\",\n"));
}

#[test]
fn layer_manifest_escapes_the_path() {
    let odd = "/opt/a \"b\"\\c";
    let text = layer_manifest(odd);
    assert_eq!(text, serde_json::to_string_pretty(&manifest_value(odd)).unwrap());
    assert!(text.contains("\"library_path\": \"/opt/a \\\"b\\\"\\\\c\""));
}

#[test]
fn layer_manifest_escapes_control_characters() {
    let odd = "/opt/\u{1}x\ty\u{1f}z\u{7f}\u{e9}";
    let text = layer_manifest(odd);
    assert_eq!(text, serde_json::to_string_pretty(&manifest_value(odd)).unwrap());
    assert!(text.contains("\\u0001x\\ty\\u001fz"));
}
