use lsfg_vk_gui::layer::{
    layer_dirs_for,
    data_dirs_from_exec, layer_dirs_from_exec, layer_library_paths, layer_manifest_candidates,
    layer_search_dirs, layer_status, xdg_data_dirs,
};
use lsfg_vk_gui::paths::{join2_str, join_str};

use lsfg_vk_gui::paths::same_path;

fn strings(v: &[&str]) -> Vec<String> {
    v.iter().map(|s| s.to_string()).collect()
}

#[test]
fn path_join_like_path_buf() {
    assert_eq!(join_str("/a", "b"), "/a/b");
    assert_eq!(join_str("/a/", "b"), "/a/b");
    assert_eq!(join_str("", "b"), "b");
    assert_eq!(join2_str("/home/u", ".local", "share"), "/home/u/.local/share");
}

#[test]
fn layer_dirs_with_defaults() {
    let dirs = layer_dirs_from_exec("/home/u", &None, &None);
    assert_eq!(
        dirs,
        strings(&[
            "/etc/vulkan/implicit_layer.d",
            "/home/u/.local/share/vulkan/implicit_layer.d",
            "/usr/share/vulkan/implicit_layer.d",
            "/usr/local/share/vulkan/implicit_layer.d",
            "/usr/local/share/vulkan/implicit_layer.d",
            "/usr/share/vulkan/implicit_layer.d",
        ])
    );
}

#[test]
fn layer_dirs_from_environment() {
    let dirs = layer_dirs_from_exec("/home/u", &Some("/data".to_string()), &Some(":/x::/y/".to_string()));
    assert_eq!(
        dirs,
        strings(&[
            "/etc/vulkan/implicit_layer.d",
            "/data/vulkan/implicit_layer.d",
            "/usr/share/vulkan/implicit_layer.d",
            "/usr/local/share/vulkan/implicit_layer.d",
            "/x/vulkan/implicit_layer.d",
            "/y/vulkan/implicit_layer.d",
        ])
    );
    let set_empty = layer_dirs_from_exec("/home/u", &Some(String::new()), &Some(String::new()));
    assert_eq!(set_empty.len(), 4);
    assert_eq!(set_empty[1], "vulkan/implicit_layer.d");
}

#[test]
fn layer_search_dirs_uses_environment_values() {
    let dirs = layer_search_dirs(&Some("/d".to_string()), &Some("/e".to_string()));
    assert_eq!(dirs.len(), 5);
    assert_eq!(dirs[1], "/d/vulkan/implicit_layer.d");
    assert_eq!(dirs[4], "/e/vulkan/implicit_layer.d");
}

#[test]
fn data_dirs_in_order() {
    let d = data_dirs_from_exec(&Some("/home/u".to_string()), &None, &None);
    assert_eq!(d, strings(&["/home/u/.local/share", "/usr/local/share", "/usr/share"]));
    let e = data_dirs_from_exec(&Some("/home/u".to_string()), &Some(String::new()), &Some("a::b".to_string()));
    assert_eq!(e, strings(&["/home/u/.local/share", "a", "b"]));
    let f = data_dirs_from_exec(&None, &Some("/xdg".to_string()), &Some(String::new()));
    assert_eq!(f, strings(&["/xdg"]));
    let g = data_dirs_from_exec(&None, &None, &Some("/only".to_string()));
    assert_eq!(g, strings(&["/only"]));
}

#[test]
fn xdg_data_dirs_with_data_home() {
    let d = xdg_data_dirs(&Some("/xdg".to_string()), &Some("/a:/b".to_string()));
    assert_eq!(d, strings(&["/xdg", "/a", "/b"]));
}

#[test]
fn manifest_candidates_per_dir() {
    let c = layer_manifest_candidates(&strings(&["/etc/v", "/u/"]));
    assert_eq!(
        c,
        strings(&[
            "/etc/v/VkLayer_LS_frame_generation.json",
            "/etc/v/VkLayer_LSFGVK_frame_generation.json",
            "/u/VkLayer_LS_frame_generation.json",
            "/u/VkLayer_LSFGVK_frame_generation.json",
        ])
    );
}

#[test]
fn layer_libraries_in_order() {
    assert_eq!(
        layer_library_paths(),
        strings(&["/usr/lib/liblsfg-vk.so", "/usr/local/lib/liblsfg-vk.so", "/usr/lib/liblsfg-vk-layer.so"])
    );
}

#[test]
fn layer_status_installed_and_disabled() {
    let s = layer_status(Some("/etc/x.json".to_string()), true, &[None, Some("0".to_string())]);
    assert!(s.installed);
    assert!(!s.disabled);
    assert_eq!(s.layer_path, Some("/etc/x.json".to_string()));
    let t = layer_status(Some("/etc/x.json".to_string()), false, &[Some("1".to_string()), None]);
    assert!(!t.installed);
    assert!(t.disabled);
    let u = layer_status(None, true, &[None, Some("1".to_string())]);
    assert!(!u.installed);
    assert!(u.disabled);
    assert!(u.layer_path.is_none());
    let v = layer_status(None, true, &[Some("11".to_string()), Some(" 1".to_string())]);
    assert!(!v.disabled);
}

#[test]
fn layer_dirs_without_home_use_tmp() {
    let dirs = layer_dirs_for(&None, &None, &Some(String::new()));
    assert_eq!(dirs[1], "/tmp/.local/share/vulkan/implicit_layer.d");
    let with_home = layer_dirs_for(&Some("/home/u".to_string()), &None, &Some(String::new()));
    assert_eq!(with_home[1], "/home/u/.local/share/vulkan/implicit_layer.d");
}

#[test]
fn same_path_by_components() {
    assert!(same_path("/a//b/", "/a/b"));
    assert!(same_path("/a/./b", "/a/b"));
    assert!(same_path("./a", "./a/"));
    assert!(!same_path("./a", "a"));
    assert!(!same_path("/a", "a"));
    assert!(!same_path("/a/../b", "/b"));
    assert!(same_path("", ""));
    assert!(!same_path("/a/b", "/a/c"));
}
