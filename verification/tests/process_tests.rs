use lsfg_vk_gui::config::{ActiveIn, GameConf};
use lsfg_vk_gui::helpers::{detect_running_game, profile_target_pairs};
use lsfg_vk_gui::process::{
    detect_wine_exe, extract_exe_basename, find_active_profiles, is_proton_wrapper_name,
    scan_maps_for_exe, wine_exe_needs_maps, ProcessInfo,
};

use lsfg_vk_gui::process::{is_kernel_thread, keep_scanned_process};
use lsfg_vk_gui::process::{accept_exe_base, path_base_of};

fn proc_info(pid: u32, comm: &str, exe: Option<&str>, wine_exe: Option<&str>) -> ProcessInfo {
    ProcessInfo {
        pid,
        comm: comm.to_string(),
        exe: exe.map(|s| s.to_string()),
        cmdline: vec![],
        wine_exe: wine_exe.map(|s| s.to_string()),
    }
}

fn strings(v: &[&str]) -> Vec<String> {
    v.iter().map(|s| s.to_string()).collect()
}

#[test]
fn proton_wrapper_names() {
    for name in ["wine", "wine64", "wineserver", "proton", "steam", "steamwebhelper", "pv-adverb", "srt-bwrap", "reaper", "pressure-vessel"] {
        assert!(is_proton_wrapper_name(name), "{name}");
    }
    assert!(is_proton_wrapper_name("proton-9.0"));
    assert!(is_proton_wrapper_name("xbwrapx"));
    assert!(!is_proton_wrapper_name("Steam"));
    assert!(!is_proton_wrapper_name("vkcube"));
    assert!(!is_proton_wrapper_name("protonx"));
    assert!(!is_proton_wrapper_name(""));
}

#[test]
fn exe_basename_of_windows_paths() {
    assert_eq!(extract_exe_basename("S:\\common\\Subnautica2\\Subnautica2.exe"), Some("Subnautica2.exe".to_string()));
    assert_eq!(extract_exe_basename("\"C:/Games/x/Game.EXE\""), Some("Game.EXE".to_string()));
    assert_eq!(extract_exe_basename("'a.exe'"), Some("a.exe".to_string()));
    assert_eq!(extract_exe_basename("dir/mixed\\b.exe"), Some("b.exe".to_string()));
}

#[test]
fn exe_basename_rejects_non_exes() {
    assert_eq!(extract_exe_basename(".exe"), None);
    assert_eq!(extract_exe_basename("C:\\x\\.exe"), None);
    assert_eq!(extract_exe_basename("C:\\x\\readme.txt"), None);
    assert_eq!(extract_exe_basename("C:\\x\\"), None);
    assert_eq!(extract_exe_basename(""), None);
}

#[test]
fn maps_first_game_exe() {
    let maps = "7f0000000000-7f0000001000 r--p 00000000 08:01 1111                       /home/u/games/x/UnityCrashHandler64.exe\n\
                7f0000001000-7f0000002000 r--p 00000000 08:01 2222                       /home/u/games/x/Game.exe\n\
                7f0000002000-7f0000003000 r--p 00000000 08:01 3333                       /home/u/games/x/Other.exe\n";
    assert_eq!(scan_maps_for_exe(maps), Some("Game.exe".to_string()));
}

#[test]
fn maps_without_game_exe() {
    let maps = "7f0000000000-7f0000001000 r--p 00000000 08:01 1111 /usr/lib/libc.so.6\n\
                7f0000001000-7f0000002000 r--p 00000000 08:01 2222 /x/Setup.exe\n\
                7f0000002000-7f0000003000 r--p 00000000 00:00 0\n";
    assert_eq!(scan_maps_for_exe(maps), None);
    assert_eq!(scan_maps_for_exe(""), None);
}

#[test]
fn maps_backslash_paths() {
    let maps = "1000-2000 r-xp 00000000 00:2a 77 Z:\\games\\Big\\Big-Win64-Shipping.EXE\n";
    assert_eq!(scan_maps_for_exe(maps), Some("Big-Win64-Shipping.EXE".to_string()));
}

#[test]
fn wine_exe_from_command_line() {
    let cmd = strings(&["/usr/bin/wine64", "S:\\common\\Game\\Launcher.exe", "S:\\common\\Game\\Game.exe", "-dx12"]);
    let exe = Some("/home/u/.steam/steam/steamapps/common/Proton 9.0/files/bin/wine64-preloader");
    assert_eq!(detect_wine_exe(&cmd, exe, None), Some("Game.exe".to_string()));
    assert!(!wine_exe_needs_maps(&cmd, exe));
}

#[test]
fn wine_exe_skips_helpers_then_reads_maps() {
    let cmd = strings(&["C:\\x\\GameLauncher.exe", "C:\\windows\\system32\\steam.exe", "C:\\y\\CrashReporter.exe"]);
    let exe = Some("/usr/bin/wine64");
    assert!(wine_exe_needs_maps(&cmd, exe));
    let maps = "1000-2000 r-xp 00000000 00:2a 77 /games/Real.exe\n";
    assert_eq!(detect_wine_exe(&cmd, exe, Some(maps)), Some("Real.exe".to_string()));
    assert_eq!(detect_wine_exe(&cmd, exe, None), None);
}

#[test]
fn wine_exe_of_native_process() {
    let cmd = strings(&["C:\\x\\Game.exe"]);
    assert_eq!(detect_wine_exe(&cmd, Some("/usr/bin/mpv"), Some("1 2 3 4 5 /a/Game.exe\n")), None);
    assert_eq!(detect_wine_exe(&cmd, None, None), None);
    assert!(!wine_exe_needs_maps(&cmd, Some("/usr/bin/mpv")));
}

#[test]
fn wine_exe_launcher_path_any_case() {
    let cmd = strings(&["Z:/games/Title/Title.exe"]);
    assert_eq!(detect_wine_exe(&cmd, Some("/opt/PROTON/bin/x"), None), Some("Title.exe".to_string()));
    assert_eq!(detect_wine_exe(&cmd, Some("/usr/bin/pressure-vessel-wrap"), None), Some("Title.exe".to_string()));
}

#[test]
fn active_profiles_match_in_order() {
    let procs = vec![
        proc_info(10, "mpv", Some("/usr/bin/mpv"), None),
        proc_info(20, "wine64-preload", Some("/usr/bin/wine64"), Some("Game.exe")),
        proc_info(30, "vkcube", None, None),
    ];
    let profiles = vec![
        ("Video".to_string(), strings(&["MPV"])),
        ("Games".to_string(), strings(&["game.EXE", "vkcube"])),
        ("Paths".to_string(), strings(&["bin/mpv"])),
        ("None".to_string(), strings(&["nothing"])),
    ];
    let m = find_active_profiles(&procs, &profiles);
    assert_eq!(m.len(), 4);
    assert_eq!(m[0].profile_name, "Video");
    assert_eq!(m[0].pid, 10);
    assert_eq!(m[0].active_in_match, "MPV");
    assert_eq!(m[0].process_exe, Some("/usr/bin/mpv".to_string()));
    assert_eq!(m[1].profile_name, "Games");
    assert_eq!(m[1].pid, 20);
    assert_eq!(m[1].process_name, "wine64-preload");
    assert_eq!(m[2].pid, 30);
    assert_eq!(m[2].active_in_match, "vkcube");
    assert_eq!(m[3].profile_name, "Paths");
    assert_eq!(m[3].pid, 10);
}

#[test]
fn active_profiles_comm_is_exact() {
    let procs = vec![proc_info(5, "Foo", Some("/opt/bar"), None)];
    let exact = find_active_profiles(&procs, &[("P".to_string(), strings(&["Foo"]))]);
    assert_eq!(exact.len(), 1);
    let other_case = find_active_profiles(&procs, &[("P".to_string(), strings(&["foo"]))]);
    assert!(other_case.is_empty());
    let base = find_active_profiles(&procs, &[("P".to_string(), strings(&["BAR"]))]);
    assert_eq!(base.len(), 1);
}

#[test]
fn running_game_is_first_matching_profile() {
    let procs = vec![proc_info(1, "vkcube", Some("/usr/bin/vkcube"), None)];
    let mut a = GameConf::default();
    a.name = "A".to_string();
    a.active_in = ActiveIn::Single("other".to_string());
    let mut b = GameConf::default();
    b.name = "B".to_string();
    b.set_active_in(vec!["x".to_string(), "VKCUBE".to_string()]);
    let mut c = GameConf::default();
    c.name = "C".to_string();
    c.active_in = ActiveIn::Single("vkcube".to_string());
    let found = detect_running_game(&procs, &[a.clone(), b.clone(), c.clone()]).expect("a profile runs");
    assert_eq!(found.name, "B");
    assert!(detect_running_game(&procs, &[a]).is_none());
    assert!(detect_running_game(&[], &[b, c]).is_none());
}

#[test]
fn profile_target_pairs_lists_each_profile() {
    let mut a = GameConf::default();
    a.name = "A".to_string();
    a.set_active_in(vec!["x".to_string(), "y".to_string()]);
    let b = GameConf::default();
    let pairs = profile_target_pairs(&[a, b]);
    assert_eq!(pairs.len(), 2);
    assert_eq!(pairs[0], ("A".to_string(), strings(&["x", "y"])));
    assert_eq!(pairs[1], ("Profile".to_string(), vec![]));
}

#[test]
fn kernel_threads_are_not_listed() {
    assert!(is_kernel_thread(&None, &[]));
    assert!(!is_kernel_thread(&Some("/usr/bin/bash".to_string()), &[]));
    assert!(!is_kernel_thread(&None, &strings(&["bash"])));
    assert!(!keep_scanned_process("kworker/0:1", &None, &[]));
    assert!(keep_scanned_process("bash", &None, &strings(&["bash"])));
    assert!(keep_scanned_process("bash", &Some("/usr/bin/bash".to_string()), &[]));
    assert!(!keep_scanned_process("", &Some("/usr/bin/bash".to_string()), &strings(&["bash"])));
}

#[test]
fn exe_base_with_given_lowered_name() {
    assert_eq!(path_base_of("\"C:\\x\\Game.EXE\""), "Game.EXE");
    assert_eq!(accept_exe_base("Game.EXE", "game.exe"), Some("Game.EXE".to_string()));
    assert_eq!(accept_exe_base("Game.EXE", "Game.EXE"), None);
    assert_eq!(accept_exe_base(".exe", ".exe"), None);
}
