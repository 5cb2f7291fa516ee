use lsfg_vk_gui::display::{
    active_summary, add_target, gpu_choice, gpu_index, hud_idle_text, hud_layer_line,
    inline_layer_indicator, is_multiplier_badge, multiplier_badge, osd_enabled, osd_tooltip,
    popover_suggestions, profile_row_subtitle, proton_status, remove_target, MAX_SUGGESTIONS,
};
use lsfg_vk_gui::entries::{EntrySource, SelectorEntry};
use lsfg_vk_gui::layer::LayerStatus;
use lsfg_vk_gui::process::ActiveMatch;

use lsfg_vk_gui::display::add_lowered_target;
use lsfg_vk_gui::display::suggest_from_lowered;

fn strings(v: &[&str]) -> Vec<String> {
    v.iter().map(|s| s.to_string()).collect()
}

fn m(profile: &str, comm: &str, pid: u32) -> ActiveMatch {
    ActiveMatch {
        profile_name: profile.to_string(),
        process_name: comm.to_string(),
        process_exe: None,
        pid,
        active_in_match: comm.to_string(),
    }
}

fn entry(label: &str, sublabel: &str, exe: &str) -> SelectorEntry {
    SelectorEntry {
        label: label.to_string(),
        sublabel: sublabel.to_string(),
        executable: exe.to_string(),
        is_running: false,
        icon_name: None,
        source: EntrySource::Manual,
    }
}

fn status(installed: bool, disabled: bool) -> LayerStatus {
    LayerStatus { installed, disabled, layer_path: None }
}

#[test]
fn gpu_choice_and_index() {
    let names = strings(&["Default", "AMD", "Intel"]);
    assert_eq!(gpu_choice(0, &names), None);
    assert_eq!(gpu_choice(2, &names), Some("Intel".to_string()));
    assert_eq!(gpu_choice(3, &names), None);
    assert_eq!(gpu_index(&names, &None), 0);
    assert_eq!(gpu_index(&names, &Some("Intel".to_string())), 2);
    assert_eq!(gpu_index(&names, &Some("Nvidia".to_string())), 0);
    let twice = strings(&["Default", "X", "X"]);
    assert_eq!(gpu_index(&twice, &Some("X".to_string())), 1);
}

#[test]
fn gpu_choice_round_trip() {
    let names = strings(&["Default", "AMD", "Intel"]);
    for i in 1..3u32 {
        let g = gpu_choice(i, &names);
        assert_eq!(gpu_index(&names, &g), i);
    }
}

#[test]
fn profile_row_texts() {
    assert_eq!(profile_row_subtitle(4, 0), "4x FG  no targets  0");
    assert_eq!(profile_row_subtitle(2, 3), "2x FG  targets  3");
    assert_eq!(multiplier_badge(4), "4x");
    assert_eq!(multiplier_badge(12), "12x");
    assert!(is_multiplier_badge("4x"));
    assert!(is_multiplier_badge("12x"));
    assert!(!is_multiplier_badge("100x"));
    assert!(!is_multiplier_badge("x4"));
    assert!(!is_multiplier_badge(""));
}

#[test]
fn proton_status_lines() {
    assert_eq!(proton_status(true, true), ("Ready".to_string(), "success".to_string()));
    assert_eq!(proton_status(false, false), ("Not set up (native games OK)".to_string(), "dim-label".to_string()));
    assert_eq!(proton_status(false, true), ("Incomplete: missing .so".to_string(), "warning".to_string()));
    assert_eq!(proton_status(true, false), ("Incomplete: missing JSON".to_string(), "warning".to_string()));
}

#[test]
fn layer_lines() {
    assert_eq!(hud_layer_line(&status(true, true)).0, "Layer: DISABLED");
    assert_eq!(hud_layer_line(&status(true, false)), ("Layer: Active".to_string(), "success".to_string()));
    assert_eq!(hud_layer_line(&status(false, false)), ("Layer: NOT installed".to_string(), "error".to_string()));
    assert_eq!(
        inline_layer_indicator(&status(false, true)),
        ("Layer: DISABLED".to_string(), "dialog-warning-symbolic".to_string(), "warning".to_string())
    );
    assert_eq!(inline_layer_indicator(&status(true, false)).1, "emblem-default-symbolic");
    assert_eq!(inline_layer_indicator(&status(false, false)).0, "Layer: Not installed");
}

#[test]
fn active_summary_counts_distinct_profiles() {
    assert_eq!(active_summary(&[]), "No active profiles");
    assert_eq!(active_summary(&[m("A", "x", 1), m("A", "y", 2)]), "Active: 1 profile");
    assert_eq!(active_summary(&[m("A", "x", 1), m("B", "y", 2), m("A", "z", 3)]), "Active: 2 profiles");
}

#[test]
fn hud_idle_texts() {
    assert_eq!(
        hud_idle_text(&[]),
        "No active FG session.\n\nLaunch a profiled game to see\nreal-time frame generation metrics."
    );
    assert_eq!(
        hud_idle_text(&[m("A", "vkcube", 42), m("B", "mpv", 7)]),
        "Process running but no metrics:\nvkcube (pid 42), mpv (pid 7)\n\nThe game may not be using Vulkan,\nor the layer hasn't hooked in yet."
    );
}

#[test]
fn osd_switch() {
    assert!(osd_enabled(&Some("1\n".to_string())));
    assert!(!osd_enabled(&Some("0".to_string())));
    assert!(!osd_enabled(&Some(String::new())));
    assert!(!osd_enabled(&None));
    assert_eq!(osd_tooltip(true), "In-Game OSD: ON (click to hide)");
    assert_eq!(osd_tooltip(false), "In-Game OSD: OFF (click to show)");
}

#[test]
fn add_target_ignores_case_duplicates() {
    let mut t = strings(&["Game.exe"]);
    assert!(!add_target(&mut t, "GAME.EXE".to_string()));
    assert_eq!(t, strings(&["Game.exe"]));
    assert!(add_target(&mut t, "mpv".to_string()));
    assert_eq!(t, strings(&["Game.exe", "mpv"]));
}

#[test]
fn add_then_remove_target() {
    let mut t = strings(&["a", "b", "a"]);
    assert!(add_target(&mut t, "c".to_string()));
    remove_target(&mut t, "a");
    assert_eq!(t, strings(&["b", "c"]));
    remove_target(&mut t, "zzz");
    assert_eq!(t, strings(&["b", "c"]));
    remove_target(&mut t, "B");
    assert_eq!(t, strings(&["b", "c"]));
}

#[test]
fn popover_suggestions_filter_and_mark() {
    let all = vec![
        entry("Vulkan Cube", "/usr/bin/vkcube", "vkcube"),
        entry("Media", "/usr/bin/mpv", "mpv"),
        entry("Other", "Steam: /games/cube", "other.exe"),
    ];
    let s = popover_suggestions(&all, "CUBE", &strings(&["VKCube"]));
    assert_eq!(s, vec![(0, true), (2, false)]);
    assert!(popover_suggestions(&all, "", &[]).is_empty());
    assert!(popover_suggestions(&all, "zzz", &[]).is_empty());
}

#[test]
fn popover_suggestions_capped() {
    let all: Vec<SelectorEntry> = (0..40).map(|i| entry(&format!("game {i}"), "", &format!("g{i}"))).collect();
    let s = popover_suggestions(&all, "game", &[]);
    assert_eq!(s.len(), MAX_SUGGESTIONS);
    assert_eq!(s[29], (29, false));
}

#[test]
fn badges_read_back_below_one_hundred() {
    for m in [2u32, 8, 10, 99] {
        assert!(is_multiplier_badge(&multiplier_badge(m)), "{m}");
    }
    assert!(!is_multiplier_badge(&multiplier_badge(100)));
}

#[test]
fn add_with_given_lowered_names() {
    let mut t = strings(&["Game.exe"]);
    assert!(!add_lowered_target(&mut t, &strings(&["game.exe"]), "GAME.EXE".to_string(), "game.exe"));
    assert_eq!(t, strings(&["Game.exe"]));
    assert!(add_lowered_target(&mut t, &strings(&["game.exe"]), "mpv".to_string(), "mpv"));
    assert_eq!(t, strings(&["Game.exe", "mpv"]));
}

#[test]
fn suggestions_from_lowered_candidates() {
    let lowered = vec![
        ("vulkan cube".to_string(), "vkcube".to_string(), "/usr/bin/vkcube".to_string()),
        ("media".to_string(), "mpv".to_string(), "/usr/bin/mpv".to_string()),
        ("other".to_string(), "other.exe".to_string(), "steam: /games/cube".to_string()),
    ];
    assert_eq!(suggest_from_lowered(&lowered, "cube", &strings(&["vkcube"])), vec![(0, true), (2, false)]);
    assert_eq!(suggest_from_lowered(&lowered, "CUBE", &[]), vec![]);
}
