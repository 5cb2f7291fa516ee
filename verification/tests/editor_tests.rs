use lsfg_vk_gui::config::{default_config, validate_config, Config, FlowScale, GlobalConf};
use lsfg_vk_gui::editor::{AppState, ProfileEdit};

fn empty_config() -> Config {
    Config { version: 2, global: GlobalConf::default(), profiles: vec![] }
}

#[test]
fn new_state_selects_first_profile() {
    let s = AppState::new(default_config());
    assert_eq!(s.selected_profile, Some(0));
    assert!(!s.dirty);
    assert!(!s.needs_close_confirmation());
    assert_eq!(s.title(), "lsfg-vk Configuration");
    let e = AppState::new(empty_config());
    assert_eq!(e.selected_profile, None);
}

#[test]
fn add_profile_names_and_selects_it() {
    let mut s = AppState::new(default_config());
    let i = s.add_profile();
    assert_eq!(i, 1);
    assert_eq!(s.config.profiles.len(), 2);
    assert_eq!(s.config.profiles[1].name, "New Profile 2");
    assert_eq!(s.config.profiles[1].multiplier, 2);
    assert_eq!(s.selected_profile, Some(1));
    assert!(s.dirty);
    assert!(s.needs_close_confirmation());
    assert_eq!(s.title(), "* lsfg-vk Configuration");
    assert!(validate_config(&s.config).is_ok());
}

#[test]
fn duplicate_selected_profile() {
    let mut s = AppState::new(default_config());
    assert_eq!(s.duplicate_selected(), Some(1));
    assert_eq!(s.config.profiles[1].name, "4x FG / 85% [Performance] (copy)");
    assert_eq!(s.config.profiles[1].multiplier, 4);
    assert_eq!(s.config.profiles[1].active_in_list(), s.config.profiles[0].active_in_list());
    assert_eq!(s.selected_profile, Some(1));
    assert!(validate_config(&s.config).is_ok());
    let mut e = AppState::new(empty_config());
    assert_eq!(e.duplicate_selected(), None);
    assert!(!e.dirty);
}

#[test]
fn delete_selected_profile() {
    let mut s = AppState::new(default_config());
    s.add_profile();
    s.select(0);
    s.delete_selected();
    assert_eq!(s.config.profiles.len(), 1);
    assert_eq!(s.config.profiles[0].name, "New Profile 2");
    assert_eq!(s.selected_profile, Some(0));
    s.delete_selected();
    assert!(s.config.profiles.is_empty());
    assert_eq!(s.selected_profile, None);
    assert!(s.dirty);
}

#[test]
fn delete_with_stale_selection_changes_nothing() {
    let mut s = AppState::new(default_config());
    s.select(5);
    s.delete_selected();
    assert_eq!(s.config.profiles.len(), 1);
    assert!(!s.dirty);
    assert_eq!(s.selected_profile, Some(0));
}

#[test]
fn set_targets_of_selected_profile() {
    let mut s = AppState::new(default_config());
    s.set_selected_targets(vec!["game.exe".to_string()]);
    assert_eq!(s.config.profiles[0].active_in_list(), vec!["game.exe".to_string()]);
    assert!(s.dirty);
}

#[test]
fn apply_profile_edit_stores_values() {
    let mut s = AppState::new(default_config());
    let edit = ProfileEdit {
        name: "Renamed".to_string(),
        multiplier: 3,
        flow_scale: FlowScale { bits: 0.5f32.to_bits() },
        performance_mode: false,
        target_fps: 0,
        gpu: Some("AMD".to_string()),
    };
    assert!(s.apply_profile_edit(edit));
    let p = &s.config.profiles[0];
    assert_eq!(p.name, "Renamed");
    assert_eq!(p.multiplier, 3);
    assert_eq!(p.flow_scale, FlowScale { bits: 0.5f32.to_bits() });
    assert!(!p.performance_mode);
    assert_eq!(p.target_fps, None);
    assert_eq!(p.gpu, Some("AMD".to_string()));
    assert_eq!(p.active_in_list(), vec!["vkcube".to_string(), "vkcubepp".to_string()]);
    let same = ProfileEdit {
        name: "Renamed".to_string(),
        multiplier: 3,
        flow_scale: FlowScale { bits: 0.5f32.to_bits() },
        performance_mode: true,
        target_fps: 144,
        gpu: None,
    };
    assert!(!s.apply_profile_edit(same));
    assert_eq!(s.config.profiles[0].target_fps, Some(144));
}

#[test]
fn global_settings_and_saving() {
    let mut s = AppState::new(default_config());
    s.set_dll_text("  ".to_string());
    assert!(s.config.global.dll.is_none());
    s.set_dll_text("/games/Lossless.dll".to_string());
    assert_eq!(s.config.global.dll, Some("/games/Lossless.dll".to_string()));
    s.set_allow_fp16(false);
    assert!(!s.config.global.allow_fp16);
    assert!(s.dirty);
    s.mark_saved();
    assert!(!s.dirty);
    assert_eq!(s.title(), "lsfg-vk Configuration");
}

#[test]
fn changes_stay_marked_until_saved() {
    let mut s = AppState::new(default_config());
    s.set_allow_fp16(false);
    assert!(s.dirty);
    s.select(0);
    s.delete_selected();
    s.select(3);
    assert!(s.dirty);
    assert!(s.needs_close_confirmation());
    s.mark_saved();
    assert!(!s.dirty);
    s.select(0);
    assert!(!s.dirty);
}
