use lsfg_vk_gui::config::{
    check_loaded_config, config_path_from, default_active_in, default_config, default_flow_scale, default_multiplier,
    default_name, default_pacing, default_true, find_config_path, parse_gpu_names, validate_config,
    ActiveIn, ActiveInItem, Config, FlowScale, GameConf, GlobalConf, LoadError, ProfileError,
    CONFIG_VERSION,
};

fn scale(x: f32) -> FlowScale {
    FlowScale { bits: x.to_bits() }
}

fn profile(name: &str, multiplier: u32, flow: f32, pacing: &str) -> GameConf {
    let mut p = GameConf::default();
    p.name = name.to_string();
    p.multiplier = multiplier;
    p.flow_scale = scale(flow);
    p.pacing = pacing.to_string();
    p
}

#[test]
fn defaults_of_missing_fields() {
    assert!(default_true());
    assert_eq!(default_name(), "Profile");
    assert_eq!(default_multiplier(), 2);
    assert_eq!(default_pacing(), "none");
    assert_eq!(default_flow_scale(), scale(1.0));
    match default_active_in() {
        ActiveIn::Many(items) => assert!(items.is_empty()),
        _ => panic!("default targets should be an empty list"),
    }
}

#[test]
fn default_profile_fields() {
    let p = GameConf::default();
    assert_eq!(p.name, "Profile");
    assert_eq!(p.multiplier, 2);
    assert_eq!(p.flow_scale, scale(1.0));
    assert_eq!(p.pacing, "none");
    assert!(p.gpu.is_none());
    assert!(p.target_fps.is_none());
    assert!(!p.performance_mode);
    assert!(p.active_in_list().is_empty());
    assert!(p.validate().is_ok());
}

#[test]
fn default_global_table() {
    let g = GlobalConf::default();
    assert!(g.dll.is_none());
    assert!(!g.allow_fp16);
}

#[test]
fn flow_scale_range_by_bits() {
    assert!(scale(0.25).is_in_range());
    assert!(scale(1.0).is_in_range());
    assert!(scale(0.85).is_in_range());
    assert!(!scale(0.2).is_in_range());
    assert!(!scale(1.5).is_in_range());
    assert!(!scale(-0.5).is_in_range());
    assert!(!scale(f32::NAN).is_in_range());
}

#[test]
fn active_in_list_of_each_shape() {
    let mut p = GameConf::default();
    p.active_in = ActiveIn::Single("mpv".to_string());
    assert_eq!(p.active_in_list(), vec!["mpv".to_string()]);
    p.active_in = ActiveIn::Many(vec![
        ActiveInItem::Text("a".to_string()),
        ActiveInItem::Other("1".to_string()),
        ActiveInItem::Text("b".to_string()),
    ]);
    assert_eq!(p.active_in_list(), vec!["a".to_string(), "b".to_string()]);
    p.active_in = ActiveIn::Other("{ x = 1 }".to_string());
    assert!(p.active_in_list().is_empty());
}

#[test]
fn set_active_in_one_name_is_a_string() {
    let mut p = GameConf::default();
    p.set_active_in(vec!["vkcube".to_string()]);
    assert!(matches!(&p.active_in, ActiveIn::Single(s) if s == "vkcube"));
    assert_eq!(p.active_in_list(), vec!["vkcube".to_string()]);
}

#[test]
fn set_active_in_round_trips() {
    let mut p = GameConf::default();
    let list = vec!["a.exe".to_string(), "b".to_string(), "a.exe".to_string()];
    p.set_active_in(list.clone());
    assert!(matches!(&p.active_in, ActiveIn::Many(items) if items.len() == 3));
    assert_eq!(p.active_in_list(), list);
    p.set_active_in(vec![]);
    assert!(matches!(&p.active_in, ActiveIn::Many(items) if items.is_empty()));
    assert!(p.active_in_list().is_empty());
}

#[test]
fn validate_multiplier_too_low() {
    let p = profile("Low", 1, 1.0, "none");
    match p.validate() {
        Err(ProfileError::MultiplierTooLow { name, got }) => {
            assert_eq!(name, "Low");
            assert_eq!(got, 1);
        },
        _ => panic!("expected a low multiplier"),
    }
}

#[test]
fn validate_multiplier_too_high() {
    let p = profile("High", 9, 1.0, "none");
    assert!(matches!(p.validate(), Err(ProfileError::MultiplierTooHigh { got: 9, .. })));
    assert!(profile("Top", 8, 1.0, "none").validate().is_ok());
}

#[test]
fn validate_flow_scale_out_of_range() {
    let p = profile("Flow", 4, 0.2, "none");
    match p.validate() {
        Err(ProfileError::FlowScaleOutOfRange { name, scale: s }) => {
            assert_eq!(name, "Flow");
            assert_eq!(s, scale(0.2));
        },
        _ => panic!("expected a flow scale error"),
    }
    assert!(profile("Edge", 4, 0.25, "none").validate().is_ok());
}

#[test]
fn validate_unknown_pacing() {
    let p = profile("Pace", 3, 0.5, "fast");
    match p.validate() {
        Err(ProfileError::UnknownPacing { name, pacing }) => {
            assert_eq!(name, "Pace");
            assert_eq!(pacing, "fast");
        },
        _ => panic!("expected a pacing error"),
    }
}

#[test]
fn validate_reports_the_first_rule_broken() {
    let p = profile("Many", 0, 2.0, "x");
    assert!(matches!(p.validate(), Err(ProfileError::MultiplierTooLow { got: 0, .. })));
    let q = profile("Two", 12, 2.0, "x");
    assert!(matches!(q.validate(), Err(ProfileError::MultiplierTooHigh { got: 12, .. })));
}

#[test]
fn validate_config_collects_errors_in_order() {
    let config = Config {
        version: 2,
        global: GlobalConf::default(),
        profiles: vec![
            profile("A", 1, 1.0, "none"),
            profile("B", 2, 1.0, "none"),
            profile("C", 2, 1.0, "weird"),
        ],
    };
    match validate_config(&config) {
        Err(errors) => {
            assert_eq!(errors.len(), 2);
            assert!(matches!(&errors[0], ProfileError::MultiplierTooLow { name, .. } if name == "A"));
            assert!(matches!(&errors[1], ProfileError::UnknownPacing { name, .. } if name == "C"));
        },
        Ok(()) => panic!("expected errors"),
    }
}

#[test]
fn default_config_contents() {
    let c = default_config();
    assert_eq!(c.version, CONFIG_VERSION);
    assert_eq!(c.version, 2);
    assert!(c.global.dll.is_none());
    assert!(c.global.allow_fp16);
    assert_eq!(c.profiles.len(), 1);
    let p = &c.profiles[0];
    assert_eq!(p.name, "4x FG / 85% [Performance]");
    assert_eq!(p.active_in_list(), vec!["vkcube".to_string(), "vkcubepp".to_string()]);
    assert_eq!(p.multiplier, 4);
    assert_eq!(p.flow_scale, scale(0.85));
    assert!(p.performance_mode);
    assert_eq!(p.pacing, "none");
    assert!(p.gpu.is_none());
    assert!(p.target_fps.is_none());
}

#[test]
fn default_config_is_valid() {
    assert!(validate_config(&default_config()).is_ok());
}

#[test]
fn unsupported_config_version() {
    let mut c = default_config();
    c.version = 3;
    match check_loaded_config(c) {
        Err(e) => {
            assert!(matches!(e, LoadError::UnsupportedVersion(3)));
            assert_eq!(e.message(), "Unsupported config version: 3 (expected 2)");
        },
        Ok(_) => panic!("version 3 should be refused"),
    }
    assert_eq!(LoadError::UnsupportedVersion(10).message(), "Unsupported config version: 10 (expected 2)");
}

#[test]
fn supported_config_version_passes_through() {
    let c = default_config();
    let back = check_loaded_config(c).ok().expect("version 2 is accepted");
    assert_eq!(back.profiles.len(), 1);
    assert_eq!(back.profiles[0].name, "4x FG / 85% [Performance]");
}

#[test]
fn config_path_prefers_lsfgvk_config() {
    let p = find_config_path(Some("/x/c.toml".to_string()), Some("/home/u/.cfg".to_string()));
    assert_eq!(p, "/x/c.toml");
}

#[test]
fn config_path_from_xdg_config_home() {
    let p = find_config_path(Some(String::new()), Some("/home/u/.cfg".to_string()));
    assert_eq!(p, "/home/u/.cfg/lsfg-vk/conf.toml");
    let q = find_config_path(None, Some("/c/".to_string()));
    assert_eq!(q, "/c/lsfg-vk/conf.toml");
}

#[test]
fn config_path_falls_back_to_config_dir() {
    let p = find_config_path(None, Some(String::new()));
    assert!(p.ends_with("/lsfg-vk/conf.toml"));
}

#[test]
fn gpu_names_from_vulkaninfo_summary() {
    let summary = "Devices:\n========\nGPU0:\n\tdeviceName         = AMD Radeon RX 7900 XTX\nGPU1:\n\tdeviceName = \"Intel(R) Graphics\"\nGPU2:\n\tdeviceName = AMD Radeon RX 7900 XTX\n\tdeviceName =\n\tdeviceName\n";
    let names = parse_gpu_names(summary);
    assert_eq!(
        names,
        vec!["Default".to_string(), "AMD Radeon RX 7900 XTX".to_string(), "Intel(R) Graphics".to_string()]
    );
}

#[test]
fn gpu_names_without_devices() {
    assert_eq!(parse_gpu_names(""), vec!["Default".to_string()]);
    assert_eq!(parse_gpu_names("nothing here\n"), vec!["Default".to_string()]);
}

#[test]
fn gpu_name_takes_second_field_only() {
    let names = parse_gpu_names("deviceName = A = B\n");
    assert_eq!(names, vec!["Default".to_string(), "A".to_string()]);
}

#[test]
fn profile_error_messages() {
    let low = profile("Low", 1, 1.0, "none").validate().err().expect("an error");
    assert_eq!(low.message(""), "Profile 'Low': multiplier must be >= 2 (got 1)");
    let high = profile("High", 12, 1.0, "none").validate().err().expect("an error");
    assert_eq!(high.message("x"), "Profile 'High': multiplier must be <= 8 (got 12)");
    let flow = profile("Flow", 4, 1.5, "none").validate().err().expect("an error");
    assert_eq!(flow.message("1.50"), "Profile 'Flow': flow_scale must be 0.25-1.0 (got 1.50)");
    let pace = profile("Pace", 4, 1.0, "fast").validate().err().expect("an error");
    assert_eq!(pace.message(""), "Profile 'Pace': unknown pacing 'fast'");
}

#[test]
fn config_path_under_config_folder_or_tmp() {
    assert_eq!(config_path_from(None, None, Some("/home/u/.config".to_string())), "/home/u/.config/lsfg-vk/conf.toml");
    assert_eq!(config_path_from(Some(String::new()), Some(String::new()), None), "/tmp/lsfg-vk/conf.toml");
    assert_eq!(config_path_from(None, Some("/x".to_string()), Some("/c".to_string())), "/x/lsfg-vk/conf.toml");
    assert_eq!(config_path_from(Some("/p.toml".to_string()), None, None), "/p.toml");
}
