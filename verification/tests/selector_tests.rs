use lsfg_vk_gui::catalog::{exec_basename, parse_desktop_entry, DesktopApp, SteamGame};
use lsfg_vk_gui::entries::{build_selector_entries, EntrySource};
use lsfg_vk_gui::process::ProcessInfo;

use lsfg_vk_gui::entries::build_selector_entries_keyed;

fn proc_info(pid: u32, comm: &str, exe: Option<&str>, wine_exe: Option<&str>) -> ProcessInfo {
    ProcessInfo {
        pid,
        comm: comm.to_string(),
        exe: exe.map(|s| s.to_string()),
        cmdline: vec![],
        wine_exe: wine_exe.map(|s| s.to_string()),
    }
}

fn app(name: &str, exec: Option<&str>, icon: Option<&str>, categories: &[&str], filename: &str) -> DesktopApp {
    DesktopApp {
        name: name.to_string(),
        exec_line: exec.map(|s| s.to_string()),
        icon: icon.map(|s| s.to_string()),
        categories: categories.iter().map(|s| s.to_string()).collect(),
        filename: filename.to_string(),
        try_exec: None,
    }
}

fn game(name: &str, path: &str, exes: &[&str]) -> SteamGame {
    SteamGame {
        appid: "1".to_string(),
        name: name.to_string(),
        install_dir: name.to_string(),
        install_path: path.to_string(),
        exes: exes.iter().map(|s| s.to_string()).collect(),
    }
}

#[test]
fn exec_basename_of_exec_lines() {
    assert_eq!(exec_basename("/usr/bin/vkcube --flag"), Some("vkcube".to_string()));
    assert_eq!(exec_basename("  env  "), Some("env".to_string()));
    assert_eq!(exec_basename(""), None);
    assert_eq!(exec_basename("   "), None);
    assert_eq!(exec_basename("/"), None);
    assert_eq!(exec_basename("/opt/game/"), Some("game".to_string()));
}

#[test]
fn desktop_entry_parsed() {
    let content = "[Desktop Entry]\nName=Cube\nExec=/usr/bin/vkcube %f --x %U\nIcon=cube\nCategories=Game;Graphics;;\nTryExec=vkcube\n[Desktop Action new]\nName=Other\n";
    let a = parse_desktop_entry(content, "cube.desktop").expect("an app");
    assert_eq!(a.name, "Cube");
    assert_eq!(a.exec_line, Some("/usr/bin/vkcube --x".to_string()));
    assert_eq!(a.icon, Some("cube".to_string()));
    assert_eq!(a.categories, vec!["Game".to_string(), "Graphics".to_string()]);
    assert_eq!(a.try_exec, Some("vkcube".to_string()));
    assert_eq!(a.filename, "cube.desktop");
}

#[test]
fn desktop_entry_hidden_terminal_or_nameless() {
    assert!(parse_desktop_entry("[Desktop Entry]\nName=A\nNoDisplay=true\n", "a.desktop").is_none());
    assert!(parse_desktop_entry("[Desktop Entry]\nName=A\nHidden=true\n", "a.desktop").is_none());
    assert!(parse_desktop_entry("[Desktop Entry]\nName=A\nTerminal=true\n", "a.desktop").is_none());
    assert!(parse_desktop_entry("[Desktop Entry]\nExec=a\n", "a.desktop").is_none());
    assert!(parse_desktop_entry("Name=A\n", "a.desktop").is_none());
}

#[test]
fn desktop_entry_later_keys_win() {
    let a = parse_desktop_entry("  [Desktop Entry]  \n Name=First \nName=Second\n", "x.desktop").expect("an app");
    assert_eq!(a.name, "Second");
    assert!(a.exec_line.is_none());
    assert!(a.categories.is_empty());
}

#[test]
fn selector_running_first_then_apps_then_games() {
    let procs = vec![
        proc_info(1, "vkcube", Some("/usr/bin/vkcube"), None),
        proc_info(2, "wine64-preload", Some("/usr/bin/wine64"), Some("Game.exe")),
        proc_info(3, "mpv", None, None),
    ];
    let apps = vec![
        app("Vulkan Cube", Some("/usr/bin/VKCUBE --x"), Some("cube-icon"), &["Graphics"], "cube.desktop"),
        app("Heroic", Some("heroic %u"), None, &[], "com.heroic.desktop"),
        app("Editor", Some("gedit"), None, &["Utility"], "gedit.desktop"),
        app("Chess", Some("/usr/games/chess"), Some("chess"), &["Game"], "chess.desktop"),
    ];
    let games = vec![game("Big Game", "/lib/common/Big", &["Big-Win64-Shipping.exe", "game.exe"])];
    let added = vec!["mpv".to_string(), "chess".to_string()];
    let e = build_selector_entries(&procs, &apps, &games, &added);
    assert_eq!(e.len(), 6);

    assert_eq!(e[0].label, "Vulkan Cube");
    assert_eq!(e[0].executable, "vkcube");
    assert_eq!(e[0].sublabel, "/usr/bin/vkcube");
    assert_eq!(e[0].icon_name, Some("cube-icon".to_string()));
    assert!(e[0].is_running);
    assert_eq!(e[0].source, EntrySource::RunningProcess);

    assert_eq!(e[1].label, "Game.exe");
    assert_eq!(e[1].executable, "Game.exe");
    assert_eq!(e[1].sublabel, "Proton/Wine: /usr/bin/wine64");

    assert_eq!(e[2].executable, "mpv");
    assert_eq!(e[2].sublabel, "Already in profile");

    assert_eq!(e[3].label, "Heroic");
    assert_eq!(e[3].executable, "heroic");
    assert_eq!(e[3].sublabel, "Installed (com.heroic)");
    assert!(!e[3].is_running);
    assert_eq!(e[3].source, EntrySource::DesktopApp);

    assert_eq!(e[4].label, "Chess");
    assert_eq!(e[4].sublabel, "Already in profile");

    assert_eq!(e[5].label, "Big Game (Big-Win64-Shipping.exe)");
    assert_eq!(e[5].sublabel, "Steam: /lib/common/Big");
    assert_eq!(e[5].icon_name, Some("applications-games-symbolic".to_string()));
    assert_eq!(e[5].source, EntrySource::SteamGame);
}

#[test]
fn selector_skips_wrappers_self_and_duplicates() {
    let procs = vec![
        proc_info(1, "wineserver", Some("/usr/bin/wineserver"), None),
        proc_info(2, "lsfg-vk-gui", Some("/usr/bin/lsfg-vk-gui"), None),
        proc_info(3, "game", Some("/opt/Game"), None),
        proc_info(4, "GAME", Some("/other/game"), None),
        proc_info(5, "steam", None, Some("steam.exe")),
    ];
    let e = build_selector_entries(&procs, &[], &[], &[]);
    assert_eq!(e.len(), 2);
    assert_eq!(e[0].executable, "Game");
    assert_eq!(e[0].sublabel, "/opt/Game");
    assert_eq!(e[1].executable, "steam.exe");
    assert_eq!(e[1].sublabel, "Proton/Wine: (unknown)");
}

#[test]
fn selector_unknown_path_and_game_duplicates() {
    let procs = vec![proc_info(7, "tool", None, None)];
    let games = vec![
        game("A", "/a", &["Tool", "a.exe"]),
        game("B", "/b", &["A.EXE"]),
    ];
    let e = build_selector_entries(&procs, &[], &games, &[]);
    assert_eq!(e.len(), 2);
    assert_eq!(e[0].sublabel, "(unknown path)");
    assert_eq!(e[1].executable, "a.exe");
}

#[test]
fn keyed_selector_uses_given_keys() {
    let procs = vec![
        proc_info(1, "game", Some("/opt/Game"), None),
        proc_info(2, "game2", Some("/other/game"), None),
    ];
    let keys = vec![("Game".to_string(), "game".to_string()), ("game".to_string(), "game".to_string())];
    let e = build_selector_entries_keyed(&procs, &[], &[], &[], &keys);
    assert_eq!(e.len(), 1);
    assert_eq!(e[0].executable, "Game");
    let no_keys = build_selector_entries_keyed(&procs, &[], &[], &[], &[]);
    assert_eq!(no_keys.len(), 2);
}

#[test]
fn already_added_changes_only_sublabels() {
    let procs = vec![proc_info(1, "vkcube", Some("/usr/bin/vkcube"), None)];
    let apps = vec![app("Chess", Some("/usr/games/chess"), Some("chess"), &["Game"], "chess.desktop")];
    let games = vec![game("Big", "/g", &["big.exe"])];
    let plain = build_selector_entries(&procs, &apps, &games, &[]);
    let added = build_selector_entries(&procs, &apps, &games, &["vkcube".to_string(), "chess".to_string(), "big.exe".to_string()]);
    assert_eq!(plain.len(), added.len());
    for (a, b) in plain.iter().zip(added.iter()) {
        assert_eq!(a.label, b.label);
        assert_eq!(a.executable, b.executable);
        assert_eq!(a.is_running, b.is_running);
        assert_eq!(a.icon_name, b.icon_name);
        assert_eq!(a.source, b.source);
        assert_eq!(b.sublabel, "Already in profile");
        assert_ne!(a.sublabel, b.sublabel);
    }
}
