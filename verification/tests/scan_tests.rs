use lsfg_vk_gui::catalog::{DesktopApp, SteamGame};
use lsfg_vk_gui::process::ProcessInfo;
use lsfg_vk_gui::scan::{finish_desktop_scan, finish_process_scan, sort_steam_games};
use lsfg_vk_gui::sort::{lex_le_exec, sort_keyed};
use lsfg_vk_gui::text::chars_of;

fn proc_info(pid: u32, comm: &str, wine_exe: Option<&str>) -> ProcessInfo {
    ProcessInfo {
        pid,
        comm: comm.to_string(),
        exe: None,
        cmdline: vec![],
        wine_exe: wine_exe.map(|s| s.to_string()),
    }
}

fn app(name: &str, filename: &str) -> DesktopApp {
    DesktopApp {
        name: name.to_string(),
        exec_line: None,
        icon: None,
        categories: vec![],
        filename: filename.to_string(),
        try_exec: None,
    }
}

fn game(appid: &str, name: &str) -> SteamGame {
    SteamGame {
        appid: appid.to_string(),
        name: name.to_string(),
        install_dir: String::new(),
        install_path: String::new(),
        exes: vec![],
    }
}

#[test]
fn text_order_is_by_code_point() {
    let a = chars_of("abc");
    let b = chars_of("abd");
    let up = chars_of("Z");
    let prefix = chars_of("ab");
    assert!(lex_le_exec(&a, &b));
    assert!(!lex_le_exec(&b, &a));
    assert!(lex_le_exec(&up, &a));
    assert!(lex_le_exec(&prefix, &a));
    assert!(!lex_le_exec(&a, &prefix));
    assert!(lex_le_exec(&a, &a));
}

#[test]
fn sort_keyed_is_stable() {
    let items = vec![
        (chars_of("b"), 1),
        (chars_of("a"), 2),
        (chars_of("b"), 3),
        (chars_of("a"), 4),
        (chars_of(""), 5),
    ];
    let sorted: Vec<i32> = sort_keyed(items).into_iter().map(|x| x.1).collect();
    assert_eq!(sorted, vec![5, 2, 4, 1, 3]);
}

#[test]
fn process_scan_sorts_and_drops_repeats() {
    let procs = vec![
        proc_info(1, "zsh", None),
        proc_info(2, "Bash", None),
        proc_info(3, "bash", None),
        proc_info(4, "wine64", Some("Game.exe")),
        proc_info(5, "wineserver", Some("GAME.EXE")),
        proc_info(6, "alpha", None),
    ];
    let out: Vec<u32> = finish_process_scan(procs).iter().map(|p| p.pid).collect();
    assert_eq!(out, vec![6, 2, 4, 1]);
}

#[test]
fn process_scan_keeps_unrelated_neighbours() {
    let procs = vec![proc_info(1, "a", Some("x.exe")), proc_info(2, "b", None), proc_info(3, "c", Some("X.EXE"))];
    let out: Vec<u32> = finish_process_scan(procs).iter().map(|p| p.pid).collect();
    assert_eq!(out, vec![1, 2, 3]);
    assert!(finish_process_scan(vec![]).is_empty());
}

#[test]
fn desktop_scan_keeps_first_name_and_sorts() {
    let apps = vec![
        app("Zed", "zed.desktop"),
        app("alpha", "a1.desktop"),
        app("Zed", "zed2.desktop"),
        app("Beta", "b.desktop"),
        app("ALPHA", "a2.desktop"),
    ];
    let out: Vec<String> = finish_desktop_scan(apps).into_iter().map(|a| a.filename).collect();
    assert_eq!(out, vec!["a1.desktop", "a2.desktop", "b.desktop", "zed.desktop"]);
}

#[test]
fn steam_games_sorted_by_lowercase_name() {
    let games = vec![game("1", "beta"), game("2", "Alpha"), game("3", "alpha"), game("4", "Gamma")];
    let out: Vec<String> = sort_steam_games(games).into_iter().map(|g| g.appid).collect();
    assert_eq!(out, vec!["2", "3", "1", "4"]);
}
