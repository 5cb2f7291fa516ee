use lsfg_vk_gui::steam::{
    accept_app_manifest, acf_get, is_app_manifest_name, is_exe_file_name, is_proton_dir_name,
    is_steam_app_excluded, library_folder_candidates, parse_acf, proton_search_roots,
    select_game_exes, steam_dir_candidates, steam_library_paths,
};

use lsfg_vk_gui::steam::{find_game_exes, is_lowered_app_excluded, needs_deeper_search};

fn strings(v: &[&str]) -> Vec<String> {
    v.iter().map(|s| s.to_string()).collect()
}

const MANIFEST: &str = "\"AppState\"\n{\n\t\"appid\"\t\t\"570\"\n\t\"name\"\t\t\"Dota 2\"\n\t\"installdir\"\t\t\"dota 2 beta\"\n\t\"StateFlags\"\t\t\"4\"\n}\n";

#[test]
fn acf_pairs_in_order() {
    let pairs = parse_acf(MANIFEST);
    assert_eq!(
        pairs,
        vec![
            ("appid".to_string(), "570".to_string()),
            ("name".to_string(), "Dota 2".to_string()),
            ("installdir".to_string(), "dota 2 beta".to_string()),
            ("StateFlags".to_string(), "4".to_string()),
        ]
    );
    assert_eq!(acf_get(&pairs, "name"), Some("Dota 2".to_string()));
    assert_eq!(acf_get(&pairs, "missing"), None);
}

#[test]
fn acf_later_value_wins() {
    let pairs = parse_acf("\"k\"\t\"1\"\n\"k\"\t\"2\"\nnot a pair\n\"nokey\"\n");
    assert_eq!(acf_get(&pairs, "k"), Some("2".to_string()));
    assert_eq!(pairs.len(), 2);
}

#[test]
fn excluded_steam_apps() {
    assert!(is_steam_app_excluded("Proton Experimental"));
    assert!(is_steam_app_excluded("Steam Linux Runtime 3.0 (sniper)"));
    assert!(is_steam_app_excluded("Steamworks Common Redistributables"));
    assert!(is_steam_app_excluded("Proton EasyAntiCheat Runtime"));
    assert!(is_steam_app_excluded("BattlEye Runtime"));
    assert!(is_steam_app_excluded("Steam Controller Configs"));
    assert!(!is_steam_app_excluded("Dota 2"));
    assert!(!is_steam_app_excluded("Steamworld Dig"));
}

#[test]
fn app_manifest_file_names() {
    assert!(is_app_manifest_name("appmanifest_570.acf"));
    assert!(!is_app_manifest_name("libraryfolders.vdf"));
    assert!(!is_app_manifest_name("appmanifest_570.acf.bak"));
}

#[test]
fn manifest_accepted_once() {
    let mut seen = Vec::new();
    let m = accept_app_manifest(&mut seen, MANIFEST).expect("a game");
    assert_eq!(m.appid, "570");
    assert_eq!(m.name, "Dota 2");
    assert_eq!(m.install_dir, "dota 2 beta");
    assert_eq!(seen, strings(&["570"]));
    assert!(accept_app_manifest(&mut seen, MANIFEST).is_none());
    assert_eq!(seen, strings(&["570"]));
}

#[test]
fn manifest_of_excluded_app_records_its_id() {
    let mut seen = Vec::new();
    let text = "\"appid\"\t\"1493710\"\n\"name\"\t\"Proton Experimental\"\n\"installdir\"\t\"Proton - Experimental\"\n";
    assert!(accept_app_manifest(&mut seen, text).is_none());
    assert_eq!(seen, strings(&["1493710"]));
}

#[test]
fn manifest_missing_fields() {
    let mut seen = Vec::new();
    assert!(accept_app_manifest(&mut seen, "\"appid\"\t\"1\"\n\"name\"\t\"X\"\n").is_none());
    assert!(accept_app_manifest(&mut seen, "\"appid\"\t\"\"\n\"name\"\t\"X\"\n\"installdir\"\t\"x\"\n").is_none());
    assert!(seen.is_empty());
}

#[test]
fn exe_file_names() {
    assert!(is_exe_file_name("Game.exe"));
    assert!(is_exe_file_name("GAME.EXE"));
    assert!(!is_exe_file_name(".exe"));
    assert!(!is_exe_file_name("game.exe.txt"));
    assert!(!is_exe_file_name("exe"));
}

#[test]
fn game_exes_prefer_shipping_builds() {
    let found = strings(&["Launcher.exe", "Game-Win64-Shipping.exe", "CrashReportClient.exe", "UnityCrashHandler64.exe", "Game.exe"]);
    assert_eq!(select_game_exes(found), strings(&["Game-Win64-Shipping.exe"]));
}

#[test]
fn game_exes_without_shipping_builds() {
    let found = strings(&["Game.exe", "setup.exe", "createdump.exe", "Tool.exe", "unins000.exe"]);
    assert_eq!(select_game_exes(found), strings(&["Game.exe", "Tool.exe", "unins000.exe"]));
    assert!(select_game_exes(strings(&["redist.exe", "DiagTool.exe"])).is_empty());
    assert!(select_game_exes(vec![]).is_empty());
}

#[test]
fn library_folders_from_vdf() {
    let vdf = "\"libraryfolders\"\n{\n\t\"0\"\n\t{\n\t\t\"path\"\t\t\"/home/u/.local/share/Steam\"\n\t\t\"apps\"\n\t\t{\n\t\t\t\"570\"\t\t\"123\"\n\t\t}\n\t}\n\t\"1\"\n\t{\n\t\t\"path\"\t\t\"/mnt/games/SteamLibrary\"\n\t}\n}\n";
    assert_eq!(
        library_folder_candidates(vdf),
        strings(&["/home/u/.local/share/Steam/steamapps", "/mnt/games/SteamLibrary/steamapps"])
    );
}

#[test]
fn library_paths_dedup_or_fallback() {
    let existing = strings(&["/a/steamapps", "/b/steamapps", "/a/steamapps"]);
    assert_eq!(steam_library_paths("/s", &existing), strings(&["/a/steamapps", "/b/steamapps"]));
    assert_eq!(steam_library_paths("/s", &vec![]), strings(&["/s/steamapps"]));
}

#[test]
fn steam_and_proton_locations() {
    assert_eq!(
        steam_dir_candidates("/home/u"),
        strings(&["/home/u/.steam/steam", "/home/u/.local/share/Steam"])
    );
    assert_eq!(
        proton_search_roots("/home/u/.steam/steam"),
        strings(&["/home/u/.steam/steam/compatibilitytools.d", "/home/u/.steam/steam/steamapps/common"])
    );
    assert!(is_proton_dir_name("GE-Proton10-34"));
    assert!(is_proton_dir_name("Proton - Experimental"));
    assert!(!is_proton_dir_name("proton-ge"));
}

#[test]
fn library_paths_compared_as_paths() {
    let existing = strings(&["/a//b/steamapps", "/a/b/steamapps/", "/a/./b/steamapps", "/c/steamapps"]);
    assert_eq!(steam_library_paths("/s", &existing), strings(&["/a//b/steamapps", "/c/steamapps"]));
}

#[test]
fn excluded_by_lowered_name() {
    assert!(is_lowered_app_excluded("proton 9.0"));
    assert!(is_lowered_app_excluded("steam linux runtime 3.0 (sniper)"));
    assert!(is_lowered_app_excluded("steam controller configs"));
    assert!(!is_lowered_app_excluded("Proton 9.0"));
    assert!(!is_lowered_app_excluded("dota 2"));
}

#[test]
fn game_exes_from_top_or_deeper() {
    assert!(!needs_deeper_search(&strings(&["Game.exe", "data"])));
    assert!(needs_deeper_search(&strings(&["data", "readme.txt"])));
    assert_eq!(
        find_game_exes(&strings(&["Game.exe", "data", "setup.exe"]), &strings(&["Other.exe"])),
        strings(&["Game.exe"])
    );
    assert_eq!(
        find_game_exes(&strings(&["Binaries", "readme.txt"]), &strings(&["Win64", "Big-Win64-Shipping.exe", "CrashReportClient.exe", "Tool.exe"])),
        strings(&["Big-Win64-Shipping.exe"])
    );
    assert!(find_game_exes(&strings(&["readme.txt"]), &strings(&[])).is_empty());
}
