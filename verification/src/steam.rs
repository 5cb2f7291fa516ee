//! Steam: its key-value manifests, which installed apps are games, a game's main
//! executables, its library folders, and where Proton lives.
use vstd::prelude::*;
use crate::paths::{join_str, join2_str, path_join, path_join2, path_key, same_path};
use crate::text::opt_chars;
use crate::text::{
    back_out, back_out_exec, chars_eq, chars_of, contains, contains_exec, ends_with,
    ends_with_exec, eq_ignore_ascii_case, eq_ignore_ascii_case_exec, lines, lines_exec,
    lowercase, slice_of, split_once, split_once_exec, starts_with, starts_with_exec, string_of,
    strings_view, text, to_lowercase, trim, trim_exec, trim_set, trim_set_exec, CharSet,
};

verus! {

/// The key and value of one line of an ACF/VDF file, when it has them: the line
/// (trimmed) starts with a quote and has a tab; the key is the part before the
/// first tab and the value the rest (trimmed), each without surrounding quotes.
pub open spec fn acf_line(line: Seq<char>) -> Option<(Seq<char>, Seq<char>)> {
    let t = trim(line);
    if starts_with(t, "\""@) {
        match split_once(t, CharSet::One('\t')) {
            Some((a, b)) => Some(
                (trim_set(a, CharSet::One('"')), trim_set(trim(b), CharSet::One('"'))),
            ),
            None => None,
        }
    } else {
        None
    }
}

/// The key-value pairs of the lines `ls`, in order.
pub open spec fn acf_pairs(ls: Seq<Seq<char>>) -> Seq<(Seq<char>, Seq<char>)>
    decreases ls.len(),
{
    if ls.len() == 0 {
        seq![]
    } else {
        let prev = acf_pairs(ls.drop_last());
        match acf_line(ls.last()) {
            Some(kv) => prev.push(kv),
            None => prev,
        }
    }
}

/// The value of `key` among `pairs`: the last one given.
pub open spec fn acf_value(pairs: Seq<(Seq<char>, Seq<char>)>, key: Seq<char>) -> Option<Seq<char>>
    decreases pairs.len(),
{
    if pairs.len() == 0 {
        None
    } else if pairs.last().0 == key {
        Some(pairs.last().1)
    } else {
        acf_value(pairs.drop_last(), key)
    }
}

fn acf_line_exec(line: &Vec<char>) -> (r: Option<(Vec<char>, Vec<char>)>)
    ensures
        match r {
            Some((k, v)) => acf_line(line@) == Some((k@, v@)),
            None => acf_line(line@) is None,
        },
{
    let t = trim_exec(line);
    if !starts_with_exec(&t, &text("\"")) {
        return None;
    }
    match split_once_exec(&t, &CharSet::One('\t')) {
        Some((a, b)) => {
            let k = trim_set_exec(&a, &CharSet::One('"'));
            let v = trim_set_exec(&trim_exec(&b), &CharSet::One('"'));
            Some((k, v))
        },
        None => None,
    }
}

/// The key-value pairs of an ACF/VDF file (one level deep), in file order.
pub fn parse_acf(content: &str) -> (r: Vec<(String, String)>)
    ensures
        r@.map_values(|p: (String, String)| (p.0@, p.1@)) == acf_pairs(lines(content@)),
{
    let ls = lines_exec(&chars_of(content));
    let ghost lv = ls.deep_view();
    let mut out: Vec<(String, String)> = Vec::new();
    let n = ls.len();
    let mut i: usize = 0;
    assert(out@.map_values(|p: (String, String)| (p.0@, p.1@)) =~= acf_pairs(lv.take(0)));
    while i < n
        invariant
            n == lv.len(),
            lv == ls.deep_view(),
            lv == lines(content@),
            i <= n,
            out@.map_values(|p: (String, String)| (p.0@, p.1@)) == acf_pairs(lv.take(i as int)),
        decreases n - i,
    {
        assert(lv.take(i + 1).drop_last() =~= lv.take(i as int));
        assert(lv.take(i + 1).last() == ls[i as int]@);
        if let Some((k, v)) = acf_line_exec(&ls[i]) {
            let ghost before = out@.map_values(|p: (String, String)| (p.0@, p.1@));
            let pair = (string_of(&k), string_of(&v));
            out.push(pair);
            assert(out@.map_values(|p: (String, String)| (p.0@, p.1@)) =~= before.push((k@, v@)));
        }
        i = i + 1;
    }
    assert(lv.take(n as int) =~= lv);
    out
}

/// The value of `key` among the pairs of an ACF/VDF file: the last one given.
pub fn acf_get(pairs: &Vec<(String, String)>, key: &str) -> (r: Option<String>)
    ensures
        opt_chars(r) == acf_value(pairs@.map_values(|p: (String, String)| (p.0@, p.1@)), key@),
{
    let ghost pv = pairs@.map_values(|p: (String, String)| (p.0@, p.1@));
    let k = chars_of(key);
    let mut i = pairs.len();
    assert(pv.take(i as int) =~= pv);
    while i > 0
        invariant
            i <= pairs@.len(),
            pv == pairs@.map_values(|p: (String, String)| (p.0@, p.1@)),
            k@ == key@,
            acf_value(pv.take(i as int), key@) == acf_value(pv, key@),
        decreases i,
    {
        assert(pv.take(i as int).drop_last() =~= pv.take(i - 1));
        assert(pv.take(i as int).last() == pv[i - 1]);
        if chars_eq(&chars_of(pairs[i - 1].0.as_str()), &k) {
            return Some(pairs[i - 1].1.clone());
        }
        i = i - 1;
    }
    assert(pv.take(0) =~= Seq::<(Seq<char>, Seq<char>)>::empty());
    None
}

/// A Steam app that is a runtime, Proton, a redistributable or a tool rather than
/// a game, by its lower-cased name `l`.
pub open spec fn is_excluded_lowered(l: Seq<char>) -> bool {
    ||| contains(l, "proton"@)
    ||| contains(l, "steam linux runtime"@)
    ||| contains(l, "steamworks common redistributable"@)
    ||| contains(l, "eac runtime"@)
    ||| contains(l, "battleye runtime"@)
    ||| starts_with(l, "steam "@)
}

/// A Steam app that is a runtime, Proton, a redistributable or a tool rather than
/// a game (by its name, lower-cased).
pub open spec fn is_excluded_app(name: Seq<char>) -> bool {
    is_excluded_lowered(lowercase(name))
}

/// Whether a Steam app whose lower-cased name is `lowered` is excluded.
pub fn is_lowered_app_excluded(lowered: &str) -> (r: bool)
    ensures
        r == is_excluded_lowered(lowered@),
{
    let l = chars_of(lowered);
    contains_exec(&l, &text("proton")) || contains_exec(&l, &text("steam linux runtime"))
        || contains_exec(&l, &text("steamworks common redistributable")) || contains_exec(
        &l,
        &text("eac runtime"),
    ) || contains_exec(&l, &text("battleye runtime")) || starts_with_exec(&l, &text("steam "))
}

/// Check if a Steam app name should be excluded (runtimes, Proton,
/// redistributables, etc.).
pub fn is_steam_app_excluded(name: &str) -> (r: bool)
    ensures
        r == is_excluded_app(name@),
{
    let l = string_of(&to_lowercase(&chars_of(name)));
    is_lowered_app_excluded(l.as_str())
}

/// A file name of a Steam app manifest: `appmanifest_*.acf`.
pub fn is_app_manifest_name(filename: &str) -> (r: bool)
    ensures
        r == (starts_with(filename@, "appmanifest_"@) && ends_with(filename@, ".acf"@)),
{
    let f = chars_of(filename);
    starts_with_exec(&f, &text("appmanifest_")) && ends_with_exec(&f, &text(".acf"))
}

/// What a Steam app manifest names: its id, name and install folder.
pub struct SteamManifest {
    pub appid: String,
    pub name: String,
    pub install_dir: String,
}

/// The game a manifest stands for, given the app ids already met (`seen`): none
/// when its id, name or install folder is missing or empty, when its id was met
/// before, or when it is excluded. An id is met whenever all three are present.
pub open spec fn manifest_game(pairs: Seq<(Seq<char>, Seq<char>)>, seen: Seq<Seq<char>>) -> Option<(Seq<char>, Seq<char>, Seq<char>)> {
    let appid = match acf_value(pairs, "appid"@) { Some(v) => v, None => seq![] };
    let name = match acf_value(pairs, "name"@) { Some(v) => v, None => seq![] };
    let dir = match acf_value(pairs, "installdir"@) { Some(v) => v, None => seq![] };
    if appid.len() == 0 || name.len() == 0 || dir.len() == 0 || seen.contains(appid) || is_excluded_app(name) {
        None
    } else {
        Some((appid, name, dir))
    }
}

/// Whether a manifest's id gets recorded as met.
pub open spec fn manifest_records(pairs: Seq<(Seq<char>, Seq<char>)>, seen: Seq<Seq<char>>) -> bool {
    let appid = match acf_value(pairs, "appid"@) { Some(v) => v, None => seq![] };
    let name = match acf_value(pairs, "name"@) { Some(v) => v, None => seq![] };
    let dir = match acf_value(pairs, "installdir"@) { Some(v) => v, None => seq![] };
    appid.len() > 0 && name.len() > 0 && dir.len() > 0 && !seen.contains(appid)
}

fn value_or_empty(pairs: &Vec<(String, String)>, key: &str) -> (r: String)
    ensures
        r@ == match acf_value(pairs@.map_values(|p: (String, String)| (p.0@, p.1@)), key@) {
            Some(v) => v,
            None => seq![],
        },
{
    match acf_get(pairs, key) {
        Some(v) => v,
        None => String::new(),
    }
}

/// Read an app manifest's text: the game it stands for, if any (see
/// `manifest_game`), recording its id in `seen_appids` when the id is new.
pub fn accept_app_manifest(seen_appids: &mut Vec<String>, content: &str) -> (r: Option<SteamManifest>)
    ensures
        ({
            let pairs = acf_pairs(lines(content@));
            let seen = strings_view(old(seen_appids)@);
            &&& match r {
                Some(m) => manifest_game(pairs, seen) == Some((m.appid@, m.name@, m.install_dir@)),
                None => manifest_game(pairs, seen) is None,
            }
            &&& strings_view(final(seen_appids)@) == if manifest_records(pairs, seen) {
                seen.push(match acf_value(pairs, "appid"@) { Some(v) => v, None => seq![] })
            } else {
                seen
            }
        }),
{
    let pairs = parse_acf(content);
    let appid = value_or_empty(&pairs, "appid");
    let name = value_or_empty(&pairs, "name");
    let install_dir = value_or_empty(&pairs, "installdir");
    if appid.as_str().is_empty() || name.as_str().is_empty() || install_dir.as_str().is_empty() {
        return None;
    }
    if crate::text::strings_contain(seen_appids.as_slice(), &chars_of(appid.as_str())) {
        return None;
    }
    let ghost before = strings_view(seen_appids@);
    seen_appids.push(appid.clone());
    assert(strings_view(seen_appids@) =~= before.push(appid@));
    if is_steam_app_excluded(name.as_str()) {
        return None;
    }
    Some(SteamManifest { appid, name, install_dir })
}

/// A file name with the extension `exe` (any case): the part after its last dot,
/// when that dot is not its first character.
pub open spec fn has_exe_extension(name: Seq<char>) -> bool {
    let k = back_out(name, CharSet::One('.'), name.len() as int);
    k > 1 && eq_ignore_ascii_case(name.skip(k), "exe"@)
}

/// Whether a file name has the extension `exe` (any case).
pub fn is_exe_file_name(name: &str) -> (r: bool)
    ensures
        r == has_exe_extension(name@),
{
    let v = chars_of(name);
    let k = back_out_exec(&v, &CharSet::One('.'));
    if k <= 1 {
        return false;
    }
    let ext = slice_of(&v, k, v.len());
    assert(ext@ =~= v@.skip(k as int));
    eq_ignore_ascii_case_exec(&ext, &text("exe"))
}

/// An executable that is part of a game rather than a helper (crash handler,
/// uninstaller, redistributable, installer, diagnostics), by its lower-cased name.
pub open spec fn is_main_exe(lower: Seq<char>) -> bool {
    &&& !contains(lower, "crash"@)
    &&& !contains(lower, "uninstall"@)
    &&& !contains(lower, "redist"@)
    &&& !contains(lower, "setup"@)
    &&& lower != "createdump.exe"@
    &&& !contains(lower, "handler"@)
    &&& !contains(lower, "diag"@)
    &&& !contains(lower, "report"@)
}

/// A shipping build (by its lower-cased name).
pub open spec fn is_shipping_exe(lower: Seq<char>) -> bool {
    contains(lower, "shipping"@) || contains(lower, "win64"@)
}

/// The items of `v` that are main executables, in order.
pub open spec fn main_exes(v: Seq<Seq<char>>) -> Seq<Seq<char>>
    decreases v.len(),
{
    if v.len() == 0 {
        v
    } else if is_main_exe(lowercase(v.last())) {
        main_exes(v.drop_last()).push(v.last())
    } else {
        main_exes(v.drop_last())
    }
}

/// The items of `v` that are shipping builds, in order.
pub open spec fn shipping_exes(v: Seq<Seq<char>>) -> Seq<Seq<char>>
    decreases v.len(),
{
    if v.len() == 0 {
        v
    } else if is_shipping_exe(lowercase(v.last())) {
        shipping_exes(v.drop_last()).push(v.last())
    } else {
        shipping_exes(v.drop_last())
    }
}

/// A game's main executables among the `.exe` files found in its folder: the
/// shipping builds among the main executables when there are any, else all main
/// executables.
pub open spec fn game_exes(found: Seq<Seq<char>>) -> Seq<Seq<char>> {
    let main = main_exes(found);
    let shipping = shipping_exes(main);
    if shipping.len() > 0 {
        shipping
    } else {
        main
    }
}

proof fn lemma_main_exes_kept(v: Seq<Seq<char>>)
    ensures
        forall|k: int| 0 <= k < main_exes(v).len() ==> v.contains(#[trigger] main_exes(v)[k])
            && is_main_exe(lowercase(main_exes(v)[k])),
    decreases v.len(),
{
    if v.len() > 0 {
        lemma_main_exes_kept(v.drop_last());
        let prev = main_exes(v.drop_last());
        assert forall|k: int| 0 <= k < main_exes(v).len() implies v.contains(#[trigger] main_exes(v)[k])
            && is_main_exe(lowercase(main_exes(v)[k])) by {
            if k < prev.len() {
                assert(main_exes(v)[k] == prev[k]);
                let m = choose|m: int| 0 <= m < v.drop_last().len() && v.drop_last()[m] == prev[k];
                assert(v[m] == prev[k]);
            } else {
                assert(main_exes(v)[k] == v.last());
                assert(v[v.len() - 1] == v.last());
            }
        }
    }
}

proof fn lemma_shipping_exes_kept(v: Seq<Seq<char>>)
    ensures
        forall|k: int| 0 <= k < shipping_exes(v).len() ==> v.contains(#[trigger] shipping_exes(v)[k]),
    decreases v.len(),
{
    if v.len() > 0 {
        lemma_shipping_exes_kept(v.drop_last());
        let prev = shipping_exes(v.drop_last());
        assert forall|k: int| 0 <= k < shipping_exes(v).len() implies v.contains(#[trigger] shipping_exes(v)[k]) by {
            if k < prev.len() {
                assert(shipping_exes(v)[k] == prev[k]);
                let m = choose|m: int| 0 <= m < v.drop_last().len() && v.drop_last()[m] == prev[k];
                assert(v[m] == prev[k]);
            } else {
                assert(shipping_exes(v)[k] == v.last());
                assert(v[v.len() - 1] == v.last());
            }
        }
    }
}

/// Each executable chosen as a game's main one is one of those found, and no
/// helper: its lower-cased name holds none of "crash", "uninstall", "redist",
/// "setup", "handler", "diag" and "report", and is not "createdump.exe".
pub proof fn lemma_game_exes_exclude_helpers(found: Seq<Seq<char>>)
    ensures
        forall|k: int| 0 <= k < game_exes(found).len() ==> {
            let x = #[trigger] game_exes(found)[k];
            let lower = lowercase(x);
            &&& found.contains(x)
            &&& !contains(lower, "crash"@)
            &&& !contains(lower, "uninstall"@)
            &&& !contains(lower, "redist"@)
            &&& !contains(lower, "setup"@)
            &&& !contains(lower, "handler"@)
            &&& !contains(lower, "diag"@)
            &&& !contains(lower, "report"@)
            &&& lower != "createdump.exe"@
        },
{
    let main = main_exes(found);
    lemma_main_exes_kept(found);
    lemma_shipping_exes_kept(main);
    assert forall|k: int| 0 <= k < game_exes(found).len() implies found.contains(#[trigger] game_exes(found)[k])
        && is_main_exe(lowercase(game_exes(found)[k])) by {
        let x = game_exes(found)[k];
        if shipping_exes(main).len() > 0 {
            assert(main.contains(shipping_exes(main)[k]));
            let m = choose|m: int| 0 <= m < main.len() && main[m] == x;
            assert(main[m] == x);
        } else {
            assert(main[k] == x);
        }
    }
}

/// The names among `names` that have the extension `exe`, in order.
pub open spec fn exe_names(names: Seq<Seq<char>>) -> Seq<Seq<char>>
    decreases names.len(),
{
    if names.len() == 0 {
        seq![]
    } else if has_exe_extension(names.last()) {
        exe_names(names.drop_last()).push(names.last())
    } else {
        exe_names(names.drop_last())
    }
}

fn filter_exe_names(names: &[String]) -> (r: Vec<String>)
    ensures
        strings_view(r@) == exe_names(strings_view(names@)),
{
    let ghost nv = strings_view(names@);
    let mut out: Vec<String> = Vec::new();
    let n = names.len();
    let mut i: usize = 0;
    while i < n
        invariant
            n == names@.len(),
            nv == strings_view(names@),
            i <= n,
            strings_view(out@) == exe_names(nv.take(i as int)),
        decreases n - i,
    {
        assert(nv.take(i + 1).drop_last() =~= nv.take(i as int));
        assert(nv.take(i + 1).last() == names@[i as int]@);
        if is_exe_file_name(names[i].as_str()) {
            let ghost before = strings_view(out@);
            out.push(names[i].clone());
            assert(strings_view(out@) =~= before.push(names@[i as int]@));
        }
        i = i + 1;
    }
    assert(nv.take(n as int) =~= nv);
    out
}

/// Whether a game's folder has to be searched below its top: none of the names
/// at its top (`top`) is an `.exe` file.
pub fn needs_deeper_search(top: &[String]) -> (r: bool)
    ensures
        r == (exe_names(strings_view(top@)).len() == 0),
{
    filter_exe_names(top).len() == 0
}

/// A game's main executables, from the names at the top of its folder (`top`)
/// and those found one and two levels below it (`deeper`, looked at only when the
/// top has no `.exe` file).
pub open spec fn game_folder_exes(top: Seq<Seq<char>>, deeper: Seq<Seq<char>>) -> Seq<Seq<char>> {
    game_exes(if exe_names(top).len() > 0 { exe_names(top) } else { exe_names(deeper) })
}

/// A game's main executables, from the names at the top of its folder and, when
/// it has no `.exe` file there, the names found one and two levels below it.
pub fn find_game_exes(top: &[String], deeper: &[String]) -> (r: Vec<String>)
    ensures
        strings_view(r@) == game_folder_exes(strings_view(top@), strings_view(deeper@)),
{
    let at_top = filter_exe_names(top);
    if at_top.len() > 0 {
        select_game_exes(at_top)
    } else {
        select_game_exes(filter_exe_names(deeper))
    }
}

/// The main executables among the `.exe` files found in a game's folder.
pub fn select_game_exes(found: Vec<String>) -> (r: Vec<String>)
    ensures
        strings_view(r@) == game_exes(strings_view(found@)),
{
    let ghost fv = strings_view(found@);
    let mut main: Vec<String> = Vec::new();
    let n = found.len();
    let mut i: usize = 0;
    while i < n
        invariant
            n == found@.len(),
            fv == strings_view(found@),
            i <= n,
            strings_view(main@) == main_exes(fv.take(i as int)),
        decreases n - i,
    {
        assert(fv.take(i + 1).drop_last() =~= fv.take(i as int));
        assert(fv.take(i + 1).last() == found@[i as int]@);
        let l = to_lowercase(&chars_of(found[i].as_str()));
        let helper = contains_exec(&l, &text("crash")) || contains_exec(&l, &text("uninstall"))
            || contains_exec(&l, &text("redist")) || contains_exec(&l, &text("setup")) || chars_eq(
            &l,
            &text("createdump.exe"),
        ) || contains_exec(&l, &text("handler")) || contains_exec(&l, &text("diag"))
            || contains_exec(&l, &text("report"));
        if !helper {
            let ghost before = strings_view(main@);
            main.push(found[i].clone());
            assert(strings_view(main@) =~= before.push(found@[i as int]@));
        }
        i = i + 1;
    }
    assert(fv.take(n as int) =~= fv);
    let ghost mv = strings_view(main@);
    let mut shipping: Vec<String> = Vec::new();
    let m = main.len();
    let mut k: usize = 0;
    while k < m
        invariant
            m == main@.len(),
            mv == strings_view(main@),
            k <= m,
            strings_view(shipping@) == shipping_exes(mv.take(k as int)),
        decreases m - k,
    {
        assert(mv.take(k + 1).drop_last() =~= mv.take(k as int));
        assert(mv.take(k + 1).last() == main@[k as int]@);
        let l = to_lowercase(&chars_of(main[k].as_str()));
        if contains_exec(&l, &text("shipping")) || contains_exec(&l, &text("win64")) {
            let ghost before = strings_view(shipping@);
            shipping.push(main[k].clone());
            assert(strings_view(shipping@) =~= before.push(main@[k as int]@));
        }
        k = k + 1;
    }
    assert(mv.take(m as int) =~= mv);
    if shipping.len() > 0 {
        shipping
    } else {
        main
    }
}

/// The library folder that one line of `libraryfolders.vdf` names, when it is a
/// `"path"` line with a tab: its value (trimmed, quotes removed) joined with
/// `steamapps`.
pub open spec fn library_line(line: Seq<char>) -> Option<Seq<char>> {
    let t = trim(line);
    if contains(t, "\"path\""@) {
        match split_once(t, CharSet::One('\t')) {
            Some((_, b)) => Some(path_join(trim_set(trim(b), CharSet::One('"')), "steamapps"@)),
            None => None,
        }
    } else {
        None
    }
}

/// The library folders that the lines `ls` name, in order.
pub open spec fn library_lines(ls: Seq<Seq<char>>) -> Seq<Seq<char>>
    decreases ls.len(),
{
    if ls.len() == 0 {
        seq![]
    } else {
        let prev = library_lines(ls.drop_last());
        match library_line(ls.last()) {
            Some(p) => prev.push(p),
            None => prev,
        }
    }
}

/// The `steamapps` folders that the text of `libraryfolders.vdf` names, in order
/// (whether they exist is for the caller to check).
pub fn library_folder_candidates(content: &str) -> (r: Vec<String>)
    ensures
        strings_view(r@) == library_lines(lines(content@)),
{
    let ls = lines_exec(&chars_of(content));
    let ghost lv = ls.deep_view();
    let mut out: Vec<String> = Vec::new();
    let n = ls.len();
    let mut i: usize = 0;
    assert(strings_view(out@) =~= library_lines(lv.take(0)));
    while i < n
        invariant
            n == lv.len(),
            lv == ls.deep_view(),
            lv == lines(content@),
            i <= n,
            strings_view(out@) == library_lines(lv.take(i as int)),
        decreases n - i,
    {
        assert(lv.take(i + 1).drop_last() =~= lv.take(i as int));
        assert(lv.take(i + 1).last() == ls[i as int]@);
        let t = trim_exec(&ls[i]);
        if contains_exec(&t, &text("\"path\"")) {
            if let Some((_, b)) = split_once_exec(&t, &CharSet::One('\t')) {
                let v = string_of(&trim_set_exec(&trim_exec(&b), &CharSet::One('"')));
                let p = join_str(v.as_str(), "steamapps");
                let ghost before = strings_view(out@);
                out.push(p);
                assert(strings_view(out@) =~= before.push(p@));
            }
        }
        i = i + 1;
    }
    assert(lv.take(n as int) =~= lv);
    out
}

/// Some item of `v` is the same path as `p`, compared component by component.
pub open spec fn has_path(v: Seq<Seq<char>>, p: Seq<char>) -> bool {
    exists|i: int| 0 <= i < v.len() && #[trigger] path_key(v[i]) == path_key(p)
}

/// `v` with each item dropped that is the same path as an earlier item kept.
pub open spec fn first_occurrences(v: Seq<Seq<char>>) -> Seq<Seq<char>>
    decreases v.len(),
{
    if v.len() == 0 {
        v
    } else {
        let prev = first_occurrences(v.drop_last());
        if has_path(prev, v.last()) {
            prev
        } else {
            prev.push(v.last())
        }
    }
}

fn holds_path(v: &Vec<String>, p: &str) -> (r: bool)
    ensures
        r == has_path(strings_view(v@), p@),
{
    let n = v.len();
    let mut i: usize = 0;
    while i < n
        invariant
            n == v@.len(),
            i <= n,
            forall|k: int| 0 <= k < i ==> path_key(#[trigger] strings_view(v@)[k]) != path_key(p@),
        decreases n - i,
    {
        assert(strings_view(v@)[i as int] == v@[i as int]@);
        if same_path(v[i].as_str(), p) {
            return true;
        }
        i = i + 1;
    }
    false
}

/// The Steam library folders to scan: the existing folders that
/// `libraryfolders.vdf` names, each once (as paths), in order; or `steam_dir/steamapps` when
/// there are none.
pub fn steam_library_paths(steam_dir: &str, existing: &Vec<String>) -> (r: Vec<String>)
    ensures
        strings_view(r@) == (if first_occurrences(strings_view(existing@)).len() > 0 {
            first_occurrences(strings_view(existing@))
        } else {
            seq![path_join(steam_dir@, "steamapps"@)]
        }),
{
    let ghost ev = strings_view(existing@);
    let mut out: Vec<String> = Vec::new();
    let n = existing.len();
    let mut i: usize = 0;
    while i < n
        invariant
            n == existing@.len(),
            ev == strings_view(existing@),
            i <= n,
            strings_view(out@) == first_occurrences(ev.take(i as int)),
        decreases n - i,
    {
        assert(ev.take(i + 1).drop_last() =~= ev.take(i as int));
        assert(ev.take(i + 1).last() == existing@[i as int]@);
        if !holds_path(&out, existing[i].as_str()) {
            let ghost before = strings_view(out@);
            out.push(existing[i].clone());
            assert(strings_view(out@) =~= before.push(existing@[i as int]@));
        }
        i = i + 1;
    }
    assert(ev.take(n as int) =~= ev);
    if out.len() == 0 {
        let mut fallback: Vec<String> = Vec::new();
        fallback.push(join_str(steam_dir, "steamapps"));
        assert(strings_view(fallback@) =~= seq![path_join(steam_dir@, "steamapps"@)]);
        fallback
    } else {
        out
    }
}

/// Where Steam may be installed under the home directory, in the order tried.
pub fn steam_dir_candidates(home: &str) -> (r: Vec<String>)
    ensures
        strings_view(r@) == seq![
            path_join2(home@, ".steam"@, "steam"@),
            path_join(path_join2(home@, ".local"@, "share"@), "Steam"@),
        ],
{
    let mut out: Vec<String> = Vec::new();
    out.push(join2_str(home, ".steam", "steam"));
    let share = join2_str(home, ".local", "share");
    out.push(join_str(share.as_str(), "Steam"));
    assert(strings_view(out@) =~= seq![
        path_join2(home@, ".steam"@, "steam"@),
        path_join(path_join2(home@, ".local"@, "share"@), "Steam"@),
    ]);
    out
}

/// The folders under a Steam installation where Proton versions live.
pub fn proton_search_roots(steam_dir: &str) -> (r: Vec<String>)
    ensures
        strings_view(r@) == seq![
            path_join(steam_dir@, "compatibilitytools.d"@),
            path_join2(steam_dir@, "steamapps"@, "common"@),
        ],
{
    let mut out: Vec<String> = Vec::new();
    out.push(join_str(steam_dir, "compatibilitytools.d"));
    out.push(join2_str(steam_dir, "steamapps", "common"));
    assert(strings_view(out@) =~= seq![
        path_join(steam_dir@, "compatibilitytools.d"@),
        path_join2(steam_dir@, "steamapps"@, "common"@),
    ]);
    out
}

/// Whether a folder name is that of a Proton version.
pub fn is_proton_dir_name(name: &str) -> (r: bool)
    ensures
        r == contains(name@, "Proton"@),
{
    contains_exec(&chars_of(name), &text("Proton"))
}

} // verus!
