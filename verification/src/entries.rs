//! The candidates that the executable selector offers: running processes first,
//! then installed games, then Steam games, with no executable offered twice.
use vstd::prelude::*;
use crate::catalog::{
    apps_view, exec_line_program, exec_basename_chars, games_view, DesktopApp, DesktopAppView,
    SteamGame, SteamGameView,
};
use crate::process::{
    exe_name, exe_name_exec, is_proton_wrapper_name, is_wrapper_name, processes_view,
    ProcessInfo, ProcessView,
};
use crate::text::{
    copy_opt, opt_chars, chars_eq, chars_of, concat, concat3, contains, contains_exec, eq_ignore_ascii_case,
    eq_ignore_ascii_case_exec, lemma_chars_deep_view, list_contains, lowercase, remove_all,
    remove_all_exec, string_of, strings_contain, strings_view, text, to_lowercase, trim, trim_exec,
};

verus! {

/// Where a selector entry comes from.
#[derive(Clone, Copy, PartialEq, Eq, Structural, Debug)]
pub enum EntrySource {
    RunningProcess,
    DesktopApp,
    SteamGame,
    Manual,
}

/// One candidate of the executable selector.
#[derive(Clone, Debug)]
pub struct SelectorEntry {
    /// Display name.
    pub label: String,
    /// Secondary information (executable path, or where it comes from).
    pub sublabel: String,
    /// What a profile's targets would hold for it.
    pub executable: String,
    pub is_running: bool,
    pub icon_name: Option<String>,
    pub source: EntrySource,
}

pub struct EntryView {
    pub label: Seq<char>,
    pub sublabel: Seq<char>,
    pub executable: Seq<char>,
    pub is_running: bool,
    pub icon_name: Option<Seq<char>>,
    pub source: EntrySource,
}

impl View for SelectorEntry {
    type V = EntryView;

    open spec fn view(&self) -> EntryView {
        EntryView {
            label: self.label@,
            sublabel: self.sublabel@,
            executable: self.executable@,
            is_running: self.is_running,
            icon_name: opt_chars(self.icon_name),
            source: self.source,
        }
    }
}

pub open spec fn entries_view(v: Seq<SelectorEntry>) -> Seq<EntryView> {
    v.map_values(|e: SelectorEntry| e@)
}

/// The entries gathered so far, and the lower-cased executables they offer.
pub struct Gathered {
    pub entries: Seq<EntryView>,
    pub seen: Seq<Seq<char>>,
}

/// The text shown for a candidate that a profile already targets.
pub open spec fn already_text() -> Seq<char> {
    "Already in profile"@
}

/// The executable a running process is offered as.
pub open spec fn running_display(p: ProcessView) -> Seq<char> {
    trim(exe_name(p))
}

/// A running process that is not offered: one with no name, this program itself,
/// or a Proton/Wine wrapper that has no Windows `.exe` of its own.
pub open spec fn running_skipped(p: ProcessView) -> bool {
    let d = running_display(p);
    ||| d.len() == 0
    ||| d == "lsfg-vk-gui"@
    ||| (is_wrapper_name(remove_all(d, ".exe"@)) && p.wine_exe is None && is_wrapper_name(p.comm))
}

/// Application `a` starts executable `d` (ASCII case ignored).
pub open spec fn app_runs(a: DesktopAppView, d: Seq<char>) -> bool {
    a.exec_line matches Some(e) && exec_line_program(e) matches Some(b) && eq_ignore_ascii_case(b, d)
}

/// The first application of `apps` that starts `d`.
pub open spec fn first_app(apps: Seq<DesktopAppView>, d: Seq<char>) -> Option<DesktopAppView>
    decreases apps.len(),
{
    if apps.len() == 0 {
        None
    } else if app_runs(apps[0], d) {
        Some(apps[0])
    } else {
        first_app(apps.drop_first(), d)
    }
}

/// The secondary text of a running process.
pub open spec fn running_sublabel(p: ProcessView, added: bool) -> Seq<char> {
    if added {
        already_text()
    } else if p.wine_exe is Some {
        "Proton/Wine: "@ + match p.exe {
            Some(e) => e,
            None => "(unknown)"@,
        }
    } else {
        match p.exe {
            Some(e) => e,
            None => "(unknown path)"@,
        }
    }
}

/// `g` with `e` offered.
pub open spec fn offer(g: Gathered, e: EntryView, low: spec_fn(Seq<char>) -> Seq<char>) -> Gathered {
    Gathered { entries: g.entries.push(e), seen: g.seen.push(low(e.executable)) }
}

/// One running process considered.
pub open spec fn add_process(
    g: Gathered,
    p: ProcessView,
    apps: Seq<DesktopAppView>,
    added: Seq<Seq<char>>,
    low: spec_fn(Seq<char>) -> Seq<char>,
) -> Gathered {
    let d = running_display(p);
    if running_skipped(p) || g.seen.contains(low(d)) {
        g
    } else {
        let app = first_app(apps, d);
        offer(
            g,
            EntryView {
                label: match app {
                    Some(a) => a.name,
                    None => d,
                },
                sublabel: running_sublabel(p, added.contains(d)),
                executable: d,
                is_running: true,
                icon_name: match app {
                    Some(a) => a.icon,
                    None => None,
                },
                source: EntrySource::RunningProcess,
            },
low,
)
    }
}

/// The running processes `ps` considered in order.
pub open spec fn add_processes(
    g: Gathered,
    ps: Seq<ProcessView>,
    apps: Seq<DesktopAppView>,
    added: Seq<Seq<char>>,
    low: spec_fn(Seq<char>) -> Seq<char>,
) -> Gathered
    decreases ps.len(),
{
    if ps.len() == 0 {
        g
    } else {
        add_process(add_processes(g, ps.drop_last(), apps, added, low), ps.last(), apps, added, low)
    }
}

/// An application that belongs in the list of games: in the `Game` category, or
/// installed by a game store or launcher.
pub open spec fn is_game_app(a: DesktopAppView) -> bool {
    ||| a.categories.contains("Game"@)
    ||| contains(a.filename, "steam"@)
    ||| contains(a.filename, "heroic"@)
    ||| contains(a.filename, "lutris"@)
    ||| contains(a.filename, "bottles"@)
    ||| contains(a.filename, "proton"@)
}

/// One installed application considered.
pub open spec fn add_app(g: Gathered, a: DesktopAppView, added: Seq<Seq<char>>, low: spec_fn(Seq<char>) -> Seq<char>) -> Gathered {
    match a.exec_line {
        None => g,
        Some(e) => match exec_line_program(e) {
            None => g,
            Some(x) => if g.seen.contains(low(x)) || !is_game_app(a) {
                g
            } else {
                offer(
                    g,
                    EntryView {
                        label: a.name,
                        sublabel: if added.contains(x) {
                            already_text()
                        } else {
                            "Installed ("@ + remove_all(a.filename, ".desktop"@) + ")"@
                        },
                        executable: x,
                        is_running: false,
                        icon_name: a.icon,
                        source: EntrySource::DesktopApp,
                    },
low,
)
            },
        },
    }
}

/// The installed applications `apps` considered in order.
pub open spec fn add_apps(g: Gathered, apps: Seq<DesktopAppView>, added: Seq<Seq<char>>, low: spec_fn(Seq<char>) -> Seq<char>) -> Gathered
    decreases apps.len(),
{
    if apps.len() == 0 {
        g
    } else {
        add_app(add_apps(g, apps.drop_last(), added, low), apps.last(), added, low)
    }
}

/// An application in the `Game` category, or whose file name shows a game store
/// or launcher ("steam", "heroic", "lutris", "bottles" or "proton"), that starts a
/// program `x` not offered yet is offered as one more candidate: its name as the
/// label, `x` as the executable, not running, its icon, from the installed
/// applications.
pub proof fn lemma_launcher_app_offered(
    g: Gathered,
    a: DesktopAppView,
    added: Seq<Seq<char>>,
    low: spec_fn(Seq<char>) -> Seq<char>,
    e: Seq<char>,
    x: Seq<char>,
)
    requires
        a.exec_line == Some(e),
        exec_line_program(e) == Some(x),
        !g.seen.contains(low(x)),
        a.categories.contains("Game"@) || contains(a.filename, "steam"@) || contains(
            a.filename,
            "heroic"@,
        ) || contains(a.filename, "lutris"@) || contains(a.filename, "bottles"@) || contains(
            a.filename,
            "proton"@,
        ),
    ensures
        ({
            let r = add_app(g, a, added, low).entries;
            &&& r.len() == g.entries.len() + 1
            &&& r.take(g.entries.len() as int) == g.entries
            &&& r.last().label == a.name
            &&& r.last().executable == x
            &&& !r.last().is_running
            &&& r.last().icon_name == a.icon
            &&& r.last().source == EntrySource::DesktopApp
        }),
{
    let r = add_app(g, a, added, low).entries;
    assert(r.take(g.entries.len() as int) =~= g.entries);
}

/// An application outside the `Game` category whose file name shows no game
/// store or launcher is not offered.
pub proof fn lemma_other_app_not_offered(
    g: Gathered,
    a: DesktopAppView,
    added: Seq<Seq<char>>,
    low: spec_fn(Seq<char>) -> Seq<char>,
)
    requires
        !a.categories.contains("Game"@),
        !contains(a.filename, "steam"@),
        !contains(a.filename, "heroic"@),
        !contains(a.filename, "lutris"@),
        !contains(a.filename, "bottles"@),
        !contains(a.filename, "proton"@),
    ensures
        add_app(g, a, added, low) == g,
{
}

/// With no running process and no Steam game, an application as in
/// `lemma_launcher_app_offered` is the one candidate offered.
pub proof fn lemma_single_launcher_app_listed(a: DesktopAppView, added: Seq<Seq<char>>, e: Seq<char>, x: Seq<char>)
    requires
        a.exec_line == Some(e),
        exec_line_program(e) == Some(x),
        a.categories.contains("Game"@) || contains(a.filename, "steam"@) || contains(
            a.filename,
            "heroic"@,
        ) || contains(a.filename, "lutris"@) || contains(a.filename, "bottles"@) || contains(
            a.filename,
            "proton"@,
        ),
    ensures
        ({
            let r = selector_entries(seq![], seq![a], seq![], added);
            &&& r.len() == 1
            &&& r[0].label == a.name
            &&& r[0].executable == x
            &&& !r[0].is_running
            &&& r[0].icon_name == a.icon
            &&& r[0].source == EntrySource::DesktopApp
        }),
{
    let low = lower_key();
    let empty = Gathered { entries: seq![], seen: seq![] };
    let ps: Seq<ProcessView> = seq![];
    let games: Seq<SteamGameView> = seq![];
    let apps = seq![a];
    assert(add_processes(empty, ps, apps, added, low) == empty);
    assert(apps.drop_last() =~= Seq::<DesktopAppView>::empty());
    assert(add_apps(empty, apps.drop_last(), added, low) == empty);
    assert(add_apps(empty, apps, added, low) == add_app(empty, a, added, low));
    lemma_launcher_app_offered(empty, a, added, low, e, x);
    let g = add_app(empty, a, added, low);
    assert(add_games(g, games, added, low) == g);
}

/// One executable `x` of Steam game `game` considered.
pub open spec fn add_game_exe(
    g: Gathered,
    game: SteamGameView,
    x: Seq<char>,
    added: Seq<Seq<char>>,
    low: spec_fn(Seq<char>) -> Seq<char>,
) -> Gathered {
    if g.seen.contains(low(x)) {
        g
    } else {
        offer(
            g,
            EntryView {
                label: game.name + " ("@ + x + ")"@,
                sublabel: if added.contains(x) {
                    already_text()
                } else {
                    "Steam: "@ + game.install_path
                },
                executable: x,
                is_running: false,
                icon_name: Some("applications-games-symbolic"@),
                source: EntrySource::SteamGame,
            },
low,
)
    }
}

/// The executables `xs` of Steam game `game` considered in order.
pub open spec fn add_game_exes(
    g: Gathered,
    game: SteamGameView,
    xs: Seq<Seq<char>>,
    added: Seq<Seq<char>>,
    low: spec_fn(Seq<char>) -> Seq<char>,
) -> Gathered
    decreases xs.len(),
{
    if xs.len() == 0 {
        g
    } else {
        add_game_exe(add_game_exes(g, game, xs.drop_last(), added, low), game, xs.last(), added, low)
    }
}

/// The Steam games `games` considered in order.
pub open spec fn add_games(g: Gathered, games: Seq<SteamGameView>, added: Seq<Seq<char>>, low: spec_fn(Seq<char>) -> Seq<char>) -> Gathered
    decreases games.len(),
{
    if games.len() == 0 {
        g
    } else {
        let last = games.last();
        add_game_exes(add_games(g, games.drop_last(), added, low), last, last.exes, added, low)
    }
}

/// The candidates for processes `ps`, applications `apps` and Steam games `games`,
/// where `added` are the names a profile already targets and executables are
/// compared by `low` of them.
pub open spec fn selector_entries_by(
    ps: Seq<ProcessView>,
    apps: Seq<DesktopAppView>,
    games: Seq<SteamGameView>,
    added: Seq<Seq<char>>,
    low: spec_fn(Seq<char>) -> Seq<char>,
) -> Seq<EntryView> {
    let empty = Gathered { entries: seq![], seen: seq![] };
    add_games(add_apps(add_processes(empty, ps, apps, added, low), apps, added, low), games, added, low).entries
}

/// Lower-casing, as a function value.
pub open spec fn lower_key() -> spec_fn(Seq<char>) -> Seq<char> {
    |s: Seq<char>| lowercase(s)
}

/// The candidates for processes `ps`, applications `apps` and Steam games `games`,
/// where `added` are the names a profile already targets; executables are
/// compared lower-cased.
pub open spec fn selector_entries(
    ps: Seq<ProcessView>,
    apps: Seq<DesktopAppView>,
    games: Seq<SteamGameView>,
    added: Seq<Seq<char>>,
) -> Seq<EntryView> {
    selector_entries_by(ps, apps, games, added, lower_key())
}

/// The entries gathered so far, held as values.
struct Gatherer {
    entries: Vec<SelectorEntry>,
    seen: Vec<Vec<char>>,
}

impl View for Gatherer {
    type V = Gathered;

    closed spec fn view(&self) -> Gathered {
        Gathered { entries: entries_view(self.entries@), seen: self.seen.deep_view() }
    }
}

impl Gatherer {
    fn offer(&mut self, e: SelectorEntry, key: Vec<char>, Ghost(low): Ghost<spec_fn(Seq<char>) -> Seq<char>>)
        requires
            key@ == low(e@.executable),
        ensures
            final(self)@ == offer(old(self)@, e@, low),
    {
        let ghost g = self@;
        let ghost ev = e@;
        proof {
            lemma_chars_deep_view(key);
        }
        self.entries.push(e);
        self.seen.push(key);
        assert(entries_view(self.entries@) =~= g.entries.push(ev));
        assert(self.seen.deep_view() =~= g.seen.push(low(ev.executable)));
    }
}

fn first_app_exec(apps: &[DesktopApp], d: &Vec<char>) -> (r: Option<usize>)
    ensures
        match r {
            Some(i) => i < apps@.len() && first_app(apps_view(apps@), d@) == Some(apps@[i as int]@),
            None => first_app(apps_view(apps@), d@) is None,
        },
{
    let ghost av = apps_view(apps@);
    let n = apps.len();
    let mut i: usize = 0;
    assert(av.skip(0) =~= av);
    while i < n
        invariant
            n == apps@.len(),
            av == apps_view(apps@),
            i <= n,
            first_app(av.skip(i as int), d@) == first_app(av, d@),
        decreases n - i,
    {
        assert(av.skip(i as int)[0] == apps@[i as int]@);
        assert(av.skip(i as int).drop_first() =~= av.skip(i + 1));
        if let Some(e) = &apps[i].exec_line {
            if let Some(b) = exec_basename_chars(&chars_of(e.as_str())) {
                if eq_ignore_ascii_case_exec(&b, d) {
                    return Some(i);
                }
            }
        }
        i = i + 1;
    }
    None
}

fn running_sublabel_exec(p: &ProcessInfo, added: bool) -> (r: Vec<char>)
    ensures
        r@ == running_sublabel(p@, added),
{
    if added {
        text("Already in profile")
    } else if p.wine_exe.is_some() {
        let path = match &p.exe {
            Some(e) => chars_of(e.as_str()),
            None => text("(unknown)"),
        };
        concat(&text("Proton/Wine: "), &path)
    } else {
        match &p.exe {
            Some(e) => chars_of(e.as_str()),
            None => text("(unknown path)"),
        }
    }
}

fn running_skipped_exec(p: &ProcessInfo, d: &Vec<char>) -> (r: bool)
    requires
        d@ == running_display(p@),
    ensures
        r == running_skipped(p@),
{
    if d.len() == 0 || chars_eq(d, &text("lsfg-vk-gui")) {
        return true;
    }
    let bare = string_of(&remove_all_exec(d, &text(".exe")));
    is_proton_wrapper_name(bare.as_str()) && p.wine_exe.is_none() && is_proton_wrapper_name(
        p.comm.as_str(),
    )
}

fn gather_process(
    g: &mut Gatherer,
    p: &ProcessInfo,
    apps: &[DesktopApp],
    already_added: &[String],
    keys: &[(String, String)],
)
    ensures
        final(g)@ == add_process(old(g)@, p@, apps_view(apps@), strings_view(already_added@), table_key(pairs_view(keys@))),
{
    let d = trim_exec(&exe_name_exec(p));
    if running_skipped_exec(p, &d) {
        return;
    }
    let low = key_of(keys, &d);
    if list_contains(&g.seen, &low) {
        return;
    }
    let app = first_app_exec(apps, &d);
    let label = match app {
        Some(i) => apps[i].name.clone(),
        None => string_of(&d),
    };
    let icon = match app {
        Some(i) => copy_opt(&apps[i].icon),
        None => None,
    };
    let is_added = strings_contain(already_added, &d);
    let e = SelectorEntry {
        label,
        sublabel: string_of(&running_sublabel_exec(p, is_added)),
        executable: string_of(&d),
        is_running: true,
        icon_name: icon,
        source: EntrySource::RunningProcess,
    };
    g.offer(e, low, Ghost(table_key(pairs_view(keys@))));
}

fn is_game_app_exec(a: &DesktopApp) -> (r: bool)
    ensures
        r == is_game_app(a@),
{
    let game = text("Game");
    if list_contains_str(&a.categories, &game) {
        return true;
    }
    let f = chars_of(a.filename.as_str());
    contains_exec(&f, &text("steam")) || contains_exec(&f, &text("heroic")) || contains_exec(
        &f,
        &text("lutris"),
    ) || contains_exec(&f, &text("bottles")) || contains_exec(&f, &text("proton"))
}

fn list_contains_str(list: &Vec<String>, x: &Vec<char>) -> (r: bool)
    ensures
        r == list.deep_view().contains(x@),
{
    let r = strings_contain(list.as_slice(), x);
    assert(strings_view(list@) =~= list.deep_view());
    r
}

fn gather_app(g: &mut Gatherer, a: &DesktopApp, already_added: &[String], keys: &[(String, String)])
    ensures
        final(g)@ == add_app(old(g)@, a@, strings_view(already_added@), table_key(pairs_view(keys@))),
{
    let e = match &a.exec_line {
        Some(e) => e,
        None => return,
    };
    let x = match exec_basename_chars(&chars_of(e.as_str())) {
        Some(x) => x,
        None => return,
    };
    let low = key_of(keys, &x);
    if list_contains(&g.seen, &low) {
        return;
    }
    if !is_game_app_exec(a) {
        return;
    }
    let is_added = strings_contain(already_added, &x);
    let sub = if is_added {
        text("Already in profile")
    } else {
        let stem = remove_all_exec(&chars_of(a.filename.as_str()), &text(".desktop"));
        concat3(&text("Installed ("), &stem, &text(")"))
    };
    let entry = SelectorEntry {
        label: a.name.clone(),
        sublabel: string_of(&sub),
        executable: string_of(&x),
        is_running: false,
        icon_name: copy_opt(&a.icon),
        source: EntrySource::DesktopApp,
    };
    g.offer(entry, low, Ghost(table_key(pairs_view(keys@))));
}

fn gather_game_exe(
    g: &mut Gatherer,
    game: &SteamGame,
    exe: &String,
    already_added: &[String],
    keys: &[(String, String)],
)
    ensures
        final(g)@ == add_game_exe(old(g)@, game@, exe@, strings_view(already_added@), table_key(pairs_view(keys@))),
{
    let x = chars_of(exe.as_str());
    let low = key_of(keys, &x);
    if list_contains(&g.seen, &low) {
        return;
    }
    let is_added = strings_contain(already_added, &x);
    let sub = if is_added {
        text("Already in profile")
    } else {
        concat(&text("Steam: "), &chars_of(game.install_path.as_str()))
    };
    let label = concat(&concat3(&chars_of(game.name.as_str()), &text(" ("), &x), &text(")"));
    let entry = SelectorEntry {
        label: string_of(&label),
        sublabel: string_of(&sub),
        executable: exe.clone(),
        is_running: false,
        icon_name: Some("applications-games-symbolic".to_owned()),
        source: EntrySource::SteamGame,
    };
    g.offer(entry, low, Ghost(table_key(pairs_view(keys@))));
}

/// Build the combined list of selector candidates, comparing executables by
/// their keys in `keys` (pairs of a text and its key; a text without a pair is its
/// own key): running processes first, then installed games, then the executables
/// of Steam games, each key offered once; `already_added` are the names the
/// profile already targets.
pub fn build_selector_entries_keyed(
    processes: &[ProcessInfo],
    desktop_apps: &[DesktopApp],
    steam_games: &[SteamGame],
    already_added: &[String],
    keys: &[(String, String)],
) -> (r: Vec<SelectorEntry>)
    ensures
        entries_view(r@) == selector_entries_by(
            processes_view(processes@),
            apps_view(desktop_apps@),
            games_view(steam_games@),
            strings_view(already_added@),
            table_key(pairs_view(keys@)),
        ),
{
    let ghost low = table_key(pairs_view(keys@));
    let ghost pv = processes_view(processes@);
    let ghost av = apps_view(desktop_apps@);
    let ghost gv = games_view(steam_games@);
    let ghost added = strings_view(already_added@);
    let ghost empty = Gathered { entries: seq![], seen: seq![] };
    let mut g = Gatherer { entries: Vec::new(), seen: Vec::new() };
    assert(g@.entries =~= empty.entries);
    assert(g@.seen =~= empty.seen);
    let n = processes.len();
    let mut i: usize = 0;
    assert(pv.take(0) =~= Seq::<ProcessView>::empty());
    while i < n
        invariant
            n == processes@.len(),
            pv == processes_view(processes@),
            av == apps_view(desktop_apps@),
            added == strings_view(already_added@),
            low == table_key(pairs_view(keys@)),
            i <= n,
            g@ == add_processes(empty, pv.take(i as int), av, added, low),
        decreases n - i,
    {
        assert(pv.take(i + 1).drop_last() =~= pv.take(i as int));
        assert(pv.take(i + 1).last() == processes@[i as int]@);
        gather_process(&mut g, &processes[i], desktop_apps, already_added, keys);
        i = i + 1;
    }
    assert(pv.take(n as int) =~= pv);
    let ghost after_ps = g@;
    let m = desktop_apps.len();
    let mut k: usize = 0;
    assert(av.take(0) =~= Seq::<DesktopAppView>::empty());
    while k < m
        invariant
            m == desktop_apps@.len(),
            av == apps_view(desktop_apps@),
            added == strings_view(already_added@),
            low == table_key(pairs_view(keys@)),
            k <= m,
            g@ == add_apps(after_ps, av.take(k as int), added, low),
        decreases m - k,
    {
        assert(av.take(k + 1).drop_last() =~= av.take(k as int));
        assert(av.take(k + 1).last() == desktop_apps@[k as int]@);
        gather_app(&mut g, &desktop_apps[k], already_added, keys);
        k = k + 1;
    }
    assert(av.take(m as int) =~= av);
    let ghost after_apps = g@;
    let q = steam_games.len();
    let mut t: usize = 0;
    assert(gv.take(0) =~= Seq::<SteamGameView>::empty());
    while t < q
        invariant
            q == steam_games@.len(),
            gv == games_view(steam_games@),
            added == strings_view(already_added@),
            low == table_key(pairs_view(keys@)),
            t <= q,
            g@ == add_games(after_apps, gv.take(t as int), added, low),
        decreases q - t,
    {
        assert(gv.take(t + 1).drop_last() =~= gv.take(t as int));
        assert(gv.take(t + 1).last() == steam_games@[t as int]@);
        let game = &steam_games[t];
        let ghost before = g@;
        let ghost xs = game.exes.deep_view();
        let xn = game.exes.len();
        let mut x: usize = 0;
        assert(xs.take(0) =~= Seq::<Seq<char>>::empty());
        while x < xn
            invariant
                xn == game.exes@.len(),
                xs == game.exes.deep_view(),
                added == strings_view(already_added@),
                low == table_key(pairs_view(keys@)),
                x <= xn,
                g@ == add_game_exes(before, game@, xs.take(x as int), added, low),
            decreases xn - x,
        {
            assert(xs.take(x + 1).drop_last() =~= xs.take(x as int));
            assert(xs.take(x + 1).last() == game.exes@[x as int]@);
            gather_game_exe(&mut g, game, &game.exes[x], already_added, keys);
            x = x + 1;
        }
        assert(xs.take(xn as int) =~= xs);
        t = t + 1;
    }
    assert(gv.take(q as int) =~= gv);
    g.entries
}

/// Pairs of strings by their views.
pub open spec fn pairs_view(t: Seq<(String, String)>) -> Seq<(Seq<char>, Seq<char>)> {
    t.map_values(|p: (String, String)| (p.0@, p.1@))
}

/// The key of `s` in the table `t`: the second of the last pair whose first is
/// `s`, or `s` itself when there is none.
pub open spec fn table_lookup(t: Seq<(Seq<char>, Seq<char>)>, s: Seq<char>) -> Seq<char>
    decreases t.len(),
{
    if t.len() == 0 {
        s
    } else if t.last().0 == s {
        t.last().1
    } else {
        table_lookup(t.drop_last(), s)
    }
}

/// Looking keys up in the table `t`, as a function value.
pub open spec fn table_key(t: Seq<(Seq<char>, Seq<char>)>) -> spec_fn(Seq<char>) -> Seq<char> {
    |s: Seq<char>| table_lookup(t, s)
}

fn key_of(keys: &[(String, String)], s: &Vec<char>) -> (r: Vec<char>)
    ensures
        r@ == table_lookup(pairs_view(keys@), s@),
{
    let ghost t = pairs_view(keys@);
    let mut j: usize = keys.len();
    assert(t.take(j as int) =~= t);
    while j > 0
        invariant
            j <= keys@.len(),
            t == pairs_view(keys@),
            table_lookup(t.take(j as int), s@) == table_lookup(t, s@),
        decreases j,
    {
        assert(t.take(j as int).last() == (keys@[j - 1].0@, keys@[j - 1].1@));
        assert(t.take(j as int).drop_last() =~= t.take(j - 1));
        if chars_eq(&chars_of(keys[j - 1].0.as_str()), s) {
            return chars_of(keys[j - 1].1.as_str());
        }
        j = j - 1;
    }
    s.clone()
}

/// Every pair of `t` pairs a text with its lower-cased form.
pub open spec fn lowering_table(t: Seq<(Seq<char>, Seq<char>)>) -> bool {
    forall|k: int| 0 <= k < t.len() ==> (#[trigger] t[k]).1 == lowercase(t[k].0)
}

proof fn lemma_table_lowers(t: Seq<(Seq<char>, Seq<char>)>, s: Seq<char>)
    requires
        lowering_table(t),
        covers(t, s),
    ensures
        table_lookup(t, s) == lowercase(s),
    decreases t.len(),
{
    if t.last().0 != s {
        let k = choose|k: int| 0 <= k < t.len() && (#[trigger] t[k]).0 == s;
        assert(k < t.len() - 1);
        assert(t.drop_last()[k] == t[k]);
        assert forall|m: int| 0 <= m < t.drop_last().len() implies (#[trigger] t.drop_last()[m]).1 == lowercase(
            t.drop_last()[m].0,
        ) by {
            assert(t.drop_last()[m] == t[m]);
        }
        lemma_table_lowers(t.drop_last(), s);
    } else {
        assert(t[t.len() - 1] == t.last());
    }
}

/// The program an application starts, when it names one.
pub open spec fn app_program(a: DesktopAppView) -> Option<Seq<char>> {
    match a.exec_line {
        Some(e) => exec_line_program(e),
        None => None,
    }
}

/// `k1` and `k2` give every executable the candidates may offer the same key.
pub open spec fn keys_agree(
    ps: Seq<ProcessView>,
    apps: Seq<DesktopAppView>,
    games: Seq<SteamGameView>,
    k1: spec_fn(Seq<char>) -> Seq<char>,
    k2: spec_fn(Seq<char>) -> Seq<char>,
) -> bool {
    &&& forall|i: int| 0 <= i < ps.len() ==> k1(running_display(#[trigger] ps[i])) == k2(running_display(ps[i]))
    &&& forall|i: int|
        0 <= i < apps.len() && (#[trigger] app_program(apps[i])) is Some ==> k1(app_program(apps[i])->Some_0)
            == k2(app_program(apps[i])->Some_0)
    &&& forall|i: int, j: int|
        0 <= i < games.len() && 0 <= j < games[i].exes.len() ==> k1(#[trigger] games[i].exes[j]) == k2(
            games[i].exes[j],
        )
}

proof fn lemma_processes_same_keys(
    g: Gathered,
    ps: Seq<ProcessView>,
    apps: Seq<DesktopAppView>,
    added: Seq<Seq<char>>,
    k1: spec_fn(Seq<char>) -> Seq<char>,
    k2: spec_fn(Seq<char>) -> Seq<char>,
)
    requires
        forall|i: int| 0 <= i < ps.len() ==> k1(running_display(#[trigger] ps[i])) == k2(running_display(ps[i])),
    ensures
        add_processes(g, ps, apps, added, k1) == add_processes(g, ps, apps, added, k2),
    decreases ps.len(),
{
    if ps.len() > 0 {
        assert forall|i: int| 0 <= i < ps.drop_last().len() implies k1(running_display(
            #[trigger] ps.drop_last()[i],
        )) == k2(running_display(ps.drop_last()[i])) by {
            assert(ps.drop_last()[i] == ps[i]);
        }
        lemma_processes_same_keys(g, ps.drop_last(), apps, added, k1, k2);
        assert(k1(running_display(ps[ps.len() - 1])) == k2(running_display(ps[ps.len() - 1])));
    }
}

proof fn lemma_apps_same_keys(
    g: Gathered,
    apps: Seq<DesktopAppView>,
    added: Seq<Seq<char>>,
    k1: spec_fn(Seq<char>) -> Seq<char>,
    k2: spec_fn(Seq<char>) -> Seq<char>,
)
    requires
        forall|i: int|
            0 <= i < apps.len() && (#[trigger] app_program(apps[i])) is Some ==> k1(app_program(apps[i])->Some_0)
                == k2(app_program(apps[i])->Some_0),
    ensures
        add_apps(g, apps, added, k1) == add_apps(g, apps, added, k2),
    decreases apps.len(),
{
    if apps.len() > 0 {
        assert forall|i: int|
            0 <= i < apps.drop_last().len() && (#[trigger] app_program(apps.drop_last()[i])) is Some implies k1(
            app_program(apps.drop_last()[i])->Some_0,
        ) == k2(app_program(apps.drop_last()[i])->Some_0) by {
            assert(apps.drop_last()[i] == apps[i]);
        }
        lemma_apps_same_keys(g, apps.drop_last(), added, k1, k2);
        let last = apps[apps.len() - 1];
        if app_program(last) is Some {
            assert(k1(app_program(last)->Some_0) == k2(app_program(last)->Some_0));
        }
    }
}

proof fn lemma_game_exes_same_keys(
    g: Gathered,
    game: SteamGameView,
    xs: Seq<Seq<char>>,
    added: Seq<Seq<char>>,
    k1: spec_fn(Seq<char>) -> Seq<char>,
    k2: spec_fn(Seq<char>) -> Seq<char>,
)
    requires
        forall|j: int| 0 <= j < xs.len() ==> k1(#[trigger] xs[j]) == k2(xs[j]),
    ensures
        add_game_exes(g, game, xs, added, k1) == add_game_exes(g, game, xs, added, k2),
    decreases xs.len(),
{
    if xs.len() > 0 {
        assert forall|j: int| 0 <= j < xs.drop_last().len() implies k1(#[trigger] xs.drop_last()[j]) == k2(
            xs.drop_last()[j],
        ) by {
            assert(xs.drop_last()[j] == xs[j]);
        }
        lemma_game_exes_same_keys(g, game, xs.drop_last(), added, k1, k2);
        assert(k1(xs[xs.len() - 1]) == k2(xs[xs.len() - 1]));
    }
}

proof fn lemma_games_same_keys(
    g: Gathered,
    games: Seq<SteamGameView>,
    added: Seq<Seq<char>>,
    k1: spec_fn(Seq<char>) -> Seq<char>,
    k2: spec_fn(Seq<char>) -> Seq<char>,
)
    requires
        forall|i: int, j: int|
            0 <= i < games.len() && 0 <= j < games[i].exes.len() ==> k1(#[trigger] games[i].exes[j]) == k2(
                games[i].exes[j],
            ),
    ensures
        add_games(g, games, added, k1) == add_games(g, games, added, k2),
    decreases games.len(),
{
    if games.len() > 0 {
        assert forall|i: int, j: int|
            0 <= i < games.drop_last().len() && 0 <= j < games.drop_last()[i].exes.len() implies k1(
            #[trigger] games.drop_last()[i].exes[j],
        ) == k2(games.drop_last()[i].exes[j]) by {
            assert(games.drop_last()[i] == games[i]);
        }
        lemma_games_same_keys(g, games.drop_last(), added, k1, k2);
        let last = games.last();
        assert forall|j: int| 0 <= j < last.exes.len() implies k1(#[trigger] last.exes[j]) == k2(last.exes[j]) by {
            assert(last == games[games.len() - 1]);
            assert(k1(games[games.len() - 1].exes[j]) == k2(games[games.len() - 1].exes[j]));
        }
        let h = add_games(g, games.drop_last(), added, k1);
        lemma_game_exes_same_keys(h, last, last.exes, added, k1, k2);
    }
}

/// Candidates compared by two ways of keying executables that agree on every
/// executable the candidates may offer are the same.
pub proof fn lemma_same_keys_same_entries(
    ps: Seq<ProcessView>,
    apps: Seq<DesktopAppView>,
    games: Seq<SteamGameView>,
    added: Seq<Seq<char>>,
    k1: spec_fn(Seq<char>) -> Seq<char>,
    k2: spec_fn(Seq<char>) -> Seq<char>,
)
    requires
        keys_agree(ps, apps, games, k1, k2),
    ensures
        selector_entries_by(ps, apps, games, added, k1) == selector_entries_by(ps, apps, games, added, k2),
{
    let empty = Gathered { entries: seq![], seen: seq![] };
    lemma_processes_same_keys(empty, ps, apps, added, k1, k2);
    let g1 = add_processes(empty, ps, apps, added, k1);
    lemma_apps_same_keys(g1, apps, added, k1, k2);
    lemma_games_same_keys(add_apps(g1, apps, added, k1), games, added, k1, k2);
}

/// Some pair of `t` has `s` first.
pub open spec fn covers(t: Seq<(Seq<char>, Seq<char>)>, s: Seq<char>) -> bool {
    exists|k: int| 0 <= k < t.len() && (#[trigger] t[k]).0 == s
}

proof fn lemma_push_covers(t: Seq<(Seq<char>, Seq<char>)>, x: (Seq<char>, Seq<char>))
    ensures
        covers(t.push(x), x.0),
        forall|s: Seq<char>| covers(t, s) ==> #[trigger] covers(t.push(x), s),
        lowering_table(t) && x.1 == lowercase(x.0) ==> lowering_table(t.push(x)),
{
    let u = t.push(x);
    assert(u[u.len() - 1] == x);
    assert forall|s: Seq<char>| covers(t, s) implies #[trigger] covers(u, s) by {
        let k = choose|k: int| 0 <= k < t.len() && (#[trigger] t[k]).0 == s;
        assert(u[k] == t[k]);
    }
    if lowering_table(t) && x.1 == lowercase(x.0) {
        assert forall|k: int| 0 <= k < u.len() implies (#[trigger] u[k]).1 == lowercase(u[k].0) by {
            if k < t.len() {
                assert(u[k] == t[k]);
            }
        }
    }
}

/// Build the combined list of selector candidates: running processes first, then
/// installed games, then the executables of Steam games, each executable offered
/// once (compared lower-cased); `already_added` are the names the profile
/// already targets.
pub fn build_selector_entries(
    processes: &[ProcessInfo],
    desktop_apps: &[DesktopApp],
    steam_games: &[SteamGame],
    already_added: &[String],
) -> (r: Vec<SelectorEntry>)
    ensures
        entries_view(r@) == selector_entries(
            processes_view(processes@),
            apps_view(desktop_apps@),
            games_view(steam_games@),
            strings_view(already_added@),
        ),
{
    let ghost pv = processes_view(processes@);
    let ghost av = apps_view(desktop_apps@);
    let ghost gv = games_view(steam_games@);
    let mut keys: Vec<(String, String)> = Vec::new();
    assert(pairs_view(keys@) =~= Seq::<(Seq<char>, Seq<char>)>::empty());
    let n = processes.len();
    let mut i: usize = 0;
    while i < n
        invariant
            n == processes@.len(),
            pv == processes_view(processes@),
            i <= n,
            lowering_table(pairs_view(keys@)),
            forall|q: int| 0 <= q < i ==> #[trigger] covers(pairs_view(keys@), running_display(pv[q])),
        decreases n - i,
    {
        let d = trim_exec(&exe_name_exec(&processes[i]));
        let ghost before = pairs_view(keys@);
        keys.push((string_of(&d), string_of(&to_lowercase(&d))));
        proof {
            assert(pairs_view(keys@) =~= before.push((d@, lowercase(d@))));
            lemma_push_covers(before, (d@, lowercase(d@)));
            assert(d@ == running_display(pv[i as int]));
            assert forall|q: int| 0 <= q < i + 1 implies #[trigger] covers(pairs_view(keys@), running_display(pv[q])) by {
                if q < i {
                    assert(covers(before, running_display(pv[q])));
                }
            }
        }
        i = i + 1;
    }
    let m = desktop_apps.len();
    let mut a: usize = 0;
    while a < m
        invariant
            m == desktop_apps@.len(),
            av == apps_view(desktop_apps@),
            pv == processes_view(processes@),
            a <= m,
            lowering_table(pairs_view(keys@)),
            forall|q: int| 0 <= q < pv.len() ==> #[trigger] covers(pairs_view(keys@), running_display(pv[q])),
            forall|q: int|
                0 <= q < a && (#[trigger] app_program(av[q])) is Some ==> covers(
                    pairs_view(keys@),
                    app_program(av[q])->Some_0,
                ),
        decreases m - a,
    {
        if let Some(e) = &desktop_apps[a].exec_line {
            if let Some(x) = exec_basename_chars(&chars_of(e.as_str())) {
                let ghost before = pairs_view(keys@);
                keys.push((string_of(&x), string_of(&to_lowercase(&x))));
                proof {
                    assert(pairs_view(keys@) =~= before.push((x@, lowercase(x@))));
                    lemma_push_covers(before, (x@, lowercase(x@)));
                    assert(app_program(av[a as int]) == Some(x@));
                    assert forall|q: int| 0 <= q < pv.len() implies #[trigger] covers(
                        pairs_view(keys@),
                        running_display(pv[q]),
                    ) by {
                        assert(covers(before, running_display(pv[q])));
                    }
                    assert forall|q: int|
                        0 <= q < a + 1 && (#[trigger] app_program(av[q])) is Some implies covers(
                            pairs_view(keys@),
                            app_program(av[q])->Some_0,
                        ) by {
                        if q < a {
                            assert(covers(before, app_program(av[q])->Some_0));
                        }
                    }
                }
            } else {
                assert(app_program(av[a as int]) is None);
            }
        } else {
            assert(app_program(av[a as int]) is None);
        }
        a = a + 1;
    }
    let gn = steam_games.len();
    let mut t: usize = 0;
    while t < gn
        invariant
            gn == steam_games@.len(),
            gv == games_view(steam_games@),
            av == apps_view(desktop_apps@),
            pv == processes_view(processes@),
            t <= gn,
            lowering_table(pairs_view(keys@)),
            forall|q: int| 0 <= q < pv.len() ==> #[trigger] covers(pairs_view(keys@), running_display(pv[q])),
            forall|q: int|
                0 <= q < av.len() && (#[trigger] app_program(av[q])) is Some ==> covers(
                    pairs_view(keys@),
                    app_program(av[q])->Some_0,
                ),
            forall|q: int, j: int|
                0 <= q < t && 0 <= j < gv[q].exes.len() ==> covers(pairs_view(keys@), #[trigger] gv[q].exes[j]),
        decreases gn - t,
    {
        let game = &steam_games[t];
        let xn = game.exes.len();
        let mut x: usize = 0;
        while x < xn
            invariant
                xn == game.exes@.len(),
                game@ == gv[t as int],
                t < gn,
                gn == steam_games@.len(),
                gv == games_view(steam_games@),
                av == apps_view(desktop_apps@),
                pv == processes_view(processes@),
                x <= xn,
                lowering_table(pairs_view(keys@)),
                forall|q: int| 0 <= q < pv.len() ==> #[trigger] covers(pairs_view(keys@), running_display(pv[q])),
                forall|q: int|
                    0 <= q < av.len() && (#[trigger] app_program(av[q])) is Some ==> covers(
                        pairs_view(keys@),
                        app_program(av[q])->Some_0,
                    ),
                forall|q: int, j: int|
                    0 <= q < t && 0 <= j < gv[q].exes.len() ==> covers(pairs_view(keys@), #[trigger] gv[q].exes[j]),
                forall|j: int| 0 <= j < x ==> covers(pairs_view(keys@), #[trigger] gv[t as int].exes[j]),
            decreases xn - x,
        {
            let xv = chars_of(game.exes[x].as_str());
            let ghost before = pairs_view(keys@);
            keys.push((game.exes[x].clone(), string_of(&to_lowercase(&xv))));
            proof {
                assert(game.exes.deep_view()[x as int] == game.exes@[x as int]@);
                assert(game.exes@[x as int]@ == gv[t as int].exes[x as int]);
                assert(pairs_view(keys@) =~= before.push((xv@, lowercase(xv@))));
                lemma_push_covers(before, (xv@, lowercase(xv@)));
                assert forall|q: int| 0 <= q < pv.len() implies #[trigger] covers(
                    pairs_view(keys@),
                    running_display(pv[q]),
                ) by {
                    assert(covers(before, running_display(pv[q])));
                }
                assert forall|q: int|
                    0 <= q < av.len() && (#[trigger] app_program(av[q])) is Some implies covers(
                        pairs_view(keys@),
                        app_program(av[q])->Some_0,
                    ) by {
                    assert(covers(before, app_program(av[q])->Some_0));
                }
                assert forall|q: int, j: int|
                    0 <= q < t && 0 <= j < gv[q].exes.len() implies covers(pairs_view(keys@), #[trigger] gv[q].exes[j]) by {
                    assert(covers(before, gv[q].exes[j]));
                }
                assert forall|j: int| 0 <= j < x + 1 implies covers(pairs_view(keys@), #[trigger] gv[t as int].exes[j]) by {
                    if j < x {
                        assert(covers(before, gv[t as int].exes[j]));
                    }
                }
            }
            x = x + 1;
        }
        t = t + 1;
    }
    let r = build_selector_entries_keyed(processes, desktop_apps, steam_games, already_added, keys.as_slice());
    proof {
        let tv = pairs_view(keys@);
        let k1 = table_key(tv);
        let k2 = lower_key();
        assert forall|q: int| 0 <= q < pv.len() implies k1(running_display(#[trigger] pv[q])) == k2(running_display(pv[q])) by {
            assert(covers(tv, running_display(pv[q])));
            lemma_table_lowers(tv, running_display(pv[q]));
        }
        assert forall|q: int|
            0 <= q < av.len() && (#[trigger] app_program(av[q])) is Some implies k1(app_program(av[q])->Some_0)
                == k2(app_program(av[q])->Some_0) by {
            lemma_table_lowers(tv, app_program(av[q])->Some_0);
        }
        assert forall|q: int, j: int| 0 <= q < gv.len() && 0 <= j < gv[q].exes.len() implies k1(#[trigger] gv[q].exes[j])
            == k2(gv[q].exes[j]) by {
            lemma_table_lowers(tv, gv[q].exes[j]);
        }
        lemma_same_keys_same_entries(pv, av, gv, strings_view(already_added@), k1, k2);
    }
    r
}

/// The lower-cased executables offered so far, with none twice; every running
/// entry comes before every other; an entry is running exactly when it comes from a
/// running process.
pub open spec fn well_gathered(g: Gathered, low: spec_fn(Seq<char>) -> Seq<char>) -> bool {
    &&& g.seen == g.entries.map_values(|e: EntryView| low(e.executable))
    &&& forall|i: int, j: int| 0 <= i < j < g.seen.len() ==> g.seen[i] != g.seen[j]
    &&& forall|i: int, j: int|
        0 <= i < j < g.entries.len() && #[trigger] g.entries[j].is_running ==> #[trigger] g.entries[i].is_running
    &&& forall|i: int|
        0 <= i < g.entries.len() ==> (#[trigger] g.entries[i].is_running <==> g.entries[i].source
            == EntrySource::RunningProcess)
}

/// Every entry gathered so far is a running process.
pub open spec fn all_running(g: Gathered) -> bool {
    forall|i: int| 0 <= i < g.entries.len() ==> #[trigger] g.entries[i].is_running
}

proof fn lemma_offer(g: Gathered, e: EntryView, low: spec_fn(Seq<char>) -> Seq<char>)
    requires
        well_gathered(g, low),
        !g.seen.contains(low(e.executable)),
        e.is_running <==> e.source == EntrySource::RunningProcess,
        e.is_running ==> all_running(g),
    ensures
        well_gathered(offer(g, e, low), low),
        all_running(g) && e.is_running ==> all_running(offer(g, e, low)),
{
    let h = offer(g, e, low);
    assert(h.seen =~= h.entries.map_values(|e: EntryView| low(e.executable)));
    assert forall|i: int, j: int| 0 <= i < j < h.seen.len() implies h.seen[i] != h.seen[j] by {
        if j == h.seen.len() - 1 {
            assert(g.seen[i] == h.seen[i]);
        } else {
            assert(g.seen[i] == h.seen[i] && g.seen[j] == h.seen[j]);
        }
    }
    assert forall|i: int, j: int|
        0 <= i < j < h.entries.len() && #[trigger] h.entries[j].is_running implies #[trigger] h.entries[i].is_running by {
        if j == h.entries.len() - 1 {
            assert(h.entries[i] == g.entries[i]);
        } else {
            assert(h.entries[i] == g.entries[i] && h.entries[j] == g.entries[j]);
        }
    }
    assert forall|i: int| 0 <= i < h.entries.len() implies (#[trigger] h.entries[i].is_running
        <==> h.entries[i].source == EntrySource::RunningProcess) by {
        if i < g.entries.len() {
            assert(h.entries[i] == g.entries[i]);
        }
    }
    if all_running(g) && e.is_running {
        assert forall|i: int| 0 <= i < h.entries.len() implies #[trigger] h.entries[i].is_running by {
            if i < g.entries.len() {
                assert(h.entries[i] == g.entries[i]);
            }
        }
    }
}

proof fn lemma_add_processes(
    g: Gathered,
    ps: Seq<ProcessView>,
    apps: Seq<DesktopAppView>,
    added: Seq<Seq<char>>,
    low: spec_fn(Seq<char>) -> Seq<char>,
)
    requires
        well_gathered(g, low),
        all_running(g),
    ensures
        well_gathered(add_processes(g, ps, apps, added, low), low),
        all_running(add_processes(g, ps, apps, added, low)),
    decreases ps.len(),
{
    if ps.len() > 0 {
        lemma_add_processes(g, ps.drop_last(), apps, added, low);
        let h = add_processes(g, ps.drop_last(), apps, added, low);
        let p = ps.last();
        let d = running_display(p);
        if !(running_skipped(p) || h.seen.contains(low(d))) {
            let app = first_app(apps, d);
            let e = EntryView {
                label: match app {
                    Some(a) => a.name,
                    None => d,
                },
                sublabel: running_sublabel(p, added.contains(d)),
                executable: d,
                is_running: true,
                icon_name: match app {
                    Some(a) => a.icon,
                    None => None,
                },
                source: EntrySource::RunningProcess,
            };
            lemma_offer(h, e, low);
        }
    }
}

proof fn lemma_add_apps(g: Gathered, apps: Seq<DesktopAppView>, added: Seq<Seq<char>>, low: spec_fn(Seq<char>) -> Seq<char>)
    requires
        well_gathered(g, low),
    ensures
        well_gathered(add_apps(g, apps, added, low), low),
    decreases apps.len(),
{
    if apps.len() > 0 {
        lemma_add_apps(g, apps.drop_last(), added, low);
        let h = add_apps(g, apps.drop_last(), added, low);
        let a = apps.last();
        if let Some(e) = a.exec_line {
            if let Some(x) = exec_line_program(e) {
                if !(h.seen.contains(low(x)) || !is_game_app(a)) {
                    let entry = EntryView {
                        label: a.name,
                        sublabel: if added.contains(x) {
                            already_text()
                        } else {
                            "Installed ("@ + remove_all(a.filename, ".desktop"@) + ")"@
                        },
                        executable: x,
                        is_running: false,
                        icon_name: a.icon,
                        source: EntrySource::DesktopApp,
                    };
                    lemma_offer(h, entry, low);
                }
            }
        }
    }
}

proof fn lemma_add_game_exes(
    g: Gathered,
    game: SteamGameView,
    xs: Seq<Seq<char>>,
    added: Seq<Seq<char>>,
    low: spec_fn(Seq<char>) -> Seq<char>,
)
    requires
        well_gathered(g, low),
    ensures
        well_gathered(add_game_exes(g, game, xs, added, low), low),
    decreases xs.len(),
{
    if xs.len() > 0 {
        lemma_add_game_exes(g, game, xs.drop_last(), added, low);
        let h = add_game_exes(g, game, xs.drop_last(), added, low);
        let x = xs.last();
        if !h.seen.contains(low(x)) {
            let entry = EntryView {
                label: game.name + " ("@ + x + ")"@,
                sublabel: if added.contains(x) {
                    already_text()
                } else {
                    "Steam: "@ + game.install_path
                },
                executable: x,
                is_running: false,
                icon_name: Some("applications-games-symbolic"@),
                source: EntrySource::SteamGame,
            };
            lemma_offer(h, entry, low);
        }
    }
}

proof fn lemma_add_games(g: Gathered, games: Seq<SteamGameView>, added: Seq<Seq<char>>, low: spec_fn(Seq<char>) -> Seq<char>)
    requires
        well_gathered(g, low),
    ensures
        well_gathered(add_games(g, games, added, low), low),
    decreases games.len(),
{
    if games.len() > 0 {
        lemma_add_games(g, games.drop_last(), added, low);
        let last = games.last();
        lemma_add_game_exes(add_games(g, games.drop_last(), added, low), last, last.exes, added, low);
    }
}

/// The selector offers no executable twice (compared lower-cased), and the
/// running processes come first: a running entry never follows one that is not.
pub proof fn lemma_selector_entries_well_formed(
    ps: Seq<ProcessView>,
    apps: Seq<DesktopAppView>,
    games: Seq<SteamGameView>,
    added: Seq<Seq<char>>,
)
    ensures
        ({
            let es = selector_entries(ps, apps, games, added);
            &&& forall|i: int, j: int|
                0 <= i < j < es.len() ==> lowercase(#[trigger] es[i].executable) != lowercase(
                    #[trigger] es[j].executable,
                )
            &&& forall|i: int, j: int|
                0 <= i < j < es.len() && #[trigger] es[j].is_running ==> #[trigger] es[i].is_running
            &&& forall|i: int|
                0 <= i < es.len() ==> (#[trigger] es[i].is_running <==> es[i].source
                    == EntrySource::RunningProcess)
        }),
{
    let low = lower_key();
    let empty = Gathered { entries: seq![], seen: seq![] };
    assert(empty.seen =~= empty.entries.map_values(|e: EntryView| low(e.executable)));
    lemma_add_processes(empty, ps, apps, added, low);
    let g1 = add_processes(empty, ps, apps, added, low);
    lemma_add_apps(g1, apps, added, low);
    let g2 = add_apps(g1, apps, added, low);
    lemma_add_games(g2, games, added, low);
    let g3 = add_games(g2, games, added, low);
    let es = g3.entries;
    assert forall|i: int, j: int| 0 <= i < j < es.len() implies lowercase(
        #[trigger] es[i].executable,
    ) != lowercase(#[trigger] es[j].executable) by {
        assert(g3.seen[i] == low(es[i].executable));
        assert(g3.seen[j] == low(es[j].executable));
    }
}

/// Two lists of candidates that differ at most in their secondary texts.
pub open spec fn same_but_sublabels(a: Seq<EntryView>, b: Seq<EntryView>) -> bool {
    &&& a.len() == b.len()
    &&& forall|i: int| 0 <= i < a.len() ==> (EntryView { sublabel: b[i].sublabel, ..a[i] }) == #[trigger] b[i]
}

/// Two gatherings that have seen the same executables and differ at most in the
/// secondary texts of their candidates.
spec fn alike(g1: Gathered, g2: Gathered) -> bool {
    g1.seen == g2.seen && same_but_sublabels(g1.entries, g2.entries)
}

proof fn lemma_offer_alike(g1: Gathered, g2: Gathered, e1: EntryView, e2: EntryView, low: spec_fn(Seq<char>) -> Seq<char>)
    requires
        alike(g1, g2),
        (EntryView { sublabel: e2.sublabel, ..e1 }) == e2,
    ensures
        alike(offer(g1, e1, low), offer(g2, e2, low)),
{
    let r1 = offer(g1, e1, low).entries;
    let r2 = offer(g2, e2, low).entries;
    assert forall|i: int| 0 <= i < r1.len() implies (EntryView { sublabel: r2[i].sublabel, ..r1[i] }) == #[trigger] r2[i] by {
        if i < g1.entries.len() {
            assert(r1[i] == g1.entries[i]);
            assert(r2[i] == g2.entries[i]);
        }
    }
}

proof fn lemma_processes_alike(
    g1: Gathered,
    g2: Gathered,
    ps: Seq<ProcessView>,
    apps: Seq<DesktopAppView>,
    a1: Seq<Seq<char>>,
    a2: Seq<Seq<char>>,
    low: spec_fn(Seq<char>) -> Seq<char>,
)
    requires
        alike(g1, g2),
    ensures
        alike(add_processes(g1, ps, apps, a1, low), add_processes(g2, ps, apps, a2, low)),
    decreases ps.len(),
{
    if ps.len() > 0 {
        lemma_processes_alike(g1, g2, ps.drop_last(), apps, a1, a2, low);
        let h1 = add_processes(g1, ps.drop_last(), apps, a1, low);
        let h2 = add_processes(g2, ps.drop_last(), apps, a2, low);
        let p = ps.last();
        let d = running_display(p);
        if !(running_skipped(p) || h1.seen.contains(low(d))) {
            let app = first_app(apps, d);
            let e1 = EntryView {
                label: match app { Some(a) => a.name, None => d },
                sublabel: running_sublabel(p, a1.contains(d)),
                executable: d,
                is_running: true,
                icon_name: match app { Some(a) => a.icon, None => None },
                source: EntrySource::RunningProcess,
            };
            let e2 = EntryView { sublabel: running_sublabel(p, a2.contains(d)), ..e1 };
            lemma_offer_alike(h1, h2, e1, e2, low);
        }
    }
}

proof fn lemma_apps_alike(g1: Gathered, g2: Gathered, apps: Seq<DesktopAppView>, a1: Seq<Seq<char>>, a2: Seq<Seq<char>>, low: spec_fn(Seq<char>) -> Seq<char>)
    requires
        alike(g1, g2),
    ensures
        alike(add_apps(g1, apps, a1, low), add_apps(g2, apps, a2, low)),
    decreases apps.len(),
{
    if apps.len() > 0 {
        lemma_apps_alike(g1, g2, apps.drop_last(), a1, a2, low);
        let h1 = add_apps(g1, apps.drop_last(), a1, low);
        let h2 = add_apps(g2, apps.drop_last(), a2, low);
        let a = apps.last();
        if let Some(e) = a.exec_line {
            if let Some(x) = exec_line_program(e) {
                if !(h1.seen.contains(low(x)) || !is_game_app(a)) {
                    let e1 = EntryView {
                        label: a.name,
                        sublabel: if a1.contains(x) {
                            already_text()
                        } else {
                            "Installed ("@ + remove_all(a.filename, ".desktop"@) + ")"@
                        },
                        executable: x,
                        is_running: false,
                        icon_name: a.icon,
                        source: EntrySource::DesktopApp,
                    };
                    let e2 = EntryView {
                        sublabel: if a2.contains(x) {
                            already_text()
                        } else {
                            "Installed ("@ + remove_all(a.filename, ".desktop"@) + ")"@
                        },
                        ..e1
                    };
                    lemma_offer_alike(h1, h2, e1, e2, low);
                }
            }
        }
    }
}

proof fn lemma_game_exes_alike(
    g1: Gathered,
    g2: Gathered,
    game: SteamGameView,
    xs: Seq<Seq<char>>,
    a1: Seq<Seq<char>>,
    a2: Seq<Seq<char>>,
    low: spec_fn(Seq<char>) -> Seq<char>,
)
    requires
        alike(g1, g2),
    ensures
        alike(add_game_exes(g1, game, xs, a1, low), add_game_exes(g2, game, xs, a2, low)),
    decreases xs.len(),
{
    if xs.len() > 0 {
        lemma_game_exes_alike(g1, g2, game, xs.drop_last(), a1, a2, low);
        let h1 = add_game_exes(g1, game, xs.drop_last(), a1, low);
        let h2 = add_game_exes(g2, game, xs.drop_last(), a2, low);
        let x = xs.last();
        if !h1.seen.contains(low(x)) {
            let e1 = EntryView {
                label: game.name + " ("@ + x + ")"@,
                sublabel: if a1.contains(x) {
                    already_text()
                } else {
                    "Steam: "@ + game.install_path
                },
                executable: x,
                is_running: false,
                icon_name: Some("applications-games-symbolic"@),
                source: EntrySource::SteamGame,
            };
            let e2 = EntryView {
                sublabel: if a2.contains(x) {
                    already_text()
                } else {
                    "Steam: "@ + game.install_path
                },
                ..e1
            };
            lemma_offer_alike(h1, h2, e1, e2, low);
        }
    }
}

proof fn lemma_games_alike(g1: Gathered, g2: Gathered, games: Seq<SteamGameView>, a1: Seq<Seq<char>>, a2: Seq<Seq<char>>, low: spec_fn(Seq<char>) -> Seq<char>)
    requires
        alike(g1, g2),
    ensures
        alike(add_games(g1, games, a1, low), add_games(g2, games, a2, low)),
    decreases games.len(),
{
    if games.len() > 0 {
        lemma_games_alike(g1, g2, games.drop_last(), a1, a2, low);
        let last = games.last();
        lemma_game_exes_alike(
            add_games(g1, games.drop_last(), a1, low),
            add_games(g2, games.drop_last(), a2, low),
            last,
            last.exes,
            a1,
            a2,
            low,
        );
    }
}

/// The names a profile already targets change only the secondary texts of the
/// candidates: the same candidates are offered, in the same order, with the same
/// labels, executables, icons and sources.
pub proof fn lemma_added_changes_only_sublabels(
    ps: Seq<ProcessView>,
    apps: Seq<DesktopAppView>,
    games: Seq<SteamGameView>,
    added1: Seq<Seq<char>>,
    added2: Seq<Seq<char>>,
)
    ensures
        same_but_sublabels(
            selector_entries(ps, apps, games, added1),
            selector_entries(ps, apps, games, added2),
        ),
{
    let low = lower_key();
    let empty = Gathered { entries: seq![], seen: seq![] };
    lemma_processes_alike(empty, empty, ps, apps, added1, added2, low);
    let p1 = add_processes(empty, ps, apps, added1, low);
    let p2 = add_processes(empty, ps, apps, added2, low);
    lemma_apps_alike(p1, p2, apps, added1, added2, low);
    lemma_games_alike(add_apps(p1, apps, added1, low), add_apps(p2, apps, added2, low), games, added1, added2, low);
}

} // verus!
