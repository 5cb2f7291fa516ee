//! What the window shows: labels, status lines, the GPU choice, and the
//! executable chips of a profile with their autocomplete list.
use vstd::prelude::*;
use crate::entries::{entries_view, EntryView, SelectorEntry};
use crate::layer::LayerStatus;
use crate::process::{matches_view, utf8_len, utf8_width, ActiveMatch, ActiveMatchView};
use crate::text::opt_chars;
use crate::text::{
    chars_eq, chars_of, concat, concat3, contains, contains_exec, decimal, decimal_exec, join,
    join_exec, lemma_chars_deep_view, list_contains, lowercase, starts_with, string_of,
    strings_view, text, to_lowercase, trim, trim_exec,
};

verus! {

/// The GPU a choice stands for: the first entry (0, "Default") stands for none.
pub open spec fn gpu_choice_spec(selected: u32, names: Seq<Seq<char>>) -> Option<Seq<char>> {
    if selected == 0 || selected >= names.len() {
        None
    } else {
        Some(names[selected as int])
    }
}

/// The GPU that entry `selected` of the list `names` stands for.
pub fn gpu_choice(selected: u32, names: &[String]) -> (r: Option<String>)
    ensures
        opt_chars(r) == gpu_choice_spec(selected, strings_view(names@)),
{
    if selected == 0 || selected as usize >= names.len() {
        None
    } else {
        Some(names[selected as usize].clone())
    }
}

/// The first index of `names` holding `g`, if any.
pub open spec fn first_index(names: Seq<Seq<char>>, g: Seq<char>, i: int) -> Option<int>
    decreases names.len() - i,
{
    if i < 0 || i >= names.len() {
        None
    } else if names[i] == g {
        Some(i)
    } else {
        first_index(names, g, i + 1)
    }
}

/// The entry of the GPU list to show for a profile's GPU: the first entry with
/// that name, else the first entry ("Default").
pub open spec fn gpu_index_spec(names: Seq<Seq<char>>, gpu: Option<Seq<char>>) -> int {
    match gpu {
        None => 0,
        Some(g) => match first_index(names, g, 0) {
            Some(i) => i,
            None => 0,
        },
    }
}

/// The entry of the GPU list `names` to show for a profile's GPU.
pub fn gpu_index(names: &[String], gpu: &Option<String>) -> (r: u32)
    requires
        names@.len() <= u32::MAX,
    ensures
        r as int == gpu_index_spec(strings_view(names@), opt_chars(*gpu)),
{
    let g = match gpu {
        Some(gs) => {
            let g = chars_of(gs.as_str());
            assert(opt_chars(*gpu) == Some(g@));
            g
        },
        None => return 0,
    };
    let ghost nv = strings_view(names@);
    let n = names.len();
    let mut i: usize = 0;
    while i < n
        invariant
            n == names@.len(),
            n <= u32::MAX,
            nv == strings_view(names@),
            opt_chars(*gpu) == Some(g@),
            i <= n,
            first_index(nv, g@, i as int) == first_index(nv, g@, 0),
        decreases n - i,
    {
        if chars_eq(&chars_of(names[i].as_str()), &g) {
            assert(nv.len() == n);
            assert(nv[i as int] == g@);
            assert(first_index(nv, g@, i as int) == Some(i as int));
            return i as u32;
        }
        i = i + 1;
    }
    0
}

/// The second line of a profile's row in the list.
pub open spec fn row_subtitle(multiplier: u32, count: nat) -> Seq<char> {
    decimal(multiplier as nat) + "x FG  "@ + (if count == 0 {
        "no targets"@
    } else {
        "targets"@
    }) + "  "@ + decimal(count)
}

/// The second line of a profile's row: its multiplier and how many targets it has.
pub fn profile_row_subtitle(multiplier: u32, active_count: usize) -> (r: String)
    ensures
        r@ == row_subtitle(multiplier, active_count as nat),
{
    let kind = if active_count == 0 {
        text("no targets")
    } else {
        text("targets")
    };
    let a = concat(&decimal_exec(multiplier as u64), &text("x FG  "));
    let b = concat3(&a, &kind, &text("  "));
    string_of(&concat(&b, &decimal_exec(active_count as u64)))
}

/// The badge of a profile's row: its multiplier.
pub fn multiplier_badge(multiplier: u32) -> (r: String)
    ensures
        r@ == decimal(multiplier as nat) + "x"@,
{
    string_of(&concat(&decimal_exec(multiplier as u64), &text("x")))
}

/// A label that reads as a multiplier badge: it ends in `x` and is at most three
/// bytes long.
pub open spec fn badge_like(label: Seq<char>) -> bool {
    label.len() > 0 && label.last() == 'x' && utf8_len(label) <= 3
}

/// Whether a label of a profile's row is its multiplier badge: it ends in `x`
/// and is at most three bytes long.
pub fn is_multiplier_badge(label: &str) -> (r: bool)
    ensures
        r == badge_like(label@),
{
    let c = chars_of(label);
    let n = c.len();
    if n == 0 || c[n - 1] != 'x' {
        return false;
    }
    !crate::process::utf8_longer_than(&c, 3)
}

/// The badge made for a multiplier below 100 reads as a badge, so that renaming
/// a profile finds its badge again and rewrites it.
pub proof fn lemma_badge_recognized(m: u32)
    requires
        m < 100,
    ensures
        badge_like(decimal(m as nat) + "x"@),
{
    reveal_strlit("x");
    let d = decimal(m as nat);
    let s = d + "x"@;
    assert(s.last() == 'x');
    assert(s.drop_last() =~= d);
    assert(utf8_width('x') == 1);
    if m < 10 {
        assert(d.drop_last() =~= Seq::<char>::empty());
        assert(utf8_width(d.last()) == 1);
        assert(utf8_len(d.drop_last()) == 0);
        assert(utf8_len(d) == 1);
    } else {
        let hi = (m / 10) as nat;
        assert(decimal(hi) == seq![(48 + hi) as char]);
        assert(d.drop_last() =~= decimal(hi));
        assert(decimal(hi).drop_last() =~= Seq::<char>::empty());
        assert(utf8_width(d.last()) == 1);
        assert(utf8_width(decimal(hi).last()) == 1);
        assert(utf8_len(decimal(hi).drop_last()) == 0);
        assert(utf8_len(decimal(hi)) == 1);
        assert(utf8_len(d) == 2);
    }
    assert(utf8_len(s) == utf8_len(d) + 1);
}

/// The Proton status line and its style class.
pub open spec fn proton_status_spec(lib_exists: bool, layer_exists: bool) -> (Seq<char>, Seq<char>) {
    if lib_exists && layer_exists {
        ("Ready"@, "success"@)
    } else if !lib_exists && !layer_exists {
        ("Not set up (native games OK)"@, "dim-label"@)
    } else if !lib_exists {
        ("Incomplete: missing .so"@, "warning"@)
    } else {
        ("Incomplete: missing JSON"@, "warning"@)
    }
}

/// The Proton status line and its style class, given whether the library copy and
/// the user's layer manifest exist.
pub fn proton_status(lib_exists: bool, layer_exists: bool) -> (r: (String, String))
    ensures
        (r.0@, r.1@) == proton_status_spec(lib_exists, layer_exists),
{
    if lib_exists && layer_exists {
        ("Ready".to_owned(), "success".to_owned())
    } else if !lib_exists && !layer_exists {
        ("Not set up (native games OK)".to_owned(), "dim-label".to_owned())
    } else {
        if !lib_exists {
            ("Incomplete: missing .so".to_owned(), "warning".to_owned())
        } else {
            ("Incomplete: missing JSON".to_owned(), "warning".to_owned())
        }
    }
}

/// The layer status line of the overlay and its style class.
pub open spec fn hud_layer_spec(s: LayerStatus) -> (Seq<char>, Seq<char>) {
    if s.disabled {
        ("Layer: DISABLED"@, "error"@)
    } else if s.installed {
        ("Layer: Active"@, "success"@)
    } else {
        ("Layer: NOT installed"@, "error"@)
    }
}

/// The layer status line of the overlay and its style class.
pub fn hud_layer_line(s: &LayerStatus) -> (r: (String, String))
    ensures
        (r.0@, r.1@) == hud_layer_spec(*s),
{
    if s.disabled {
        ("Layer: DISABLED".to_owned(), "error".to_owned())
    } else if s.installed {
        ("Layer: Active".to_owned(), "success".to_owned())
    } else {
        ("Layer: NOT installed".to_owned(), "error".to_owned())
    }
}

/// The layer status of the status bar: its text, icon and style class.
pub open spec fn inline_layer_spec(s: LayerStatus) -> (Seq<char>, Seq<char>, Seq<char>) {
    if s.disabled {
        ("Layer: DISABLED"@, "dialog-warning-symbolic"@, "warning"@)
    } else if s.installed {
        ("Layer: Active"@, "emblem-default-symbolic"@, "success"@)
    } else {
        ("Layer: Not installed"@, "dialog-error-symbolic"@, "error"@)
    }
}

/// The layer status of the status bar: its text, icon and style class.
pub fn inline_layer_indicator(s: &LayerStatus) -> (r: (String, String, String))
    ensures
        (r.0@, r.1@, r.2@) == inline_layer_spec(*s),
{
    if s.disabled {
        (
            "Layer: DISABLED".to_owned(),
            "dialog-warning-symbolic".to_owned(),
            "warning".to_owned(),
        )
    } else if s.installed {
        ("Layer: Active".to_owned(), "emblem-default-symbolic".to_owned(), "success".to_owned())
    } else {
        ("Layer: Not installed".to_owned(), "dialog-error-symbolic".to_owned(), "error".to_owned())
    }
}

/// The status bar and the overlay show the layer in green ("success") exactly when
/// it is installed and not disabled.
pub proof fn lemma_layer_green_iff_active(s: LayerStatus)
    ensures
        (inline_layer_spec(s).2 == "success"@) <==> (s.installed && !s.disabled),
        (hud_layer_spec(s).1 == "success"@) <==> (s.installed && !s.disabled),
{
    reveal_strlit("success");
    reveal_strlit("warning");
    reveal_strlit("error");
    assert("success"@[0] != "warning"@[0]);
    assert("success"@.len() != "error"@.len());
}

/// The profile names of `ms`, each once, in the order they first occur.
pub open spec fn distinct_profiles(ms: Seq<ActiveMatchView>) -> Seq<Seq<char>>
    decreases ms.len(),
{
    if ms.len() == 0 {
        seq![]
    } else {
        let prev = distinct_profiles(ms.drop_last());
        if prev.contains(ms.last().profile_name) {
            prev
        } else {
            prev.push(ms.last().profile_name)
        }
    }
}

/// The status bar's summary of the active profiles.
pub open spec fn active_summary_spec(ms: Seq<ActiveMatchView>) -> Seq<char> {
    let n = distinct_profiles(ms).len();
    if ms.len() == 0 {
        "No active profiles"@
    } else {
        "Active: "@ + decimal(n) + " profile"@ + (if n == 1 {
            ""@
        } else {
            "s"@
        })
    }
}

/// The status bar's summary of the active profiles: how many distinct profiles
/// have a running game.
pub fn active_summary(matches: &[ActiveMatch]) -> (r: String)
    ensures
        r@ == active_summary_spec(matches_view(matches@)),
{
    let ghost mv = matches_view(matches@);
    if matches.len() == 0 {
        return "No active profiles".to_owned();
    }
    let mut names: Vec<Vec<char>> = Vec::new();
    let n = matches.len();
    let mut i: usize = 0;
    assert(names.deep_view() =~= distinct_profiles(mv.take(0)));
    while i < n
        invariant
            n == matches@.len(),
            mv == matches_view(matches@),
            i <= n,
            names.deep_view() == distinct_profiles(mv.take(i as int)),
        decreases n - i,
    {
        assert(mv.take(i + 1).drop_last() =~= mv.take(i as int));
        assert(mv.take(i + 1).last() == matches@[i as int]@);
        let name = chars_of(matches[i].profile_name.as_str());
        if !list_contains(&names, &name) {
            let ghost before = names.deep_view();
            proof {
                lemma_chars_deep_view(name);
            }
            names.push(name);
            assert(names.deep_view() =~= before.push(matches@[i as int]@.profile_name));
        }
        i = i + 1;
    }
    assert(mv.take(n as int) =~= mv);
    let count = names.len();
    let plural = if count == 1 {
        text("")
    } else {
        text("s")
    };
    let head = concat(&text("Active: "), &decimal_exec(count as u64));
    string_of(&concat3(&head, &text(" profile"), &plural))
}

/// How a match is named in the overlay: "comm (pid N)".
pub open spec fn match_label(m: ActiveMatchView) -> Seq<char> {
    m.process_name + " (pid "@ + decimal(m.pid as nat) + ")"@
}

/// The overlay's text when there are no metrics.
pub open spec fn hud_idle_spec(ms: Seq<ActiveMatchView>) -> Seq<char> {
    if ms.len() == 0 {
        "No active FG session.\n\nLaunch a profiled game to see\nreal-time frame generation metrics."@
    } else {
        "Process running but no metrics:\n"@ + join(
            ms.map_values(|m: ActiveMatchView| match_label(m)),
            ", "@,
        ) + "\n\nThe game may not be using Vulkan,\nor the layer hasn't hooked in yet."@
    }
}

/// The overlay's text when the layer reports no metrics: either that nothing runs,
/// or which matching processes run.
pub fn hud_idle_text(matches: &[ActiveMatch]) -> (r: String)
    ensures
        r@ == hud_idle_spec(matches_view(matches@)),
{
    if matches.len() == 0 {
        return "No active FG session.\n\nLaunch a profiled game to see\nreal-time frame generation metrics.".to_owned();
    }
    let ghost labels = matches_view(matches@).map_values(|m: ActiveMatchView| match_label(m));
    let mut parts: Vec<Vec<char>> = Vec::new();
    let n = matches.len();
    let mut i: usize = 0;
    while i < n
        invariant
            n == matches@.len(),
            labels == matches_view(matches@).map_values(|m: ActiveMatchView| match_label(m)),
            i <= n,
            parts.deep_view() == labels.take(i as int),
        decreases n - i,
    {
        let m = &matches[i];
        let a = concat(&chars_of(m.process_name.as_str()), &text(" (pid "));
        let part = concat3(&a, &decimal_exec(m.pid as u64), &text(")"));
        let ghost before = parts.deep_view();
        proof {
            lemma_chars_deep_view(part);
        }
        assert(part@ == match_label(matches@[i as int]@));
        assert(labels[i as int] == match_label(matches@[i as int]@));
        let ghost pv = part@;
        parts.push(part);
        assert(parts.deep_view() =~= before.push(pv));
        assert(labels.take(i + 1) =~= labels.take(i as int).push(labels[i as int]));
        i = i + 1;
    }
    assert(labels.take(n as int) =~= labels);
    let body = join_exec(&parts, &text(", "));
    let head = text("Process running but no metrics:\n");
    let tail = text("\n\nThe game may not be using Vulkan,\nor the layer hasn't hooked in yet.");
    string_of(&concat3(&head, &body, &tail))
}

/// Whether the in-game overlay is switched on, given the text of its switch file
/// (`None` when it does not exist or cannot be read): it starts with `1`.
pub fn osd_enabled(content: &Option<String>) -> (r: bool)
    ensures
        r == (content matches Some(c) && c@.len() > 0 && c@[0] == '1'),
{
    match content {
        Some(c) => {
            let v = chars_of(c.as_str());
            v.len() > 0 && v[0] == '1'
        },
        None => false,
    }
}

/// The tooltip of the in-game overlay switch.
pub fn osd_tooltip(active: bool) -> (r: String)
    ensures
        r@ == (if active {
            "In-Game OSD: ON (click to hide)"@
        } else {
            "In-Game OSD: OFF (click to show)"@
        }),
{
    if active {
        "In-Game OSD: ON (click to hide)".to_owned()
    } else {
        "In-Game OSD: OFF (click to show)".to_owned()
    }
}

/// The lower-cased names of `v`.
pub open spec fn lowered(v: Seq<Seq<char>>) -> Seq<Seq<char>> {
    v.map_values(|s: Seq<char>| lowercase(s))
}

/// Add `exec` to a profile's targets unless `lowered_exec` (its lower-cased form)
/// is among `lowered_targets` (the targets lower-cased); returns whether it was
/// added.
pub fn add_lowered_target(
    entries: &mut Vec<String>,
    lowered_targets: &Vec<String>,
    exec: String,
    lowered_exec: &str,
) -> (r: bool)
    ensures
        r == !strings_view(lowered_targets@).contains(lowered_exec@),
        r ==> final(entries)@ == old(entries)@.push(exec),
        !r ==> final(entries)@ == old(entries)@,
{
    if crate::text::strings_contain(lowered_targets.as_slice(), &chars_of(lowered_exec)) {
        false
    } else {
        entries.push(exec);
        true
    }
}

/// The strings of `v`, each lower-cased.
fn lowered_strings(v: &[String]) -> (r: Vec<String>)
    ensures
        strings_view(r@) == lowered(strings_view(v@)),
{
    let mut out: Vec<String> = Vec::new();
    let n = v.len();
    let mut i: usize = 0;
    while i < n
        invariant
            n == v@.len(),
            i <= n,
            strings_view(out@) == lowered(strings_view(v@)).take(i as int),
        decreases n - i,
    {
        let low = string_of(&to_lowercase(&chars_of(v[i].as_str())));
        let ghost before = strings_view(out@);
        out.push(low);
        assert(strings_view(out@) =~= before.push(lowercase(v@[i as int]@)));
        assert(lowered(strings_view(v@)).take(i + 1) =~= lowered(strings_view(v@)).take(i as int).push(
            lowercase(v@[i as int]@),
        ));
        i = i + 1;
    }
    assert(lowered(strings_view(v@)).take(n as int) =~= lowered(strings_view(v@)));
    out
}

/// Add `exec` to a profile's targets unless a target equal to it after lower-casing
/// is already there; returns whether it was added.
pub fn add_target(entries: &mut Vec<String>, exec: String) -> (r: bool)
    ensures
        r == !lowered(strings_view(old(entries)@)).contains(lowercase(exec@)),
        r ==> final(entries)@ == old(entries)@.push(exec),
        !r ==> final(entries)@ == old(entries)@,
{
    let lowered_targets = lowered_strings(entries.as_slice());
    let low = string_of(&to_lowercase(&chars_of(exec.as_str())));
    add_lowered_target(entries, &lowered_targets, exec, low.as_str())
}

/// `v` without the items equal to `x`.
pub open spec fn without(v: Seq<Seq<char>>, x: Seq<char>) -> Seq<Seq<char>>
    decreases v.len(),
{
    if v.len() == 0 {
        v
    } else if v.last() == x {
        without(v.drop_last(), x)
    } else {
        without(v.drop_last(), x).push(v.last())
    }
}

/// Remove every target equal to `name` from a profile's targets.
pub fn remove_target(entries: &mut Vec<String>, name: &str)
    ensures
        strings_view(final(entries)@) == without(strings_view(old(entries)@), name@),
{
    let ghost start = strings_view(entries@);
    let target = chars_of(name);
    let mut kept: Vec<String> = Vec::new();
    let n = entries.len();
    let mut i: usize = 0;
    while i < n
        invariant
            n == entries@.len(),
            start == strings_view(entries@),
            target@ == name@,
            i <= n,
            strings_view(kept@) == without(start.take(i as int), name@),
        decreases n - i,
    {
        assert(start.take(i + 1).drop_last() =~= start.take(i as int));
        assert(start.take(i + 1).last() == entries@[i as int]@);
        if !chars_eq(&chars_of(entries[i].as_str()), &target) {
            let ghost before = strings_view(kept@);
            kept.push(entries[i].clone());
            assert(strings_view(kept@) =~= before.push(entries@[i as int]@));
        }
        i = i + 1;
    }
    assert(start.take(n as int) =~= start);
    *entries = kept;
}

/// The targets that `add_target` leaves: `exec` added unless a target equal to it
/// after lower-casing is there.
pub open spec fn with_target(targets: Seq<Seq<char>>, exec: Seq<char>) -> Seq<Seq<char>> {
    if lowered(targets).contains(lowercase(exec)) {
        targets
    } else {
        targets.push(exec)
    }
}

/// Adding a target never makes two targets equal after lower-casing.
pub proof fn lemma_add_target_keeps_distinct(targets: Seq<Seq<char>>, exec: Seq<char>)
    requires
        lowered(targets).no_duplicates(),
    ensures
        lowered(with_target(targets, exec)).no_duplicates(),
{
    if !lowered(targets).contains(lowercase(exec)) {
        let r = lowered(targets.push(exec));
        assert(r =~= lowered(targets).push(lowercase(exec)));
        assert forall|i: int, j: int| 0 <= i < r.len() && 0 <= j < r.len() && i != j implies r[i] != r[j] by {
            if i == r.len() - 1 {
                assert(lowered(targets)[j] == r[j]);
            } else if j == r.len() - 1 {
                assert(lowered(targets)[i] == r[i]);
            } else {
                assert(lowered(targets)[i] == r[i]);
                assert(lowered(targets)[j] == r[j]);
            }
        }
    }
}

/// Removing a target leaves no target equal to it, and keeps every other one.
pub proof fn lemma_remove_target(targets: Seq<Seq<char>>, name: Seq<char>)
    ensures
        !without(targets, name).contains(name),
        forall|t: Seq<char>| t != name ==> (targets.contains(t) <==> without(targets, name).contains(t)),
    decreases targets.len(),
{
    if targets.len() > 0 {
        let d = targets.drop_last();
        lemma_remove_target(d, name);
        let r = without(targets, name);
        assert forall|t: Seq<char>| t != name implies (targets.contains(t) <==> r.contains(t)) by {
            if targets.contains(t) {
                let k = choose|k: int| 0 <= k < targets.len() && targets[k] == t;
                if k < targets.len() - 1 {
                    assert(d[k] == t);
                    assert(d.contains(t));
                    assert(without(d, name).contains(t));
                    let m = choose|m: int| 0 <= m < without(d, name).len() && without(d, name)[m] == t;
                    if r == without(d, name) {
                    } else {
                        assert(r[m] == t);
                    }
                } else {
                    assert(r.last() == t);
                    assert(r[r.len() - 1] == t);
                }
            }
            if r.contains(t) {
                let k = choose|k: int| 0 <= k < r.len() && r[k] == t;
                if k < without(d, name).len() {
                    assert(without(d, name)[k] == t);
                    assert(d.contains(t));
                    let m = choose|m: int| 0 <= m < d.len() && d[m] == t;
                    assert(targets[m] == t);
                } else {
                    assert(targets[targets.len() - 1] == t);
                }
            }
        }
        if r.contains(name) {
            let k = choose|k: int| 0 <= k < r.len() && r[k] == name;
            if k < without(d, name).len() {
                assert(without(d, name)[k] == name);
            }
        }
    }
}

/// The most candidates the autocomplete list shows.
pub const MAX_SUGGESTIONS: usize = 30;

/// A candidate's label, executable and secondary text, each lower-cased.
pub open spec fn lowered_entry(e: EntryView) -> (Seq<char>, Seq<char>, Seq<char>) {
    (lowercase(e.label), lowercase(e.executable), lowercase(e.sublabel))
}

/// A candidate, by its lower-cased label, executable and secondary text `l`,
/// fits the query `q` (lower-cased).
pub open spec fn fits_lowered(l: (Seq<char>, Seq<char>, Seq<char>), q: Seq<char>) -> bool {
    contains(l.0, q) || contains(l.1, q) || contains(l.2, q)
}

/// The suggestions for query `q` among candidates given by their lower-cased
/// label, executable and secondary text: the index of each one that fits, up to
/// `MAX_SUGGESTIONS`, with whether its executable is among `existing`.
pub open spec fn lowered_suggestions(
    ls: Seq<(Seq<char>, Seq<char>, Seq<char>)>,
    q: Seq<char>,
    existing: Seq<Seq<char>>,
) -> Seq<(int, bool)>
    decreases ls.len(),
{
    if ls.len() == 0 {
        seq![]
    } else {
        let prev = lowered_suggestions(ls.drop_last(), q, existing);
        let l = ls.last();
        if prev.len() < MAX_SUGGESTIONS && fits_lowered(l, q) {
            prev.push(((ls.len() - 1) as int, existing.contains(l.1)))
        } else {
            prev
        }
    }
}

/// The suggestions for query `q` (lower-cased) among the candidates `es`, where
/// `existing` are the lower-cased targets.
pub open spec fn suggestions(es: Seq<EntryView>, q: Seq<char>, existing: Seq<Seq<char>>) -> Seq<(int, bool)> {
    lowered_suggestions(es.map_values(|e: EntryView| lowered_entry(e)), q, existing)
}

proof fn lemma_lowered_suggestions_prefix(
    ls: Seq<(Seq<char>, Seq<char>, Seq<char>)>,
    q: Seq<char>,
    existing: Seq<Seq<char>>,
    n: int,
)
    requires
        0 <= n <= ls.len(),
    ensures
        forall|k: int| 0 <= k < lowered_suggestions(ls.take(n), q, existing).len() ==> lowered_suggestions(ls, q, existing).contains(
            #[trigger] lowered_suggestions(ls.take(n), q, existing)[k],
        ),
    decreases ls.len() - n,
{
    if n < ls.len() {
        lemma_lowered_suggestions_prefix(ls, q, existing, n + 1);
        let small = lowered_suggestions(ls.take(n), q, existing);
        let big = lowered_suggestions(ls.take(n + 1), q, existing);
        assert(ls.take(n + 1).drop_last() =~= ls.take(n));
        assert forall|k: int| 0 <= k < small.len() implies lowered_suggestions(ls, q, existing).contains(
            #[trigger] small[k],
        ) by {
            assert(big[k] == small[k]);
        }
    } else {
        assert(ls.take(n) =~= ls);
        let all = lowered_suggestions(ls, q, existing);
        assert forall|k: int| 0 <= k < all.len() implies all.contains(#[trigger] all[k]) by {}
    }
}

/// A candidate whose lower-cased label, executable or secondary text holds the
/// lower-cased query is suggested, with whether its executable is among
/// `existing`, unless `MAX_SUGGESTIONS` candidates before it are suggested already.
pub proof fn lemma_fitting_candidate_suggested(es: Seq<EntryView>, q: Seq<char>, existing: Seq<Seq<char>>, i: int)
    requires
        0 <= i < es.len(),
        contains(lowercase(es[i].label), q) || contains(lowercase(es[i].executable), q) || contains(
            lowercase(es[i].sublabel),
            q,
        ),
        suggestions(es.take(i), q, existing).len() < MAX_SUGGESTIONS,
    ensures
        suggestions(es, q, existing).contains((i, existing.contains(lowercase(es[i].executable)))),
{
    let ls = es.map_values(|e: EntryView| lowered_entry(e));
    assert(es.take(i).map_values(|e: EntryView| lowered_entry(e)) =~= ls.take(i));
    assert(ls.take(i + 1).drop_last() =~= ls.take(i));
    assert(ls.take(i + 1).last() == lowered_entry(es[i]));
    let s = lowered_suggestions(ls.take(i + 1), q, existing);
    assert(s[s.len() - 1] == (i, existing.contains(lowercase(es[i].executable))));
    lemma_lowered_suggestions_prefix(ls, q, existing, i + 1);
}

proof fn lemma_lowered_suggestions_sound(
    ls: Seq<(Seq<char>, Seq<char>, Seq<char>)>,
    q: Seq<char>,
    existing: Seq<Seq<char>>,
)
    ensures
        lowered_suggestions(ls, q, existing).len() <= MAX_SUGGESTIONS,
        forall|k: int| 0 <= k < lowered_suggestions(ls, q, existing).len() ==> {
            let (i, b) = #[trigger] lowered_suggestions(ls, q, existing)[k];
            &&& 0 <= i < ls.len()
            &&& contains(ls[i].0, q) || contains(ls[i].1, q) || contains(ls[i].2, q)
            &&& b == existing.contains(ls[i].1)
        },
    decreases ls.len(),
{
    if ls.len() > 0 {
        let prev = lowered_suggestions(ls.drop_last(), q, existing);
        lemma_lowered_suggestions_sound(ls.drop_last(), q, existing);
        let r = lowered_suggestions(ls, q, existing);
        assert forall|k: int| 0 <= k < r.len() implies {
            let (i, b) = #[trigger] r[k];
            &&& 0 <= i < ls.len()
            &&& contains(ls[i].0, q) || contains(ls[i].1, q) || contains(ls[i].2, q)
            &&& b == existing.contains(ls[i].1)
        } by {
            if k < prev.len() {
                assert(r[k] == prev[k]);
                assert(ls.drop_last()[prev[k].0] == ls[prev[k].0]);
            } else {
                assert(ls[ls.len() - 1] == ls.last());
            }
        }
    }
}

/// Each suggestion is a candidate of `es` whose lower-cased label, executable or
/// secondary text holds the query, paired with whether its lower-cased executable
/// is among `existing`; there are never more than `MAX_SUGGESTIONS`.
pub proof fn lemma_suggestions_fit(es: Seq<EntryView>, q: Seq<char>, existing: Seq<Seq<char>>)
    ensures
        suggestions(es, q, existing).len() <= MAX_SUGGESTIONS,
        forall|k: int| 0 <= k < suggestions(es, q, existing).len() ==> {
            let (i, b) = #[trigger] suggestions(es, q, existing)[k];
            &&& 0 <= i < es.len()
            &&& contains(lowercase(es[i].label), q) || contains(lowercase(es[i].executable), q)
                || contains(lowercase(es[i].sublabel), q)
            &&& b == existing.contains(lowercase(es[i].executable))
        },
{
    let ls = es.map_values(|e: EntryView| lowered_entry(e));
    lemma_lowered_suggestions_sound(ls, q, existing);
    let r = suggestions(es, q, existing);
    assert forall|k: int| 0 <= k < r.len() implies {
        let (i, b) = #[trigger] r[k];
        &&& 0 <= i < es.len()
        &&& contains(lowercase(es[i].label), q) || contains(lowercase(es[i].executable), q)
            || contains(lowercase(es[i].sublabel), q)
        &&& b == existing.contains(lowercase(es[i].executable))
    } by {
        assert(ls[r[k].0] == lowered_entry(es[r[k].0]));
    }
}

/// Triples of strings by their views.
pub open spec fn triples_view(v: Seq<(String, String, String)>) -> Seq<(Seq<char>, Seq<char>, Seq<char>)> {
    v.map_values(|t: (String, String, String)| (t.0@, t.1@, t.2@))
}

/// The suggestions for the lower-cased query `q` among candidates given by their
/// lower-cased label, executable and secondary text, where `existing` are the
/// profile's targets lower-cased.
pub fn suggest_from_lowered(lowered: &[(String, String, String)], q: &str, existing: &[String]) -> (r: Vec<
    (usize, bool),
>)
    ensures
        r@.map_values(|x: (usize, bool)| (x.0 as int, x.1)) == lowered_suggestions(
            triples_view(lowered@),
            q@,
            strings_view(existing@),
        ),
{
    let ghost lv = triples_view(lowered@);
    let ghost ex = strings_view(existing@);
    let qv = chars_of(q);
    let mut out: Vec<(usize, bool)> = Vec::new();
    let n = lowered.len();
    let mut i: usize = 0;
    assert(out@.map_values(|x: (usize, bool)| (x.0 as int, x.1)) =~= lowered_suggestions(lv.take(0), q@, ex));
    while i < n
        invariant
            n == lowered@.len(),
            lv == triples_view(lowered@),
            ex == strings_view(existing@),
            qv@ == q@,
            i <= n,
            out@.map_values(|x: (usize, bool)| (x.0 as int, x.1)) == lowered_suggestions(lv.take(i as int), q@, ex),
        decreases n - i,
    {
        assert(lv.take(i + 1).drop_last() =~= lv.take(i as int));
        let t = &lowered[i];
        assert(lv.take(i + 1).last() == (t.0@, t.1@, t.2@));
        if out.len() < MAX_SUGGESTIONS {
            let fits = contains_exec(&chars_of(t.0.as_str()), &qv) || contains_exec(&chars_of(t.1.as_str()), &qv)
                || contains_exec(&chars_of(t.2.as_str()), &qv);
            if fits {
                let already = crate::text::strings_contain(existing, &chars_of(t.1.as_str()));
                let ghost before = out@.map_values(|x: (usize, bool)| (x.0 as int, x.1));
                out.push((i, already));
                assert(out@.map_values(|x: (usize, bool)| (x.0 as int, x.1)) =~= before.push((i as int, already)));
            }
        }
        i = i + 1;
    }
    assert(lv.take(n as int) =~= lv);
    out
}

/// The candidates of `all`, each by its lower-cased label, executable and
/// secondary text.
fn lowered_entries(all: &[SelectorEntry]) -> (r: Vec<(String, String, String)>)
    ensures
        triples_view(r@) == entries_view(all@).map_values(|e: EntryView| lowered_entry(e)),
{
    let ghost target = entries_view(all@).map_values(|e: EntryView| lowered_entry(e));
    let mut out: Vec<(String, String, String)> = Vec::new();
    let n = all.len();
    let mut i: usize = 0;
    while i < n
        invariant
            n == all@.len(),
            target == entries_view(all@).map_values(|e: EntryView| lowered_entry(e)),
            i <= n,
            triples_view(out@) == target.take(i as int),
        decreases n - i,
    {
        let e = &all[i];
        let l = string_of(&to_lowercase(&chars_of(e.label.as_str())));
        let x = string_of(&to_lowercase(&chars_of(e.executable.as_str())));
        let s = string_of(&to_lowercase(&chars_of(e.sublabel.as_str())));
        let ghost before = triples_view(out@);
        let ghost tv = (l@, x@, s@);
        out.push((l, x, s));
        assert(tv == target[i as int]);
        assert(triples_view(out@) =~= before.push(tv));
        assert(target.take(i + 1) =~= target.take(i as int).push(target[i as int]));
        i = i + 1;
    }
    assert(target.take(n as int) =~= target);
    out
}

/// The autocomplete list for the text typed: nothing for empty text (after
/// lower-casing), else the suggestions among `all`, where `targets` are the
/// profile's current targets.
pub fn popover_suggestions(all: &[SelectorEntry], typed: &str, targets: &[String]) -> (r: Vec<(usize, bool)>)
    ensures
        r@.map_values(|x: (usize, bool)| (x.0 as int, x.1)) == (if lowercase(typed@).len() == 0 {
            seq![]
        } else {
            suggestions(entries_view(all@), lowercase(typed@), lowered(strings_view(targets@)))
        }),
{
    let q = string_of(&to_lowercase(&chars_of(typed)));
    if q.as_str().is_empty() {
        let out: Vec<(usize, bool)> = Vec::new();
        assert(out@.map_values(|x: (usize, bool)| (x.0 as int, x.1)) =~= Seq::<(int, bool)>::empty());
        return out;
    }
    let existing = lowered_strings(targets);
    let lowered = lowered_entries(all);
    suggest_from_lowered(lowered.as_slice(), q.as_str(), existing.as_slice())
}

} // verus!
