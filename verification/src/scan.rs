//! What a scan of processes, applications or Steam games does with what it read:
//! the order the lists are shown in, and which duplicates are dropped.
use vstd::prelude::*;
use crate::catalog::{DesktopApp, SteamGame};
use crate::process::ProcessInfo;
use crate::sort::{
    distinct_by, keyed, keys_match, lemma_sort_keeps_distinct, lemma_sorted_values, lex_le, sort_by_key,
    sort_keyed, sorted_by, values,
};
use crate::text::{chars_of, chars_eq, eq_ignore_ascii_case, eq_ignore_ascii_case_exec, lowercase, to_lowercase};

verus! {

/// The items of `v`, in order, without their keys.
fn take_values<T>(v: Vec<(Vec<char>, T)>) -> (r: Vec<T>)
    ensures
        r@ == values(keyed(v@)),
{
    let ghost all = values(keyed(v@));
    let mut rest = v;
    let mut res: Vec<T> = Vec::new();
    let ghost mut done: int = 0;
    assert(all.skip(0) =~= values(keyed(rest@)));
    while rest.len() > 0
        invariant
            0 <= done <= all.len(),
            values(keyed(rest@)) == all.skip(done),
            res@ == all.take(done),
        decreases rest@.len(),
    {
        let ghost before = rest@;
        assert(done < all.len()) by {
            assert(all.skip(done).len() == before.len());
        }
        let x = rest.remove(0);
        assert(all.skip(done)[0] == x.1);
        assert(rest@ =~= before.drop_first());
        assert forall|i: int| 0 <= i < rest@.len() implies values(keyed(rest@))[i] == all.skip(done + 1)[i] by {
            assert(values(keyed(rest@))[i] == before[i + 1].1);
            assert(values(keyed(before))[i + 1] == before[i + 1].1);
            assert(values(keyed(before)).len() == before.len());
            assert(all.skip(done)[i + 1] == all[done + i + 1]);
            assert(all.skip(done + 1)[i] == all[done + i + 1]);
        }
        assert(values(keyed(rest@)) =~= all.skip(done + 1));
        res.push(x.1);
        proof {
            assert(res@ =~= all.take(done + 1));
            done = done + 1;
        }
    }
    assert(all.take(done) =~= all);
    res
}

/// The name a scanned process goes by: the Windows executable detected for it,
/// else its `comm`.
pub open spec fn effective_name(p: ProcessInfo) -> Seq<char> {
    match p.wine_exe {
        Some(w) => w@,
        None => p.comm@,
    }
}

fn effective_name_exec(p: &ProcessInfo) -> (r: Vec<char>)
    ensures
        r@ == effective_name(*p),
{
    match &p.wine_exe {
        Some(w) => chars_of(w.as_str()),
        None => chars_of(p.comm.as_str()),
    }
}

/// `s` with each process dropped whose effective name equals, ignoring ASCII
/// case, that of the last process kept before it (what `Vec::dedup_by` does).
pub open spec fn dedup_by_name(s: Seq<ProcessInfo>) -> Seq<ProcessInfo>
    decreases s.len(),
{
    if s.len() == 0 {
        s
    } else {
        let d = dedup_by_name(s.drop_last());
        if d.len() > 0 && eq_ignore_ascii_case(effective_name(s.last()), effective_name(d.last())) {
            d
        } else {
            d.push(s.last())
        }
    }
}

/// Processes keyed by their lower-cased `comm`.
pub open spec fn by_lower_comm(ps: Seq<ProcessInfo>) -> Seq<(Seq<char>, ProcessInfo)> {
    ps.map_values(|p: ProcessInfo| (lowercase(p.comm@), p))
}

/// Apps keyed by their lower-cased name.
pub open spec fn by_lower_app_name(apps: Seq<DesktopApp>) -> Seq<(Seq<char>, DesktopApp)> {
    apps.map_values(|a: DesktopApp| (lowercase(a.name@), a))
}

/// Games keyed by their lower-cased name.
pub open spec fn by_lower_game_name(games: Seq<SteamGame>) -> Seq<(Seq<char>, SteamGame)> {
    games.map_values(|g: SteamGame| (lowercase(g.name@), g))
}

/// The processes of a scan, in the order it lists them.
pub open spec fn process_scan(procs: Seq<ProcessInfo>) -> Seq<ProcessInfo> {
    dedup_by_name(values(sort_by_key(by_lower_comm(procs))))
}

/// The applications of a scan, in the order it lists them.
pub open spec fn desktop_scan(apps: Seq<DesktopApp>) -> Seq<DesktopApp> {
    values(sort_by_key(by_lower_app_name(unique_names(apps))))
}

/// The Steam games of a scan, in the order it lists them.
pub open spec fn game_scan(games: Seq<SteamGame>) -> Seq<SteamGame> {
    values(sort_by_key(by_lower_game_name(games)))
}

/// The running processes as a scan lists them: sorted by lower-cased `comm`
/// (stably), then with each process dropped that has the effective name of the
/// one kept before it, ignoring ASCII case.
pub fn finish_process_scan(procs: Vec<ProcessInfo>) -> (r: Vec<ProcessInfo>)
    ensures
        r@ == process_scan(procs@),
{
    let ghost input = procs@;
    let mut rest = procs;
    let mut items: Vec<(Vec<char>, ProcessInfo)> = Vec::new();
    let ghost mut done: int = 0;
    assert(input.skip(0) =~= input);
    while rest.len() > 0
        invariant
            0 <= done <= input.len(),
            rest@ == input.skip(done),
            keyed(items@) == by_lower_comm(input.take(done)),
        decreases rest@.len(),
    {
        assert(done < input.len()) by {
            assert(input.skip(done).len() == rest@.len());
        }
        let p = rest.remove(0);
        assert(p == input[done]);
        assert(rest@ =~= input.skip(done + 1));
        let key = to_lowercase(&chars_of(p.comm.as_str()));
        let ghost old_items = items@;
        let ghost kv = (key@, p);
        items.push((key, p));
        proof {
            assert(keyed(items@) =~= keyed(old_items).push(kv));
            assert(input.take(done + 1) =~= input.take(done).push(input[done]));
            assert(by_lower_comm(input.take(done + 1)) =~= by_lower_comm(input.take(done)).push(kv));
            assert(keyed(items@) =~= by_lower_comm(input.take(done + 1)));
            done = done + 1;
        }
    }
    assert(input.take(done) =~= input);
    let sorted = take_values(sort_keyed(items));
    let ghost all = sorted@;
    let mut rest = sorted;
    let mut res: Vec<ProcessInfo> = Vec::new();
    let ghost mut k: int = 0;
    assert(all.skip(0) =~= all);
    assert(all.take(0) =~= Seq::<ProcessInfo>::empty());
    while rest.len() > 0
        invariant
            0 <= k <= all.len(),
            rest@ == all.skip(k),
            res@ == dedup_by_name(all.take(k)),
        decreases rest@.len(),
    {
        assert(k < all.len()) by {
            assert(all.skip(k).len() == rest@.len());
        }
        let p = rest.remove(0);
        assert(p == all[k]);
        assert(rest@ =~= all.skip(k + 1));
        assert(all.take(k + 1).drop_last() =~= all.take(k));
        assert(all.take(k + 1).last() == p);
        let name = effective_name_exec(&p);
        let same = if res.len() > 0 {
            let last = effective_name_exec(&res[res.len() - 1]);
            eq_ignore_ascii_case_exec(&name, &last)
        } else {
            false
        };
        if !same {
            res.push(p);
        }
        proof {
            k = k + 1;
        }
    }
    assert(all.take(k) =~= all);
    res
}

/// The names of `apps`.
pub open spec fn app_names(apps: Seq<DesktopApp>) -> Seq<Seq<char>> {
    apps.map_values(|a: DesktopApp| a.name@)
}

/// `apps` with each app dropped whose name an earlier kept app has.
pub open spec fn unique_names(apps: Seq<DesktopApp>) -> Seq<DesktopApp>
    decreases apps.len(),
{
    if apps.len() == 0 {
        apps
    } else {
        let d = unique_names(apps.drop_last());
        if app_names(d).contains(apps.last().name@) {
            d
        } else {
            d.push(apps.last())
        }
    }
}

fn has_app_named(apps: &Vec<DesktopApp>, name: &Vec<char>) -> (r: bool)
    ensures
        r == app_names(apps@).contains(name@),
{
    let mut i: usize = 0;
    while i < apps.len()
        invariant
            i <= apps@.len(),
            forall|j: int| 0 <= j < i ==> apps@[j].name@ != name@,
        decreases apps@.len() - i,
    {
        if chars_eq(&chars_of(apps[i].name.as_str()), name) {
            assert(app_names(apps@)[i as int] == name@);
            return true;
        }
        i = i + 1;
    }
    assert forall|j: int| 0 <= j < app_names(apps@).len() implies app_names(apps@)[j] != name@ by {
        assert(apps@[j].name@ != name@);
    }
    false
}

/// The applications as a scan lists them: the first app of each name, in the
/// order they were read, then sorted by lower-cased name (stably).
pub fn finish_desktop_scan(apps: Vec<DesktopApp>) -> (r: Vec<DesktopApp>)
    ensures
        r@ == desktop_scan(apps@),
{
    let ghost input = apps@;
    let mut rest = apps;
    let mut kept: Vec<DesktopApp> = Vec::new();
    let ghost mut done: int = 0;
    assert(input.skip(0) =~= input);
    assert(input.take(0) =~= Seq::<DesktopApp>::empty());
    while rest.len() > 0
        invariant
            0 <= done <= input.len(),
            rest@ == input.skip(done),
            kept@ == unique_names(input.take(done)),
        decreases rest@.len(),
    {
        assert(done < input.len()) by {
            assert(input.skip(done).len() == rest@.len());
        }
        let a = rest.remove(0);
        assert(a == input[done]);
        assert(rest@ =~= input.skip(done + 1));
        assert(input.take(done + 1).drop_last() =~= input.take(done));
        assert(input.take(done + 1).last() == a);
        let name = chars_of(a.name.as_str());
        if !has_app_named(&kept, &name) {
            kept.push(a);
        }
        proof {
            done = done + 1;
        }
    }
    assert(input.take(done) =~= input);
    let ghost uniq = kept@;
    let mut rest = kept;
    let mut items: Vec<(Vec<char>, DesktopApp)> = Vec::new();
    let ghost mut k: int = 0;
    assert(uniq.skip(0) =~= uniq);
    while rest.len() > 0
        invariant
            0 <= k <= uniq.len(),
            rest@ == uniq.skip(k),
            keyed(items@) == by_lower_app_name(uniq.take(k)),
        decreases rest@.len(),
    {
        assert(k < uniq.len()) by {
            assert(uniq.skip(k).len() == rest@.len());
        }
        let a = rest.remove(0);
        assert(a == uniq[k]);
        assert(rest@ =~= uniq.skip(k + 1));
        let key = to_lowercase(&chars_of(a.name.as_str()));
        let ghost old_items = items@;
        let ghost kv = (key@, a);
        items.push((key, a));
        proof {
            assert(keyed(items@) =~= keyed(old_items).push(kv));
            assert(uniq.take(k + 1) =~= uniq.take(k).push(uniq[k]));
            assert(by_lower_app_name(uniq.take(k + 1)) =~= by_lower_app_name(uniq.take(k)).push(kv));
            assert(keyed(items@) =~= by_lower_app_name(uniq.take(k + 1)));
            k = k + 1;
        }
    }
    assert(uniq.take(k) =~= uniq);
    take_values(sort_keyed(items))
}

/// The Steam games as a scan lists them: sorted by lower-cased name (stably).
pub fn sort_steam_games(games: Vec<SteamGame>) -> (r: Vec<SteamGame>)
    ensures
        r@ == game_scan(games@),
{
    let ghost input = games@;
    let mut rest = games;
    let mut items: Vec<(Vec<char>, SteamGame)> = Vec::new();
    let ghost mut k: int = 0;
    assert(input.skip(0) =~= input);
    while rest.len() > 0
        invariant
            0 <= k <= input.len(),
            rest@ == input.skip(k),
            keyed(items@) == by_lower_game_name(input.take(k)),
        decreases rest@.len(),
    {
        assert(k < input.len()) by {
            assert(input.skip(k).len() == rest@.len());
        }
        let g = rest.remove(0);
        assert(g == input[k]);
        assert(rest@ =~= input.skip(k + 1));
        let key = to_lowercase(&chars_of(g.name.as_str()));
        let ghost old_items = items@;
        let ghost kv = (key@, g);
        items.push((key, g));
        proof {
            assert(keyed(items@) =~= keyed(old_items).push(kv));
            assert(input.take(k + 1) =~= input.take(k).push(input[k]));
            assert(by_lower_game_name(input.take(k + 1)) =~= by_lower_game_name(input.take(k)).push(kv));
            assert(keyed(items@) =~= by_lower_game_name(input.take(k + 1)));
            k = k + 1;
        }
    }
    assert(input.take(k) =~= input);
    take_values(sort_keyed(items))
}

/// Each process kept by `dedup_by_name(s)` is a process of `s`.
proof fn lemma_dedup_items(s: Seq<ProcessInfo>)
    ensures
        forall|i: int| 0 <= i < dedup_by_name(s).len() ==> s.contains(#[trigger] dedup_by_name(s)[i]),
    decreases s.len(),
{
    if s.len() > 0 {
        let d = dedup_by_name(s.drop_last());
        lemma_dedup_items(s.drop_last());
        assert forall|i: int| 0 <= i < dedup_by_name(s).len() implies s.contains(#[trigger] dedup_by_name(s)[i]) by {
            if i < d.len() {
                assert(dedup_by_name(s)[i] == d[i]);
                let k = choose|k: int| 0 <= k < s.drop_last().len() && s.drop_last()[k] == d[i];
                assert(s[k] == d[i]);
            } else {
                assert(s[s.len() - 1] == dedup_by_name(s)[i]);
            }
        }
    }
}

/// Dropping duplicates keeps processes that were in the order of `f` in it, and
/// leaves no two neighbours with effective names equal ignoring ASCII case.
proof fn lemma_dedup_order(s: Seq<ProcessInfo>, f: spec_fn(ProcessInfo) -> Seq<char>)
    requires
        sorted_by(s, f),
    ensures
        sorted_by(dedup_by_name(s), f),
        forall|i: int|
            0 <= i < dedup_by_name(s).len() - 1 ==> !eq_ignore_ascii_case(
                effective_name(#[trigger] dedup_by_name(s)[i + 1]),
                effective_name(dedup_by_name(s)[i]),
            ),
    decreases s.len(),
{
    if s.len() > 0 {
        let t = s.drop_last();
        assert(sorted_by(t, f)) by {
            assert forall|i: int, j: int| 0 <= i < j < t.len() implies lex_le(f(#[trigger] t[i]), f(#[trigger] t[j])) by {
                assert(t[i] == s[i] && t[j] == s[j]);
            }
        }
        lemma_dedup_order(t, f);
        lemma_dedup_items(t);
        let d = dedup_by_name(t);
        let r = dedup_by_name(s);
        if r != d {
            assert(r == d.push(s.last()));
            assert forall|i: int, j: int| 0 <= i < j < r.len() implies lex_le(f(#[trigger] r[i]), f(#[trigger] r[j])) by {
                assert(r[i] == d[i]);
                if j < d.len() {
                    assert(r[j] == d[j]);
                } else {
                    assert(t.contains(d[i]));
                    let k = choose|k: int| 0 <= k < t.len() && t[k] == d[i];
                    assert(s[k] == d[i]);
                    assert(r[j] == s[s.len() - 1]);
                }
            }
            assert forall|i: int| 0 <= i < r.len() - 1 implies !eq_ignore_ascii_case(
                effective_name(#[trigger] r[i + 1]),
                effective_name(r[i]),
            ) by {
                assert(r[i] == d[i]);
                if i + 1 < d.len() {
                    assert(r[i + 1] == d[i + 1]);
                } else {
                    assert(r[i + 1] == s.last());
                    assert(d[i] == d.last());
                }
            }
        }
    }
}

/// A process scan lists processes in the order of their lower-cased `comm`, and
/// no process right after another has the same effective name, ignoring ASCII
/// case.
pub proof fn lemma_process_scan_order(procs: Seq<ProcessInfo>)
    ensures
        sorted_by(process_scan(procs), |p: ProcessInfo| lowercase(p.comm@)),
        forall|i: int|
            0 <= i < process_scan(procs).len() - 1 ==> !eq_ignore_ascii_case(
                effective_name(#[trigger] process_scan(procs)[i + 1]),
                effective_name(process_scan(procs)[i]),
            ),
{
    let f = |p: ProcessInfo| lowercase(p.comm@);
    let k = by_lower_comm(procs);
    assert(keys_match(k, f));
    lemma_sorted_values(k, f);
    lemma_dedup_order(values(sort_by_key(k)), f);
}

/// No two apps of `unique_names(apps)` have the same name.
proof fn lemma_unique_names(apps: Seq<DesktopApp>)
    ensures
        distinct_by(unique_names(apps), |a: DesktopApp| a.name@),
    decreases apps.len(),
{
    if apps.len() > 0 {
        let d = unique_names(apps.drop_last());
        lemma_unique_names(apps.drop_last());
        let r = unique_names(apps);
        if r != d {
            assert(!app_names(d).contains(apps.last().name@));
            assert forall|i: int, j: int| 0 <= i < j < r.len() implies (#[trigger] r[i]).name@ != (
            #[trigger] r[j]).name@ by {
                assert(r[i] == d[i]);
                if j < d.len() {
                    assert(r[j] == d[j]);
                } else {
                    assert(app_names(d)[i] == d[i].name@);
                    assert(r[j] == apps.last());
                }
            }
        }
    }
}

/// An application scan lists each name once, in the order of the lower-cased
/// names.
pub proof fn lemma_desktop_scan(apps: Seq<DesktopApp>)
    ensures
        distinct_by(desktop_scan(apps), |a: DesktopApp| a.name@),
        sorted_by(desktop_scan(apps), |a: DesktopApp| lowercase(a.name@)),
{
    let u = unique_names(apps);
    let k = by_lower_app_name(u);
    lemma_unique_names(apps);
    assert(values(k) =~= u);
    lemma_sort_keeps_distinct(k, |a: DesktopApp| a.name@);
    assert(keys_match(k, |a: DesktopApp| lowercase(a.name@)));
    lemma_sorted_values(k, |a: DesktopApp| lowercase(a.name@));
}

/// A Steam game scan lists the games it was given, as many as there are, in the
/// order of their lower-cased names.
pub proof fn lemma_game_scan(games: Seq<SteamGame>)
    ensures
        sorted_by(game_scan(games), |g: SteamGame| lowercase(g.name@)),
        game_scan(games).len() == games.len(),
{
    let k = by_lower_game_name(games);
    assert(keys_match(k, |g: SteamGame| lowercase(g.name@)));
    lemma_sorted_values(k, |g: SteamGame| lowercase(g.name@));
}

} // verus!
