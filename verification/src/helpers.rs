//! Which profile's game is running, and the profile targets in the form the
//! process matcher takes.
use vstd::prelude::*;
use crate::config::{profiles_view, GameConf, GameConfView};
use crate::process::{
    active_matches, lemma_exe_path_names_process, match_of, matches_for_target,
    matches_for_targets, proc_matches, proc_matches_exec, processes_view, profile_pairs_view,
    ActiveMatchView, ProcessInfo, ProcessView,
};
use crate::text::chars_of;

verus! {

/// Some target of profile `p` names some process of `ps`.
pub open spec fn profile_is_running(ps: Seq<ProcessView>, p: GameConfView) -> bool {
    exists|j: int, t: int|
        0 <= j < ps.len() && 0 <= t < p.active_in.targets().len() && #[trigger] proc_matches(
            ps[j],
            #[trigger] p.active_in.targets()[t],
        )
}

/// The first profile of `profs` that is running, if any.
pub open spec fn running_profile(ps: Seq<ProcessView>, profs: Seq<GameConfView>) -> Option<
    GameConfView,
>
    decreases profs.len(),
{
    if profs.len() == 0 {
        None
    } else if profile_is_running(ps, profs[0]) {
        Some(profs[0])
    } else {
        running_profile(ps, profs.drop_first())
    }
}

fn profile_running_exec(processes: &[ProcessInfo], profile: &GameConf) -> (r: bool)
    ensures
        r == profile_is_running(processes_view(processes@), profile@),
{
    let ghost pv = processes_view(processes@);
    let targets = profile.active_in_list();
    let ghost tv = targets.deep_view();
    assert(tv == profile@.active_in.targets());
    let n = processes.len();
    let m = targets.len();
    let mut j: usize = 0;
    while j < n
        invariant
            n == processes@.len(),
            pv == processes_view(processes@),
            m == tv.len(),
            tv == targets.deep_view(),
            tv == profile@.active_in.targets(),
            j <= n,
            forall|jj: int, t: int| 0 <= jj < j && 0 <= t < m ==> !#[trigger] proc_matches(pv[jj], #[trigger] tv[t]),
        decreases n - j,
    {
        let mut t: usize = 0;
        while t < m
            invariant
                n == processes@.len(),
                pv == processes_view(processes@),
                m == tv.len(),
                tv == targets.deep_view(),
                tv == profile@.active_in.targets(),
                j < n,
                t <= m,
                forall|tt: int| 0 <= tt < t ==> !#[trigger] proc_matches(pv[j as int], tv[tt]),
            decreases m - t,
        {
            let a = chars_of(targets[t].as_str());
            assert(a@ == tv[t as int]);
            assert(processes@[j as int]@ == pv[j as int]);
            if proc_matches_exec(&processes[j], &a) {
                assert(proc_matches(pv[j as int], tv[t as int]));
                assert(proc_matches(
                    processes_view(processes@)[j as int],
                    profile@.active_in.targets()[t as int],
                ));
                return true;
            }
            t = t + 1;
        }
        j = j + 1;
    }
    false
}

/// The first profile, in order, one of whose targets names a running process
/// (a copy of it), or `None` when no profile's target names one.
pub fn detect_running_game(processes: &[ProcessInfo], profiles: &[GameConf]) -> (r: Option<
    GameConf,
>)
    ensures
        match r {
            Some(g) => running_profile(processes_view(processes@), profiles_view(profiles@))
                == Some(g@),
            None => running_profile(processes_view(processes@), profiles_view(profiles@)) is None,
        },
{
    let ghost pv = processes_view(processes@);
    let ghost fv = profiles_view(profiles@);
    let n = profiles.len();
    let mut i: usize = 0;
    assert(fv.skip(0) =~= fv);
    while i < n
        invariant
            n == profiles@.len(),
            pv == processes_view(processes@),
            fv == profiles_view(profiles@),
            i <= n,
            running_profile(pv, fv.skip(i as int)) == running_profile(pv, fv),
        decreases n - i,
    {
        assert(fv.skip(i as int)[0] == profiles@[i as int]@);
        assert(fv.skip(i as int).drop_first() =~= fv.skip(i + 1));
        if profile_running_exec(processes, &profiles[i]) {
            return Some(profiles[i].clone());
        }
        i = i + 1;
    }
    None
}

/// The targets of each profile, paired with its name.
pub open spec fn profile_targets(profs: Seq<GameConfView>) -> Seq<(Seq<char>, Seq<Seq<char>>)> {
    profs.map_values(|p: GameConfView| (p.name, p.active_in.targets()))
}

/// Each profile's name with its targets, in order.
pub fn profile_target_pairs(profiles: &[GameConf]) -> (r: Vec<(String, Vec<String>)>)
    ensures
        profile_pairs_view(r@) == profile_targets(profiles_view(profiles@)),
{
    let mut out: Vec<(String, Vec<String>)> = Vec::new();
    let n = profiles.len();
    let mut i: usize = 0;
    while i < n
        invariant
            n == profiles@.len(),
            i <= n,
            profile_pairs_view(out@) == profile_targets(profiles_view(profiles@.take(i as int))),
        decreases n - i,
    {
        let pair = (profiles[i].name.clone(), profiles[i].active_in_list());
        let ghost before = profile_pairs_view(out@);
        out.push(pair);
        assert(profile_pairs_view(out@) =~= before.push((pair.0@, pair.1.deep_view())));
        assert(profiles_view(profiles@.take(i + 1)) =~= profiles_view(profiles@.take(i as int)).push(
            profiles@[i as int]@,
        ));
        assert(profile_targets(profiles_view(profiles@.take(i + 1))) =~= profile_targets(
            profiles_view(profiles@.take(i as int)),
        ).push((profiles@[i as int]@.name, profiles@[i as int]@.active_in.targets())));
        i = i + 1;
    }
    assert(profiles@.take(n as int) =~= profiles@);
    out
}

proof fn lemma_target_matches_empty(ps: Seq<ProcessView>, name: Seq<char>, a: Seq<char>)
    ensures
        matches_for_target(ps, name, a).len() == 0 <==> forall|j: int|
            0 <= j < ps.len() ==> !#[trigger] proc_matches(ps[j], a),
    decreases ps.len(),
{
    if ps.len() > 0 {
        lemma_target_matches_empty(ps.drop_last(), name, a);
        assert forall|j: int| 0 <= j < ps.len() - 1 implies ps.drop_last()[j] == ps[j] by {}
        if !proc_matches(ps.last(), a) && forall|j: int|
            0 <= j < ps.drop_last().len() ==> !#[trigger] proc_matches(ps.drop_last()[j], a) {
            assert forall|j: int| 0 <= j < ps.len() implies !#[trigger] proc_matches(ps[j], a) by {
                if j < ps.len() - 1 {
                    assert(ps.drop_last()[j] == ps[j]);
                }
            }
        }
    }
}

proof fn lemma_targets_matches_empty(ps: Seq<ProcessView>, name: Seq<char>, ts: Seq<Seq<char>>)
    ensures
        matches_for_targets(ps, name, ts).len() == 0 <==> forall|t: int|
            0 <= t < ts.len() ==> #[trigger] matches_for_target(ps, name, ts[t]).len() == 0,
    decreases ts.len(),
{
    if ts.len() > 0 {
        lemma_targets_matches_empty(ps, name, ts.drop_last());
        assert forall|t: int| 0 <= t < ts.len() - 1 implies ts.drop_last()[t] == ts[t] by {}
        if matches_for_target(ps, name, ts.last()).len() == 0 && forall|t: int|
            0 <= t < ts.drop_last().len() ==> #[trigger] matches_for_target(
                ps,
                name,
                ts.drop_last()[t],
            ).len() == 0 {
            assert forall|t: int| 0 <= t < ts.len() implies #[trigger] matches_for_target(
                ps,
                name,
                ts[t],
            ).len() == 0 by {
                if t < ts.len() - 1 {
                    assert(ts.drop_last()[t] == ts[t]);
                }
            }
        }
    }
}

proof fn lemma_active_matches_empty(ps: Seq<ProcessView>, prs: Seq<(Seq<char>, Seq<Seq<char>>)>)
    ensures
        active_matches(ps, prs).len() == 0 <==> forall|i: int|
            0 <= i < prs.len() ==> #[trigger] matches_for_targets(ps, prs[i].0, prs[i].1).len()
                == 0,
    decreases prs.len(),
{
    if prs.len() > 0 {
        lemma_active_matches_empty(ps, prs.drop_last());
        assert forall|i: int| 0 <= i < prs.len() - 1 implies prs.drop_last()[i] == prs[i] by {}
        if matches_for_targets(ps, prs.last().0, prs.last().1).len() == 0 && forall|i: int|
            0 <= i < prs.drop_last().len() ==> #[trigger] matches_for_targets(
                ps,
                prs.drop_last()[i].0,
                prs.drop_last()[i].1,
            ).len() == 0 {
            assert forall|i: int| 0 <= i < prs.len() implies #[trigger] matches_for_targets(
                ps,
                prs[i].0,
                prs[i].1,
            ).len() == 0 by {
                if i < prs.len() - 1 {
                    assert(prs.drop_last()[i] == prs[i]);
                }
            }
        }
    }
}

proof fn lemma_running_profile_none(ps: Seq<ProcessView>, profs: Seq<GameConfView>)
    ensures
        running_profile(ps, profs) is None <==> forall|i: int|
            0 <= i < profs.len() ==> !#[trigger] profile_is_running(ps, profs[i]),
    decreases profs.len(),
{
    if profs.len() > 0 {
        lemma_running_profile_none(ps, profs.drop_first());
        assert forall|i: int| 1 <= i < profs.len() implies profs.drop_first()[i - 1] == profs[i] by {}
        if running_profile(ps, profs) is None {
            assert forall|i: int| 0 <= i < profs.len() implies !#[trigger] profile_is_running(
                ps,
                profs[i],
            ) by {
                if i > 0 {
                    assert(profs.drop_first()[i - 1] == profs[i]);
                }
            }
        }
        if forall|i: int| 0 <= i < profs.len() ==> !#[trigger] profile_is_running(ps, profs[i]) {
            assert forall|i: int| 0 <= i < profs.drop_first().len() implies !#[trigger] profile_is_running(
                ps,
                profs.drop_first()[i],
            ) by {
                assert(profs.drop_first()[i] == profs[i + 1]);
            }
        }
    }
}

/// No profile's game is detected as running exactly when matching the profiles'
/// targets against the processes finds no match.
pub proof fn lemma_detect_agrees_with_matches(ps: Seq<ProcessView>, profs: Seq<GameConfView>)
    ensures
        running_profile(ps, profs) is None <==> active_matches(ps, profile_targets(profs)).len()
            == 0,
{
    let prs = profile_targets(profs);
    lemma_running_profile_none(ps, profs);
    lemma_active_matches_empty(ps, prs);
    assert forall|i: int| 0 <= i < profs.len() implies (#[trigger] profile_is_running(ps, profs[i])
        <==> matches_for_targets(ps, prs[i].0, prs[i].1).len() != 0) by {
        let ts = profs[i].active_in.targets();
        assert(prs[i] == (profs[i].name, ts));
        lemma_targets_matches_empty(ps, profs[i].name, ts);
        if profile_is_running(ps, profs[i]) {
            let (j, t) = choose|j: int, t: int|
                0 <= j < ps.len() && 0 <= t < ts.len() && #[trigger] proc_matches(
                    ps[j],
                    #[trigger] ts[t],
                );
            lemma_target_matches_empty(ps, profs[i].name, ts[t]);
        } else {
            assert forall|t: int| 0 <= t < ts.len() implies #[trigger] matches_for_target(
                ps,
                profs[i].name,
                ts[t],
            ).len() == 0 by {
                lemma_target_matches_empty(ps, profs[i].name, ts[t]);
                assert forall|j: int| 0 <= j < ps.len() implies !#[trigger] proc_matches(
                    ps[j],
                    ts[t],
                ) by {}
            }
        }
    }
    assert(prs.len() == profs.len());
    if running_profile(ps, profs) is None {
        assert forall|i: int| 0 <= i < prs.len() implies #[trigger] matches_for_targets(
            ps,
            prs[i].0,
            prs[i].1,
        ).len() == 0 by {
            assert(!profile_is_running(ps, profs[i]));
        }
    }
    if active_matches(ps, prs).len() == 0 {
        assert forall|i: int| 0 <= i < profs.len() implies !#[trigger] profile_is_running(
            ps,
            profs[i],
        ) by {
            assert(matches_for_targets(ps, prs[i].0, prs[i].1).len() == 0);
        }
    }
}

proof fn lemma_target_reports(ps: Seq<ProcessView>, name: Seq<char>, a: Seq<char>, j: int)
    requires
        0 <= j < ps.len(),
        proc_matches(ps[j], a),
    ensures
        matches_for_target(ps, name, a).contains(match_of(name, a, ps[j])),
    decreases ps.len(),
{
    let r = matches_for_target(ps, name, a);
    if j == ps.len() - 1 {
        assert(r.last() == match_of(name, a, ps[j]));
    } else {
        lemma_target_reports(ps.drop_last(), name, a, j);
        assert(ps.drop_last()[j] == ps[j]);
        let prev = matches_for_target(ps.drop_last(), name, a);
        let k = choose|k: int| 0 <= k < prev.len() && prev[k] == match_of(name, a, ps[j]);
        assert(r[k] == prev[k]);
    }
}

proof fn lemma_targets_report(
    ps: Seq<ProcessView>,
    name: Seq<char>,
    ts: Seq<Seq<char>>,
    t: int,
    m: ActiveMatchView,
)
    requires
        0 <= t < ts.len(),
        matches_for_target(ps, name, ts[t]).contains(m),
    ensures
        matches_for_targets(ps, name, ts).contains(m),
    decreases ts.len(),
{
    let prev = matches_for_targets(ps, name, ts.drop_last());
    let last = matches_for_target(ps, name, ts.last());
    assert(matches_for_targets(ps, name, ts) == prev + last);
    if t == ts.len() - 1 {
        let k = choose|k: int| 0 <= k < last.len() && last[k] == m;
        assert((prev + last)[prev.len() + k] == m);
    } else {
        assert(ts.drop_last()[t] == ts[t]);
        lemma_targets_report(ps, name, ts.drop_last(), t, m);
        let k = choose|k: int| 0 <= k < prev.len() && prev[k] == m;
        assert((prev + last)[k] == m);
    }
}

proof fn lemma_profiles_report(
    ps: Seq<ProcessView>,
    prs: Seq<(Seq<char>, Seq<Seq<char>>)>,
    i: int,
    m: ActiveMatchView,
)
    requires
        0 <= i < prs.len(),
        matches_for_targets(ps, prs[i].0, prs[i].1).contains(m),
    ensures
        active_matches(ps, prs).contains(m),
    decreases prs.len(),
{
    let prev = active_matches(ps, prs.drop_last());
    let last = matches_for_targets(ps, prs.last().0, prs.last().1);
    assert(active_matches(ps, prs) == prev + last);
    if i == prs.len() - 1 {
        let k = choose|k: int| 0 <= k < last.len() && last[k] == m;
        assert((prev + last)[prev.len() + k] == m);
    } else {
        assert(prs.drop_last()[i] == prs[i]);
        lemma_profiles_report(ps, prs.drop_last(), i, m);
        let k = choose|k: int| 0 <= k < prev.len() && prev[k] == m;
        assert((prev + last)[k] == m);
    }
}

/// When a profile's target is the full executable path of a running process,
/// matching the profiles against the processes reports that process for that
/// profile and target.
pub proof fn lemma_exe_path_target_reported(
    ps: Seq<ProcessView>,
    prs: Seq<(Seq<char>, Seq<Seq<char>>)>,
    j: int,
    i: int,
    t: int,
)
    requires
        0 <= j < ps.len(),
        0 <= i < prs.len(),
        0 <= t < prs[i].1.len(),
        ps[j].exe == Some(prs[i].1[t]),
    ensures
        active_matches(ps, prs).contains(match_of(prs[i].0, prs[i].1[t], ps[j])),
{
    let m = match_of(prs[i].0, prs[i].1[t], ps[j]);
    lemma_exe_path_names_process(ps[j], prs[i].1[t]);
    lemma_target_reports(ps, prs[i].0, prs[i].1[t], j);
    lemma_targets_report(ps, prs[i].0, prs[i].1, t, m);
    lemma_profiles_report(ps, prs, i, m);
}

/// When a profile's target is the full executable path of a running process,
/// some profile's game is detected as running.
pub proof fn lemma_exe_path_target_detected(ps: Seq<ProcessView>, profs: Seq<GameConfView>, j: int, i: int, t: int)
    requires
        0 <= j < ps.len(),
        0 <= i < profs.len(),
        0 <= t < profs[i].active_in.targets().len(),
        ps[j].exe == Some(profs[i].active_in.targets()[t]),
    ensures
        running_profile(ps, profs) is Some,
{
    lemma_exe_path_names_process(ps[j], profs[i].active_in.targets()[t]);
    assert(profile_is_running(ps, profs[i]));
    lemma_running_profile_none(ps, profs);
}

} // verus!
