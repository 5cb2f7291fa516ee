//! Running processes: the Windows executable behind a Proton/Wine process, and
//! how processes are matched against profile targets.
//!
//! Reading `/proc` happens elsewhere; the functions here take what was read and
//! decide.
use vstd::prelude::*;
use crate::text::{
    copy_opt, opt_chars, chars_eq, chars_of, contains, contains_exec, eq_ignore_ascii_case, eq_ignore_ascii_case_exec,
    ends_with, ends_with_exec, last_segment, last_segment_exec, lines, lines_exec, lowercase,
    rest_after, rest_after_exec, slice_of, split, split_exec, starts_with, starts_with_exec,
    string_of, text, to_lowercase, trim, trim_exec, trim_set, trim_set_exec, back_out,
    back_out_exec, is_ws, lemma_back_out_to, lemma_split_once_after, lemma_trim_after_space,
    CharSet,
};

verus! {

/// A detected running process.
pub struct ProcessInfo {
    pub pid: u32,
    /// Short name from `/proc/[pid]/comm`.
    pub comm: String,
    /// Full path from `/proc/[pid]/exe`.
    pub exe: Option<String>,
    /// Arguments from `/proc/[pid]/cmdline`.
    pub cmdline: Vec<String>,
    /// For Proton/Wine processes, the Windows `.exe` name that was detected.
    pub wine_exe: Option<String>,
}

pub struct ProcessView {
    pub pid: u32,
    pub comm: Seq<char>,
    pub exe: Option<Seq<char>>,
    pub cmdline: Seq<Seq<char>>,
    pub wine_exe: Option<Seq<char>>,
}

impl View for ProcessInfo {
    type V = ProcessView;

    open spec fn view(&self) -> ProcessView {
        ProcessView {
            pid: self.pid,
            comm: self.comm@,
            exe: opt_chars(self.exe),
            cmdline: self.cmdline.deep_view(),
            wine_exe: opt_chars(self.wine_exe),
        }
    }
}

/// A kernel thread: a process with no executable and an empty command line.
pub open spec fn kernel_thread(exe: Option<Seq<char>>, cmdline: Seq<Seq<char>>) -> bool {
    exe is None && cmdline.len() == 0
}

/// Whether a process read from `/proc` is a kernel thread.
pub fn is_kernel_thread(exe: &Option<String>, cmdline: &[String]) -> (r: bool)
    ensures
        r == kernel_thread(opt_chars(*exe), cmdline@.map_values(|s: String| s@)),
{
    exe.is_none() && cmdline.len() == 0
}

/// Whether a scan lists a process read from `/proc`, given its short name
/// (trimmed), executable and command line: it has a name and is not a kernel
/// thread.
pub fn keep_scanned_process(comm: &str, exe: &Option<String>, cmdline: &[String]) -> (r: bool)
    ensures
        r == (comm@.len() > 0 && !kernel_thread(opt_chars(*exe), cmdline@.map_values(|s: String| s@))),
{
    !comm.is_empty() && !is_kernel_thread(exe, cmdline)
}

/// The processes of `ps`, each by its view.
pub open spec fn processes_view(ps: Seq<ProcessInfo>) -> Seq<ProcessView> {
    ps.map_values(|p: ProcessInfo| p@)
}

/// The pieces of a path between `/` separators that name something: neither
/// empty nor `.`.
pub open spec fn path_names(parts: Seq<Seq<char>>) -> Seq<Seq<char>>
    decreases parts.len(),
{
    if parts.len() == 0 {
        parts
    } else if parts.last().len() > 0 && parts.last() != seq!['.'] {
        path_names(parts.drop_last()).push(parts.last())
    } else {
        path_names(parts.drop_last())
    }
}

/// What `Path::file_name` gives on Unix: the last component that names
/// something, unless that is `..` or there is none.
pub open spec fn file_name(path: Seq<char>) -> Option<Seq<char>> {
    let names = path_names(split(path, CharSet::One('/')));
    if names.len() == 0 || names.last() == seq!['.', '.'] {
        None
    } else {
        Some(names.last())
    }
}

/// `Path::file_name`, on text.
pub fn file_name_exec(path: &Vec<char>) -> (r: Option<Vec<char>>)
    ensures
        r matches Some(x) ==> file_name(path@) == Some(x@),
        r is None ==> file_name(path@) is None,
{
    let parts = split_exec(path, &CharSet::One('/'));
    let ghost pv = parts.deep_view();
    let mut dot: Vec<char> = Vec::new();
    dot.push('.');
    let mut dotdot: Vec<char> = Vec::new();
    dotdot.push('.');
    dotdot.push('.');
    assert(dot@ =~= seq!['.']);
    assert(dotdot@ =~= seq!['.', '.']);
    let mut k = parts.len();
    assert(pv.take(k as int) =~= pv);
    while k > 0 && (parts[k - 1].len() == 0 || chars_eq(&parts[k - 1], &dot))
        invariant
            k <= parts.deep_view().len(),
            pv == parts.deep_view(),
            dot@ == seq!['.'],
            path_names(pv.take(k as int)) == path_names(pv),
        decreases k,
    {
        assert(pv.take(k as int).drop_last() =~= pv.take(k - 1));
        assert(pv.take(k as int).last() == pv[k - 1]);
        assert(parts[k - 1]@ == pv[k - 1]);
        assert(path_names(pv.take(k as int)) == path_names(pv.take(k - 1)));
        k = k - 1;
    }
    if k == 0 {
        assert(pv.take(0) =~= Seq::<Seq<char>>::empty());
        assert(path_names(pv.take(0)) =~= Seq::<Seq<char>>::empty());
        return None;
    }
    assert(pv.take(k as int).drop_last() =~= pv.take(k - 1));
    assert(pv.take(k as int).last() == pv[k - 1]);
    assert(parts[k - 1]@ == pv[k - 1]);
    assert(path_names(pv) == path_names(pv.take(k - 1)).push(pv[k - 1]));
    if chars_eq(&parts[k - 1], &dotdot) {
        None
    } else {
        Some(parts[k - 1].clone())
    }
}

/// The name a process is known by: its Windows `.exe` for Proton/Wine processes,
/// else the file name of its executable, else its short name.
pub open spec fn exe_name(p: ProcessView) -> Seq<char> {
    match p.wine_exe {
        Some(w) => w,
        None => match p.exe {
            Some(e) => match file_name(e) {
                Some(f) => f,
                None => p.comm,
            },
            None => p.comm,
        },
    }
}

/// The name a process is known by.
pub fn exe_name_exec(p: &ProcessInfo) -> (r: Vec<char>)
    ensures
        r@ == exe_name(p@),
{
    match &p.wine_exe {
        Some(w) => chars_of(w.as_str()),
        None => match &p.exe {
            Some(e) => match file_name_exec(&chars_of(e.as_str())) {
                Some(f) => f,
                None => chars_of(p.comm.as_str()),
            },
            None => chars_of(p.comm.as_str()),
        },
    }
}

/// Process `p` is one that target `a` names: by its exact short name, by the name
/// it is known by (ASCII case ignored), by the end of its executable's path, or by
/// its Windows `.exe` (ASCII case ignored).
pub open spec fn proc_matches(p: ProcessView, a: Seq<char>) -> bool {
    ||| p.comm == a
    ||| eq_ignore_ascii_case(exe_name(p), a)
    ||| (p.exe matches Some(e) && ends_with(e, a))
    ||| (p.wine_exe matches Some(w) && eq_ignore_ascii_case(w, a))
}

/// Whether target `a` names process `p`.
pub fn proc_matches_exec(p: &ProcessInfo, a: &Vec<char>) -> (r: bool)
    ensures
        r == proc_matches(p@, a@),
{
    let comm = chars_of(p.comm.as_str());
    if chars_eq(&comm, a) {
        return true;
    }
    let name = exe_name_exec(p);
    if eq_ignore_ascii_case_exec(&name, a) {
        return true;
    }
    if let Some(e) = &p.exe {
        if ends_with_exec(&chars_of(e.as_str()), a) {
            return true;
        }
    }
    if let Some(w) = &p.wine_exe {
        if eq_ignore_ascii_case_exec(&chars_of(w.as_str()), a) {
            return true;
        }
    }
    false
}

/// A process is named by its short name, and, in any ASCII case, by the name it
/// is known by and by its Windows `.exe`.
pub proof fn lemma_own_names_match(p: ProcessView, a: Seq<char>)
    ensures
        proc_matches(p, p.comm),
        eq_ignore_ascii_case(exe_name(p), a) ==> proc_matches(p, a),
        p.wine_exe matches Some(w) && eq_ignore_ascii_case(w, a) ==> proc_matches(p, a),
{
}

/// A target that is the full path of a process's executable names that process.
pub proof fn lemma_exe_path_names_process(p: ProcessView, e: Seq<char>)
    requires
        p.exe == Some(e),
    ensures
        proc_matches(p, e),
{
    assert(e.skip(0) =~= e);
    assert(ends_with(e, e));
}

/// A running process that a profile's target names.
pub struct ActiveMatch {
    pub profile_name: String,
    pub process_name: String,
    pub process_exe: Option<String>,
    pub pid: u32,
    pub active_in_match: String,
}

pub struct ActiveMatchView {
    pub profile_name: Seq<char>,
    pub process_name: Seq<char>,
    pub process_exe: Option<Seq<char>>,
    pub pid: u32,
    pub active_in_match: Seq<char>,
}

impl View for ActiveMatch {
    type V = ActiveMatchView;

    open spec fn view(&self) -> ActiveMatchView {
        ActiveMatchView {
            profile_name: self.profile_name@,
            process_name: self.process_name@,
            process_exe: opt_chars(self.process_exe),
            pid: self.pid,
            active_in_match: self.active_in_match@,
        }
    }
}

pub open spec fn matches_view(ms: Seq<ActiveMatch>) -> Seq<ActiveMatchView> {
    ms.map_values(|m: ActiveMatch| m@)
}

/// The match of profile `name` through target `a` with process `p`.
pub open spec fn match_of(name: Seq<char>, a: Seq<char>, p: ProcessView) -> ActiveMatchView {
    ActiveMatchView {
        profile_name: name,
        process_name: p.comm,
        process_exe: p.exe,
        pid: p.pid,
        active_in_match: a,
    }
}

/// The matches of target `a` of profile `name`, over the processes `ps` in order.
pub open spec fn matches_for_target(ps: Seq<ProcessView>, name: Seq<char>, a: Seq<char>) -> Seq<
    ActiveMatchView,
>
    decreases ps.len(),
{
    if ps.len() == 0 {
        seq![]
    } else {
        let prev = matches_for_target(ps.drop_last(), name, a);
        if proc_matches(ps.last(), a) {
            prev.push(match_of(name, a, ps.last()))
        } else {
            prev
        }
    }
}

/// The matches of the targets `ts` of profile `name`, target by target.
pub open spec fn matches_for_targets(ps: Seq<ProcessView>, name: Seq<char>, ts: Seq<Seq<char>>) -> Seq<
    ActiveMatchView,
>
    decreases ts.len(),
{
    if ts.len() == 0 {
        seq![]
    } else {
        matches_for_targets(ps, name, ts.drop_last()) + matches_for_target(ps, name, ts.last())
    }
}

/// The matches of every profile `(name, targets)` in `profiles`, profile by profile.
pub open spec fn active_matches(ps: Seq<ProcessView>, profiles: Seq<(Seq<char>, Seq<Seq<char>>)>) -> Seq<
    ActiveMatchView,
>
    decreases profiles.len(),
{
    if profiles.len() == 0 {
        seq![]
    } else {
        active_matches(ps, profiles.drop_last()) + matches_for_targets(
            ps,
            profiles.last().0,
            profiles.last().1,
        )
    }
}

fn push_target_matches(
    out: &mut Vec<ActiveMatch>,
    processes: &[ProcessInfo],
    name: &String,
    active: &String,
)
    ensures
        matches_view(final(out)@) == matches_view(old(out)@) + matches_for_target(
            processes_view(processes@),
            name@,
            active@,
        ),
{
    let ghost start = matches_view(out@);
    let ghost pv = processes_view(processes@);
    let a = chars_of(active.as_str());
    let n = processes.len();
    let mut j: usize = 0;
    assert(pv.take(0) =~= Seq::<ProcessView>::empty());
    assert(start + matches_for_target(pv.take(0), name@, active@) =~= start);
    while j < n
        invariant
            n == processes@.len(),
            pv == processes_view(processes@),
            a@ == active@,
            j <= n,
            matches_view(out@) == start + matches_for_target(pv.take(j as int), name@, active@),
        decreases n - j,
    {
        assert(pv.take(j + 1).drop_last() =~= pv.take(j as int));
        assert(pv.take(j + 1).last() == processes@[j as int]@);
        let p = &processes[j];
        if proc_matches_exec(p, &a) {
            let m = ActiveMatch {
                profile_name: name.clone(),
                process_name: p.comm.clone(),
                process_exe: copy_opt(&p.exe),
                pid: p.pid,
                active_in_match: active.clone(),
            };
            let ghost before = matches_view(out@);
            out.push(m);
            assert(matches_view(out@) =~= before.push(m@));
            assert(m@ == match_of(name@, active@, p@));
        }
        j = j + 1;
    }
    assert(pv.take(n as int) =~= pv);
}

/// The targets of each profile, by view.
pub open spec fn profile_pairs_view(v: Seq<(String, Vec<String>)>) -> Seq<(Seq<char>, Seq<Seq<char>>)> {
    v.map_values(|x: (String, Vec<String>)| (x.0@, x.1.deep_view()))
}

/// Find which profiles match currently running processes: for each profile
/// `(name, targets)` in order, each of its targets in order, and each process in
/// order, one match when the target names the process.
pub fn find_active_profiles(processes: &[ProcessInfo], profile_names: &[(String, Vec<String>)]) -> (r:
    Vec<ActiveMatch>)
    ensures
        matches_view(r@) == active_matches(
            processes_view(processes@),
            profile_pairs_view(profile_names@),
        ),
{
    let ghost pv = processes_view(processes@);
    let ghost prs = profile_pairs_view(profile_names@);
    let mut out: Vec<ActiveMatch> = Vec::new();
    let n = profile_names.len();
    let mut i: usize = 0;
    assert(matches_view(out@) =~= active_matches(pv, prs.take(0)));
    while i < n
        invariant
            n == profile_names@.len(),
            pv == processes_view(processes@),
            prs == profile_pairs_view(profile_names@),
            i <= n,
            matches_view(out@) == active_matches(pv, prs.take(i as int)),
        decreases n - i,
    {
        assert(prs.take(i + 1).drop_last() =~= prs.take(i as int));
        assert(prs.take(i + 1).last() == prs[i as int]);
        let name = &profile_names[i].0;
        let targets = &profile_names[i].1;
        let ghost tv = targets.deep_view();
        let ghost base = matches_view(out@);
        let m = targets.len();
        let mut k: usize = 0;
        assert(tv.take(0) =~= Seq::<Seq<char>>::empty());
        assert(base + matches_for_targets(pv, name@, tv.take(0)) =~= base);
        while k < m
            invariant
                m == targets@.len(),
                tv == targets.deep_view(),
                pv == processes_view(processes@),
                k <= m,
                matches_view(out@) == base + matches_for_targets(pv, name@, tv.take(k as int)),
            decreases m - k,
        {
            assert(tv.take(k + 1).drop_last() =~= tv.take(k as int));
            assert(tv.take(k + 1).last() == targets@[k as int]@);
            push_target_matches(&mut out, processes, name, &targets[k]);
            assert(base + matches_for_targets(pv, name@, tv.take(k + 1)) =~= base
                + matches_for_targets(pv, name@, tv.take(k as int)) + matches_for_target(
                pv,
                name@,
                targets@[k as int]@,
            ));
            k = k + 1;
        }
        assert(tv.take(m as int) =~= tv);
        assert(prs[i as int] == (name@, tv));
        assert(active_matches(pv, prs.take(i + 1)) =~= active_matches(pv, prs.take(i as int))
            + matches_for_targets(pv, name@, tv));
        i = i + 1;
    }
    assert(prs.take(n as int) =~= prs);
    out
}

/// The exact names of Proton/Wine helper processes.
pub open spec fn is_wrapper_exact(c: Seq<char>) -> bool {
    ||| c == "wine"@
    ||| c == "wine64"@
    ||| c == "wineserver"@
    ||| c == "proton"@
    ||| c == "steam"@
    ||| c == "steamwebhelper"@
    ||| c == "pv-adverb"@
    ||| c == "srt-bwrap"@
    ||| c == "reaper"@
    ||| c == "pressure-vessel"@
}

/// A process name that belongs to a Proton/Wine wrapper rather than a game.
pub open spec fn is_wrapper_name(c: Seq<char>) -> bool {
    is_wrapper_exact(c) || starts_with(c, "proton-"@) || contains(c, "bwrap"@)
}

/// Whether `c` is one of the given names.
fn is_one_of(c: &Vec<char>, names: &[&str]) -> (r: bool)
    ensures
        r == exists|i: int| 0 <= i < names@.len() && c@ == #[trigger] names@[i]@,
{
    let n = names.len();
    let mut i: usize = 0;
    while i < n
        invariant
            n == names@.len(),
            i <= n,
            forall|k: int| 0 <= k < i ==> c@ != #[trigger] names@[k]@,
        decreases n - i,
    {
        if chars_eq(c, &text(names[i])) {
            return true;
        }
        i = i + 1;
    }
    false
}

/// Check if a process name looks like a Proton/Wine wrapper (not a real game).
pub fn is_proton_wrapper_name(comm: &str) -> (r: bool)
    ensures
        r == is_wrapper_name(comm@),
{
    let c = chars_of(comm);
    let names: [&str; 10] = [
        "wine",
        "wine64",
        "wineserver",
        "proton",
        "steam",
        "steamwebhelper",
        "pv-adverb",
        "srt-bwrap",
        "reaper",
        "pressure-vessel",
    ];
    let exact = is_one_of(&c, &names);
    assert(exact == is_wrapper_exact(c@)) by {
        if is_wrapper_exact(c@) {
            if c@ == "wine"@ { assert(c@ == names@[0]@); }
            if c@ == "wine64"@ { assert(c@ == names@[1]@); }
            if c@ == "wineserver"@ { assert(c@ == names@[2]@); }
            if c@ == "proton"@ { assert(c@ == names@[3]@); }
            if c@ == "steam"@ { assert(c@ == names@[4]@); }
            if c@ == "steamwebhelper"@ { assert(c@ == names@[5]@); }
            if c@ == "pv-adverb"@ { assert(c@ == names@[6]@); }
            if c@ == "srt-bwrap"@ { assert(c@ == names@[7]@); }
            if c@ == "reaper"@ { assert(c@ == names@[8]@); }
            if c@ == "pressure-vessel"@ { assert(c@ == names@[9]@); }
        }
    }
    exact || starts_with_exec(&c, &text("proton-")) || contains_exec(&c, &text("bwrap"))
}

/// The number of bytes that `c` takes in UTF-8 (`char::len_utf8`).
pub open spec fn utf8_width(c: char) -> nat {
    let u = c as u32;
    if u < 0x80 {
        1
    } else if u < 0x800 {
        2
    } else if u < 0x10000 {
        3
    } else {
        4
    }
}

/// The number of bytes that `s` takes in UTF-8 (`str::len`).
pub open spec fn utf8_len(s: Seq<char>) -> nat
    decreases s.len(),
{
    if s.len() == 0 {
        0
    } else {
        utf8_len(s.drop_last()) + utf8_width(s.last())
    }
}

/// Whether `s` takes more than `limit` bytes in UTF-8.
pub fn utf8_longer_than(s: &Vec<char>, limit: usize) -> (r: bool)
    ensures
        r == (utf8_len(s@) > limit),
{
    let n = s.len();
    let mut total: usize = 0;
    let mut i: usize = 0;
    while i < n
        invariant
            n == s@.len(),
            i <= n,
            total == utf8_len(s@.take(i as int)),
            total <= limit,
        decreases n - i,
    {
        assert(s@.take(i + 1).drop_last() =~= s@.take(i as int));
        let u = s[i] as u32;
        let w: usize = if u < 0x80 {
            1
        } else if u < 0x800 {
            2
        } else if u < 0x10000 {
            3
        } else {
            4
        };
        if w > limit - total {
            proof {
                lemma_utf8_len_mono(s@, i as int + 1);
            }
            return true;
        }
        total = total + w;
        i = i + 1;
    }
    assert(s@.take(n as int) =~= s@);
    false
}

proof fn lemma_utf8_len_mono(s: Seq<char>, k: int)
    requires
        0 <= k <= s.len(),
    ensures
        utf8_len(s.take(k)) <= utf8_len(s),
    decreases s.len() - k,
{
    if k < s.len() {
        lemma_utf8_len_mono(s, k + 1);
        assert(s.take(k + 1).drop_last() =~= s.take(k));
    } else {
        assert(s.take(k) =~= s);
    }
}

/// The Windows `.exe` named by the end of a path such as
/// `S:\common\Game\Game.exe` (quotes stripped, either slash separating), when it
/// ends in `.exe` (any case) and is more than four bytes long.
pub open spec fn exe_basename(s: Seq<char>) -> Option<Seq<char>> {
    let base = path_base(s);
    exe_base_accepted(base, lowercase(base))
}

/// The end of a path such as `S:\common\Game\Game.exe`: quotes stripped, after
/// the last slash of either kind.
pub open spec fn path_base(s: Seq<char>) -> Seq<char> {
    let cleaned = trim_set(trim_set(s, CharSet::One('"')), CharSet::One('\''));
    last_segment(cleaned, CharSet::Slashes)
}

/// `base` as a Windows `.exe` name, given its lower-cased form `lowered`: when
/// that ends in `.exe` and `base` is more than four bytes long.
pub open spec fn exe_base_accepted(base: Seq<char>, lowered: Seq<char>) -> Option<Seq<char>> {
    if ends_with(lowered, ".exe"@) && utf8_len(base) > 4 {
        Some(base)
    } else {
        None
    }
}

/// The end of a path, quotes stripped, after its last slash of either kind.
pub fn path_base_of(s: &str) -> (r: String)
    ensures
        r@ == path_base(s@),
{
    let v = chars_of(s);
    let cleaned = trim_set_exec(&trim_set_exec(&v, &CharSet::One('"')), &CharSet::One('\''));
    string_of(&last_segment_exec(&cleaned, &CharSet::Slashes))
}

/// `base` when it names a Windows `.exe`, given its lower-cased form `lowered`.
pub fn accept_exe_base(base: &str, lowered: &str) -> (r: Option<String>)
    ensures
        opt_chars(r) == exe_base_accepted(base@, lowered@),
{
    let b = chars_of(base);
    if ends_with_exec(&chars_of(lowered), &text(".exe")) && utf8_longer_than(&b, 4) {
        Some(base.to_owned())
    } else {
        None
    }
}

fn exe_basename_chars(s: &Vec<char>) -> (r: Option<Vec<char>>)
    ensures
        r matches Some(b) ==> exe_basename(s@) == Some(b@),
        r is None ==> exe_basename(s@) is None,
{
    let base = path_base_of(string_of(s).as_str());
    let lowered = string_of(&to_lowercase(&chars_of(base.as_str())));
    match accept_exe_base(base.as_str(), lowered.as_str()) {
        Some(b) => Some(chars_of(b.as_str())),
        None => None,
    }
}

/// Extract the Windows `.exe` basename from a path string.
pub fn extract_exe_basename(s: &str) -> (r: Option<String>)
    ensures
        opt_chars(r) == exe_basename(s@),
{
    match exe_basename_chars(&chars_of(s)) {
        Some(b) => Some(string_of(&b)),
        None => None,
    }
}

/// A process started by Wine, Proton or their sandbox (by its executable's path,
/// any case).
pub open spec fn is_wine_launcher(exe: Option<Seq<char>>) -> bool {
    match exe {
        None => false,
        Some(e) => {
            let l = lowercase(e);
            ||| contains(l, "wine"@)
            ||| contains(l, "proton"@)
            ||| contains(l, "pressure-vessel"@)
            ||| contains(l, "bwrap"@)
            ||| contains(l, "reaper"@)
        },
    }
}

fn is_wine_launcher_exec(exe: Option<&str>) -> (r: bool)
    ensures
        r == is_wine_launcher(match exe {
            Some(e) => Some(e@),
            None => None,
        }),
{
    match exe {
        None => false,
        Some(e) => {
            let l = to_lowercase(&chars_of(e));
            contains_exec(&l, &text("wine")) || contains_exec(&l, &text("proton")) || contains_exec(
                &l,
                &text("pressure-vessel"),
            ) || contains_exec(&l, &text("bwrap")) || contains_exec(&l, &text("reaper"))
        },
    }
}

/// An executable that helps run games rather than being one (lower-cased name).
pub open spec fn is_helper_exe(lower: Seq<char>) -> bool {
    ||| starts_with(lower, "steam"@)
    ||| starts_with(lower, "proton"@)
    ||| contains(lower, "launcher"@)
    ||| contains(lower, "crash"@)
    ||| lower == "wine64.exe"@
    ||| lower == "wine.exe"@
}

/// The game `.exe` that a command-line argument names: a Windows-style path
/// mentioning `.exe` whose base name is not a helper.
pub open spec fn arg_exe(arg: Seq<char>) -> Option<Seq<char>> {
    if (contains(arg, "\\"@) || contains(arg, ":/"@) || contains(arg, ":\\"@)) && contains(
        lowercase(arg),
        ".exe"@,
    ) {
        match exe_basename(arg) {
            Some(b) => if !is_helper_exe(lowercase(b)) {
                Some(b)
            } else {
                None
            },
            None => None,
        }
    } else {
        None
    }
}

/// The game `.exe` named by the last argument of `args` that names one.
pub open spec fn cmdline_exe(args: Seq<Seq<char>>) -> Option<Seq<char>>
    decreases args.len(),
{
    if args.len() == 0 {
        None
    } else {
        match arg_exe(args.last()) {
            Some(b) => Some(b),
            None => cmdline_exe(args.drop_last()),
        }
    }
}

fn arg_exe_exec(arg: &Vec<char>) -> (r: Option<Vec<char>>)
    ensures
        r matches Some(b) ==> arg_exe(arg@) == Some(b@),
        r is None ==> arg_exe(arg@) is None,
{
    let windowsy = contains_exec(arg, &text("\\")) || contains_exec(arg, &text(":/"))
        || contains_exec(arg, &text(":\\"));
    if !(windowsy && contains_exec(&to_lowercase(arg), &text(".exe"))) {
        return None;
    }
    match exe_basename_chars(arg) {
        Some(b) => {
            let lower = to_lowercase(&b);
            let helper = starts_with_exec(&lower, &text("steam")) || starts_with_exec(
                &lower,
                &text("proton"),
            ) || contains_exec(&lower, &text("launcher")) || contains_exec(&lower, &text("crash"))
                || chars_eq(&lower, &text("wine64.exe")) || chars_eq(&lower, &text("wine.exe"));
            if helper {
                None
            } else {
                Some(b)
            }
        },
        None => None,
    }
}

fn cmdline_exe_exec(cmdline: &[String]) -> (r: Option<Vec<char>>)
    ensures
        r matches Some(b) ==> cmdline_exe(crate::text::strings_view(cmdline@)) == Some(b@),
        r is None ==> cmdline_exe(crate::text::strings_view(cmdline@)) is None,
{
    let ghost av = crate::text::strings_view(cmdline@);
    let mut k = cmdline.len();
    assert(av.take(k as int) =~= av);
    while k > 0
        invariant
            k <= cmdline@.len(),
            av == crate::text::strings_view(cmdline@),
            cmdline_exe(av.take(k as int)) == cmdline_exe(av),
        decreases k,
    {
        assert(av.take(k as int).drop_last() =~= av.take(k - 1));
        assert(av.take(k as int).last() == cmdline@[k - 1]@);
        if let Some(b) = arg_exe_exec(&chars_of(cmdline[k - 1].as_str())) {
            return Some(b);
        }
        k = k - 1;
    }
    assert(av.take(0) =~= Seq::<Seq<char>>::empty());
    None
}

/// A mapped `.exe` that is not a crash handler, redistributable or installer
/// (lower-cased name).
pub open spec fn is_game_mapping(lower: Seq<char>) -> bool {
    &&& !contains(lower, "crashpad"@)
    &&& !contains(lower, "crashreport"@)
    &&& !contains(lower, "unitycrashhandler"@)
    &&& !contains(lower, "redist"@)
    &&& !contains(lower, "setup"@)
    &&& !contains(lower, "installer"@)
    &&& !contains(lower, "uninstall"@)
}

/// The game `.exe` that one line of `/proc/[pid]/maps` maps, if any: the line
/// (trimmed) has `.exe` (any case) after its last dot, its sixth
/// whitespace-separated field (the path, trimmed) ends in `.exe` (any case), and
/// the path's base name is a game mapping.
pub open spec fn maps_line_exe(line: Seq<char>) -> Option<Seq<char>> {
    let t = trim(line);
    let dot = back_out(t, CharSet::One('.'), t.len() as int);
    if dot > 0 && starts_with(lowercase(t.skip(dot - 1)), ".exe"@) {
        match rest_after(t, CharSet::Whitespace, 5) {
            Some(rest) => {
                let path = trim(rest);
                let base = last_segment(path, CharSet::Slashes);
                if ends_with(lowercase(path), ".exe"@) && is_game_mapping(lowercase(base)) {
                    Some(base)
                } else {
                    None
                }
            },
            None => None,
        }
    } else {
        None
    }
}

proof fn lemma_rest_after_five_fields(
    addr: Seq<char>,
    perms: Seq<char>,
    offset: Seq<char>,
    dev: Seq<char>,
    inode: Seq<char>,
    tail: Seq<char>,
)
    requires
        forall|m: int| 0 <= m < addr.len() ==> !is_ws(#[trigger] addr[m]),
        forall|m: int| 0 <= m < perms.len() ==> !is_ws(#[trigger] perms[m]),
        forall|m: int| 0 <= m < offset.len() ==> !is_ws(#[trigger] offset[m]),
        forall|m: int| 0 <= m < dev.len() ==> !is_ws(#[trigger] dev[m]),
        forall|m: int| 0 <= m < inode.len() ==> !is_ws(#[trigger] inode[m]),
    ensures
        rest_after(
            addr + seq![' '] + perms + seq![' '] + offset + seq![' '] + dev + seq![' '] + inode
                + seq![' '] + tail,
            CharSet::Whitespace,
            5,
        ) == Some(tail),
{
    let sp = seq![' '];
    let r4 = inode + sp + tail;
    let r3 = dev + sp + r4;
    let r2 = offset + sp + r3;
    let r1 = perms + sp + r2;
    let r0 = addr + sp + r1;
    assert(addr + seq![' '] + perms + seq![' '] + offset + seq![' '] + dev + seq![' '] + inode
        + seq![' '] + tail =~= r0);
    assert(CharSet::Whitespace.has(' '));
    lemma_split_once_after(addr, ' ', r1, CharSet::Whitespace);
    lemma_split_once_after(perms, ' ', r2, CharSet::Whitespace);
    lemma_split_once_after(offset, ' ', r3, CharSet::Whitespace);
    lemma_split_once_after(dev, ' ', r4, CharSet::Whitespace);
    lemma_split_once_after(inode, ' ', tail, CharSet::Whitespace);
    assert(rest_after(tail, CharSet::Whitespace, 0) == Some(tail));
    assert(rest_after(r4, CharSet::Whitespace, 1) == Some(tail));
    assert(rest_after(r3, CharSet::Whitespace, 2) == Some(tail));
    assert(rest_after(r2, CharSet::Whitespace, 3) == Some(tail));
    assert(rest_after(r1, CharSet::Whitespace, 4) == Some(tail));
}

proof fn lemma_last_dot_starts(head: Seq<char>, ext: Seq<char>)
    requires
        ext.len() > 0,
        ext[0] == '.',
        forall|m: int| 1 <= m < ext.len() ==> #[trigger] ext[m] != '.',
    ensures
        back_out(head + ext, CharSet::One('.'), (head + ext).len() as int) == head.len() + 1,
        (head + ext).skip(head.len() as int) == ext,
{
    let s = head + ext;
    let k: int = head.len() as int + 1;
    assert forall|m: int| k <= m < s.len() implies !CharSet::One('.').has(#[trigger] s[m]) by {
        assert(s[m] == ext[m - head.len()]);
    }
    assert(s[k - 1] == ext[0]);
    lemma_back_out_to(s, CharSet::One('.'), s.len() as int, k);
    assert(s.skip(head.len() as int) =~= ext);
}

proof fn lemma_base_name(dir: Seq<char>, base: Seq<char>)
    requires
        dir.len() == 0 || dir.last() == '/' || dir.last() == '\\',
        forall|m: int| 0 <= m < base.len() ==> #[trigger] base[m] != '/' && base[m] != '\\',
    ensures
        last_segment(dir + base, CharSet::Slashes) == base,
{
    let path = dir + base;
    assert forall|m: int| dir.len() <= m < path.len() implies !CharSet::Slashes.has(#[trigger] path[m]) by {
        assert(path[m] == base[m - dir.len()]);
    }
    if dir.len() > 0 {
        assert(path[dir.len() - 1] == dir.last());
    }
    lemma_back_out_to(path, CharSet::Slashes, path.len() as int, dir.len() as int);
    assert(path.skip(dir.len() as int) =~= base);
}

/// A line of `/proc/[pid]/maps` whose first five fields (address, permissions,
/// offset, device, inode; none holding white space, the first not empty) are each
/// followed by a space, and then, after any white space `gap`, the mapped path
/// `dir + stem + ext`: `dir` empty or ending in a path separator, `stem` and
/// `ext` free of separators, `ext` the path's extension (its only dot is its
/// first character, so that the line's last dot is the one that starts it), the
/// path neither starting nor ending with white space. Where the extension is
/// `.exe` and the path ends in `.exe` (any case) and its base name `stem + ext`
/// is a game mapping, the line names that base name, whatever dots `dir` holds.
pub proof fn lemma_maps_line_names_exe(
    addr: Seq<char>,
    perms: Seq<char>,
    offset: Seq<char>,
    dev: Seq<char>,
    inode: Seq<char>,
    gap: Seq<char>,
    dir: Seq<char>,
    stem: Seq<char>,
    ext: Seq<char>,
)
    requires
        addr.len() > 0,
        forall|m: int| 0 <= m < addr.len() ==> !is_ws(#[trigger] addr[m]),
        forall|m: int| 0 <= m < perms.len() ==> !is_ws(#[trigger] perms[m]),
        forall|m: int| 0 <= m < offset.len() ==> !is_ws(#[trigger] offset[m]),
        forall|m: int| 0 <= m < dev.len() ==> !is_ws(#[trigger] dev[m]),
        forall|m: int| 0 <= m < inode.len() ==> !is_ws(#[trigger] inode[m]),
        forall|m: int| 0 <= m < gap.len() ==> is_ws(#[trigger] gap[m]),
        dir.len() == 0 || dir.last() == '/' || dir.last() == '\\',
        forall|m: int| 0 <= m < stem.len() ==> #[trigger] stem[m] != '/' && stem[m] != '\\',
        ext.len() > 0,
        ext[0] == '.',
        forall|m: int| 1 <= m < ext.len() ==> #[trigger] ext[m] != '.' && ext[m] != '/' && ext[m] != '\\',
        !is_ws((dir + stem + ext)[0]),
        !is_ws(ext.last()),
        starts_with(lowercase(ext), ".exe"@),
        ends_with(lowercase(dir + stem + ext), ".exe"@),
        is_game_mapping(lowercase(stem + ext)),
    ensures
        maps_line_exe(
            addr + seq![' '] + perms + seq![' '] + offset + seq![' '] + dev + seq![' '] + inode
                + seq![' '] + gap + dir + stem + ext,
        ) == Some(stem + ext),
{
    let sp = seq![' '];
    let base = stem + ext;
    let path = dir + stem + ext;
    let tail = gap + path;
    let line = addr + sp + perms + sp + offset + sp + dev + sp + inode + sp + gap + dir + stem + ext;
    let head = addr + sp + perms + sp + offset + sp + dev + sp + inode + sp + gap + dir + stem;
    assert(line =~= addr + sp + perms + sp + offset + sp + dev + sp + inode + sp + tail);
    assert(line =~= head + ext);
    // The line is already trimmed.
    assert(line[0] == addr[0]);
    assert(line.last() == ext.last());
    lemma_trim_after_space(seq![], line);
    assert(seq![] + line =~= line);
    // Its last dot is the one that starts the extension.
    lemma_last_dot_starts(head, ext);
    // Five fields split off leave the gap and the path.
    lemma_rest_after_five_fields(addr, perms, offset, dev, inode, tail);
    // The path, trimmed, and its base name.
    assert(path.last() == ext.last());
    lemma_trim_after_space(gap, path);
    assert forall|m: int| 0 <= m < base.len() implies #[trigger] base[m] != '/' && base[m] != '\\' by {
        if m < stem.len() {
            assert(base[m] == stem[m]);
        } else {
            assert(base[m] == ext[m - stem.len()]);
        }
    }
    assert(path =~= dir + base);
    lemma_base_name(dir, base);
}

/// A name read from a maps line ends in `.exe` (any case) once lower-cased, and
/// names no crash handler, redistributable, installer or uninstaller: its
/// lower-cased form holds none of "crashpad", "crashreport", "unitycrashhandler",
/// "redist", "setup", "installer" and "uninstall".
pub proof fn lemma_mapped_exe_not_helper(line: Seq<char>)
    ensures
        maps_line_exe(line) matches Some(b) ==> {
            let lower = lowercase(b);
            &&& !contains(lower, "crashpad"@)
            &&& !contains(lower, "crashreport"@)
            &&& !contains(lower, "unitycrashhandler"@)
            &&& !contains(lower, "redist"@)
            &&& !contains(lower, "setup"@)
            &&& !contains(lower, "installer"@)
            &&& !contains(lower, "uninstall"@)
        },
{
}

/// The game `.exe` of the first line of `ls` that maps one.
pub open spec fn first_mapped_exe(ls: Seq<Seq<char>>) -> Option<Seq<char>>
    decreases ls.len(),
{
    if ls.len() == 0 {
        None
    } else {
        match maps_line_exe(ls[0]) {
            Some(b) => Some(b),
            None => first_mapped_exe(ls.drop_first()),
        }
    }
}

fn maps_line_exe_exec(line: &Vec<char>) -> (r: Option<Vec<char>>)
    ensures
        r matches Some(b) ==> maps_line_exe(line@) == Some(b@),
        r is None ==> maps_line_exe(line@) is None,
{
    let t = trim_exec(line);
    let dot = back_out_exec(&t, &CharSet::One('.'));
    if dot == 0 {
        return None;
    }
    let tail = slice_of(&t, dot - 1, t.len());
    assert(tail@ =~= t@.skip(dot - 1));
    if !starts_with_exec(&to_lowercase(&tail), &text(".exe")) {
        return None;
    }
    let rest = match rest_after_exec(&t, &CharSet::Whitespace, 5) {
        Some(r) => r,
        None => return None,
    };
    let path = trim_exec(&rest);
    let base = last_segment_exec(&path, &CharSet::Slashes);
    if !ends_with_exec(&to_lowercase(&path), &text(".exe")) {
        return None;
    }
    let lower = to_lowercase(&base);
    let bad = contains_exec(&lower, &text("crashpad")) || contains_exec(&lower, &text("crashreport"))
        || contains_exec(&lower, &text("unitycrashhandler")) || contains_exec(
        &lower,
        &text("redist"),
    ) || contains_exec(&lower, &text("setup")) || contains_exec(&lower, &text("installer"))
        || contains_exec(&lower, &text("uninstall"));
    if bad {
        None
    } else {
        Some(base)
    }
}

/// The game `.exe` that Wine mapped into a process, from the text of
/// `/proc/[pid]/maps`: the first line that maps one.
pub fn scan_maps_for_exe(content: &str) -> (r: Option<String>)
    ensures
        opt_chars(r) == first_mapped_exe(lines(content@)),
{
    let ls = lines_exec(&chars_of(content));
    let ghost lv = ls.deep_view();
    let n = ls.len();
    let mut i: usize = 0;
    assert(lv.skip(0) =~= lv);
    while i < n
        invariant
            n == lv.len(),
            lv == ls.deep_view(),
            lv == lines(content@),
            i <= n,
            first_mapped_exe(lv.skip(i as int)) == first_mapped_exe(lv),
        decreases n - i,
    {
        assert(lv.skip(i as int)[0] == ls[i as int]@);
        assert(lv.skip(i as int).drop_first() =~= lv.skip(i + 1));
        if let Some(b) = maps_line_exe_exec(&ls[i]) {
            return Some(string_of(&b));
        }
        i = i + 1;
    }
    None
}

/// Whether detecting the Windows `.exe` of a process needs its memory maps: it is
/// a Wine launcher and no command-line argument names the game.
pub fn wine_exe_needs_maps(cmdline: &[String], exe: Option<&str>) -> (r: bool)
    ensures
        r == (is_wine_launcher(match exe {
            Some(e) => Some(e@),
            None => None,
        }) && cmdline_exe(crate::text::strings_view(cmdline@)) is None),
{
    is_wine_launcher_exec(exe) && cmdline_exe_exec(cmdline).is_none()
}

/// The Windows `.exe` of a Proton/Wine process: `None` unless its executable is
/// a Wine launcher; else the game named on the command line (the last argument
/// that names one), else the first game `.exe` in its memory maps (`maps`, the
/// text of `/proc/[pid]/maps` when it could be read).
pub fn detect_wine_exe(cmdline: &[String], exe: Option<&str>, maps: Option<&str>) -> (r: Option<
    String,
>)
    ensures
        opt_chars(r) == (if !is_wine_launcher(
            match exe {
                Some(e) => Some(e@),
                None => None,
            },
        ) {
            None
        } else {
            match cmdline_exe(crate::text::strings_view(cmdline@)) {
                Some(b) => Some(b),
                None => match maps {
                    Some(m) => first_mapped_exe(lines(m@)),
                    None => None,
                },
            }
        }),
{
    if !is_wine_launcher_exec(exe) {
        return None;
    }
    if let Some(b) = cmdline_exe_exec(cmdline) {
        return Some(string_of(&b));
    }
    match maps {
        Some(m) => scan_maps_for_exe(m),
        None => None,
    }
}

} // verus!
