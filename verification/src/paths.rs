//! File-system paths as text, and the user directories that `dirs` reports.
//!
//! Paths are held as `String`s. `path_join` states what `Path::join` gives on Unix
//! for a relative component.
use vstd::prelude::*;
use crate::text::{
    chars_eq, chars_of, concat, concat3, lemma_chars_deep_view, lemma_split_nonempty, split, split_exec,
    string_of, text, CharSet,
};

verus! {

/// `base` joined with the relative component `comp` (what `Path::join` gives on
/// Unix): a separator goes between them unless `base` is empty or already ends
/// with one.
pub open spec fn path_join(base: Seq<char>, comp: Seq<char>) -> Seq<char> {
    if base.len() == 0 {
        comp
    } else if base.last() == '/' {
        base + comp
    } else {
        base + seq!['/'] + comp
    }
}

/// `Path::join` of a relative component.
pub fn join_exec(base: &Vec<char>, comp: &Vec<char>) -> (r: Vec<char>)
    ensures
        r@ == path_join(base@, comp@),
{
    let n = base.len();
    if n == 0 {
        comp.clone()
    } else if base[n - 1] == '/' {
        concat(base, comp)
    } else {
        let mut sep: Vec<char> = Vec::new();
        sep.push('/');
        assert(sep@ =~= seq!['/']);
        concat3(base, &sep, comp)
    }
}

/// `Path::join` of a relative component, on strings.
pub fn join_str(base: &str, comp: &str) -> (r: String)
    ensures
        r@ == path_join(base@, comp@),
{
    string_of(&join_exec(&chars_of(base), &chars_of(comp)))
}

/// `base` joined with two relative components in turn.
pub open spec fn path_join2(base: Seq<char>, a: Seq<char>, b: Seq<char>) -> Seq<char> {
    path_join(path_join(base, a), b)
}

/// `base.join(a).join(b)`.
pub fn join2_str(base: &str, a: &str, b: &str) -> (r: String)
    ensures
        r@ == path_join2(base@, a@, b@),
{
    let first = join_str(base, a);
    join_str(first.as_str(), b)
}

/// The pieces of `pieces` that name something: neither empty (repeated or
/// trailing separators) nor `.`.
pub open spec fn normal_pieces(pieces: Seq<Seq<char>>) -> Seq<Seq<char>>
    decreases pieces.len(),
{
    if pieces.len() == 0 {
        seq![]
    } else {
        let prev = normal_pieces(pieces.drop_last());
        let last = pieces.last();
        if last.len() == 0 || last == "."@ {
            prev
        } else {
            prev.push(last)
        }
    }
}

/// What a path is made of, as `Path::components` reads it on Unix: whether it
/// starts at the root, whether it starts with `.` (a relative path only), and its
/// other components in order. Two paths compare equal as paths exactly when
/// these agree.
pub open spec fn path_key(p: Seq<char>) -> (bool, bool, Seq<Seq<char>>) {
    let pieces = split(p, CharSet::One('/'));
    let rooted = p.len() > 0 && p[0] == '/';
    (rooted, !rooted && pieces[0] == "."@, normal_pieces(pieces))
}

/// Whether `a` and `b` are the same path, component by component (what `==` on
/// `Path` gives).
pub fn same_path(a: &str, b: &str) -> (r: bool)
    ensures
        r == (path_key(a@) == path_key(b@)),
{
    let (ra, ca, na) = path_parts(a);
    let (rb, cb, nb) = path_parts(b);
    if ra != rb || ca != cb || na.len() != nb.len() {
        assert(ra != rb || ca != cb || na.deep_view().len() != nb.deep_view().len());
        return false;
    }
    let n = na.len();
    let mut i: usize = 0;
    while i < n
        invariant
            n == na.deep_view().len(),
            n == nb.deep_view().len(),
            na.deep_view() == path_key(a@).2,
            nb.deep_view() == path_key(b@).2,
            i <= n,
            forall|k: int| 0 <= k < i ==> na.deep_view()[k] == nb.deep_view()[k],
        decreases n - i,
    {
        assert(na[i as int]@ == na.deep_view()[i as int]);
        assert(nb[i as int]@ == nb.deep_view()[i as int]);
        if !chars_eq(&na[i], &nb[i]) {
            assert(na.deep_view()[i as int] != nb.deep_view()[i as int]);
            assert(path_key(a@).2[i as int] != path_key(b@).2[i as int]);
            return false;
        }
        i = i + 1;
    }
    assert(na.deep_view() =~= nb.deep_view());
    true
}

fn path_parts(p: &str) -> (r: (bool, bool, Vec<Vec<char>>))
    ensures
        (r.0, r.1, r.2.deep_view()) == path_key(p@),
{
    let v = chars_of(p);
    let pieces = split_exec(&v, &CharSet::One('/'));
    let ghost pv = pieces.deep_view();
    proof {
        lemma_split_nonempty(v@, CharSet::One('/'));
    }
    let rooted = v.len() > 0 && v[0] == '/';
    assert(pieces[0]@ == pv[0]);
    let cur = !rooted && chars_eq(&pieces[0], &text("."));
    let mut normal: Vec<Vec<char>> = Vec::new();
    let n = pieces.len();
    let mut i: usize = 0;
    while i < n
        invariant
            n == pv.len(),
            pv == pieces.deep_view(),
            i <= n,
            normal.deep_view() == normal_pieces(pv.take(i as int)),
        decreases n - i,
    {
        assert(pv.take(i + 1).drop_last() =~= pv.take(i as int));
        assert(pv.take(i + 1).last() == pieces[i as int]@);
        let piece = &pieces[i];
        if !(piece.len() == 0 || chars_eq(piece, &text("."))) {
            let ghost before = normal.deep_view();
            let c = piece.clone();
            assert(c@ == pv[i as int]);
            proof {
                lemma_chars_deep_view(c);
            }
            normal.push(c);
            assert(normal.deep_view() =~= before.push(pv[i as int]));
        }
        i = i + 1;
    }
    assert(pv.take(n as int) =~= pv);
    (rooted, cur, normal)
}

/// `dirs::home_dir`, as text. It reads the environment (and the password
/// database), so nothing is stated of its result.
#[verifier::external_body]
pub(crate) fn home_dir() -> Option<String> {
    dirs::home_dir().map(|p| p.to_string_lossy().into_owned())
}

/// `dirs::config_dir`, as text. It reads the environment, so nothing is stated
/// of its result.
#[verifier::external_body]
pub(crate) fn config_dir() -> Option<String> {
    dirs::config_dir().map(|p| p.to_string_lossy().into_owned())
}

/// `dirs::cache_dir`, as text. It reads the environment, so nothing is stated
/// of its result.
#[verifier::external_body]
pub(crate) fn cache_dir() -> Option<String> {
    dirs::cache_dir().map(|p| p.to_string_lossy().into_owned())
}

} // verus!
