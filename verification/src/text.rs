//! Text primitives over character sequences.
//!
//! Strings are modelled by their `Seq<char>` view. Each executable function here
//! works on a `Vec<char>` and is proved against a spec function that states what
//! the corresponding `str` method of std returns.
use vstd::prelude::*;

verus! {

/// `String::push` appends one character.
pub assume_specification[ String::push ](s: &mut String, ch: char)
    ensures
        final(s)@ == old(s)@.push(ch),
;

/// The characters of `s`, in order.
pub fn chars_of(s: &str) -> (v: Vec<char>)
    ensures
        v@ == s@,
{
    let mut v: Vec<char> = Vec::new();
    for c in it: s.chars()
        invariant
            v@ == it.seq().take(it.index()),
            it.seq() == s@,
    {
        v.push(c);
    }
    v
}

/// A string holding exactly the characters of `v`.
pub fn string_of(v: &Vec<char>) -> (s: String)
    ensures
        s@ == v@,
{
    let mut s = String::new();
    let n = v.len();
    let mut i: usize = 0;
    while i < n
        invariant
            n == v@.len(),
            i <= n,
            s@ == v@.take(i as int),
        decreases n - i,
    {
        s.push(v[i]);
        assert(v@.take(i as int + 1) =~= v@.take(i as int).push(v@[i as int]));
        i = i + 1;
    }
    assert(v@.take(n as int) =~= v@);
    s
}

/// The characters of a string literal or other text.
pub fn text(s: &str) -> (v: Vec<char>)
    ensures
        v@ == s@,
{
    chars_of(s)
}

/// An optional string by its characters.
pub open spec fn opt_chars(o: Option<String>) -> Option<Seq<char>> {
    match o {
        Some(s) => Some(s@),
        None => None,
    }
}

/// A copy of an optional string.
pub fn copy_opt(o: &Option<String>) -> (r: Option<String>)
    ensures
        opt_chars(r) == opt_chars(*o),
{
    match o {
        Some(s) => Some(s.clone()),
        None => None,
    }
}

/// A copy of `v[lo..hi]`.
pub fn slice_of(v: &Vec<char>, lo: usize, hi: usize) -> (r: Vec<char>)
    requires
        lo <= hi <= v@.len(),
    ensures
        r@ == v@.subrange(lo as int, hi as int),
{
    let mut r: Vec<char> = Vec::new();
    let mut i = lo;
    while i < hi
        invariant
            lo <= i <= hi <= v@.len(),
            r@ == v@.subrange(lo as int, i as int),
        decreases hi - i,
    {
        r.push(v[i]);
        assert(v@.subrange(lo as int, i + 1) =~= v@.subrange(lo as int, i as int).push(v@[i as int]));
        i = i + 1;
    }
    r
}

/// `a` followed by `b`.
pub fn concat(a: &Vec<char>, b: &Vec<char>) -> (r: Vec<char>)
    ensures
        r@ == a@ + b@,
{
    let mut r = a.clone();
    assert(r@ =~= a@);
    let n = b.len();
    let mut i: usize = 0;
    while i < n
        invariant
            n == b@.len(),
            i <= n,
            r@ == a@ + b@.take(i as int),
        decreases n - i,
    {
        r.push(b[i]);
        assert(a@ + b@.take(i + 1) =~= (a@ + b@.take(i as int)).push(b@[i as int]));
        i = i + 1;
    }
    assert(b@.take(n as int) =~= b@);
    r
}

/// `a`, then `b`, then `c`.
pub fn concat3(a: &Vec<char>, b: &Vec<char>, c: &Vec<char>) -> (r: Vec<char>)
    ensures
        r@ == a@ + b@ + c@,
{
    let ab = concat(a, b);
    concat(&ab, c)
}

/// Unicode `White_Space`, the set that `char::is_whitespace` tests.
pub open spec fn is_ws(c: char) -> bool {
    let u = c as u32;
    ||| 0x09 <= u <= 0x0D
    ||| u == 0x20
    ||| u == 0x85
    ||| u == 0xA0
    ||| u == 0x1680
    ||| 0x2000 <= u <= 0x200A
    ||| u == 0x2028
    ||| u == 0x2029
    ||| u == 0x202F
    ||| u == 0x205F
    ||| u == 0x3000
}

pub fn is_whitespace(c: char) -> (r: bool)
    ensures
        r == is_ws(c),
{
    let u = c as u32;
    (0x09 <= u && u <= 0x0D) || u == 0x20 || u == 0x85 || u == 0xA0 || u == 0x1680 || (0x2000
        <= u && u <= 0x200A) || u == 0x2028 || u == 0x2029 || u == 0x202F || u == 0x205F || u
        == 0x3000
}

/// The code of `c` after ASCII lower-casing (what `to_ascii_lowercase` gives).
pub open spec fn ascii_fold(c: char) -> u32 {
    let u = c as u32;
    if 65 <= u <= 90 {
        (u + 32) as u32
    } else {
        u
    }
}

/// The character for the decimal digit `d`.
pub fn digit_char(d: u32) -> (c: char)
    requires
        d < 10,
    ensures
        c as u32 == 48 + d,
{
    ((48 + d) as u8) as char
}

/// A set of characters that trimming and splitting work with.
#[derive(Clone, Copy)]
pub enum CharSet {
    /// Unicode white space.
    Whitespace,
    /// One given character.
    One(char),
    /// Both path separators, `\` and `/`.
    Slashes,
}

impl CharSet {
    pub open spec fn has(self, c: char) -> bool {
        match self {
            CharSet::Whitespace => is_ws(c),
            CharSet::One(x) => c == x,
            CharSet::Slashes => c == '\\' || c == '/',
        }
    }

    pub fn contains(&self, c: char) -> (r: bool)
        ensures
            r == self.has(c),
    {
        match self {
            CharSet::Whitespace => is_whitespace(c),
            CharSet::One(x) => c == *x,
            CharSet::Slashes => c == '\\' || c == '/',
        }
    }
}

/// The first index at or after `i` whose character is not in `set` (or the length).
pub open spec fn skip_in(s: Seq<char>, set: CharSet, i: int) -> int
    decreases s.len() - i,
{
    if 0 <= i < s.len() && set.has(s[i]) {
        skip_in(s, set, i + 1)
    } else {
        i
    }
}

/// Going back from `j`, the first position whose preceding character is not in `set`.
pub open spec fn back_in(s: Seq<char>, set: CharSet, j: int) -> int
    decreases j,
{
    if 0 < j <= s.len() && set.has(s[j - 1]) {
        back_in(s, set, j - 1)
    } else {
        j
    }
}

/// Going back from `j`, the first position whose preceding character is in `set`.
pub open spec fn back_out(s: Seq<char>, set: CharSet, j: int) -> int
    decreases j,
{
    if 0 < j <= s.len() && !set.has(s[j - 1]) {
        back_out(s, set, j - 1)
    } else {
        j
    }
}

/// `s` without the leading characters that are in `set`.
pub open spec fn trim_start(s: Seq<char>, set: CharSet) -> Seq<char> {
    s.skip(skip_in(s, set, 0))
}

/// `s` without the trailing characters that are in `set`.
pub open spec fn trim_end(s: Seq<char>, set: CharSet) -> Seq<char> {
    s.take(back_in(s, set, s.len() as int))
}

/// What `str::trim_matches` gives for a set of characters.
pub open spec fn trim_set(s: Seq<char>, set: CharSet) -> Seq<char> {
    trim_end(trim_start(s, set), set)
}

/// What `str::trim` gives.
pub open spec fn trim(s: Seq<char>) -> Seq<char> {
    trim_set(s, CharSet::Whitespace)
}

/// The part after the last character of `set` (all of `s` when none occurs):
/// the first item of `str::rsplit` on that set.
pub open spec fn last_segment(s: Seq<char>, set: CharSet) -> Seq<char> {
    s.skip(back_out(s, set, s.len() as int))
}

fn skip_in_exec(v: &Vec<char>, set: &CharSet) -> (k: usize)
    ensures
        k == skip_in(v@, *set, 0),
        k <= v@.len(),
{
    let n = v.len();
    let mut i: usize = 0;
    while i < n && set.contains(v[i])
        invariant
            n == v@.len(),
            i <= n,
            skip_in(v@, *set, i as int) == skip_in(v@, *set, 0),
        decreases n - i,
    {
        i = i + 1;
    }
    i
}

fn back_in_exec(v: &Vec<char>, set: &CharSet) -> (k: usize)
    ensures
        k == back_in(v@, *set, v@.len() as int),
        k <= v@.len(),
{
    let mut j: usize = v.len();
    while j > 0 && set.contains(v[j - 1])
        invariant
            j <= v@.len(),
            back_in(v@, *set, j as int) == back_in(v@, *set, v@.len() as int),
        decreases j,
    {
        j = j - 1;
    }
    j
}

pub fn back_out_exec(v: &Vec<char>, set: &CharSet) -> (k: usize)
    ensures
        k == back_out(v@, *set, v@.len() as int),
        k <= v@.len(),
{
    let mut j: usize = v.len();
    while j > 0 && !set.contains(v[j - 1])
        invariant
            j <= v@.len(),
            back_out(v@, *set, j as int) == back_out(v@, *set, v@.len() as int),
        decreases j,
    {
        j = j - 1;
    }
    j
}

/// `str::trim_matches` on a set of characters.
pub fn trim_set_exec(v: &Vec<char>, set: &CharSet) -> (r: Vec<char>)
    ensures
        r@ == trim_set(v@, *set),
{
    let k = skip_in_exec(v, set);
    let a = slice_of(v, k, v.len());
    assert(a@ =~= trim_start(v@, *set));
    let e = back_in_exec(&a, set);
    let r = slice_of(&a, 0, e);
    assert(r@ =~= trim_end(a@, *set));
    r
}

/// `str::trim`.
pub fn trim_exec(v: &Vec<char>) -> (r: Vec<char>)
    ensures
        r@ == trim(v@),
{
    trim_set_exec(v, &CharSet::Whitespace)
}

/// The first item of `str::rsplit` on a set of characters.
pub fn last_segment_exec(v: &Vec<char>, set: &CharSet) -> (r: Vec<char>)
    ensures
        r@ == last_segment(v@, *set),
{
    let k = back_out_exec(v, set);
    let r = slice_of(v, k, v.len());
    assert(r@ =~= last_segment(v@, *set));
    r
}

/// What `str::starts_with` gives.
pub open spec fn starts_with(s: Seq<char>, p: Seq<char>) -> bool {
    p.len() <= s.len() && s.take(p.len() as int) == p
}

/// What `str::ends_with` gives.
pub open spec fn ends_with(s: Seq<char>, p: Seq<char>) -> bool {
    p.len() <= s.len() && s.skip(s.len() - p.len()) == p
}

/// `p` occurs in `s` at position `i`.
pub open spec fn occurs_at(s: Seq<char>, p: Seq<char>, i: int) -> bool {
    0 <= i && i + p.len() <= s.len() && s.subrange(i, i + p.len()) == p
}

/// What `str::contains` gives for a string pattern.
pub open spec fn contains(s: Seq<char>, p: Seq<char>) -> bool {
    exists|i: int| occurs_at(s, p, i)
}

/// Whether `p` occurs in `v` at position `i`.
pub fn matches_at(v: &Vec<char>, p: &Vec<char>, i: usize) -> (r: bool)
    ensures
        r == occurs_at(v@, p@, i as int),
{
    let n = v.len();
    let m = p.len();
    if i > n || m > n - i {
        return false;
    }
    let mut k: usize = 0;
    while k < m
        invariant
            n == v@.len(),
            m == p@.len(),
            i + m <= n,
            k <= m,
            forall|t: int| 0 <= t < k ==> v@[i + t] == p@[t],
        decreases m - k,
    {
        if v[i + k] != p[k] {
            assert(v@.subrange(i as int, i + m)[k as int] != p@[k as int]);
            return false;
        }
        k = k + 1;
    }
    assert(v@.subrange(i as int, i + m) =~= p@);
    true
}

/// `str::starts_with`.
pub fn starts_with_exec(v: &Vec<char>, p: &Vec<char>) -> (r: bool)
    ensures
        r == starts_with(v@, p@),
{
    let r = matches_at(v, p, 0);
    assert(p@.len() <= v@.len() ==> v@.subrange(0, p@.len() as int) =~= v@.take(p@.len() as int));
    r
}

/// `str::ends_with`.
pub fn ends_with_exec(v: &Vec<char>, p: &Vec<char>) -> (r: bool)
    ensures
        r == ends_with(v@, p@),
{
    if p.len() > v.len() {
        return false;
    }
    let i = v.len() - p.len();
    let r = matches_at(v, p, i);
    assert(v@.subrange(i as int, v@.len() as int) =~= v@.skip(i as int));
    r
}

/// `str::contains`.
pub fn contains_exec(v: &Vec<char>, p: &Vec<char>) -> (r: bool)
    ensures
        r == contains(v@, p@),
{
    let n = v.len();
    let m = p.len();
    if m > n {
        assert forall|i: int| !occurs_at(v@, p@, i) by {}
        return false;
    }
    if m == 0 {
        assert(v@.subrange(0, 0) =~= p@);
        assert(occurs_at(v@, p@, 0));
        return true;
    }
    let mut i: usize = 0;
    while i <= n - m
        invariant
            n == v@.len(),
            m == p@.len(),
            0 < m <= n,
            i <= n - m + 1,
            forall|t: int| 0 <= t < i ==> !occurs_at(v@, p@, t),
        decreases n - m + 1 - i,
    {
        if matches_at(v, p, i) {
            return true;
        }
        i = i + 1;
    }
    assert forall|t: int| !occurs_at(v@, p@, t) by {
        if occurs_at(v@, p@, t) {
            assert(t < i);
        }
    }
    false
}

/// What `str::strip_prefix` gives.
pub open spec fn strip_prefix(s: Seq<char>, p: Seq<char>) -> Option<Seq<char>> {
    if starts_with(s, p) {
        Some(s.skip(p.len() as int))
    } else {
        None
    }
}

/// `str::strip_prefix`.
pub fn strip_prefix_exec(v: &Vec<char>, p: &Vec<char>) -> (r: Option<Vec<char>>)
    ensures
        r matches Some(x) ==> strip_prefix(v@, p@) == Some(x@),
        r is None ==> strip_prefix(v@, p@) is None,
{
    if starts_with_exec(v, p) {
        let x = slice_of(v, p.len(), v.len());
        assert(x@ =~= v@.skip(p@.len() as int));
        Some(x)
    } else {
        None
    }
}

/// What `str::eq_ignore_ascii_case` gives.
pub open spec fn eq_ignore_ascii_case(a: Seq<char>, b: Seq<char>) -> bool {
    a.len() == b.len() && forall|i: int| 0 <= i < a.len() ==> ascii_fold(a[i]) == ascii_fold(b[i])
}

fn fold_exec(c: char) -> (r: u32)
    ensures
        r == ascii_fold(c),
{
    let u = c as u32;
    if 65 <= u && u <= 90 {
        u + 32
    } else {
        u
    }
}

/// `str::eq_ignore_ascii_case`.
pub fn eq_ignore_ascii_case_exec(a: &Vec<char>, b: &Vec<char>) -> (r: bool)
    ensures
        r == eq_ignore_ascii_case(a@, b@),
{
    let n = a.len();
    if n != b.len() {
        return false;
    }
    let mut i: usize = 0;
    while i < n
        invariant
            n == a@.len(),
            n == b@.len(),
            i <= n,
            forall|t: int| 0 <= t < i ==> ascii_fold(a@[t]) == ascii_fold(b@[t]),
        decreases n - i,
    {
        if fold_exec(a[i]) != fold_exec(b[i]) {
            return false;
        }
        i = i + 1;
    }
    true
}

/// Whether two character sequences are equal.
pub fn chars_eq(a: &Vec<char>, b: &Vec<char>) -> (r: bool)
    ensures
        r == (a@ == b@),
{
    let n = a.len();
    if n != b.len() {
        return false;
    }
    let mut i: usize = 0;
    while i < n
        invariant
            n == a@.len(),
            n == b@.len(),
            i <= n,
            forall|t: int| 0 <= t < i ==> a@[t] == b@[t],
        decreases n - i,
    {
        if a[i] != b[i] {
            return false;
        }
        i = i + 1;
    }
    assert(a@ =~= b@);
    true
}

/// What `str::to_lowercase` gives: full Unicode lower-casing, a function of the
/// characters alone.
pub uninterp spec fn lowercase(s: Seq<char>) -> Seq<char>;

/// `str::to_lowercase`, applied to the characters of `v`.
#[verifier::external_body]
pub(crate) fn to_lowercase(v: &Vec<char>) -> (r: Vec<char>)
    ensures
        r@ == lowercase(v@),
{
    let s: String = v.iter().collect();
    s.to_lowercase().chars().collect()
}

/// The pieces of `s` between the characters of `set`, scanning with `cur` as the
/// piece under way: the items of `str::split` on that set.
pub open spec fn split_from(s: Seq<char>, set: CharSet, cur: Seq<char>) -> Seq<Seq<char>>
    decreases s.len(),
{
    if s.len() == 0 {
        seq![cur]
    } else if set.has(s[0]) {
        seq![cur] + split_from(s.drop_first(), set, seq![])
    } else {
        split_from(s.drop_first(), set, cur.push(s[0]))
    }
}

/// What `str::split` yields for a set of separator characters.
pub open spec fn split(s: Seq<char>, set: CharSet) -> Seq<Seq<char>> {
    split_from(s, set, seq![])
}

proof fn lemma_split_from_nonempty(s: Seq<char>, set: CharSet, cur: Seq<char>)
    ensures
        split_from(s, set, cur).len() >= 1,
    decreases s.len(),
{
    if s.len() > 0 {
        if set.has(s[0]) {
            lemma_split_from_nonempty(s.drop_first(), set, seq![]);
        } else {
            lemma_split_from_nonempty(s.drop_first(), set, cur.push(s[0]));
        }
    }
}

/// `str::split` always yields at least one piece.
pub proof fn lemma_split_nonempty(s: Seq<char>, set: CharSet)
    ensures
        split(s, set).len() >= 1,
{
    lemma_split_from_nonempty(s, set, seq![]);
}

/// A vector of characters is its own deep view.
pub proof fn lemma_chars_deep_view(v: Vec<char>)
    ensures
        v.deep_view() == v@,
{
    assert(v.deep_view() =~= v@);
}

/// `str::split` on a set of separator characters.
pub fn split_exec(v: &Vec<char>, set: &CharSet) -> (r: Vec<Vec<char>>)
    ensures
        r.deep_view() == split(v@, *set),
{
    let n = v.len();
    let mut res: Vec<Vec<char>> = Vec::new();
    let mut cur: Vec<char> = Vec::new();
    let mut i: usize = 0;
    assert(v@.skip(0) =~= v@);
    while i < n
        invariant
            n == v@.len(),
            i <= n,
            res.deep_view() + split_from(v@.skip(i as int), *set, cur@) == split(v@, *set),
        decreases n - i,
    {
        let ghost rest = v@.skip(i as int);
        assert(rest[0] == v@[i as int]);
        assert(rest.drop_first() =~= v@.skip(i + 1));
        let c = v[i];
        if set.contains(c) {
            let ghost before = res.deep_view();
            let ghost piece = cur@;
            proof {
                lemma_chars_deep_view(cur);
            }
            res.push(cur);
            cur = Vec::new();
            assert(res.deep_view() =~= before.push(piece));
            assert(before + split_from(rest, *set, piece) =~= res.deep_view() + split_from(
                v@.skip(i + 1),
                *set,
                cur@,
            ));
        } else {
            cur.push(c);
        }
        i = i + 1;
    }
    let ghost before = res.deep_view();
    let ghost piece = cur@;
    proof {
        lemma_chars_deep_view(cur);
    }
    res.push(cur);
    assert(res.deep_view() =~= before.push(piece));
    assert(before + split_from(v@.skip(n as int), *set, piece) =~= res.deep_view());
    res
}

/// `ss` without its empty items.
pub open spec fn drop_empty(ss: Seq<Seq<char>>) -> Seq<Seq<char>>
    decreases ss.len(),
{
    if ss.len() == 0 {
        ss
    } else if ss.last().len() == 0 {
        drop_empty(ss.drop_last())
    } else {
        drop_empty(ss.drop_last()).push(ss.last())
    }
}

/// What `str::split_whitespace` yields.
pub open spec fn split_whitespace(s: Seq<char>) -> Seq<Seq<char>> {
    drop_empty(split(s, CharSet::Whitespace))
}

/// The items of `parts` that are not empty, in order.
pub fn drop_empty_exec(parts: Vec<Vec<char>>) -> (r: Vec<Vec<char>>)
    ensures
        r.deep_view() == drop_empty(parts.deep_view()),
{
    let n = parts.len();
    let mut r: Vec<Vec<char>> = Vec::new();
    let mut i: usize = 0;
    while i < n
        invariant
            n == parts.deep_view().len(),
            i <= n,
            r.deep_view() == drop_empty(parts.deep_view().take(i as int)),
        decreases n - i,
    {
        let ghost pv = parts.deep_view();
        assert(pv.take(i + 1).drop_last() =~= pv.take(i as int));
        assert(pv.take(i + 1).last() == pv[i as int]);
        if parts[i].len() > 0 {
            let ghost before = r.deep_view();
            r.push(parts[i].clone());
            assert(r.deep_view() =~= before.push(pv[i as int]));
        }
        i = i + 1;
    }
    assert(parts.deep_view().take(n as int) =~= parts.deep_view());
    r
}

/// `str::split_whitespace`.
pub fn split_whitespace_exec(v: &Vec<char>) -> (r: Vec<Vec<char>>)
    ensures
        r.deep_view() == split_whitespace(v@),
{
    let parts = split_exec(v, &CharSet::Whitespace);
    drop_empty_exec(parts)
}

/// The lines of `s`: the pieces between line feeds, without the empty piece after a
/// final line feed. These are the items of `str::lines` up to a carriage return
/// that ends a line, which every caller removes by trimming.
pub open spec fn lines(s: Seq<char>) -> Seq<Seq<char>> {
    let p = split(s, CharSet::One('\n'));
    if p.len() > 0 && p.last().len() == 0 {
        p.drop_last()
    } else {
        p
    }
}

/// The lines of `v`, as `lines` states them.
pub fn lines_exec(v: &Vec<char>) -> (r: Vec<Vec<char>>)
    ensures
        r.deep_view() == lines(v@),
{
    let mut p = split_exec(v, &CharSet::One('\n'));
    let k = p.len();
    if k > 0 && p[k - 1].len() == 0 {
        let ghost before = p.deep_view();
        p.pop();
        assert(p.deep_view() =~= before.drop_last());
    }
    p
}

/// `ss` joined with `sep` between neighbours.
pub open spec fn join(ss: Seq<Seq<char>>, sep: Seq<char>) -> Seq<char>
    decreases ss.len(),
{
    if ss.len() == 0 {
        seq![]
    } else if ss.len() == 1 {
        ss[0]
    } else {
        join(ss.drop_last(), sep) + sep + ss.last()
    }
}

/// `ss` joined with `sep` between neighbours (`[String]::join`).
pub fn join_exec(ss: &Vec<Vec<char>>, sep: &Vec<char>) -> (r: Vec<char>)
    ensures
        r@ == join(ss.deep_view(), sep@),
{
    let n = ss.len();
    let mut r: Vec<char> = Vec::new();
    let mut i: usize = 0;
    while i < n
        invariant
            n == ss.deep_view().len(),
            i <= n,
            r@ == join(ss.deep_view().take(i as int), sep@),
        decreases n - i,
    {
        let ghost sv = ss.deep_view();
        assert(sv.take(i + 1).drop_last() =~= sv.take(i as int));
        assert(sv.take(i + 1).last() == sv[i as int]);
        assert(ss[i as int]@ == sv[i as int]);
        if i == 0 {
            r = ss[0].clone();
            assert(r@ =~= ss[0]@);
        } else {
            r = concat3(&r, sep, &ss[i]);
        }
        i = i + 1;
    }
    assert(ss.deep_view().take(n as int) =~= ss.deep_view());
    r
}

/// `s` with every non-overlapping occurrence of `p`, found from the left, removed
/// (what `str::replace(p, "")` gives).
pub open spec fn remove_all(s: Seq<char>, p: Seq<char>) -> Seq<char>
    decreases s.len(),
{
    if s.len() == 0 {
        s
    } else if p.len() > 0 && starts_with(s, p) {
        remove_all(s.skip(p.len() as int), p)
    } else {
        seq![s[0]] + remove_all(s.drop_first(), p)
    }
}

/// `str::replace` with an empty replacement.
pub fn remove_all_exec(v: &Vec<char>, p: &Vec<char>) -> (r: Vec<char>)
    ensures
        r@ == remove_all(v@, p@),
{
    let n = v.len();
    let m = p.len();
    let mut r: Vec<char> = Vec::new();
    let mut i: usize = 0;
    assert(v@.skip(0) =~= v@);
    while i < n
        invariant
            n == v@.len(),
            m == p@.len(),
            i <= n,
            r@ + remove_all(v@.skip(i as int), p@) == remove_all(v@, p@),
        decreases n - i,
    {
        let ghost rest = v@.skip(i as int);
        let hit = m > 0 && matches_at(v, p, i);
        if hit {
            assert(rest.take(m as int) =~= v@.subrange(i as int, i + m));
            assert(rest.skip(m as int) =~= v@.skip(i + m));
            i = i + m;
        } else {
            assert(m > 0 ==> (starts_with(rest, p@) ==> rest.take(m as int) =~= v@.subrange(
                i as int,
                i + m,
            )));
            assert(rest.drop_first() =~= v@.skip(i + 1));
            let ghost before = r@;
            r.push(v[i]);
            assert(r@ + remove_all(v@.skip(i + 1), p@) =~= before + (seq![rest[0]] + remove_all(
                rest.drop_first(),
                p@,
            )));
            i = i + 1;
        }
    }
    assert(v@.skip(i as int).len() == 0);
    assert(r@ + remove_all(v@.skip(i as int), p@) =~= r@);
    r
}

/// The decimal digits of `n`, as `u32`'s `Display` writes them.
pub open spec fn decimal(n: nat) -> Seq<char>
    decreases n,
{
    if n < 10 {
        seq![(48 + n) as char]
    } else {
        decimal(n / 10).push((48 + n % 10) as char)
    }
}

/// The decimal text of `n`.
pub fn decimal_exec(n: u64) -> (r: Vec<char>)
    ensures
        r@ == decimal(n as nat),
    decreases n,
{
    if n < 10 {
        let mut r = Vec::new();
        r.push(digit_char(n as u32));
        assert(r@ =~= decimal(n as nat));
        r
    } else {
        let mut r = decimal_exec(n / 10);
        r.push(digit_char((n % 10) as u32));
        r
    }
}

/// The first index at or after `i` whose character is in `set` (or the length).
pub open spec fn skip_out(s: Seq<char>, set: CharSet, i: int) -> int
    decreases s.len() - i,
{
    if 0 <= i < s.len() && !set.has(s[i]) {
        skip_out(s, set, i + 1)
    } else {
        i
    }
}

/// The parts before and after the first character of `set`, when one occurs
/// (what `str::split_once` gives, and `splitn(2, ..)` when it yields two parts).
pub open spec fn split_once(s: Seq<char>, set: CharSet) -> Option<(Seq<char>, Seq<char>)> {
    let k = skip_out(s, set, 0);
    if 0 <= k < s.len() {
        Some((s.take(k), s.skip(k + 1)))
    } else {
        None
    }
}

/// `str::split_once` on a set of characters.
pub fn split_once_exec(v: &Vec<char>, set: &CharSet) -> (r: Option<(Vec<char>, Vec<char>)>)
    ensures
        r matches Some((a, b)) ==> split_once(v@, *set) == Some((a@, b@)),
        r is None ==> split_once(v@, *set) is None,
{
    let n = v.len();
    let mut i: usize = 0;
    while i < n && !set.contains(v[i])
        invariant
            n == v@.len(),
            i <= n,
            skip_out(v@, *set, i as int) == skip_out(v@, *set, 0),
        decreases n - i,
    {
        i = i + 1;
    }
    if i < n {
        let a = slice_of(v, 0, i);
        let b = slice_of(v, i + 1, n);
        assert(a@ =~= v@.take(i as int));
        assert(b@ =~= v@.skip(i + 1));
        Some((a, b))
    } else {
        None
    }
}

/// The rest of `s` after its first `n` characters of `set`: the last of the parts
/// that `str::splitn(n + 1, ..)` yields, when it yields `n + 1` parts.
pub open spec fn rest_after(s: Seq<char>, set: CharSet, n: nat) -> Option<Seq<char>>
    decreases n,
{
    if n == 0 {
        Some(s)
    } else {
        match split_once(s, set) {
            Some((_, r)) => rest_after(r, set, (n - 1) as nat),
            None => None,
        }
    }
}

/// `rest_after` computed.
pub fn rest_after_exec(v: &Vec<char>, set: &CharSet, n: usize) -> (r: Option<Vec<char>>)
    ensures
        r matches Some(x) ==> rest_after(v@, *set, n as nat) == Some(x@),
        r is None ==> rest_after(v@, *set, n as nat) is None,
    decreases n,
{
    if n == 0 {
        Some(v.clone())
    } else {
        match split_once_exec(v, set) {
            Some((_, b)) => rest_after_exec(&b, set, n - 1),
            None => None,
        }
    }
}

/// The strings of `v`, each by its view.
pub open spec fn strings_view(v: Seq<String>) -> Seq<Seq<char>> {
    v.map_values(|s: String| s@)
}

/// Whether `x` is one of the items of `list`.
pub fn list_contains(list: &Vec<Vec<char>>, x: &Vec<char>) -> (r: bool)
    ensures
        r == list.deep_view().contains(x@),
{
    let n = list.len();
    let mut i: usize = 0;
    while i < n
        invariant
            n == list.deep_view().len(),
            i <= n,
            forall|k: int| 0 <= k < i ==> list.deep_view()[k] != x@,
        decreases n - i,
    {
        assert(list[i as int]@ == list.deep_view()[i as int]);
        if chars_eq(&list[i], x) {
            assert(list.deep_view()[i as int] == x@);
            return true;
        }
        i = i + 1;
    }
    false
}

/// Whether `x` is one of the strings of `list`.
pub fn strings_contain(list: &[String], x: &Vec<char>) -> (r: bool)
    ensures
        r == strings_view(list@).contains(x@),
{
    let n = list.len();
    let mut i: usize = 0;
    while i < n
        invariant
            n == list@.len(),
            i <= n,
            forall|k: int| 0 <= k < i ==> strings_view(list@)[k] != x@,
        decreases n - i,
    {
        if chars_eq(&chars_of(list[i].as_str()), x) {
            assert(strings_view(list@)[i as int] == x@);
            return true;
        }
        i = i + 1;
    }
    false
}

/// Going forward from `i`, the first character not in `set` is at `k`.
pub proof fn lemma_skip_in_to(s: Seq<char>, set: CharSet, i: int, k: int)
    requires
        0 <= i <= k <= s.len(),
        forall|m: int| i <= m < k ==> set.has(#[trigger] s[m]),
        k < s.len() ==> !set.has(s[k]),
    ensures
        skip_in(s, set, i) == k,
    decreases k - i,
{
    if i < k {
        lemma_skip_in_to(s, set, i + 1, k);
    }
}

/// Going forward from `i`, the first character in `set` is at `k`.
pub proof fn lemma_skip_out_to(s: Seq<char>, set: CharSet, i: int, k: int)
    requires
        0 <= i <= k < s.len(),
        forall|m: int| i <= m < k ==> !set.has(#[trigger] s[m]),
        set.has(s[k]),
    ensures
        skip_out(s, set, i) == k,
    decreases k - i,
{
    if i < k {
        lemma_skip_out_to(s, set, i + 1, k);
    }
}

/// Going back from `j`, the last character in `set` is just before `k`, or none
/// is (`k == 0`).
pub proof fn lemma_back_out_to(s: Seq<char>, set: CharSet, j: int, k: int)
    requires
        0 <= k <= j <= s.len(),
        forall|m: int| k <= m < j ==> !set.has(#[trigger] s[m]),
        k == 0 || set.has(s[k - 1]),
    ensures
        back_out(s, set, j) == k,
    decreases j - k,
{
    if k < j {
        lemma_back_out_to(s, set, j - 1, k);
    }
}

/// Splitting `f`, one character of `set` and `r` at the first character of `set`
/// gives `f` and `r` when `f` holds none.
pub proof fn lemma_split_once_after(f: Seq<char>, c: char, r: Seq<char>, set: CharSet)
    requires
        forall|m: int| 0 <= m < f.len() ==> !set.has(#[trigger] f[m]),
        set.has(c),
    ensures
        split_once(f + seq![c] + r, set) == Some((f, r)),
{
    let s = f + seq![c] + r;
    assert forall|m: int| 0 <= m < f.len() implies !set.has(#[trigger] s[m]) by {
        assert(s[m] == f[m]);
    }
    lemma_skip_out_to(s, set, 0, f.len() as int);
    assert(s.take(f.len() as int) =~= f);
    assert(s.skip(f.len() as int + 1) =~= r);
}

/// Trimming white space `g` followed by `p`, which neither starts nor ends with
/// white space, gives `p`.
pub proof fn lemma_trim_after_space(g: Seq<char>, p: Seq<char>)
    requires
        forall|m: int| 0 <= m < g.len() ==> is_ws(#[trigger] g[m]),
        p.len() > 0,
        !is_ws(p[0]),
        !is_ws(p.last()),
    ensures
        trim(g + p) == p,
{
    let s = g + p;
    assert forall|m: int| 0 <= m < g.len() implies CharSet::Whitespace.has(#[trigger] s[m]) by {
        assert(s[m] == g[m]);
    }
    assert(s[g.len() as int] == p[0]);
    lemma_skip_in_to(s, CharSet::Whitespace, 0, g.len() as int);
    assert(s.skip(g.len() as int) =~= p);
    assert(back_in(p, CharSet::Whitespace, p.len() as int) == p.len());
    assert(p.take(p.len() as int) =~= p);
}

} // verus!
