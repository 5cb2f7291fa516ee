//! Stable sorting by a text key, as `sort_by_key` does with `String` keys.
use vstd::prelude::*;

verus! {

/// The order of `str`: lexicographic by character (UTF-8 bytes order as their
/// code points do).
pub open spec fn lex_le(a: Seq<char>, b: Seq<char>) -> bool
    decreases a.len(),
{
    if a.len() == 0 {
        true
    } else if b.len() == 0 {
        false
    } else if (a[0] as u32) < (b[0] as u32) {
        true
    } else if (a[0] as u32) > (b[0] as u32) {
        false
    } else {
        lex_le(a.drop_first(), b.drop_first())
    }
}

/// Whether `a` comes no later than `b` in the order of `str`.
pub fn lex_le_exec(a: &Vec<char>, b: &Vec<char>) -> (r: bool)
    ensures
        r == lex_le(a@, b@),
{
    let mut i: usize = 0;
    assert(a@.skip(0) =~= a@);
    assert(b@.skip(0) =~= b@);
    while i < a.len() && i < b.len() && (a[i] as u32) == (b[i] as u32)
        invariant
            i <= a@.len(),
            i <= b@.len(),
            lex_le(a@.skip(i as int), b@.skip(i as int)) == lex_le(a@, b@),
        decreases a@.len() - i,
    {
        assert(a@.skip(i as int).drop_first() =~= a@.skip(i + 1));
        assert(b@.skip(i as int).drop_first() =~= b@.skip(i + 1));
        i = i + 1;
    }
    if i == a.len() {
        return true;
    }
    if i == b.len() {
        return false;
    }
    let x: u32 = a[i] as u32;
    let y: u32 = b[i] as u32;
    assert(a@.skip(i as int)[0] == a@[i as int]);
    assert(b@.skip(i as int)[0] == b@[i as int]);
    x < y
}

/// `s` with `x` inserted after the last item whose key comes no later than its
/// own (scanning from the end): into a sorted `s`, after every item with a key
/// no later than `x`'s.
pub open spec fn insert_by_key<T>(s: Seq<(Seq<char>, T)>, x: (Seq<char>, T)) -> Seq<(Seq<char>, T)>
    decreases s.len(),
{
    if s.len() == 0 {
        seq![x]
    } else if lex_le(s.last().0, x.0) {
        s.push(x)
    } else {
        insert_by_key(s.drop_last(), x).push(s.last())
    }
}

/// `s` sorted by key, items with equal keys keeping their order (what a stable
/// sort such as `sort_by_key` gives).
pub open spec fn sort_by_key<T>(s: Seq<(Seq<char>, T)>) -> Seq<(Seq<char>, T)>
    decreases s.len(),
{
    if s.len() == 0 {
        s
    } else {
        insert_by_key(sort_by_key(s.drop_last()), s.last())
    }
}

/// The items of keyed pairs, without their keys.
pub open spec fn values<T>(s: Seq<(Seq<char>, T)>) -> Seq<T> {
    s.map_values(|x: (Seq<char>, T)| x.1)
}

/// Keyed items by the view of their keys.
pub open spec fn keyed<T>(v: Seq<(Vec<char>, T)>) -> Seq<(Seq<char>, T)> {
    v.map_values(|p: (Vec<char>, T)| (p.0@, p.1))
}

fn insert_keyed<T>(res: &mut Vec<(Vec<char>, T)>, x: (Vec<char>, T))
    ensures
        keyed(final(res)@) == insert_by_key(keyed(old(res)@), (x.0@, x.1)),
{
    let ghost s = keyed(res@);
    let ghost xv = (x.0@, x.1);
    let mut k = res.len();
    assert(s.take(k as int) =~= s);
    assert(insert_by_key(s, xv) =~= insert_by_key(s.take(k as int), xv) + s.skip(k as int));
    while k > 0 && !lex_le_exec(&res[k - 1].0, &x.0)
        invariant
            k <= res@.len(),
            s == keyed(res@),
            xv == (x.0@, x.1),
            insert_by_key(s, xv) == insert_by_key(s.take(k as int), xv) + s.skip(k as int),
        decreases k,
    {
        assert(s.take(k as int).drop_last() =~= s.take(k - 1));
        assert(s.take(k as int).last() == s[k - 1]);
        assert(s[k - 1].0 == res@[k - 1].0@);
        assert(insert_by_key(s.take(k - 1), xv).push(s[k - 1]) + s.skip(k as int)
            =~= insert_by_key(s.take(k - 1), xv) + s.skip(k - 1));
        k = k - 1;
    }
    if k > 0 {
        assert(s.take(k as int).last() == s[k - 1]);
        assert(s[k - 1].0 == res@[k - 1].0@);
    } else {
        assert(s.take(0) =~= Seq::<(Seq<char>, T)>::empty());
    }
    res.insert(k, x);
    assert(keyed(res@) =~= s.take(k as int).push(xv) + s.skip(k as int));
}

/// Sort keyed items by key, stably.
pub fn sort_keyed<T>(items: Vec<(Vec<char>, T)>) -> (r: Vec<(Vec<char>, T)>)
    ensures
        keyed(r@) == sort_by_key(keyed(items@)),
{
    let ghost all = keyed(items@);
    let mut rest = items;
    let mut res: Vec<(Vec<char>, T)> = Vec::new();
    let ghost mut done: int = 0;
    assert(all.take(0) =~= Seq::<(Seq<char>, T)>::empty());
    assert(keyed(res@) =~= sort_by_key(all.take(0)));
    assert(keyed(rest@) =~= all.skip(0));
    while rest.len() > 0
        invariant
            0 <= done <= all.len(),
            keyed(rest@) == all.skip(done),
            keyed(res@) == sort_by_key(all.take(done)),
        decreases rest@.len(),
    {
        let ghost before = rest@;
        assert(done < all.len()) by {
            assert(all.skip(done).len() == keyed(before).len());
        }
        let x = rest.remove(0);
        assert(keyed(before)[0] == (x.0@, x.1));
        assert(all.skip(done)[0] == (x.0@, x.1));
        assert(keyed(rest@) =~= keyed(before).drop_first());
        assert(all.skip(done).drop_first() =~= all.skip(done + 1));
        assert(all.take(done + 1).drop_last() =~= all.take(done));
        assert(all.take(done + 1).last() == (x.0@, x.1));
        insert_keyed(&mut res, x);
        proof {
            done = done + 1;
        }
    }
    assert(all.take(done) =~= all);
    res
}

proof fn lemma_lex_total(a: Seq<char>, b: Seq<char>)
    ensures
        lex_le(a, b) || lex_le(b, a),
    decreases a.len(),
{
    if a.len() > 0 && b.len() > 0 && a[0] as u32 == b[0] as u32 {
        lemma_lex_total(a.drop_first(), b.drop_first());
    }
}

proof fn lemma_lex_trans(a: Seq<char>, b: Seq<char>, c: Seq<char>)
    requires
        lex_le(a, b),
        lex_le(b, c),
    ensures
        lex_le(a, c),
    decreases a.len(),
{
    if a.len() > 0 && b.len() > 0 && c.len() > 0 {
        if a[0] as u32 == b[0] as u32 && b[0] as u32 == c[0] as u32 {
            lemma_lex_trans(a.drop_first(), b.drop_first(), c.drop_first());
        }
    }
}

/// The keys of `s` never decrease.
pub open spec fn keys_sorted<T>(s: Seq<(Seq<char>, T)>) -> bool {
    forall|i: int, j: int| 0 <= i < j < s.len() ==> lex_le(#[trigger] s[i].0, #[trigger] s[j].0)
}

proof fn lemma_insert_items<T>(s: Seq<(Seq<char>, T)>, x: (Seq<char>, T))
    ensures
        insert_by_key(s, x).len() == s.len() + 1,
        forall|i: int|
            0 <= i < insert_by_key(s, x).len() ==> #[trigger] insert_by_key(s, x)[i] == x
                || s.contains(insert_by_key(s, x)[i]),
    decreases s.len(),
{
    if s.len() > 0 && !lex_le(s.last().0, x.0) {
        lemma_insert_items(s.drop_last(), x);
        let t = insert_by_key(s.drop_last(), x);
        assert forall|i: int| 0 <= i < insert_by_key(s, x).len() implies #[trigger] insert_by_key(
            s,
            x,
        )[i] == x || s.contains(insert_by_key(s, x)[i]) by {
            if i < t.len() {
                assert(insert_by_key(s, x)[i] == t[i]);
                if t[i] != x {
                    let k = choose|k: int| 0 <= k < s.drop_last().len() && s.drop_last()[k] == t[i];
                    assert(s[k] == t[i]);
                }
            } else {
                assert(s[s.len() - 1] == s.last());
            }
        }
    } else if s.len() > 0 {
        assert forall|i: int| 0 <= i < insert_by_key(s, x).len() implies #[trigger] insert_by_key(
            s,
            x,
        )[i] == x || s.contains(insert_by_key(s, x)[i]) by {
            if i < s.len() {
                assert(insert_by_key(s, x)[i] == s[i]);
            }
        }
    }
}

proof fn lemma_insert_sorted<T>(s: Seq<(Seq<char>, T)>, x: (Seq<char>, T))
    requires
        keys_sorted(s),
    ensures
        keys_sorted(insert_by_key(s, x)),
    decreases s.len(),
{
    let r = insert_by_key(s, x);
    if s.len() == 0 {
    } else if lex_le(s.last().0, x.0) {
        assert forall|i: int, j: int| 0 <= i < j < r.len() implies lex_le(#[trigger] r[i].0, #[trigger] r[j].0) by {
            if j == r.len() - 1 {
                if i < s.len() - 1 {
                    assert(lex_le(s[i].0, s[s.len() - 1].0));
                    lemma_lex_trans(s[i].0, s.last().0, x.0);
                }
            } else {
                assert(r[i] == s[i] && r[j] == s[j]);
            }
        }
    } else {
        let t = insert_by_key(s.drop_last(), x);
        assert(keys_sorted(s.drop_last())) by {
            assert forall|i: int, j: int| 0 <= i < j < s.drop_last().len() implies lex_le(
                #[trigger] s.drop_last()[i].0,
                #[trigger] s.drop_last()[j].0,
            ) by {
                assert(s.drop_last()[i] == s[i] && s.drop_last()[j] == s[j]);
            }
        }
        lemma_insert_sorted(s.drop_last(), x);
        lemma_insert_items(s.drop_last(), x);
        lemma_lex_total(s.last().0, x.0);
        assert forall|i: int, j: int| 0 <= i < j < r.len() implies lex_le(#[trigger] r[i].0, #[trigger] r[j].0) by {
            if j == r.len() - 1 {
                assert(r[i] == t[i]);
                assert(r[j] == s.last());
                if t[i] != x {
                    let k = choose|k: int| 0 <= k < s.drop_last().len() && s.drop_last()[k] == t[i];
                    assert(s[k] == t[i]);
                    assert(lex_le(s[k].0, s[s.len() - 1].0));
                }
            } else {
                assert(r[i] == t[i] && r[j] == t[j]);
            }
        }
    }
}

/// Sorting by key leaves the keys in order.
pub proof fn lemma_sort_by_key_sorted<T>(s: Seq<(Seq<char>, T)>)
    ensures
        keys_sorted(sort_by_key(s)),
        sort_by_key(s).len() == s.len(),
    decreases s.len(),
{
    if s.len() > 0 {
        lemma_sort_by_key_sorted(s.drop_last());
        lemma_insert_sorted(sort_by_key(s.drop_last()), s.last());
        lemma_insert_items(sort_by_key(s.drop_last()), s.last());
    }
}

/// Each item of `sort_by_key(s)` is an item of `s`.
proof fn lemma_sort_items<T>(s: Seq<(Seq<char>, T)>)
    ensures
        sort_by_key(s).len() == s.len(),
        forall|i: int| 0 <= i < sort_by_key(s).len() ==> s.contains(#[trigger] sort_by_key(s)[i]),
    decreases s.len(),
{
    if s.len() > 0 {
        let t = sort_by_key(s.drop_last());
        lemma_sort_items(s.drop_last());
        lemma_insert_items(t, s.last());
        assert forall|i: int| 0 <= i < sort_by_key(s).len() implies s.contains(#[trigger] sort_by_key(s)[i]) by {
            let y = sort_by_key(s)[i];
            if y == s.last() {
                assert(s[s.len() - 1] == y);
            } else {
                let k = choose|k: int| 0 <= k < t.len() && t[k] == y;
                let m = choose|m: int| 0 <= m < s.drop_last().len() && s.drop_last()[m] == t[k];
                assert(s[m] == y);
            }
        }
    }
}

/// Every key of `s` is what `f` gives for its item.
pub open spec fn keys_match<T>(s: Seq<(Seq<char>, T)>, f: spec_fn(T) -> Seq<char>) -> bool {
    forall|i: int| 0 <= i < s.len() ==> (#[trigger] s[i]).0 == f(s[i].1)
}

/// What `f` gives never decreases along `s`.
pub open spec fn sorted_by<T>(s: Seq<T>, f: spec_fn(T) -> Seq<char>) -> bool {
    forall|i: int, j: int| 0 <= i < j < s.len() ==> lex_le(f(#[trigger] s[i]), f(#[trigger] s[j]))
}

/// Sorting items keyed by `f` puts them in the order of `f`, and keeps their
/// number.
pub proof fn lemma_sorted_values<T>(s: Seq<(Seq<char>, T)>, f: spec_fn(T) -> Seq<char>)
    requires
        keys_match(s, f),
    ensures
        sorted_by(values(sort_by_key(s)), f),
        values(sort_by_key(s)).len() == s.len(),
{
    let t = sort_by_key(s);
    lemma_sort_by_key_sorted(s);
    lemma_sort_items(s);
    assert forall|i: int, j: int| 0 <= i < j < values(t).len() implies lex_le(
        f(#[trigger] values(t)[i]),
        f(#[trigger] values(t)[j]),
    ) by {
        assert(lex_le(t[i].0, t[j].0));
        assert(s.contains(t[i]));
        assert(s.contains(t[j]));
        let a = choose|a: int| 0 <= a < s.len() && s[a] == t[i];
        let b = choose|b: int| 0 <= b < s.len() && s[b] == t[j];
        assert(s[a].0 == f(s[a].1));
        assert(s[b].0 == f(s[b].1));
    }
}

/// `insert_by_key` puts `x` somewhere between the items of `s`, which keep their
/// order.
proof fn lemma_insert_shape<T>(s: Seq<(Seq<char>, T)>, x: (Seq<char>, T))
    ensures
        exists|k: int| 0 <= k <= s.len() && insert_by_key(s, x) == s.take(k).push(x) + s.skip(k),
    decreases s.len(),
{
    if s.len() == 0 {
        assert(insert_by_key(s, x) =~= s.take(0).push(x) + s.skip(0));
    } else if lex_le(s.last().0, x.0) {
        assert(insert_by_key(s, x) =~= s.take(s.len() as int).push(x) + s.skip(s.len() as int));
    } else {
        let t = s.drop_last();
        lemma_insert_shape(t, x);
        let k = choose|k: int| 0 <= k <= t.len() && insert_by_key(t, x) == t.take(k).push(x) + t.skip(k);
        assert(insert_by_key(s, x) =~= s.take(k).push(x) + s.skip(k));
    }
}

/// No two items of `s` have the same value of `f`.
pub open spec fn distinct_by<T>(s: Seq<T>, f: spec_fn(T) -> Seq<char>) -> bool {
    forall|i: int, j: int| 0 <= i < j < s.len() ==> f(#[trigger] s[i]) != f(#[trigger] s[j])
}

/// Sorting keeps items whose values of `f` are distinct distinct.
pub proof fn lemma_sort_keeps_distinct<T>(s: Seq<(Seq<char>, T)>, f: spec_fn(T) -> Seq<char>)
    requires
        distinct_by(values(s), f),
    ensures
        distinct_by(values(sort_by_key(s)), f),
    decreases s.len(),
{
    if s.len() > 0 {
        let d = s.drop_last();
        let x = s.last();
        assert(distinct_by(values(d), f)) by {
            assert forall|i: int, j: int| 0 <= i < j < values(d).len() implies f(#[trigger] values(d)[i]) != f(
                #[trigger] values(d)[j],
            ) by {
                assert(values(d)[i] == values(s)[i]);
                assert(values(d)[j] == values(s)[j]);
            }
        }
        lemma_sort_keeps_distinct(d, f);
        let t = sort_by_key(d);
        lemma_sort_items(d);
        lemma_insert_shape(t, x);
        let k = choose|k: int| 0 <= k <= t.len() && insert_by_key(t, x) == t.take(k).push(x) + t.skip(k);
        let r = insert_by_key(t, x);
        assert(sort_by_key(s) == r);
        assert forall|m: int| 0 <= m < t.len() implies f((#[trigger] t[m]).1) != f(x.1) by {
            assert(d.contains(t[m]));
            let a = choose|a: int| 0 <= a < d.len() && d[a] == t[m];
            assert(values(s)[a] == t[m].1);
            assert(values(s)[s.len() - 1] == x.1);
        }
        assert forall|i: int, j: int| 0 <= i < j < values(r).len() implies f(#[trigger] values(r)[i]) != f(
            #[trigger] values(r)[j],
        ) by {
            let vi = if i < k { t[i] } else if i == k { x } else { t[i - 1] };
            let vj = if j < k { t[j] } else if j == k { x } else { t[j - 1] };
            assert(r[i] == vi);
            assert(r[j] == vj);
            if i != k && j != k {
                let a = if i < k { i } else { i - 1 };
                let b = if j < k { j } else { j - 1 };
                assert(a < b);
                assert(values(t)[a] == t[a].1);
                assert(values(t)[b] == t[b].1);
            }
        }
    }
}

} // verus!
