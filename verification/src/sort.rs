//! Stable sorting of keyed items.
use vstd::prelude::*;

verus! {

/// Whether the keys of `s` never decrease.
pub open spec fn sorted_by_key<T>(s: Seq<(i64, T)>) -> bool {
    forall|i: int, j: int| 0 <= i <= j < s.len() ==> s[i].0 <= s[j].0
}

/// The items of `s` with key `k`, in their order in `s`.
pub open spec fn with_key<T>(s: Seq<(i64, T)>, k: i64) -> Seq<(i64, T)>
    decreases s.len(),
{
    if s.len() == 0 {
        Seq::empty()
    } else {
        with_key(s.drop_last(), k) + (if s.last().0 == k {
            seq![s.last()]
        } else {
            Seq::empty()
        })
    }
}

/// `out` is `s` stably sorted by key: keys ascending, and the items of
/// each key in the order they had in `s`.
pub open spec fn is_stable_sort_of<T>(out: Seq<(i64, T)>, s: Seq<(i64, T)>) -> bool {
    &&& sorted_by_key(out)
    &&& forall|k: i64| #[trigger] with_key(out, k) == with_key(s, k)
}

pub proof fn lemma_with_key_concat<T>(a: Seq<(i64, T)>, b: Seq<(i64, T)>, k: i64)
    ensures
        with_key(a + b, k) == with_key(a, k) + with_key(b, k),
    decreases b.len(),
{
    if b.len() == 0 {
        assert(a + b =~= a);
        assert(with_key(a, k) + with_key(b, k) =~= with_key(a, k));
    } else {
        lemma_with_key_concat(a, b.drop_last(), k);
        assert((a + b).drop_last() =~= a + b.drop_last());
        assert((a + b).last() == b.last());
        let tail: Seq<(i64, T)> = if b.last().0 == k { seq![b.last()] } else { Seq::empty() };
        assert(with_key(a, k) + with_key(b, k) =~= with_key(a, k) + with_key(b.drop_last(), k) + tail);
    }
}

proof fn lemma_with_key_none<T>(s: Seq<(i64, T)>, k: i64)
    requires
        forall|i: int| 0 <= i < s.len() ==> s[i].0 != k,
    ensures
        with_key(s, k) == Seq::<(i64, T)>::empty(),
    decreases s.len(),
{
    if s.len() > 0 {
        lemma_with_key_none(s.drop_last(), k);
    }
}

proof fn lemma_with_key_single<T>(x: (i64, T), k: i64)
    ensures
        with_key(seq![x], k) == (if x.0 == k { seq![x] } else { Seq::empty() }),
{
    assert(seq![x].drop_last() =~= Seq::<(i64, T)>::empty());
    assert(seq![x].last() == x);
    let e = Seq::<(i64, T)>::empty();
    assert(with_key(e, k) == e);
    if x.0 == k {
        assert(e + seq![x] =~= seq![x]);
    } else {
        assert(e + e =~= e);
    }
}

/// Sorts `v` by key, keeping the order of items with equal keys.
pub fn stable_sort_by_key<T>(v: Vec<(i64, T)>) -> (r: Vec<(i64, T)>)
    ensures
        is_stable_sort_of(r@, v@),
        r@.len() == v@.len(),
{
    let ghost orig = v@;
    let mut rest = v;
    let mut out: Vec<(i64, T)> = Vec::new();
    let ghost mut done: Seq<(i64, T)> = Seq::empty();
    assert(done + rest@ =~= orig);
    while rest.len() > 0
        invariant
            done + rest@ == orig,
            sorted_by_key(out@),
            out@.len() == done.len(),
            forall|k: i64| #[trigger] with_key(out@, k) == with_key(done, k),
        decreases rest@.len(),
    {
        let ghost rest_before = rest@;
        let x = rest.remove(0);
        let key = x.0;
        let mut p = out.len();
        while p > 0 && out[p - 1].0 > key
            invariant
                p <= out@.len(),
                forall|j: int| p <= j < out@.len() ==> out@[j].0 > key,
            decreases p,
        {
            p = p - 1;
        }
        let ghost before = out@;
        let ghost xv = x;
        out.insert(p, x);
        proof {
            let pre = before.take(p as int);
            let post = before.skip(p as int);
            assert(before =~= pre + post);
            assert(out@ =~= pre + seq![xv] + post);
            assert(forall|j: int| 0 <= j < pre.len() ==> pre[j].0 <= key) by {
                if p > 0 {
                    assert(before[p - 1].0 <= key);
                }
            }
            assert forall|k: i64| #[trigger] with_key(out@, k) == with_key(done.push(xv), k) by {
                lemma_with_key_concat(pre + seq![xv], post, k);
                lemma_with_key_concat(pre, seq![xv], k);
                lemma_with_key_concat(pre, post, k);
                lemma_with_key_concat(done, seq![xv], k);
                lemma_with_key_single(xv, k);
                assert(done.push(xv) =~= done + seq![xv]);
                if k == key {
                    lemma_with_key_none(post, k);
                    assert(with_key(pre, k) + seq![xv] + with_key(post, k) =~= with_key(pre, k) + with_key(post, k) + seq![xv]);
                } else {
                    assert(with_key(pre, k) + Seq::<(i64, T)>::empty() + with_key(post, k) =~= with_key(pre, k) + with_key(post, k));
                }
                assert(with_key(before, k) == with_key(done, k));
            }
            assert(rest_before =~= seq![xv] + rest@);
            assert(done.push(xv) + rest@ =~= orig);
            done = done.push(xv);
        }
    }
    assert(done =~= orig);
    out
}

/// An item is in `s` exactly when it is among the items of its key.
pub proof fn lemma_with_key_contains<T>(s: Seq<(i64, T)>, x: (i64, T))
    ensures
        s.contains(x) <==> with_key(s, x.0).contains(x),
    decreases s.len(),
{
    if s.len() > 0 {
        lemma_with_key_contains(s.drop_last(), x);
        let tail: Seq<(i64, T)> = if s.last().0 == x.0 { seq![s.last()] } else { Seq::empty() };
        let w = with_key(s.drop_last(), x.0);
        assert(with_key(s, x.0) == w + tail);
        if s.contains(x) {
            let i = choose|i: int| 0 <= i < s.len() && s[i] == x;
            if i < s.len() - 1 {
                assert(s.drop_last()[i] == x);
                let k = choose|k: int| 0 <= k < w.len() && w[k] == x;
                assert((w + tail)[k] == x);
            } else {
                assert((w + tail)[w.len() as int] == x);
            }
        }
        if with_key(s, x.0).contains(x) {
            let k = choose|k: int| 0 <= k < (w + tail).len() && (w + tail)[k] == x;
            if k < w.len() {
                assert(w[k] == x);
                let i = choose|i: int| 0 <= i < s.drop_last().len() && s.drop_last()[i] == x;
                assert(s[i] == x);
            } else {
                assert(s[s.len() - 1] == x);
            }
        }
    }
}

/// Items of a key are found only where the key is.
proof fn lemma_with_key_nonempty<T>(s: Seq<(i64, T)>, k: i64)
    requires
        with_key(s, k).len() > 0,
    ensures
        exists|i: int| 0 <= i < s.len() && (#[trigger] s[i]).0 == k,
{
    if forall|i: int| 0 <= i < s.len() ==> (#[trigger] s[i]).0 != k {
        lemma_with_key_none(s, k);
    }
}

/// Two sequences with the same items for every key, both sorted by key,
/// are the same sequence.
proof fn lemma_sorted_same_keys_equal<T>(a: Seq<(i64, T)>, b: Seq<(i64, T)>)
    requires
        sorted_by_key(a),
        sorted_by_key(b),
        forall|k: i64| #[trigger] with_key(a, k) == with_key(b, k),
    ensures
        a == b,
    decreases a.len() + b.len(),
{
    if a.len() == 0 && b.len() == 0 {
        assert(a =~= b);
    } else if a.len() == 0 {
        let kb = b.last().0;
        assert(with_key(b, kb).len() > 0);
        assert(with_key(a, kb) =~= Seq::<(i64, T)>::empty());
    } else if b.len() == 0 {
        let ka = a.last().0;
        assert(with_key(a, ka).len() > 0);
        assert(with_key(b, ka) =~= Seq::<(i64, T)>::empty());
    } else {
        let ka = a.last().0;
        let kb = b.last().0;
        assert(with_key(a, ka).len() > 0);
        assert(with_key(b, ka).len() > 0);
        lemma_with_key_nonempty(b, ka);
        let j = choose|j: int| 0 <= j < b.len() && (#[trigger] b[j]).0 == ka;
        assert(b[j].0 <= b[b.len() - 1].0);
        assert(with_key(b, kb).len() > 0);
        assert(with_key(a, kb).len() > 0);
        lemma_with_key_nonempty(a, kb);
        let i = choose|i: int| 0 <= i < a.len() && (#[trigger] a[i]).0 == kb;
        assert(a[i].0 <= a[a.len() - 1].0);
        assert(ka == kb);
        assert(with_key(a, ka).last() == a.last());
        assert(with_key(b, kb).last() == b.last());
        assert(a.last() == b.last());
        let a1 = a.drop_last();
        let b1 = b.drop_last();
        assert forall|k: i64| #[trigger] with_key(a1, k) == with_key(b1, k) by {
            assert(with_key(a, k) == with_key(a1, k) + (if a.last().0 == k { seq![a.last()] } else { Seq::empty() }));
            assert(with_key(b, k) == with_key(b1, k) + (if b.last().0 == k { seq![b.last()] } else { Seq::empty() }));
            if a.last().0 == k {
                assert(with_key(a1, k) =~= with_key(a, k).drop_last());
                assert(with_key(b1, k) =~= with_key(b, k).drop_last());
            } else {
                assert(with_key(a1, k) =~= with_key(a, k));
                assert(with_key(b1, k) =~= with_key(b, k));
            }
        }
        lemma_sorted_same_keys_equal(a1, b1);
        assert(a =~= a1.push(a.last()));
        assert(b =~= b1.push(b.last()));
    }
}

/// A stable sort has one outcome: two stable sorts of the same items are
/// the same sequence.
pub proof fn law_stable_sort_is_unique<T>(a: Seq<(i64, T)>, b: Seq<(i64, T)>, s: Seq<(i64, T)>)
    requires
        is_stable_sort_of(a, s),
        is_stable_sort_of(b, s),
    ensures
        a == b,
{
    lemma_sorted_same_keys_equal(a, b);
}

/// `s` with `f` applied to each item, keys kept.
pub open spec fn map_items<T, U>(s: Seq<(i64, T)>, f: spec_fn(T) -> U) -> Seq<(i64, U)> {
    s.map_values(|p: (i64, T)| (p.0, f(p.1)))
}

proof fn lemma_with_key_map<T, U>(s: Seq<(i64, T)>, f: spec_fn(T) -> U, k: i64)
    ensures
        with_key(map_items(s, f), k) == map_items(with_key(s, k), f),
    decreases s.len(),
{
    if s.len() > 0 {
        lemma_with_key_map(s.drop_last(), f, k);
        assert(map_items(s, f).drop_last() =~= map_items(s.drop_last(), f));
        let tail: Seq<(i64, T)> = if s.last().0 == k { seq![s.last()] } else { Seq::empty() };
        assert(map_items(with_key(s.drop_last(), k) + tail, f) =~= map_items(with_key(s.drop_last(), k), f) + map_items(tail, f));
    } else {
        assert(map_items(s, f) =~= Seq::<(i64, U)>::empty());
        assert(map_items(Seq::<(i64, T)>::empty(), f) =~= Seq::<(i64, U)>::empty());
    }
}

/// Stable sorting commutes with mapping the items.
pub proof fn lemma_stable_sort_map<T, U>(out: Seq<(i64, T)>, s: Seq<(i64, T)>, f: spec_fn(T) -> U)
    requires
        is_stable_sort_of(out, s),
    ensures
        is_stable_sort_of(map_items(out, f), map_items(s, f)),
{
    assert forall|k: i64| #[trigger] with_key(map_items(out, f), k) == with_key(map_items(s, f), k) by {
        lemma_with_key_map(out, f, k);
        lemma_with_key_map(s, f, k);
    }
}

/// How often `x` occurs in `s`.
pub open spec fn count_of<T>(s: Seq<T>, x: T) -> nat
    decreases s.len(),
{
    if s.len() == 0 {
        0
    } else {
        count_of(s.drop_last(), x) + if s.last() == x { 1nat } else { 0nat }
    }
}

/// An item occurs in `s` as often as among the items of its key.
pub proof fn lemma_count_with_key<T>(s: Seq<(i64, T)>, x: (i64, T))
    ensures
        count_of(s, x) == count_of(with_key(s, x.0), x),
    decreases s.len(),
{
    if s.len() > 0 {
        lemma_count_with_key(s.drop_last(), x);
        let w = with_key(s.drop_last(), x.0);
        if s.last().0 == x.0 {
            assert(with_key(s, x.0) == w + seq![s.last()]);
            assert((w + seq![s.last()]).drop_last() =~= w);
        } else {
            assert(with_key(s, x.0) =~= w);
        }
    }
}

/// An item found at two places occurs at least twice.
pub proof fn lemma_two_places_count<T>(s: Seq<T>, i: int, j: int)
    requires
        0 <= i < j < s.len(),
        s[i] == s[j],
    ensures
        count_of(s, s[i]) >= 2,
    decreases s.len(),
{
    if j < s.len() - 1 {
        lemma_two_places_count(s.drop_last(), i, j);
        assert(s.drop_last()[i] == s[i]);
    } else {
        lemma_one_place_count(s.drop_last(), i);
        assert(s.drop_last()[i] == s[i]);
    }
}

/// An item found in `s` occurs at least once.
pub proof fn lemma_one_place_count<T>(s: Seq<T>, i: int)
    requires
        0 <= i < s.len(),
    ensures
        count_of(s, s[i]) >= 1,
    decreases s.len(),
{
    if i < s.len() - 1 {
        lemma_one_place_count(s.drop_last(), i);
        assert(s.drop_last()[i] == s[i]);
    }
}

/// An item that occurs at least twice is found at two places.
pub proof fn lemma_count_two_places<T>(s: Seq<T>, x: T)
    requires
        count_of(s, x) >= 2,
    ensures
        exists|i: int, j: int| #![trigger s[i], s[j]] 0 <= i < j < s.len() && s[i] == x && s[j] == x,
    decreases s.len(),
{
    let d = s.drop_last();
    if s.last() == x {
        lemma_count_one_place(d, x);
        let i = choose|i: int| 0 <= i < d.len() && d[i] == x;
        assert(s[i] == x);
        assert(s[s.len() - 1] == x);
    } else {
        lemma_count_two_places(d, x);
        let (i, j) = choose|i: int, j: int| #![trigger d[i], d[j]] 0 <= i < j < d.len() && d[i] == x && d[j] == x;
        assert(s[i] == x && s[j] == x);
    }
}

/// An item that occurs is found somewhere.
pub proof fn lemma_count_one_place<T>(s: Seq<T>, x: T)
    requires
        count_of(s, x) >= 1,
    ensures
        exists|i: int| 0 <= i < s.len() && s[i] == x,
    decreases s.len(),
{
    if s.last() == x {
        assert(s[s.len() - 1] == x);
    } else {
        lemma_count_one_place(s.drop_last(), x);
        let i = choose|i: int| 0 <= i < s.drop_last().len() && s.drop_last()[i] == x;
        assert(s[i] == x);
    }
}

/// Counting is additive over concatenation.
pub proof fn lemma_count_concat<T>(a: Seq<T>, b: Seq<T>, x: T)
    ensures
        count_of(a + b, x) == count_of(a, x) + count_of(b, x),
    decreases b.len(),
{
    if b.len() == 0 {
        assert(a + b =~= a);
    } else {
        lemma_count_concat(a, b.drop_last(), x);
        assert((a + b).drop_last() =~= a + b.drop_last());
    }
}

/// An item found nowhere in `s` occurs zero times.
pub proof fn lemma_count_absent<T>(s: Seq<T>, x: T)
    requires
        forall|i: int| 0 <= i < s.len() ==> s[i] != x,
    ensures
        count_of(s, x) == 0,
    decreases s.len(),
{
    if s.len() > 0 {
        assert(s[s.len() - 1] != x);
        lemma_count_absent(s.drop_last(), x);
    }
}

} // verus!
