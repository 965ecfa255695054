//! Stable sorting by an order that the caller gives.
use vstd::prelude::*;

verus! {

/// `x` put into `s` behind the last run of elements that do not go after it.
pub open spec fn inserted<T>(s: Seq<T>, x: T, leq: spec_fn(T, T) -> bool) -> Seq<T>
    decreases s.len(),
{
    if s.len() == 0 || leq(s.last(), x) {
        s.push(x)
    } else {
        inserted(s.drop_last(), x, leq).push(s.last())
    }
}

/// The stable sort of `s`: every element in turn goes behind those before it
/// that do not go after it.
pub open spec fn sorted<T>(s: Seq<T>, leq: spec_fn(T, T) -> bool) -> Seq<T>
    decreases s.len(),
{
    if s.len() == 0 {
        s
    } else {
        inserted(sorted(s.drop_last(), leq), s.last(), leq)
    }
}

proof fn lemma_inserted_at<T>(s: Seq<T>, x: T, leq: spec_fn(T, T) -> bool, j: int)
    requires
        0 <= j <= s.len(),
        j > 0 ==> leq(s[j - 1], x),
        forall|k: int| j <= k < s.len() ==> !leq(#[trigger] s[k], x),
    ensures
        inserted(s, x, leq) == s.insert(j, x),
    decreases s.len(),
{
    if s.len() == 0 || leq(s.last(), x) {
        assert(j == s.len());
        assert(s.insert(j, x) =~= s.push(x));
    } else {
        let t = s.drop_last();
        lemma_inserted_at(t, x, leq, j);
        assert(s.insert(j, x) =~= t.insert(j, x).push(s.last()));
    }
}

/// Sort a vector stably.
pub fn stable_sort<T: Copy, F: Fn(&T, &T) -> bool>(
    v: &Vec<T>,
    le: F,
    Ghost(leq): Ghost<spec_fn(T, T) -> bool>,
) -> (r: Vec<T>)
    requires
        forall|a: &T, b: &T| call_requires(le, (a, b)),
        forall|a: &T, b: &T, c: bool| call_ensures(le, (a, b), c) ==> c == leq(*a, *b),
    ensures
        r@ == sorted(v@, leq),
{
    let mut out: Vec<T> = Vec::new();
    let mut i: usize = 0;
    while i < v.len()
        invariant
            i <= v.len(),
            out.len() == i,
            out@ == sorted(v@.take(i as int), leq),
            forall|a: &T, b: &T| call_requires(le, (a, b)),
            forall|a: &T, b: &T, c: bool| call_ensures(le, (a, b), c) ==> c == leq(*a, *b),
        decreases v.len() - i,
    {
        let x = v[i];
        let mut j: usize = out.len();
        while j > 0 && !le(&out[j - 1], &x)
            invariant
                j <= out.len(),
                forall|a: &T, b: &T| call_requires(le, (a, b)),
                forall|a: &T, b: &T, c: bool| call_ensures(le, (a, b), c) ==> c == leq(*a, *b),
                forall|k: int| j <= k < out.len() ==> !leq(#[trigger] out@[k], x),
            decreases j,
        {
            j = j - 1;
        }
        proof {
            lemma_inserted_at(out@, x, leq, j as int);
            assert(v@.take(i + 1).drop_last() =~= v@.take(i as int));
            assert(v@.take(i + 1).last() == x);
        }
        out.insert(j, x);
        i = i + 1;
    }
    assert(v@.take(i as int) =~= v@);
    out
}

proof fn lemma_inserted_multiset<T>(s: Seq<T>, x: T, leq: spec_fn(T, T) -> bool)
    ensures
        inserted(s, x, leq).to_multiset() =~= s.to_multiset().insert(x),
        inserted(s, x, leq).len() == s.len() + 1,
    decreases s.len(),
{
    broadcast use vstd::seq_lib::group_to_multiset_ensures;

    if s.len() == 0 || leq(s.last(), x) {
    } else {
        lemma_inserted_multiset(s.drop_last(), x, leq);
        assert(s =~= s.drop_last().push(s.last()));
        assert(s.to_multiset() =~= s.drop_last().to_multiset().insert(s.last()));
    }
}

/// Sorting keeps the elements.
pub proof fn lemma_sorted_permutes<T>(s: Seq<T>, leq: spec_fn(T, T) -> bool)
    ensures
        sorted(s, leq).to_multiset() == s.to_multiset(),
        sorted(s, leq).len() == s.len(),
    decreases s.len(),
{
    broadcast use vstd::seq_lib::group_to_multiset_ensures;

    if s.len() > 0 {
        lemma_sorted_permutes(s.drop_last(), leq);
        lemma_inserted_multiset(sorted(s.drop_last(), leq), s.last(), leq);
        assert(s =~= s.drop_last().push(s.last()));
        assert(s.to_multiset() =~= s.drop_last().to_multiset().insert(s.last()));
    }
}

/// Every element goes before or along with each that follows it.
pub open spec fn ascending<T>(s: Seq<T>, leq: spec_fn(T, T) -> bool) -> bool {
    forall|i: int, j: int| 0 <= i < j < s.len() ==> leq(#[trigger] s[i], #[trigger] s[j])
}

/// Any two elements are ordered, and the order carries over.
pub open spec fn is_order<T>(leq: spec_fn(T, T) -> bool) -> bool {
    &&& forall|a: T, b: T| #[trigger] leq(a, b) || leq(b, a)
    &&& forall|a: T, b: T, c: T| #[trigger] leq(a, b) && #[trigger] leq(b, c) ==> leq(a, c)
}

proof fn lemma_inserted_ascending<T>(s: Seq<T>, x: T, leq: spec_fn(T, T) -> bool)
    requires
        is_order(leq),
        ascending(s, leq),
    ensures
        ascending(inserted(s, x, leq), leq),
    decreases s.len(),
{
    if s.len() == 0 {
    } else if leq(s.last(), x) {
        assert forall|i: int, j: int| 0 <= i < j < s.push(x).len() implies leq(
            #[trigger] s.push(x)[i],
            #[trigger] s.push(x)[j],
        ) by {
            if j == s.len() && i < s.len() - 1 {
                assert(leq(s[i], s.last()));
            }
        }
    } else {
        let t = s.drop_last();
        assert(ascending(t, leq)) by {
            assert forall|i: int, j: int| 0 <= i < j < t.len() implies leq(
                #[trigger] t[i],
                #[trigger] t[j],
            ) by {
                assert(leq(s[i], s[j]));
            }
        }
        lemma_inserted_ascending(t, x, leq);
        lemma_inserted_members(t, x, leq);
        let u = inserted(t, x, leq);
        let r = u.push(s.last());
        assert forall|i: int, j: int| 0 <= i < j < r.len() implies leq(
            #[trigger] r[i],
            #[trigger] r[j],
        ) by {
            if j < u.len() {
                assert(leq(u[i], u[j]));
            } else {
                assert(leq(x, s.last()));
                if u[i] != x {
                    let k = choose|k: int| 0 <= k < t.len() && t[k] == u[i];
                    assert(leq(s[k], s[s.len() - 1]));
                }
            }
        }
    }
}

proof fn lemma_inserted_members<T>(s: Seq<T>, x: T, leq: spec_fn(T, T) -> bool)
    ensures
        forall|i: int|
            0 <= i < inserted(s, x, leq).len() ==> #[trigger] inserted(s, x, leq)[i] == x || exists|
                k: int,
            |
                0 <= k < s.len() && s[k] == inserted(s, x, leq)[i],
    decreases s.len(),
{
    if s.len() == 0 || leq(s.last(), x) {
        assert forall|i: int| 0 <= i < s.push(x).len() implies #[trigger] s.push(x)[i] == x
            || exists|k: int| 0 <= k < s.len() && s[k] == s.push(x)[i] by {
            if i < s.len() {
                assert(s[i] == s.push(x)[i]);
            }
        }
    } else {
        let t = s.drop_last();
        lemma_inserted_members(t, x, leq);
        let r = inserted(s, x, leq);
        assert forall|i: int| 0 <= i < r.len() implies #[trigger] r[i] == x || exists|k: int|
            0 <= k < s.len() && s[k] == r[i] by {
            if i == r.len() - 1 {
                assert(s[s.len() - 1] == r[i]);
            } else if r[i] != x {
                assert(r[i] == inserted(t, x, leq)[i]);
                let k = choose|k: int| 0 <= k < t.len() && t[k] == inserted(t, x, leq)[i];
                assert(s[k] == r[i]);
            }
        }
    }
}

/// Sorting by an order puts the elements in that order.
pub proof fn lemma_sorted_ascending<T>(s: Seq<T>, leq: spec_fn(T, T) -> bool)
    requires
        is_order(leq),
    ensures
        ascending(sorted(s, leq), leq),
    decreases s.len(),
{
    if s.len() > 0 {
        lemma_sorted_ascending(s.drop_last(), leq);
        lemma_inserted_ascending(sorted(s.drop_last(), leq), s.last(), leq);
    }
}

/// The order of numbers.
pub open spec fn number_leq() -> spec_fn(u32, u32) -> bool {
    |a: u32, b: u32| a <= b
}

/// Sort numbers.
pub fn sort_numbers(v: &Vec<u32>) -> (r: Vec<u32>)
    ensures
        r@ == sorted(v@, number_leq()),
        r.len() == v.len(),
{
    let le = |a: &u32, b: &u32| -> (c: bool)
        ensures
            c == number_leq()(*a, *b),
        { *a <= *b };
    proof {
        lemma_sorted_permutes(v@, number_leq());
    }
    stable_sort(v, le, Ghost(number_leq()))
}

} // verus!
