//! Filtering and searching vectors, with what that means for their views.

use crate::disk_queue::lemma_filter_step;
use vstd::prelude::*;

verus! {

/// Filtering a mapped sequence is mapping the sequence filtered by the
/// composed test.
pub proof fn lemma_map_filter<T, U>(s: Seq<T>, f: spec_fn(T) -> U, p: spec_fn(U) -> bool)
    ensures
        s.map_values(f).filter(p) == s.filter(|x: T| p(f(x))).map_values(f),
    decreases s.len(),
{
    reveal(Seq::filter);
    let q = |x: T| p(f(x));
    if s.len() == 0 {
        assert(s.map_values(f).filter(p) =~= s.filter(q).map_values(f));
    } else {
        let front = s.drop_last();
        lemma_map_filter(front, f, p);
        assert(s.map_values(f).drop_last() =~= front.map_values(f));
        assert(s.map_values(f).last() == f(s.last()));
        if q(s.last()) {
            assert(s.filter(q) =~= front.filter(q).push(s.last()));
            assert(s.filter(q).map_values(f) =~= front.filter(q).map_values(f).push(f(s.last())));
        }
        assert(s.map_values(f).filter(p) =~= s.filter(q).map_values(f));
    }
}

/// The index of the first element of `s` that passes `p`, or the length of
/// `s` where none does.
pub open spec fn first_where<T>(s: Seq<T>, p: spec_fn(T) -> bool) -> int
    decreases s.len(),
{
    if s.len() == 0 {
        0
    } else if p(s[0]) {
        0
    } else {
        1 + first_where(s.drop_first(), p)
    }
}

/// `first_where` is in range, passes where it is inside, and nothing before
/// it passes.
pub proof fn lemma_first_where<T>(s: Seq<T>, p: spec_fn(T) -> bool)
    ensures
        0 <= first_where(s, p) <= s.len(),
        first_where(s, p) < s.len() ==> p(s[first_where(s, p)]),
        forall|k: int| 0 <= k < first_where(s, p) ==> !p(#[trigger] s[k]),
    decreases s.len(),
{
    if s.len() > 0 && !p(s[0]) {
        let rest = s.drop_first();
        lemma_first_where(rest, p);
        assert forall|k: int| 0 <= k < first_where(s, p) implies !p(#[trigger] s[k]) by {
            if k > 0 {
                assert(s[k] == rest[k - 1]);
            }
        }
    }
}

/// A position with nothing that passes before it, which passes or is the
/// end, is `first_where`.
pub proof fn lemma_first_where_is<T>(s: Seq<T>, p: spec_fn(T) -> bool, at: int)
    requires
        0 <= at <= s.len(),
        forall|k: int| 0 <= k < at ==> !p(#[trigger] s[k]),
        at < s.len() ==> p(s[at]),
    ensures
        first_where(s, p) == at,
{
    lemma_first_where(s, p);
}

/// Whether some element of `s` passes `p`.
pub open spec fn any_where<T>(s: Seq<T>, p: spec_fn(T) -> bool) -> bool {
    first_where(s, p) < s.len()
}

/// Some element passes exactly when `any_where` says so.
pub proof fn lemma_any_where<T>(s: Seq<T>, p: spec_fn(T) -> bool)
    ensures
        any_where(s, p) <==> exists|k: int| 0 <= k < s.len() && p(#[trigger] s[k]),
{
    lemma_first_where(s, p);
    if any_where(s, p) {
        assert(p(s[first_where(s, p)]));
    }
}

/// Keeps the elements of `v` for which `keep` answers true, in order.
pub(crate) fn retain<T, F: Fn(&T) -> bool>(v: &mut Vec<T>, keep: F, Ghost(pred): Ghost<
    spec_fn(T) -> bool,
>)
    requires
        forall|x: T| call_requires(keep, (&x,)),
        forall|x: T, r: bool| call_ensures(keep, (&x,), r) ==> r == pred(x),
    ensures
        final(v)@ == old(v)@.filter(pred),
{
    let ghost all = v@;
    let mut i: usize = 0;
    let ghost mut k: int = 0;
    proof {
        assert(all.take(0) =~= Seq::<T>::empty());
        assert(all.skip(0) =~= all);
        assert(all.take(0).filter(pred) + all.skip(0) =~= all);
    }
    while i < v.len()
        invariant
            0 <= k <= all.len(),
            i <= v@.len(),
            forall|x: T| call_requires(keep, (&x,)),
            forall|x: T, r: bool| call_ensures(keep, (&x,), r) ==> r == pred(x),
            i == all.take(k).filter(pred).len(),
            v@ == all.take(k).filter(pred) + all.skip(k),
        decreases all.len() - k,
    {
        proof {
            lemma_filter_step(all, k, pred);
            assert(v@[i as int] == all.skip(k)[0]);
            assert(all.skip(k).drop_first() =~= all.skip(k + 1));
        }
        if keep(&v[i]) {
            proof {
                assert(all.take(k).filter(pred).push(all[k]) + all.skip(k + 1) =~= all.take(
                    k,
                ).filter(pred) + all.skip(k));
            }
            i = i + 1;
        } else {
            let ghost before = v@;
            let _ = v.remove(i);
            proof {
                assert(before.remove(i as int) =~= all.take(k).filter(pred) + all.skip(k + 1));
            }
        }
        proof {
            k = k + 1;
        }
    }
    proof {
        assert(v@.len() == all.take(k).filter(pred).len() + all.skip(k).len());
        assert(all.take(k) =~= all);
        assert(all.skip(k) =~= Seq::<T>::empty());
        assert(all.filter(pred) + Seq::<T>::empty() =~= all.filter(pred));
    }
}

/// The index of the first element of `v` for which `test` answers true.
pub(crate) fn position<T, F: Fn(&T) -> bool>(v: &Vec<T>, test: F, Ghost(pred): Ghost<
    spec_fn(T) -> bool,
>) -> (res: Option<usize>)
    requires
        forall|x: T| call_requires(test, (&x,)),
        forall|x: T, r: bool| call_ensures(test, (&x,), r) ==> r == pred(x),
    ensures
        match res {
            Some(i) => i == first_where(v@, pred) && i < v@.len() && pred(v@[i as int]),
            None => first_where(v@, pred) == v@.len(),
        },
{
    let n = v.len();
    let mut i: usize = 0;
    while i < n
        invariant
            i <= n,
            n == v@.len(),
            forall|x: T| call_requires(test, (&x,)),
            forall|x: T, r: bool| call_ensures(test, (&x,), r) ==> r == pred(x),
            forall|k: int| 0 <= k < i ==> !pred(#[trigger] v@[k]),
        decreases n - i,
    {
        if test(&v[i]) {
            proof {
                lemma_first_where_is(v@, pred, i as int);
            }
            return Some(i);
        }
        i = i + 1;
    }
    proof {
        lemma_first_where_is(v@, pred, n as int);
    }
    None
}

/// Searching a mapped sequence is searching the sequence by the composed
/// test.
pub proof fn lemma_first_where_map<T, U>(s: Seq<T>, f: spec_fn(T) -> U, p: spec_fn(U) -> bool)
    ensures
        first_where(s.map_values(f), p) == first_where(s, |x: T| p(f(x))),
    decreases s.len(),
{
    if s.len() > 0 {
        assert(s.map_values(f)[0] == f(s[0]));
        assert(s.map_values(f).drop_first() =~= s.drop_first().map_values(f));
        lemma_first_where_map(s.drop_first(), f, p);
    }
}

/// The texts of strings.
pub open spec fn names(v: Seq<String>) -> Seq<Seq<char>> {
    v.map_values(|s: String| s@)
}

/// Whether `name` is among `names`.
pub open spec fn has_name(names: Seq<Seq<char>>, name: Seq<char>) -> bool {
    any_where(names, |n: Seq<char>| n == name)
}

/// `names` without `name`.
pub open spec fn without_name(names: Seq<Seq<char>>, name: Seq<char>) -> Seq<Seq<char>> {
    names.filter(|n: Seq<char>| n != name)
}

/// `names` with `name` at its end, unless it is among them.
pub open spec fn with_name(names: Seq<Seq<char>>, name: Seq<char>) -> Seq<Seq<char>> {
    if has_name(names, name) {
        names
    } else {
        names.push(name)
    }
}

/// Whether `name` is among the strings `v`.
pub fn contains_name(v: &Vec<String>, name: &str) -> (yes: bool)
    ensures
        yes == has_name(names(v@), name@),
{
    let ghost pred = |s: String| s@ == name@;
    let test = |s: &String| -> (r: bool)
        ensures
            r == (s@ == name@),
        {
            let same = crate::text::str_equal(s.as_str(), name);
            same
        };
    let found = position(v, test, Ghost(pred));
    proof {
        lemma_first_where_map(v@, |s: String| s@, |n: Seq<char>| n == name@);
        assert(pred =~= (|x: String| (|n: Seq<char>| n == name@)((|s: String| s@)(x))));
    }
    found.is_some()
}

/// Takes every string that reads `name` out of `v`.
pub fn remove_name(v: &mut Vec<String>, name: &str)
    ensures
        names(final(v)@) == without_name(names(old(v)@), name@),
{
    let ghost pred = |s: String| s@ != name@;
    let keep = |s: &String| -> (r: bool)
        ensures
            r == (s@ != name@),
        {
            let same = crate::text::str_equal(s.as_str(), name);
            !same
        };
    retain(v, keep, Ghost(pred));
    proof {
        lemma_map_filter(old(v)@, |s: String| s@, |n: Seq<char>| n != name@);
        assert(pred =~= (|x: String| (|n: Seq<char>| n != name@)((|s: String| s@)(x))));
    }
}

/// Copies of the strings `v`.
pub fn clone_names(v: &Vec<String>) -> (out: Vec<String>)
    ensures
        names(out@) == names(v@),
{
    let mut out: Vec<String> = Vec::new();
    let n = v.len();
    let mut i: usize = 0;
    while i < n
        invariant
            i <= n,
            n == v@.len(),
            names(out@) == names(v@.take(i as int)),
        decreases n - i,
    {
        let ghost before = names(out@);
        out.push(v[i].clone());
        proof {
            assert(names(out@) =~= before.push(v@[i as int]@));
            assert(names(v@.take(i + 1)) =~= names(v@.take(i as int)).push(v@[i as int]@));
        }
        i = i + 1;
    }
    proof {
        assert(v@.take(n as int) =~= v@);
    }
    out
}

/// No two entries of `s` have one key.
pub open spec fn distinct_by<T, K>(s: Seq<T>, key: spec_fn(T) -> K) -> bool {
    forall|i: int, j: int| 0 <= i < j < s.len() ==> key(#[trigger] s[i]) != key(#[trigger] s[j])
}

/// A part of a sequence with distinct keys has distinct keys.
pub proof fn lemma_filter_distinct<T, K>(s: Seq<T>, key: spec_fn(T) -> K, pred: spec_fn(T) -> bool)
    requires
        distinct_by(s, key),
    ensures
        distinct_by(s.filter(pred), key),
    decreases s.len(),
{
    reveal(Seq::filter);
    if s.len() > 0 {
        let rest = s.drop_last();
        assert forall|i: int, j: int| 0 <= i < j < rest.len() implies key(#[trigger] rest[i])
            != key(#[trigger] rest[j]) by {
            assert(rest[i] == s[i] && rest[j] == s[j]);
        }
        lemma_filter_distinct(rest, key, pred);
        let f = rest.filter(pred);
        if pred(s.last()) {
            assert forall|i: int| 0 <= i < f.len() implies key(#[trigger] f[i]) != key(
                s.last(),
            ) by {
                assert(f.contains(f[i]));
                rest.lemma_filter_contains_rev(pred, f[i]);
                let k = choose|k: int| 0 <= k < rest.len() && rest[k] == f[i];
                assert(s[k] == f[i]);
                assert(key(s[k]) != key(s[s.len() - 1]));
            }
            let g = f.push(s.last());
            assert forall|i: int, j: int| 0 <= i < j < g.len() implies key(#[trigger] g[i]) != key(
                #[trigger] g[j],
            ) by {
                if j < f.len() {
                    assert(g[i] == f[i] && g[j] == f[j]);
                } else {
                    assert(g[i] == f[i]);
                }
            }
        }
    }
}

/// Among entries with distinct keys at most one has a given key: the part
/// that a test of one key lets through has at most one entry.
pub proof fn lemma_one_of_key<T, K>(
    s: Seq<T>,
    key: spec_fn(T) -> K,
    pred: spec_fn(T) -> bool,
    k: K,
)
    requires
        distinct_by(s, key),
        forall|x: T| #[trigger] pred(x) ==> key(x) == k,
    ensures
        s.filter(pred).len() <= 1,
{
    let f = s.filter(pred);
    lemma_filter_distinct(s, key, pred);
    if f.len() >= 2 {
        #[allow(deprecated)]
        s.filter_lemma(pred);
        assert(pred(f[0]) && pred(f[1]));
        assert(key(f[0]) != key(f[1]));
    }
}

/// An entry with a key of its own can join entries with distinct keys.
pub proof fn lemma_push_distinct<T, K>(s: Seq<T>, key: spec_fn(T) -> K, e: T)
    requires
        distinct_by(s, key),
        forall|i: int| 0 <= i < s.len() ==> key(#[trigger] s[i]) != key(e),
    ensures
        distinct_by(s.push(e), key),
{
    let g = s.push(e);
    assert forall|i: int, j: int| 0 <= i < j < g.len() implies key(#[trigger] g[i]) != key(
        #[trigger] g[j],
    ) by {
        if j < s.len() {
            assert(g[i] == s[i] && g[j] == s[j]);
        } else {
            assert(g[i] == s[i]);
        }
    }
}

/// What a test lets through passes the test.
pub proof fn lemma_filter_passes<T>(s: Seq<T>, pred: spec_fn(T) -> bool)
    ensures
        forall|i: int| 0 <= i < s.filter(pred).len() ==> pred(#[trigger] s.filter(pred)[i]),
        s.filter(pred).len() <= s.len(),
{
    #[allow(deprecated)]
    s.filter_lemma(pred);
}

/// Changing entries without changing their keys keeps the keys distinct.
pub proof fn lemma_map_distinct<T, K>(s: Seq<T>, key: spec_fn(T) -> K, change: spec_fn(T) -> T)
    requires
        distinct_by(s, key),
        forall|x: T| key(#[trigger] change(x)) == key(x),
    ensures
        distinct_by(s.map_values(change), key),
{
    let g = s.map_values(change);
    assert forall|i: int, j: int| 0 <= i < j < g.len() implies key(#[trigger] g[i]) != key(
        #[trigger] g[j],
    ) by {
        assert(g[i] == change(s[i]) && g[j] == change(s[j]));
        assert(key(s[i]) != key(s[j]));
    }
}

} // verus!
