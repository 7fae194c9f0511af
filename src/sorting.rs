//! Stable ordering of keyed entries, as used for batch priorities and z-orders.
use vstd::prelude::*;

verus! {

/// `e` placed after every entry of `s` whose key is at most its own, scanning
/// from the back.
pub open spec fn insert_by_key<T>(s: Seq<(usize, T)>, e: (usize, T)) -> Seq<(usize, T)>
    decreases s.len(),
{
    if s.len() == 0 {
        seq![e]
    } else if s.last().0 <= e.0 {
        s.push(e)
    } else {
        insert_by_key(s.drop_last(), e).push(s.last())
    }
}

/// The entries of `s` in ascending key order; entries with equal keys keep
/// the order they have in `s`.
pub open spec fn sort_by_key<T>(s: Seq<(usize, T)>) -> Seq<(usize, T)>
    decreases s.len(),
{
    if s.len() == 0 {
        s
    } else {
        insert_by_key(sort_by_key(s.drop_last()), s.last())
    }
}

pub open spec fn sorted_by_key<T>(s: Seq<(usize, T)>) -> bool {
    forall|i: int, j: int| 0 <= i <= j < s.len() ==> s[i].0 <= s[j].0
}

/// The entries of `s` whose key is `k`, in their order in `s`.
pub open spec fn with_key<T>(s: Seq<(usize, T)>, k: usize) -> Seq<(usize, T)>
    decreases s.len(),
{
    if s.len() == 0 {
        s
    } else if s.last().0 == k {
        with_key(s.drop_last(), k).push(s.last())
    } else {
        with_key(s.drop_last(), k)
    }
}

/// Inserting at position `p`, where every entry before `p` has a key at most
/// `e`'s and every entry from `p` on a larger one, is what `insert_by_key` does.
proof fn lemma_insert_at<T>(s: Seq<(usize, T)>, e: (usize, T), p: int)
    requires
        0 <= p <= s.len(),
        p == 0 || s[p - 1].0 <= e.0,
        forall|j: int| p <= j < s.len() ==> s[j].0 > e.0,
    ensures
        insert_by_key(s, e) == s.insert(p, e),
    decreases s.len(),
{
    if s.len() == 0 {
        assert(s.insert(p, e) =~= seq![e]);
    } else if s.last().0 <= e.0 {
        assert(p == s.len());
        assert(s.insert(p, e) =~= s.push(e));
    } else {
        lemma_insert_at(s.drop_last(), e, p);
        assert(s.insert(p, e) =~= s.drop_last().insert(p, e).push(s.last()));
    }
}

proof fn lemma_insert_sorted<T>(s: Seq<(usize, T)>, e: (usize, T))
    requires
        sorted_by_key(s),
    ensures
        sorted_by_key(insert_by_key(s, e)),
        insert_by_key(s, e).len() == s.len() + 1,
        insert_by_key(s, e).to_multiset() == s.to_multiset().insert(e),
    decreases s.len(),
{
    if s.len() == 0 {
        assert(insert_by_key(s, e) =~= seq![e]);
        s.to_multiset_ensures();
        assert(seq![e] =~= s.push(e));
    } else if s.last().0 <= e.0 {
        s.to_multiset_ensures();
    } else {
        let d = s.drop_last();
        assert(sorted_by_key(d));
        lemma_insert_sorted(d, e);
        let r = insert_by_key(d, e);
        assert forall|i: int| 0 <= i < r.len() implies r[i].0 <= s.last().0 by {
            r.to_multiset_ensures();
            d.to_multiset_ensures();
            assert(r.contains(r[i]));
            assert(r.to_multiset().count(r[i]) > 0);
            if r[i] != e {
                assert(d.to_multiset().insert(e).count(r[i]) == d.to_multiset().count(r[i]));
                assert(d.to_multiset().count(r[i]) > 0);
                assert(d.contains(r[i]));
                let j = choose|j: int| 0 <= j < d.len() && d[j] == r[i];
                assert(0 <= j < s.len() && s[j] == d[j]);
            }
        }
        r.to_multiset_ensures();
        s.to_multiset_ensures();
        d.to_multiset_ensures();
        assert(s =~= d.push(s.last()));
        assert(r.push(s.last()).to_multiset() =~= s.to_multiset().insert(e));
    }
}

/// `sort_by_key` orders by key and keeps every entry.
pub proof fn lemma_sort_by_key<T>(s: Seq<(usize, T)>)
    ensures
        sorted_by_key(sort_by_key(s)),
        sort_by_key(s).len() == s.len(),
        sort_by_key(s).to_multiset() == s.to_multiset(),
    decreases s.len(),
{
    if s.len() > 0 {
        lemma_sort_by_key(s.drop_last());
        lemma_insert_sorted(sort_by_key(s.drop_last()), s.last());
        s.drop_last().to_multiset_ensures();
        assert(s =~= s.drop_last().push(s.last()));
    }
}

proof fn lemma_insert_with_key<T>(s: Seq<(usize, T)>, e: (usize, T), k: usize)
    ensures
        with_key(insert_by_key(s, e), k) == (if e.0 == k { with_key(s, k).push(e) } else { with_key(s, k) }),
    decreases s.len(),
{
    if s.len() == 0 {
        assert(seq![e].drop_last() =~= s);
        assert(seq![e] =~= s.push(e));
        assert(with_key(s, k) =~= s);
    } else if s.last().0 <= e.0 {
        assert(s.push(e).drop_last() =~= s);
        assert(s.push(e).last() == e);
    } else {
        let d = s.drop_last();
        lemma_insert_with_key(d, e, k);
        let x = insert_by_key(d, e);
        assert(x.push(s.last()).drop_last() =~= x);
        assert(x.push(s.last()).last() == s.last());
        assert(insert_by_key(s, e) == x.push(s.last()));
    }
}

/// Among entries with equal keys, `sort_by_key` keeps the order of `s`.
pub proof fn lemma_sort_by_key_stable<T>(s: Seq<(usize, T)>, k: usize)
    ensures
        with_key(sort_by_key(s), k) == with_key(s, k),
    decreases s.len(),
{
    if s.len() > 0 {
        lemma_sort_by_key_stable(s.drop_last(), k);
        lemma_insert_with_key(sort_by_key(s.drop_last()), s.last(), k);
    }
}

/// Sorts the entries by ascending key; entries with equal keys keep their order.
pub fn stable_sort_by_key<T>(v: Vec<(usize, T)>) -> (r: Vec<(usize, T)>)
    ensures
        r@ == sort_by_key(v@),
{
    let ghost orig = v@;
    let mut input = v;
    let mut out: Vec<(usize, T)> = Vec::new();
    let ghost mut done: int = 0;
    proof {
        assert(orig.subrange(0, 0) =~= Seq::<(usize, T)>::empty());
    }
    while input.len() > 0
        invariant
            0 <= done <= orig.len(),
            done + input@.len() == orig.len(),
            input@ == orig.subrange(done, orig.len() as int),
            out@ == sort_by_key(orig.subrange(0, done)),
        decreases input@.len(),
    {
        let e = input.remove(0);
        proof {
            lemma_sort_by_key(orig.subrange(0, done));
        }
        let mut p: usize = out.len();
        while p > 0 && out[p - 1].0 > e.0
            invariant
                p <= out@.len(),
                forall|j: int| p <= j < out@.len() ==> out@[j].0 > e.0,
            decreases p,
        {
            p = p - 1;
        }
        proof {
            lemma_insert_at(out@, e, p as int);
            let next = orig.subrange(0, done + 1);
            assert(next.drop_last() =~= orig.subrange(0, done));
            assert(next.last() == e);
        }
        out.insert(p, e);
        proof {
            done = done + 1;
            assert(input@ =~= orig.subrange(done, orig.len() as int));
        }
    }
    proof {
        assert(orig.subrange(0, done) =~= orig);
    }
    out
}

} // verus!
