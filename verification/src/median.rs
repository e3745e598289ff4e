//! Sorting a neighbourhood and picking its median.
use vstd::prelude::*;
use crate::filterable::Filterable;

verus! {

/// `t` with `x` inserted after every element that `x` does not precede,
/// scanning from the back: the step of a stable insertion sort.
pub open spec fn insert_sorted<V: Filterable>(t: Seq<V>, x: V) -> Seq<V>
    decreases t.len(),
{
    if t.len() == 0 {
        seq![x]
    } else if x.spec_precedes(t.last()) {
        insert_sorted(t.drop_last(), x).push(t.last())
    } else {
        t.push(x)
    }
}

/// The samples sorted by `spec_precedes`, stably: equal samples keep their
/// order.
pub open spec fn sorted_samples<V: Filterable>(s: Seq<V>) -> Seq<V>
    decreases s.len(),
{
    if s.len() == 0 {
        Seq::empty()
    } else {
        insert_sorted(sorted_samples(s.drop_last()), s.last())
    }
}

/// The median of a non-empty neighbourhood: the sample at position
/// `len / 2` once sorted (the upper of the two middles when `len` is even).
pub open spec fn median_sample<V: Filterable>(s: Seq<V>) -> V {
    sorted_samples(s)[s.len() as int / 2]
}

/// Inserting adds exactly `x`.
pub proof fn lemma_insert_sorted_multiset<V: Filterable>(t: Seq<V>, x: V)
    ensures
        insert_sorted(t, x).to_multiset() == t.to_multiset().insert(x),
        insert_sorted(t, x).len() == t.len() + 1,
    decreases t.len(),
{
    broadcast use vstd::seq_lib::group_to_multiset_ensures;
    if t.len() == 0 {
        assert(seq![x] =~= Seq::<V>::empty().push(x));
    } else if x.spec_precedes(t.last()) {
        let u = t.drop_last();
        lemma_insert_sorted_multiset(u, x);
        assert(t =~= u.push(t.last()));
        assert(insert_sorted(t, x).to_multiset() =~= t.to_multiset().insert(x));
    }
}

/// Sorting keeps the samples: the sorted sequence is a permutation of them.
pub proof fn lemma_sorted_multiset<V: Filterable>(s: Seq<V>)
    ensures
        sorted_samples(s).to_multiset() == s.to_multiset(),
        sorted_samples(s).len() == s.len(),
    decreases s.len(),
{
    broadcast use vstd::seq_lib::group_to_multiset_ensures;
    if s.len() > 0 {
        let u = s.drop_last();
        lemma_sorted_multiset(u);
        lemma_insert_sorted_multiset(sorted_samples(u), s.last());
        assert(s =~= u.push(s.last()));
    }
}

/// The median of a neighbourhood is one of its samples.
pub proof fn lemma_median_is_a_sample<V: Filterable>(s: Seq<V>)
    requires
        s.len() > 0,
    ensures
        s.contains(median_sample(s)),
{
    broadcast use vstd::seq_lib::group_to_multiset_ensures;
    lemma_sorted_multiset(s);
    let t = sorted_samples(s);
    assert(t.contains(t[s.len() as int / 2]));
    assert(t.to_multiset().count(t[s.len() as int / 2]) > 0);
}

/// Inserts `x` into `t`, which `insert_sorted` describes.
fn insert_sample<V: Filterable>(t: &mut Vec<V>, x: V)
    ensures
        final(t)@ == insert_sorted(old(t)@, x),
{
    let ghost t0 = t@;
    let mut j: usize = t.len();
    proof {
        assert(t0.take(j as int) =~= t0);
        assert(insert_sorted(t0, x) + t0.skip(j as int) =~= insert_sorted(t0, x));
    }
    while j > 0 && x.precedes(&t[j - 1])
        invariant
            t@ == t0,
            j <= t0.len(),
            insert_sorted(t0, x) == insert_sorted(t0.take(j as int), x) + t0.skip(j as int),
        decreases j,
    {
        proof {
            let u = t0.take(j as int);
            assert(u.last() == t0[j - 1]);
            assert(u.drop_last() =~= t0.take(j - 1));
            assert(insert_sorted(u, x) == insert_sorted(t0.take(j - 1), x).push(t0[j - 1]));
            assert(insert_sorted(t0.take(j - 1), x).push(t0[j - 1]) + t0.skip(j as int)
                =~= insert_sorted(t0.take(j - 1), x) + t0.skip(j - 1));
        }
        j -= 1;
    }
    proof {
        let u = t0.take(j as int);
        if j == 0 {
            assert(u =~= Seq::<V>::empty());
        } else {
            assert(u.last() == t0[j - 1]);
        }
        assert(insert_sorted(u, x) =~= u.push(x));
        assert(u.push(x) + t0.skip(j as int) =~= t0.insert(j as int, x));
    }
    t.insert(j, x);
}

/// The samples sorted stably by `precedes`, by insertion.
pub fn sort_samples<V: Filterable>(samples: &Vec<V>) -> (r: Vec<V>)
    ensures
        r@ == sorted_samples(samples@),
{
    let mut sorted: Vec<V> = Vec::new();
    let mut i: usize = 0;
    while i < samples.len()
        invariant
            i <= samples@.len(),
            sorted@ == sorted_samples(samples@.take(i as int)),
        decreases samples@.len() - i,
    {
        proof {
            let u = samples@.take(i + 1);
            assert(u.drop_last() =~= samples@.take(i as int));
            assert(u.last() == samples@[i as int]);
        }
        insert_sample(&mut sorted, samples[i]);
        i += 1;
    }
    assert(samples@.take(samples@.len() as int) =~= samples@);
    sorted
}

/// The median of a non-empty neighbourhood: sorts the samples and takes the
/// one at position `len / 2`. It is one of the samples.
pub fn median_value<V: Filterable>(samples: &Vec<V>) -> (r: V)
    requires
        samples@.len() > 0,
    ensures
        r == median_sample(samples@),
        samples@.contains(r),
{
    let values = sort_samples(samples);
    proof {
        lemma_sorted_multiset(samples@);
        lemma_median_is_a_sample(samples@);
    }
    values[values.len() / 2]
}

/// Whether `precedes` orders the values of `s` strictly and weakly: no
/// value precedes itself, precedence is transitive, and whenever `a`
/// precedes `c`, any `b` comes after `a` or before `c`. `<` on floats that
/// are not NaN is such an order.
pub open spec fn strict_weak_order<V: Filterable>(s: Seq<V>) -> bool {
    &&& forall|a: V| s.contains(a) ==> !(#[trigger] a.spec_precedes(a))
    &&& forall|a: V, b: V, c: V|
        s.contains(a) && s.contains(b) && s.contains(c) && #[trigger] a.spec_precedes(b)
            && #[trigger] b.spec_precedes(c) ==> a.spec_precedes(c)
    &&& forall|a: V, b: V, c: V|
        s.contains(a) && s.contains(b) && s.contains(c) && #[trigger] a.spec_precedes(c) ==> (
        #[trigger] a.spec_precedes(b)) || #[trigger] b.spec_precedes(c)
}

/// Whether no value of `t` precedes an earlier one.
pub open spec fn ascending<V: Filterable>(t: Seq<V>) -> bool {
    forall|i: int, j: int| 0 <= i < j < t.len() ==> !(#[trigger] t[j].spec_precedes(#[trigger] t[i]))
}

/// Inserting into an ascending sequence keeps it ascending.
proof fn lemma_insert_ascending<V: Filterable>(s: Seq<V>, t: Seq<V>, x: V)
    requires
        strict_weak_order(s),
        s.contains(x),
        forall|i: int| 0 <= i < t.len() ==> s.contains(#[trigger] t[i]),
        ascending(t),
    ensures
        ascending(insert_sorted(t, x)),
    decreases t.len(),
{
    broadcast use vstd::seq_lib::group_to_multiset_ensures;
    if t.len() == 0 {
    } else if x.spec_precedes(t.last()) {
        let u = t.drop_last();
        let last = t.last();
        assert(s.contains(last));
        lemma_insert_ascending(s, u, x);
        let v = insert_sorted(u, x);
        lemma_insert_sorted_multiset(u, x);
        assert(!last.spec_precedes(x)) by {
            if last.spec_precedes(x) {
                assert(x.spec_precedes(x));
            }
        }
        assert forall|i: int| 0 <= i < v.len() implies !last.spec_precedes(#[trigger] v[i]) by {
            assert(v.to_multiset().count(v[i]) > 0);
            assert(v.contains(v[i]));
            if v[i] != x {
                assert(u.to_multiset().count(v[i]) > 0);
                assert(u.contains(v[i]));
                let m = choose|m: int| 0 <= m < u.len() && u[m] == v[i];
                assert(t[m] == u[m]);
                assert(!t[t.len() - 1].spec_precedes(t[m]));
            }
        }
        let w = v.push(last);
        assert forall|i: int, j: int| 0 <= i < j < w.len() implies !(#[trigger] w[j].spec_precedes(
            #[trigger] w[i],
        )) by {
            if j < v.len() {
                assert(w[j] == v[j] && w[i] == v[i]);
            } else {
                assert(w[j] == last && w[i] == v[i]);
            }
        }
    } else {
        let last = t.last();
        assert(s.contains(last));
        assert forall|i: int| 0 <= i < t.len() implies !x.spec_precedes(#[trigger] t[i]) by {
            assert(s.contains(t[i]));
            if x.spec_precedes(t[i]) && i < t.len() - 1 {
                assert(x.spec_precedes(last) || last.spec_precedes(t[i]));
                assert(!t[t.len() - 1].spec_precedes(t[i]));
            }
        }
        let w = t.push(x);
        assert forall|i: int, j: int| 0 <= i < j < w.len() implies !(#[trigger] w[j].spec_precedes(
            #[trigger] w[i],
        )) by {
            if j < t.len() {
                assert(w[j] == t[j] && w[i] == t[i]);
            } else {
                assert(w[j] == x && w[i] == t[i]);
            }
        }
    }
}

/// Sorting by a strict weak order gives an ascending sequence.
pub proof fn lemma_sorted_ascending<V: Filterable>(s: Seq<V>, all: Seq<V>)
    requires
        strict_weak_order(all),
        forall|i: int| 0 <= i < s.len() ==> all.contains(#[trigger] s[i]),
    ensures
        ascending(sorted_samples(s)),
    decreases s.len(),
{
    broadcast use vstd::seq_lib::group_to_multiset_ensures;
    if s.len() > 0 {
        let u = s.drop_last();
        assert forall|i: int| 0 <= i < u.len() implies all.contains(#[trigger] u[i]) by {
            assert(u[i] == s[i]);
        }
        lemma_sorted_ascending(u, all);
        lemma_sorted_multiset(u);
        let t = sorted_samples(u);
        assert forall|i: int| 0 <= i < t.len() implies all.contains(#[trigger] t[i]) by {
            assert(t.to_multiset().count(t[i]) > 0);
            assert(u.contains(t[i]));
            let m = choose|m: int| 0 <= m < u.len() && u[m] == t[i];
            assert(all.contains(u[m]));
        }
        assert(all.contains(s[s.len() - 1]));
        lemma_insert_ascending(all, t, s.last());
    }
}

/// When `precedes` is a strict weak order on the samples, the median is the
/// sample at position `len / 2` of an ascending permutation of them.
pub proof fn law_median_of_ascending_samples<V: Filterable>(s: Seq<V>)
    requires
        s.len() > 0,
        strict_weak_order(s),
    ensures
        ascending(sorted_samples(s)),
        sorted_samples(s).to_multiset() == s.to_multiset(),
        median_sample(s) == sorted_samples(s)[s.len() as int / 2],
        s.contains(median_sample(s)),
{
    lemma_sorted_ascending(s, s);
    lemma_sorted_multiset(s);
    lemma_median_is_a_sample(s);
}

} // verus!
