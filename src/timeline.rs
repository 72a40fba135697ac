//! Stable sorting of values that stand at a point in time.
use vstd::prelude::*;

verus! {

/// Values that stand at a point in time, in ticks.
pub trait Timed {
    spec fn spec_time(&self) -> u32;

    fn time(&self) -> (r: u32)
        ensures
            r == self.spec_time(),
    ;
}

/// `s` with `x` placed after every element whose time is at most that of
/// `x`, and before the later ones that close the sequence.
pub open spec fn insert_by_time<T: Timed>(s: Seq<T>, x: T) -> Seq<T>
    decreases s.len(),
{
    if s.len() == 0 || s.last().spec_time() <= x.spec_time() {
        s.push(x)
    } else {
        insert_by_time(s.drop_last(), x).push(s.last())
    }
}

/// The stable sort of `s` by time: ordered by time, and elements of equal
/// time in the order in which they stand in `s`.
pub open spec fn sort_by_time<T: Timed>(s: Seq<T>) -> Seq<T>
    decreases s.len(),
{
    if s.len() == 0 {
        s
    } else {
        insert_by_time(sort_by_time(s.drop_last()), s.last())
    }
}

pub open spec fn sorted_by_time<T: Timed>(s: Seq<T>) -> bool {
    forall|i: int, j: int| 0 <= i < j < s.len() ==> s[i].spec_time() <= s[j].spec_time()
}

/// Inserting at `k`, after the elements of time at most that of `x` and
/// before the later ones, is inserting by time.
proof fn lemma_insert_at<T: Timed>(s: Seq<T>, x: T, k: int)
    requires
        0 <= k <= s.len(),
        forall|j: int| k <= j < s.len() ==> s[j].spec_time() > x.spec_time(),
        k == 0 || s[k - 1].spec_time() <= x.spec_time(),
    ensures
        insert_by_time(s, x) == s.insert(k, x),
    decreases s.len(),
{
    if k == s.len() {
        assert(s.push(x) =~= s.insert(k, x));
    } else {
        lemma_insert_at(s.drop_last(), x, k);
        assert(s.drop_last().insert(k, x).push(s.last()) =~= s.insert(k, x));
    }
}

/// Where inserting by time puts `x`: after the elements that close `s` with
/// a later time.
pub open spec fn insert_position<T: Timed>(s: Seq<T>, x: T) -> int
    decreases s.len(),
{
    if s.len() == 0 || s.last().spec_time() <= x.spec_time() {
        s.len() as int
    } else {
        insert_position(s.drop_last(), x)
    }
}

proof fn lemma_insert_position<T: Timed>(s: Seq<T>, x: T)
    requires
        sorted_by_time(s),
    ensures
        0 <= insert_position(s, x) <= s.len(),
        insert_by_time(s, x) == s.insert(insert_position(s, x), x),
        forall|j: int| 0 <= j < insert_position(s, x) ==> s[j].spec_time() <= x.spec_time(),
        forall|j: int| insert_position(s, x) <= j < s.len() ==> s[j].spec_time() > x.spec_time(),
    decreases s.len(),
{
    if s.len() == 0 || s.last().spec_time() <= x.spec_time() {
        assert(s.push(x) =~= s.insert(s.len() as int, x));
        assert forall|j: int| 0 <= j < s.len() implies s[j].spec_time() <= x.spec_time() by {
            if j < s.len() - 1 {
                assert(s[j].spec_time() <= s[s.len() - 1].spec_time());
            }
        }
    } else {
        let p = s.drop_last();
        assert(sorted_by_time(p));
        lemma_insert_position(p, x);
        let k = insert_position(p, x);
        assert(p.insert(k, x).push(s.last()) =~= s.insert(k, x));
        assert forall|j: int| k <= j < s.len() implies s[j].spec_time() > x.spec_time() by {
            if j < s.len() - 1 {
                assert(s[j] == p[j]);
            }
        }
        assert forall|j: int| 0 <= j < k implies s[j].spec_time() <= x.spec_time() by {
            assert(s[j] == p[j]);
        }
    }
}

/// Inserting by time keeps a sorted sequence sorted, and keeps its elements.
pub proof fn lemma_insert_sorted<T: Timed>(s: Seq<T>, x: T)
    requires
        sorted_by_time(s),
    ensures
        sorted_by_time(insert_by_time(s, x)),
        insert_by_time(s, x).to_multiset() == s.to_multiset().insert(x),
{
    broadcast use vstd::seq_lib::to_multiset_insert;

    lemma_insert_position(s, x);
    let k = insert_position(s, x);
    let r = s.insert(k, x);
    assert forall|i: int, j: int| 0 <= i < j < r.len() implies r[i].spec_time() <= r[j].spec_time() by {
        if i < k && j > k {
            assert(r[i] == s[i] && r[j] == s[j - 1]);
        } else if i == k {
            assert(r[j] == s[j - 1]);
        } else if j == k {
            assert(r[i] == s[i]);
        } else if j < k {
            assert(r[i] == s[i] && r[j] == s[j]);
        } else {
            assert(r[i] == s[i - 1] && r[j] == s[j - 1]);
        }
    }
}

/// The stable sort by time is ordered by time and holds the same elements.
pub proof fn lemma_sort_by_time<T: Timed>(s: Seq<T>)
    ensures
        sorted_by_time(sort_by_time(s)),
        sort_by_time(s).to_multiset() == s.to_multiset(),
    decreases s.len(),
{
    broadcast use vstd::seq_lib::to_multiset_build;

    if s.len() > 0 {
        let p = s.drop_last();
        lemma_sort_by_time(p);
        lemma_insert_sorted(sort_by_time(p), s.last());
        assert(s =~= p.push(s.last()));
    } else {
        assert(sort_by_time(s) == s);
    }
}

/// Sorts `v` by time, stably.
pub fn sort_timeline<T: Timed + Copy>(v: &Vec<T>) -> (r: Vec<T>)
    ensures
        r@ == sort_by_time(v@),
{
    let mut out: Vec<T> = Vec::new();
    let mut i: usize = 0;
    while i < v.len()
        invariant
            0 <= i <= v@.len(),
            out@ == sort_by_time(v@.take(i as int)),
        decreases v@.len() - i,
    {
        let x = v[i];
        let t = x.time();
        let mut k: usize = out.len();
        while k > 0 && out[k - 1].time() > t
            invariant
                0 <= k <= out@.len(),
                t == x.spec_time(),
                forall|j: int| k <= j < out@.len() ==> out@[j].spec_time() > x.spec_time(),
            decreases k,
        {
            k = k - 1;
        }
        proof {
            lemma_insert_at(out@, x, k as int);
            assert(v@.take(i + 1).drop_last() =~= v@.take(i as int));
        }
        out.insert(k, x);
        i = i + 1;
    }
    assert(v@.take(v@.len() as int) =~= v@);
    out
}

} // verus!
