//! Searching sequences of points and removing several positions at once.

use vstd::prelude::*;
use crate::geometry::Point;

verus! {

/// `s` with every position listed in `idxs` removed. Positions index the
/// original sequence; the surviving elements keep their order. A position
/// listed more than once is removed once, and positions beyond the end are
/// ignored.
pub open spec fn removed_at<T>(s: Seq<T>, idxs: Seq<usize>) -> Seq<T>
    decreases s.len(),
{
    if s.len() == 0 {
        Seq::empty()
    } else if idxs.contains((s.len() - 1) as usize) {
        removed_at(s.drop_last(), idxs)
    } else {
        removed_at(s.drop_last(), idxs).push(s.last())
    }
}

/// How many of the positions `0 .. n` the sequence `idxs` lists.
pub open spec fn hit_count(n: nat, idxs: Seq<usize>) -> nat
    decreases n,
{
    if n == 0 {
        0
    } else {
        hit_count((n - 1) as nat, idxs) + (if idxs.contains((n - 1) as usize) {
            1nat
        } else {
            0nat
        })
    }
}

/// The first index of `point` in `points`, if it occurs at all.
pub fn find_point(points: &Vec<Point>, point: Point) -> (r: Option<usize>)
    ensures
        match r {
            Some(i) => (i as int) < points@.len() && points@[i as int] == point && (forall|k: int|
                0 <= k < i ==> points@[k] != point),
            None => !points@.contains(point),
        },
{
    let mut i: usize = 0;
    while i < points.len()
        invariant
            i <= points@.len(),
            forall|k: int| 0 <= k < i ==> points@[k] != point,
        decreases points@.len() - i,
    {
        if points[i] == point {
            return Some(i);
        }
        i += 1;
    }
    None
}

/// Whether `points` holds `point`.
pub fn contains_point(points: &Vec<Point>, point: Point) -> (r: bool)
    ensures
        r == points@.contains(point),
{
    let r = find_point(points, point);
    match r {
        Some(i) => {
            assert(points@.contains(point));
            true
        },
        None => false,
    }
}

/// Whether `values` holds `value`.
pub(crate) fn contains_usize(values: &Vec<usize>, value: usize) -> (r: bool)
    ensures
        r == values@.contains(value),
{
    let mut i: usize = 0;
    while i < values.len()
        invariant
            i <= values@.len(),
            forall|k: int| 0 <= k < i ==> values@[k] != value,
        decreases values@.len() - i,
    {
        if values[i] == value {
            assert(values@.contains(value));
            return true;
        }
        i += 1;
    }
    false
}

/// Remove from `vector` every element whose position is listed in `indexes`,
/// keeping the order of the rest.
pub fn remove_multiple<T>(vector: &mut Vec<T>, indexes: &Vec<usize>)
    ensures
        final(vector)@ == removed_at(old(vector)@, indexes@),
{
    let ghost orig: Seq<T> = vector@;
    let original_len = vector.len();
    assert(orig.len() == original_len);
    let mut kept: Vec<T> = Vec::new();
    let mut i: usize = 0;
    while vector.len() > 0
        invariant
            orig.len() <= usize::MAX,
            i + vector@.len() == orig.len(),
            vector@ == orig.skip(i as int),
            kept@ == removed_at(orig.take(i as int), indexes@),
        decreases vector@.len(),
    {
        let element = vector.remove(0);
        assert(element == orig[i as int]);
        assert(orig.skip(i as int).remove(0) =~= orig.skip(i as int + 1));
        let keep = !contains_usize(indexes, i);
        proof {
            assert(orig.take(i as int + 1).drop_last() =~= orig.take(i as int));
            assert(orig.take(i as int + 1).last() == orig[i as int]);
        }
        if keep {
            kept.push(element);
        }
        i += 1;
    }
    assert(orig.take(i as int) =~= orig);
    *vector = kept;
}

/// No position of `0 .. n` is listed by the empty sequence.
pub proof fn lemma_hit_count_empty(n: nat, idxs: Seq<usize>)
    requires
        idxs.len() == 0,
    ensures
        hit_count(n, idxs) == 0,
    decreases n,
{
    if n > 0 {
        lemma_hit_count_empty((n - 1) as nat, idxs);
    }
}

/// Positions below `n` do not see the last entry of `idxs` when that entry
/// is at least `n`: the count over `idxs` equals the count over the rest.
pub proof fn lemma_hit_count_same(n: nat, idxs: Seq<usize>)
    requires
        n <= usize::MAX,
        idxs.len() >= 1,
        n <= idxs.last() as int,
    ensures
        hit_count(n, idxs) == hit_count(n, idxs.drop_last()),
    decreases n,
{
    if n > 0 {
        let p = (n - 1) as usize;
        assert(idxs.contains(p) == idxs.drop_last().contains(p)) by {
            if idxs.contains(p) {
                let k = choose|k: int| 0 <= k < idxs.len() && idxs[k] == p;
                assert(k < idxs.len() - 1);
                assert(idxs.drop_last()[k] == p);
            }
            if idxs.drop_last().contains(p) {
                let k = choose|k: int| 0 <= k < idxs.drop_last().len() && idxs.drop_last()[k] == p;
                assert(idxs[k] == p);
            }
        }
        lemma_hit_count_same((n - 1) as nat, idxs);
    }
}

/// Dropping the last entry of a duplicate-free index list that lies below
/// `n` lowers the count over `0 .. n` by exactly one.
pub proof fn lemma_hit_count_drop(n: nat, idxs: Seq<usize>)
    requires
        n <= usize::MAX,
        idxs.len() >= 1,
        idxs.no_duplicates(),
        (idxs.last() as int) < n,
    ensures
        hit_count(n, idxs) == hit_count(n, idxs.drop_last()) + 1,
    decreases n,
{
    let p = (n - 1) as usize;
    let rest = idxs.drop_last();
    if p == idxs.last() {
        assert(idxs.contains(p)) by {
            assert(idxs[idxs.len() - 1] == p);
        }
        assert(!rest.contains(p)) by {
            if rest.contains(p) {
                let k = choose|k: int| 0 <= k < rest.len() && rest[k] == p;
                assert(idxs[k] == idxs[idxs.len() - 1]);
            }
        }
        lemma_hit_count_same((n - 1) as nat, idxs);
    } else {
        assert(idxs.contains(p) == rest.contains(p)) by {
            if idxs.contains(p) {
                let k = choose|k: int| 0 <= k < idxs.len() && idxs[k] == p;
                assert(k < idxs.len() - 1);
                assert(rest[k] == p);
            }
            if rest.contains(p) {
                let k = choose|k: int| 0 <= k < rest.len() && rest[k] == p;
                assert(idxs[k] == p);
            }
        }
        lemma_hit_count_drop((n - 1) as nat, idxs);
    }
}

/// A duplicate-free index list whose entries all lie below `n` hits exactly
/// its own length among the positions `0 .. n`.
pub proof fn lemma_hit_count_all(n: nat, idxs: Seq<usize>)
    requires
        n <= usize::MAX,
        idxs.no_duplicates(),
        forall|k: int| 0 <= k < idxs.len() ==> (#[trigger] idxs[k] as int) < n,
    ensures
        hit_count(n, idxs) == idxs.len(),
    decreases idxs.len(),
{
    if idxs.len() == 0 {
        lemma_hit_count_empty(n, idxs);
    } else {
        assert(idxs.drop_last().no_duplicates());
        lemma_hit_count_drop(n, idxs);
        lemma_hit_count_all(n, idxs.drop_last());
    }
}

/// Removing the listed positions shortens the sequence by exactly the number
/// of listed positions that lie within it.
pub proof fn lemma_removed_at_len<T>(s: Seq<T>, idxs: Seq<usize>)
    ensures
        removed_at(s, idxs).len() == s.len() - hit_count(s.len(), idxs),
    decreases s.len(),
{
    if s.len() > 0 {
        lemma_removed_at_len(s.drop_last(), idxs);
    }
}

/// Every survivor of the removal comes from an unlisted position, and every
/// unlisted position survives.
pub proof fn lemma_removed_at_elements<T>(s: Seq<T>, idxs: Seq<usize>)
    ensures
        forall|x: T| #[trigger]
            removed_at(s, idxs).contains(x) ==> exists|p: int|
                0 <= p < s.len() && !idxs.contains(p as usize) && s[p] == x,
        forall|p: int|
            0 <= p < s.len() && !idxs.contains(p as usize) ==> removed_at(s, idxs).contains(
                #[trigger] s[p],
            ),
    decreases s.len(),
{
    if s.len() > 0 {
        lemma_removed_at_elements(s.drop_last(), idxs);
        let r = removed_at(s, idxs);
        let rest = removed_at(s.drop_last(), idxs);
        assert forall|x: T| #[trigger] r.contains(x) implies exists|p: int|
            0 <= p < s.len() && !idxs.contains(p as usize) && s[p] == x by {
            if idxs.contains((s.len() - 1) as usize) {
                assert(rest.contains(x));
                let p = choose|p: int|
                    0 <= p < s.drop_last().len() && !idxs.contains(p as usize) && s.drop_last()[p]
                        == x;
                assert(s[p] == x);
            } else {
                if x == s.last() {
                    assert(s[s.len() - 1] == x);
                } else {
                    assert(rest.contains(x)) by {
                        let k = choose|k: int| 0 <= k < r.len() && r[k] == x;
                        assert(k < r.len() - 1);
                        assert(rest[k] == x);
                    }
                    let p = choose|p: int|
                        0 <= p < s.drop_last().len() && !idxs.contains(p as usize)
                            && s.drop_last()[p] == x;
                    assert(s[p] == x);
                }
            }
        }
        assert forall|p: int|
            0 <= p < s.len() && !idxs.contains(p as usize) implies r.contains(
            #[trigger] s[p],
        ) by {
            if p < s.len() - 1 {
                assert(s.drop_last()[p] == s[p]);
                assert(rest.contains(s[p]));
                let k = choose|k: int| 0 <= k < rest.len() && rest[k] == s[p];
                if idxs.contains((s.len() - 1) as usize) {
                    assert(r[k] == s[p]);
                } else {
                    assert(r[k] == s[p]);
                }
            } else {
                assert(!idxs.contains((s.len() - 1) as usize));
                assert(r.last() == s[p]);
                assert(r[r.len() - 1] == s[p]);
            }
        }
    }
}

/// Removal keeps freedom from duplicates.
pub proof fn lemma_removed_at_no_duplicates<T>(s: Seq<T>, idxs: Seq<usize>)
    requires
        s.no_duplicates(),
    ensures
        removed_at(s, idxs).no_duplicates(),
    decreases s.len(),
{
    if s.len() > 0 {
        assert(s.drop_last().no_duplicates());
        lemma_removed_at_no_duplicates(s.drop_last(), idxs);
        if !idxs.contains((s.len() - 1) as usize) {
            let rest = removed_at(s.drop_last(), idxs);
            assert(!rest.contains(s.last())) by {
                if rest.contains(s.last()) {
                    lemma_removed_at_elements(s.drop_last(), idxs);
                    let p = choose|p: int|
                        0 <= p < s.drop_last().len() && !idxs.contains(p as usize)
                            && s.drop_last()[p] == s.last();
                    assert(s[p] == s[s.len() - 1]);
                }
            }
            assert(removed_at(s, idxs).no_duplicates()) by {
                let r = removed_at(s, idxs);
                assert forall|i: int, j: int| 0 <= i < j < r.len() implies r[i] != r[j] by {
                    if j < r.len() - 1 {
                        assert(rest[i] == r[i] && rest[j] == r[j]);
                    } else {
                        assert(rest[i] == r[i]);
                        assert(rest.contains(rest[i]));
                    }
                }
            }
        }
    }
}

} // verus!
