//! Name/value lists read as maps, where a later pair overrides an earlier
//! one of the same name.

use vstd::prelude::*;

verus! {

/// The map that inserting the pairs in order builds.
pub open spec fn pairs_map(ps: Seq<(Seq<char>, Seq<char>)>) -> Map<Seq<char>, Seq<char>>
    decreases ps.len(),
{
    if ps.len() == 0 {
        Map::empty()
    } else {
        pairs_map(ps.drop_last()).insert(ps.last().0, ps.last().1)
    }
}

/// No two pairs share a name.
pub open spec fn names_unique(ps: Seq<(Seq<char>, Seq<char>)>) -> bool {
    forall|i: int, j: int| 0 <= i < j < ps.len() ==> (#[trigger] ps[i]).0 != (#[trigger] ps[j]).0
}

/// Pairs past index `j` whose names differ from `k` leave `k` as the
/// first `j` pairs bound it.
pub proof fn lemma_pairs_map_suffix(ps: Seq<(Seq<char>, Seq<char>)>, j: int, k: Seq<char>)
    requires
        0 <= j <= ps.len(),
        forall|t: int| j <= t < ps.len() ==> (#[trigger] ps[t]).0 != k,
    ensures
        pairs_map(ps).contains_key(k) == pairs_map(ps.take(j)).contains_key(k),
        pairs_map(ps)[k] == pairs_map(ps.take(j))[k],
    decreases ps.len() - j,
{
    if j < ps.len() {
        let q = ps.drop_last();
        assert(q.take(j) =~= ps.take(j));
        lemma_pairs_map_suffix(q, j, k);
    } else {
        assert(ps.take(j) =~= ps);
    }
}

/// Every name of the pairs is bound, to the value of its last pair.
pub proof fn lemma_pairs_map_keys(ps: Seq<(Seq<char>, Seq<char>)>, k: Seq<char>)
    ensures
        pairs_map(ps).contains_key(k) <==> exists|i: int| 0 <= i < ps.len() && (#[trigger] ps[i]).0
            == k,
    decreases ps.len(),
{
    if ps.len() > 0 {
        let q = ps.drop_last();
        lemma_pairs_map_keys(q, k);
        if pairs_map(ps).contains_key(k) && ps.last().0 != k {
            let i = choose|i: int| 0 <= i < q.len() && (#[trigger] q[i]).0 == k;
            assert(ps[i].0 == k);
        }
        if exists|i: int| 0 <= i < ps.len() && (#[trigger] ps[i]).0 == k {
            let i = choose|i: int| 0 <= i < ps.len() && (#[trigger] ps[i]).0 == k;
            if i < q.len() {
                assert(q[i].0 == k);
            }
        }
    }
}

/// In a list of unique names, the map binds each name to its pair's value.
pub proof fn lemma_unique_lookup(ps: Seq<(Seq<char>, Seq<char>)>, i: int)
    requires
        names_unique(ps),
        0 <= i < ps.len(),
    ensures
        pairs_map(ps).contains_key(ps[i].0),
        pairs_map(ps)[ps[i].0] == ps[i].1,
{
    lemma_pairs_map_suffix(ps, i + 1, ps[i].0);
    assert(ps.take(i + 1).drop_last() =~= ps.take(i));
    assert(ps.take(i + 1).last() == ps[i]);
}

} // verus!
