//! Tables stored as lists of (key, value) pairs with distinct keys, and the
//! maps they stand for.
use vstd::prelude::*;

verus! {

/// The map that a list of (key, value) pairs stands for; a later pair wins
/// over an earlier one with the same key.
pub open spec fn pairs_map<V>(e: Seq<(Seq<char>, V)>) -> Map<Seq<char>, V>
    decreases e.len(),
{
    if e.len() == 0 {
        Map::empty()
    } else {
        pairs_map(e.drop_last()).insert(e.last().0, e.last().1)
    }
}

/// No key occurs twice.
pub open spec fn distinct_keys<V>(e: Seq<(Seq<char>, V)>) -> bool {
    forall|i: int, j: int| 0 <= i < j < e.len() ==> #[trigger] e[i].0 != #[trigger] e[j].0
}

/// The keys of the map are those of the list.
pub proof fn lemma_pairs_map_dom<V>(e: Seq<(Seq<char>, V)>, k: Seq<char>)
    ensures
        pairs_map(e).dom().contains(k) <==> exists|i: int| 0 <= i < e.len() && #[trigger] e[i].0 == k,
    decreases e.len(),
{
    if e.len() > 0 {
        lemma_pairs_map_dom(e.drop_last(), k);
        if pairs_map(e.drop_last()).dom().contains(k) {
            let i = choose|i: int| 0 <= i < e.drop_last().len() && #[trigger] e.drop_last()[i].0 == k;
            assert(e[i].0 == k);
        }
        if exists|i: int| 0 <= i < e.len() && #[trigger] e[i].0 == k {
            let i = choose|i: int| 0 <= i < e.len() && #[trigger] e[i].0 == k;
            if i < e.len() - 1 {
                assert(e.drop_last()[i].0 == k);
            }
        }
    }
}

/// With distinct keys, each pair is found in the map.
pub proof fn lemma_pairs_map_index<V>(e: Seq<(Seq<char>, V)>, i: int)
    requires
        distinct_keys(e),
        0 <= i < e.len(),
    ensures
        pairs_map(e).dom().contains(e[i].0),
        pairs_map(e)[e[i].0] == e[i].1,
    decreases e.len(),
{
    if i < e.len() - 1 {
        lemma_pairs_map_index(e.drop_last(), i);
        assert(e.drop_last()[i] == e[i]);
        assert(e[i].0 != e[e.len() - 1].0);
    }
}

/// Extending a list by its next pair, whose key is new, extends the map by it.
pub proof fn lemma_pairs_map_take_next<V>(e: Seq<(Seq<char>, V)>, i: int)
    requires
        distinct_keys(e),
        0 <= i < e.len(),
    ensures
        pairs_map(e.take(i + 1)) == pairs_map(e.take(i)).insert(e[i].0, e[i].1),
        !pairs_map(e.take(i)).dom().contains(e[i].0),
{
    assert(e.take(i + 1).drop_last() =~= e.take(i));
    lemma_pairs_map_dom(e.take(i), e[i].0);
    if pairs_map(e.take(i)).dom().contains(e[i].0) {
        let k = choose|k: int| 0 <= k < e.take(i).len() && #[trigger] e.take(i)[k].0 == e[i].0;
        assert(e[k].0 == e[i].0);
    }
}

/// Appending a pair whose key is new keeps the keys distinct.
pub proof fn lemma_distinct_push<V>(e: Seq<(Seq<char>, V)>, p: (Seq<char>, V))
    requires
        distinct_keys(e),
        forall|i: int| 0 <= i < e.len() ==> (#[trigger] e[i]).0 != p.0,
    ensures
        distinct_keys(e.push(p)),
        pairs_map(e.push(p)) == pairs_map(e).insert(p.0, p.1),
{
    let f = e.push(p);
    assert(f.drop_last() =~= e);
    assert forall|a: int, b: int| 0 <= a < b < f.len() implies #[trigger] f[a].0 != #[trigger] f[b].0 by {
        assert(f[a] == e[a]);
        if b < e.len() {
            assert(f[b] == e[b]);
        }
    }
}

} // verus!
