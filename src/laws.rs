use vstd::prelude::*;
use crate::attrs::{insert_all, keys_unique, lemma_insert_pair, pairs_map, AttrV};
use crate::context::{raised, Log};
use crate::level::Level;

verus! {

proof fn lemma_insert_all_unique(m: Seq<AttrV>, s: Seq<AttrV>)
    requires
        keys_unique(m),
    ensures
        keys_unique(insert_all(m, s)),
        pairs_map(insert_all(m, s)) == pairs_map(m).union_prefer_right(pairs_map(s)),
    decreases s.len(),
{
    if s.len() == 0 {
        assert(pairs_map(m).union_prefer_right(pairs_map(s)) =~= pairs_map(m));
    } else {
        let prev = insert_all(m, s.drop_last());
        lemma_insert_all_unique(m, s.drop_last());
        lemma_insert_pair(prev, s.last().0, s.last().1);
        assert(pairs_map(m).union_prefer_right(pairs_map(s)) =~= pairs_map(m).union_prefer_right(
            pairs_map(s.drop_last()),
        ).insert(s.last().0, s.last().1));
    }
}

proof fn lemma_insert_all_concat(m: Seq<AttrV>, s1: Seq<AttrV>, s2: Seq<AttrV>)
    ensures
        insert_all(insert_all(m, s1), s2) == insert_all(m, s1 + s2),
    decreases s2.len(),
{
    if s2.len() == 0 {
        assert(s1 + s2 =~= s1);
    } else {
        lemma_insert_all_concat(m, s1, s2.drop_last());
        assert((s1 + s2).drop_last() =~= s1 + s2.drop_last());
        assert((s1 + s2).last() == s2.last());
    }
}

/// Two configurators applied in turn to an empty map, the first inserting the
/// pairs `s1` and the second the pairs `s2`, give the map of all the pairs inserted
/// in that order; where both insert a key, the second one's value is kept.
pub proof fn law_configurators_compose(s1: Seq<AttrV>, s2: Seq<AttrV>)
    ensures
        insert_all(insert_all(Seq::empty(), s1), s2) == insert_all(Seq::empty(), s1 + s2),
        keys_unique(insert_all(Seq::empty(), s1 + s2)),
        pairs_map(insert_all(Seq::empty(), s1 + s2)) == pairs_map(insert_all(Seq::empty(), s1)).union_prefer_right(
            pairs_map(insert_all(Seq::empty(), s2)),
        ),
{
    let e = Seq::<AttrV>::empty();
    lemma_insert_all_concat(e, s1, s2);
    lemma_insert_all_unique(e, s1);
    lemma_insert_all_unique(e, s2);
    lemma_insert_all_unique(insert_all(e, s1), s2);
    assert(pairs_map(e) =~= Map::empty());
    assert(pairs_map(e).union_prefer_right(pairs_map(s1)) =~= pairs_map(s1));
    assert(pairs_map(e).union_prefer_right(pairs_map(s2)) =~= pairs_map(s2));
}

/// A chain with no minimum level emits no level at all; a chain with one emits
/// exactly the levels at or above it.
pub proof fn law_level_gating(l: Log, level: Level)
    ensures
        l.min_level() is None ==> !l.emits(level),
        l.min_level() is Some ==> (l.emits(level) <==> level.rank() >= l.min_level().unwrap().rank()),
{
}

/// Raising the minimum level never lowers it, and a chain that does not log is
/// not made to log: whatever the raised chain emits, the original emitted too.
pub proof fn law_raise_never_lowers(m: Option<Level>, to: Level)
    ensures
        m is None ==> raised(m, to) is None,
        m is Some ==> raised(m, to) is Some && raised(m, to).unwrap().rank() >= m.unwrap().rank()
            && raised(m, to).unwrap().rank() >= to.rank(),
{
}

} // verus!
