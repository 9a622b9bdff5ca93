//! Ranking what a scan has heard.

use vstd::prelude::*;

verus! {

/// A level as a number that sorts as the level does: the bits of a float, with the order of
/// the negative ones turned round.
pub fn level_key(bits: u32) -> (key: i32)
    ensures
        key == if bits < 0x8000_0000 {
            bits as int
        } else {
            0x7FFF_FFFF - bits
        },
{
    if bits < 0x8000_0000 {
        bits as i32
    } else {
        (0x7FFF_FFFFi64 - bits as i64) as i32
    }
}

/// A ranking with one more entry: behind everything that is at least as strong.
pub open spec fn ranked_in(ranking: Seq<(u32, i32)>, entry: (u32, i32)) -> Seq<(u32, i32)>
    decreases ranking.len(),
{
    if ranking.len() > 0 && ranking.last().1 < entry.1 {
        ranked_in(ranking.drop_last(), entry).push(ranking.last())
    } else {
        ranking.push(entry)
    }
}

/// Entries by strength, strongest first; equally strong ones in the order they were heard.
pub open spec fn ranked(entries: Seq<(u32, i32)>) -> Seq<(u32, i32)>
    decreases entries.len(),
{
    if entries.len() == 0 {
        seq![]
    } else {
        ranked_in(ranked(entries.drop_last()), entries.last())
    }
}

proof fn ranked_in_is_an_insertion(ranking: Seq<(u32, i32)>, entry: (u32, i32), at: int)
    requires
        0 <= at <= ranking.len(),
        at > 0 ==> ranking[at - 1].1 >= entry.1,
        forall|k: int| at <= k < ranking.len() ==> (#[trigger] ranking[k]).1 < entry.1,
    ensures
        ranked_in(ranking, entry) == ranking.insert(at, entry),
    decreases ranking.len(),
{
    if at < ranking.len() {
        assert(ranking[ranking.len() - 1].1 < entry.1);
        ranked_in_is_an_insertion(ranking.drop_last(), entry, at);
        assert(ranking.insert(at, entry) =~= ranking.drop_last().insert(at, entry).push(
            ranking.last(),
        ));
    } else {
        assert(ranking.insert(at, entry) =~= ranking.push(entry));
    }
}

/// Ranks stations by the level they were heard at, as frequencies and level keys.
pub fn strongest_first(entries: &Vec<(u32, i32)>) -> (ranking: Vec<(u32, i32)>)
    ensures
        ranking@ == ranked(entries@),
{
    let mut ranking: Vec<(u32, i32)> = Vec::new();
    let mut i: usize = 0;
    assert(entries@.take(0) =~= seq![]);
    while i < entries.len()
        invariant
            i <= entries@.len(),
            ranking@ == ranked(entries@.take(i as int)),
            ranking@.len() == i,
        decreases entries@.len() - i,
    {
        let entry = entries[i];
        let mut at: usize = ranking.len();
        while at > 0 && ranking[at - 1].1 < entry.1
            invariant
                at <= ranking@.len(),
                forall|k: int| at <= k < ranking@.len() ==> (#[trigger] ranking@[k]).1 < entry.1,
            decreases at,
        {
            at -= 1;
        }
        proof {
            ranked_in_is_an_insertion(ranking@, entry, at as int);
            assert(entries@.take(i + 1).drop_last() =~= entries@.take(i as int));
            assert(entries@.take(i + 1).last() == entry);
        }
        ranking.insert(at, entry);
        i += 1;
    }
    assert(entries@.take(i as int) =~= entries@);
    ranking
}

/// A ranking holds exactly what was heard, and nothing in it is stronger than what stands
/// before it.
pub proof fn rankings_are_sorted(entries: Seq<(u32, i32)>)
    ensures
        ranked(entries).to_multiset() == entries.to_multiset(),
        forall|i: int, j: int|
            0 <= i <= j < ranked(entries).len() ==> (#[trigger] ranked(entries)[i]).1 >= (
            #[trigger] ranked(entries)[j]).1,
    decreases entries.len(),
{
    if entries.len() > 0 {
        rankings_are_sorted(entries.drop_last());
        let earlier = ranked(entries.drop_last());
        one_more_keeps_order(earlier, entries.last());
        assert(entries =~= entries.drop_last().push(entries.last()));
        vstd::seq_lib::to_multiset_build(entries.drop_last(), entries.last());
    } else {
        assert(entries =~= ranked(entries));
    }
}

proof fn one_more_keeps_order(ranking: Seq<(u32, i32)>, entry: (u32, i32))
    requires
        forall|i: int, j: int|
            0 <= i <= j < ranking.len() ==> (#[trigger] ranking[i]).1 >= (#[trigger] ranking[j]).1,
    ensures
        ({
            let after = ranked_in(ranking, entry);
            &&& after.len() == ranking.len() + 1
            &&& after.to_multiset() == ranking.to_multiset().insert(entry)
            &&& forall|i: int, j: int|
                0 <= i <= j < after.len() ==> (#[trigger] after[i]).1 >= (#[trigger] after[j]).1
            &&& forall|i: int|
                0 <= i < after.len() ==> (#[trigger] after[i]).1 >= entry.1 || (ranking.len() > 0
                    && after[i].1 >= ranking.last().1)
        }),
    decreases ranking.len(),
{
    let after = ranked_in(ranking, entry);
    if ranking.len() > 0 && ranking.last().1 < entry.1 {
        let shorter = ranking.drop_last();
        assert forall|i: int, j: int| 0 <= i <= j < shorter.len() implies (
        #[trigger] shorter[i]).1 >= (#[trigger] shorter[j]).1 by {
            assert(shorter[i] == ranking[i] && shorter[j] == ranking[j]);
        }
        one_more_keeps_order(shorter, entry);
        let inner = ranked_in(shorter, entry);
        vstd::seq_lib::to_multiset_build(inner, ranking.last());
        vstd::seq_lib::to_multiset_build(shorter, ranking.last());
        assert(ranking =~= shorter.push(ranking.last()));
        assert(after.to_multiset() =~= ranking.to_multiset().insert(entry));
        assert forall|i: int, j: int| 0 <= i <= j < after.len() implies (#[trigger] after[i]).1 >= (
        #[trigger] after[j]).1 by {
            if j < inner.len() {
                assert(after[i] == inner[i] && after[j] == inner[j]);
            } else if i < inner.len() {
                assert(after[i] == inner[i]);
                if shorter.len() > 0 {
                    assert(ranking[shorter.len() - 1].1 >= ranking[ranking.len() - 1].1);
                }
            }
        }
        assert forall|i: int| 0 <= i < after.len() implies (#[trigger] after[i]).1 >= entry.1 || (
        ranking.len() > 0 && after[i].1 >= ranking.last().1) by {
            if i < inner.len() {
                assert(after[i] == inner[i]);
                if shorter.len() > 0 {
                    assert(ranking[shorter.len() - 1].1 >= ranking[ranking.len() - 1].1);
                }
            }
        }
    } else {
        vstd::seq_lib::to_multiset_build(ranking, entry);
        assert forall|i: int, j: int| 0 <= i <= j < after.len() implies (#[trigger] after[i]).1 >= (
        #[trigger] after[j]).1 by {
            if j < ranking.len() {
                assert(after[i] == ranking[i] && after[j] == ranking[j]);
            } else if i < ranking.len() {
                assert(after[i] == ranking[i]);
                assert(ranking[i].1 >= ranking[ranking.len() - 1].1);
            }
        }
        assert forall|i: int| 0 <= i < after.len() implies (#[trigger] after[i]).1 >= entry.1 || (
        ranking.len() > 0 && after[i].1 >= ranking.last().1) by {
            if i < ranking.len() {
                assert(after[i] == ranking[i]);
                assert(ranking[i].1 >= ranking[ranking.len() - 1].1);
            }
        }
    }
}

/// The entries of a run that were heard at one level, in order.
pub open spec fn heard_at(entries: Seq<(u32, i32)>, level: i32) -> Seq<(u32, i32)>
    decreases entries.len(),
{
    if entries.len() == 0 {
        seq![]
    } else if entries.last().1 == level {
        heard_at(entries.drop_last(), level).push(entries.last())
    } else {
        heard_at(entries.drop_last(), level)
    }
}

/// Stations heard at the same level keep the order in which they were heard.
pub proof fn equal_levels_keep_their_order(entries: Seq<(u32, i32)>, level: i32)
    ensures
        heard_at(ranked(entries), level) == heard_at(entries, level),
    decreases entries.len(),
{
    if entries.len() > 0 {
        equal_levels_keep_their_order(entries.drop_last(), level);
        one_more_is_heard(ranked(entries.drop_last()), entries.last(), level);
    }
}

proof fn one_more_is_heard(ranking: Seq<(u32, i32)>, entry: (u32, i32), level: i32)
    ensures
        heard_at(ranked_in(ranking, entry), level) == (if entry.1 == level {
            heard_at(ranking, level).push(entry)
        } else {
            heard_at(ranking, level)
        }),
    decreases ranking.len(),
{
    let after = ranked_in(ranking, entry);
    if ranking.len() > 0 && ranking.last().1 < entry.1 {
        one_more_is_heard(ranking.drop_last(), entry, level);
        let inner = ranked_in(ranking.drop_last(), entry);
        assert(after.drop_last() =~= inner);
        assert(after.last() == ranking.last());
    } else {
        assert(after.drop_last() =~= ranking);
        assert(after.last() == entry);
    }
}

} // verus!
