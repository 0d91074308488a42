//! The verdict of a comparison between a run and an earlier report.

use vstd::prelude::*;

verus! {

/// How many reports of a run are flagged as slower than recorded.
pub open spec fn flagged(slower: Seq<bool>) -> nat
    decreases slower.len(),
{
    if slower.len() == 0 {
        0
    } else {
        flagged(slower.drop_last()) + if slower.last() {
            1nat
        } else {
            0nat
        }
    }
}

/// The position in the recorded reports against which the report at `position`
/// of the pass `pass` is held: its position in all passes laid end to end.
pub open spec fn flat_position(lengths: Seq<usize>, pass: int, position: int) -> int
    decreases pass,
{
    if pass <= 0 {
        position
    } else {
        lengths[pass - 1] + flat_position(lengths, pass - 1, position)
    }
}

/// The position in the recorded reports against which the report at `position`
/// of the pass `pass` is held, where `lengths` gives the number of reports of each
/// pass; `None` where the machine cannot count that far.
pub fn hrw_flat_position(lengths: &Vec<usize>, pass: usize, position: usize) -> (r: Option<usize>)
    requires
        pass <= lengths.len(),
    ensures
        match r {
            Some(p) => p == flat_position(lengths@, pass as int, position as int),
            None => flat_position(lengths@, pass as int, position as int) > usize::MAX,
        },
{
    let mut total: usize = position;
    let mut i: usize = 0;
    while i < pass
        invariant
            i <= pass <= lengths.len(),
            total == flat_position(lengths@, i as int, position as int),
        decreases pass - i,
    {
        match total.checked_add(lengths[i]) {
            Some(t) => {
                total = t;
            },
            None => {
                proof {
                    lemma_flat_position_grows(lengths@, i as int + 1, pass as int, position as int);
                }
                return None;
            },
        }
        i += 1;
    }
    Some(total)
}

proof fn lemma_flat_position_grows(lengths: Seq<usize>, a: int, b: int, position: int)
    requires
        0 <= a <= b <= lengths.len(),
    ensures
        flat_position(lengths, a, position) <= flat_position(lengths, b, position),
    decreases b - a,
{
    if a < b {
        lemma_flat_position_grows(lengths, a, b - 1, position);
    }
}

/// The verdict of a comparison: `slower` says of each report of a run, in the
/// order of the run, whether it took longer than the recorded one by more than the
/// threshold. The run passes where no report is flagged; else the number of
/// flagged reports is the failure.
pub fn hrw_compare(slower: &Vec<bool>) -> (r: Result<(), i32>)
    requires
        slower.len() <= i32::MAX,
    ensures
        match r {
            Ok(_) => flagged(slower@) == 0,
            Err(n) => n == flagged(slower@) && n > 0,
        },
{
    let mut slow_counter: i32 = 0;
    let mut i: usize = 0;
    assert(slower@.take(0) =~= Seq::<bool>::empty());
    while i < slower.len()
        invariant
            i <= slower.len() <= i32::MAX,
            slow_counter == flagged(slower@.take(i as int)),
            slow_counter <= i,
        decreases slower.len() - i,
    {
        assert(slower@.take(i as int + 1).drop_last() =~= slower@.take(i as int));
        if slower[i] {
            slow_counter += 1;
        }
        i += 1;
    }
    assert(slower@.take(i as int) =~= slower@);
    if slow_counter == 0 {
        Ok(())
    } else {
        Err(slow_counter)
    }
}

/// A run in which no report is flagged passes, and a run in which one is flagged
/// fails with a positive count.
pub proof fn law_verdict(slower: Seq<bool>)
    ensures
        (forall|i: int| 0 <= i < slower.len() ==> !slower[i]) <==> flagged(slower) == 0,
    decreases slower.len(),
{
    if slower.len() > 0 {
        law_verdict(slower.drop_last());
        if flagged(slower) == 0 {
            assert forall|i: int| 0 <= i < slower.len() implies !slower[i] by {
                if i < slower.len() - 1 {
                    assert(slower.drop_last()[i] == slower[i]);
                }
            }
        } else {
            if forall|i: int| 0 <= i < slower.len() ==> !slower[i] {
                assert forall|i: int| 0 <= i < slower.drop_last().len() implies !slower.drop_last()[i] by {
                    assert(slower.drop_last()[i] == slower[i]);
                }
                assert(!slower[slower.len() - 1]);
            }
        }
    }
}

} // verus!
