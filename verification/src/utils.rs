use vstd::prelude::*;

verus! {

/// Sum of a sequence of latency measurements.
pub open spec fn sum_of(s: Seq<u64>) -> int
    decreases s.len(),
{
    if s.len() == 0 {
        0
    } else {
        sum_of(s.drop_last()) + s.last()
    }
}

/// Arithmetic mean of a sequence of latency measurements, truncated toward
/// zero; the empty sequence maps to zero rather than being undefined.
pub open spec fn mean_of(s: Seq<u64>) -> int {
    if s.len() == 0 {
        0
    } else {
        sum_of(s) / (s.len() as int)
    }
}

/// The central-tendency value for one bucket of latencies: the arithmetic
/// mean of the list, truncated to whole units, with an empty list yielding
/// zero.
pub fn median(list: Vec<u64>) -> (r: u64)
    ensures
        r == mean_of(list@),
{
    let mut sum: u128 = 0;
    let mut i: usize = 0;
    while i < list.len()
        invariant
            i <= list@.len(),
            sum == sum_of(list@.take(i as int)),
            sum <= (i as int) * (u64::MAX as int),
        decreases list@.len() - i,
    {
        proof {
            assert(list@.take(i as int + 1).drop_last() =~= list@.take(i as int));
            assert(list@.take(i as int + 1).last() == list@[i as int]);
        }
        sum = sum + (list[i] as u128);
        i = i + 1;
    }
    proof {
        assert(list@.take(list@.len() as int) =~= list@);
    }
    if list.len() == 0 {
        0
    } else {
        let n = list.len();
        proof {
            assert(sum as int / (n as int) <= u64::MAX as int) by {
                vstd::arithmetic::div_mod::lemma_div_is_ordered(
                    sum as int,
                    (n as int) * (u64::MAX as int),
                    n as int,
                );
                vstd::arithmetic::div_mod::lemma_div_multiples_vanish(
                    u64::MAX as int,
                    n as int,
                );
            }
        }
        (sum / (n as u128)) as u64
    }
}

} // verus!
