use vstd::prelude::*;

use vstd::arithmetic::div_mod::{lemma_div_by_multiple, lemma_div_is_ordered};
use vstd::arithmetic::mul::{lemma_mul_inequality, lemma_mul_is_commutative, lemma_mul_upper_bound};

use crate::error::AoError;
use crate::event_queue::EventQueue;

verus! {

/// The required arguments for a consume-events instruction.
#[derive(Clone, Copy, Debug)]
pub struct Params {
    /// Depending on applications, it might be optimal to process several
    /// events at a time.
    pub number_of_entries_to_consume: u64,
}

/// Dequeues up to `number_of_entries_to_consume` pending events and
/// prorates the reward for the caller out of the market's fee budget:
/// `fee_budget * consumed / count`. An empty queue cannot prorate and is
/// reported as `NoOperations`. Moving the reward between accounts is the
/// caller's business.
pub fn process(event_queue: &mut EventQueue, fee_budget: u64, params: &Params) -> (r: Result<
    u64,
    AoError,
>)
    requires
        old(event_queue).wf(),
    ensures
        final(event_queue).wf(),
        r == Err::<u64, AoError>(AoError::NoOperations) <==> old(
            event_queue,
        ).spec_header().count == 0,
        match r {
            Ok(reward) => {
                &&& reward == ((fee_budget as int) * vstd::math::min(
                    params.number_of_entries_to_consume as int,
                    old(event_queue).spec_header().count as int,
                )) / (old(event_queue).spec_header().count as int)
                &&& reward <= fee_budget
                &&& final(event_queue).events() =~= old(event_queue).events().skip(
                    vstd::math::min(
                        params.number_of_entries_to_consume as int,
                        old(event_queue).spec_header().count as int,
                    ),
                )
                &&& final(event_queue).spec_header().count == old(
                    event_queue,
                ).spec_header().count - vstd::math::min(
                    params.number_of_entries_to_consume as int,
                    old(event_queue).spec_header().count as int,
                )
                &&& final(event_queue).spec_seq_num() == old(event_queue).spec_seq_num()
                &&& final(event_queue).spec_header().head == (old(
                    event_queue,
                ).spec_header().head + vstd::math::min(
                    params.number_of_entries_to_consume as int,
                    old(event_queue).spec_header().count as int,
                ) * crate::codec::spec_event_stride(old(event_queue).spec_cb_len())) % (old(
                    event_queue,
                ).spec_capacity() * crate::codec::spec_event_stride(old(event_queue).spec_cb_len()))
            },
            Err(e) => {
                &&& e == AoError::NoOperations
                &&& final(event_queue).events() =~= old(event_queue).events()
                &&& final(event_queue).spec_header() == old(event_queue).spec_header()
            },
        },
{
    let count = event_queue.count();
    if count == 0 {
        return Err(AoError::NoOperations);
    }
    let capped_number_of_entries_consumed = if params.number_of_entries_to_consume < count {
        params.number_of_entries_to_consume
    } else {
        count
    };
    proof {
        lemma_mul_upper_bound(
            fee_budget as int,
            u64::MAX as int,
            capped_number_of_entries_consumed as int,
            u64::MAX as int,
        );
    }
    let reward_wide: u128 = ((fee_budget as u128) * (capped_number_of_entries_consumed as u128))
        / (count as u128);
    proof {
        lemma_mul_inequality(
            capped_number_of_entries_consumed as int,
            count as int,
            fee_budget as int,
        );
        lemma_mul_is_commutative(capped_number_of_entries_consumed as int, fee_budget as int);
        lemma_mul_is_commutative(count as int, fee_budget as int);
        lemma_div_is_ordered(
            (fee_budget as int) * (capped_number_of_entries_consumed as int),
            (fee_budget as int) * (count as int),
            count as int,
        );
        lemma_mul_is_commutative(fee_budget as int, count as int);
        lemma_div_by_multiple(fee_budget as int, count as int);
    }
    let reward = reward_wide as u64;
    event_queue.pop_n(params.number_of_entries_to_consume);
    Ok(reward)
}

} // verus!
