use vstd::prelude::*;

use vstd::arithmetic::mul::lemma_mul_inequality;

use crate::codec::{serialize_order_summary, spec_event_stride, spec_serialize_order_summary};
use crate::error::AoError;
use crate::orderbook::OrderSummary;
use crate::state::{event_wf, spec_order_id, Event, EventView, Side};

verus! {

/// The event queue header flushed back to the backing buffer by the caller.
#[derive(Clone, Copy, Debug, PartialEq, Eq, Structural)]
pub struct EventQueueHeader {
    /// Account kind tag.
    pub account_tag: u64,
    /// Byte offset of the next record to consume in the ring.
    pub head: u64,
    /// Number of pending events.
    pub count: u64,
    /// Next sequence number used to generate order ids.
    pub seq_num: u64,
}

/// A bounded FIFO of fill and out records, which also owns the sequence
/// counter that order ids are generated from and the register that order
/// summaries are written to.
pub struct EventQueue {
    header: EventQueueHeader,
    events: Vec<Event>,
    capacity: usize,
    callback_info_len: usize,
    register: Vec<u8>,
}

/// The conditions under which a header, a pending-event list and capacity
/// metadata form a well-formed queue.
pub open spec fn queue_params_ok(
    header: EventQueueHeader,
    events: Seq<EventView>,
    capacity: int,
    callback_info_len: int,
) -> bool {
    &&& capacity >= 1
    &&& header.count == events.len()
    &&& events.len() <= capacity
    &&& (forall|i: int| 0 <= i < events.len() ==> event_wf(#[trigger] events[i], callback_info_len))
    &&& capacity * spec_event_stride(callback_info_len) <= 0x7fff_ffff_ffff_ffff
    &&& header.head < capacity * spec_event_stride(callback_info_len)
}

impl EventQueue {
    /// The pending events, oldest first.
    pub closed spec fn events(&self) -> Seq<EventView> {
        self.events@.map_values(|e: Event| e@)
    }

    pub closed spec fn spec_capacity(&self) -> int {
        self.capacity as int
    }

    pub closed spec fn spec_cb_len(&self) -> int {
        self.callback_info_len as int
    }

    pub closed spec fn spec_header(&self) -> EventQueueHeader {
        self.header
    }

    pub open spec fn spec_seq_num(&self) -> u64 {
        self.spec_header().seq_num
    }

    pub closed spec fn register_view(&self) -> Seq<u8> {
        self.register@
    }

    pub open spec fn wf(&self) -> bool {
        queue_params_ok(self.spec_header(), self.events(), self.spec_capacity(), self.spec_cb_len())
    }

    /// Builds a queue from a deserialized header and its pending records.
    /// Returns `None` when the pieces are inconsistent with one another or
    /// with the ring geometry.
    pub fn new_safe(
        header: EventQueueHeader,
        events: Vec<Event>,
        capacity: usize,
        callback_info_len: usize,
    ) -> (r: Option<EventQueue>)
        ensures
            r is Some <==> queue_params_ok(
                header,
                events@.map_values(|e: Event| e@),
                capacity as int,
                callback_info_len as int,
            ),
            match r {
                Some(q) => {
                    &&& q.wf()
                    &&& q.spec_header() == header
                    &&& q.events() == events@.map_values(|e: Event| e@)
                    &&& q.spec_capacity() == capacity
                    &&& q.spec_cb_len() == callback_info_len
                    &&& q.register_view() =~= Seq::<u8>::empty()
                },
                None => true,
            },
    {
        if capacity == 0 {
            return None;
        }
        if (events.len() as u64) != header.count {
            return None;
        }
        if events.len() > capacity {
            return None;
        }
        let stride_wide: u128 = 34 + 2 * (callback_info_len as u128);
        if stride_wide > 0x7fff_ffff_ffff_ffffu128 {
            proof {
                lemma_mul_inequality(
                    1,
                    capacity as int,
                    spec_event_stride(callback_info_len as int),
                );
            }
            return None;
        }
        proof {
            vstd::arithmetic::mul::lemma_mul_upper_bound(
                capacity as int,
                u64::MAX as int,
                stride_wide as int,
                0x7fff_ffff_ffff_ffff,
            );
        }
        let cap_bytes_wide: u128 = (capacity as u128) * stride_wide;
        if cap_bytes_wide > 0x7fff_ffff_ffff_ffffu128 {
            return None;
        }
        if (header.head as u128) >= cap_bytes_wide {
            return None;
        }
        let mut i: usize = 0;
        let n = events.len();
        while i < n
            invariant
                i <= n,
                n == events@.len(),
                forall|j: int|
                    0 <= j < i ==> event_wf((#[trigger] events@[j])@, callback_info_len as int),
            decreases n - i,
        {
            let ok = match &events[i] {
                Event::Fill { maker_callback_info, taker_callback_info, .. } => {
                    maker_callback_info.len() == callback_info_len && taker_callback_info.len()
                        == callback_info_len
                },
                Event::Out { callback_info, .. } => callback_info.len() == callback_info_len,
            };
            if !ok {
                proof {
                    let ev = events@.map_values(|e: Event| e@);
                    assert(ev[i as int] == events@[i as int]@);
                    assert(!event_wf(ev[i as int], callback_info_len as int));
                }
                return None;
            }
            i = i + 1;
        }
        Some(
            EventQueue {
                header,
                events,
                capacity,
                callback_info_len,
                register: Vec::new(),
            },
        )
    }

    pub fn count(&self) -> (r: u64)
        ensures
            r == self.spec_header().count,
    {
        self.header.count
    }

    pub fn get_header(&self) -> (r: EventQueueHeader)
        ensures
            r == self.spec_header(),
    {
        self.header
    }

    pub fn callback_len(&self) -> (r: usize)
        ensures
            r == self.spec_cb_len(),
    {
        self.callback_info_len
    }

    pub fn queue_capacity(&self) -> (r: usize)
        ensures
            r == self.spec_capacity(),
    {
        self.capacity
    }

    /// An owned copy of the pending event at position `i` (0 = oldest).
    pub fn get_event(&self, i: usize) -> (r: Event)
        requires
            i < self.events().len(),
        ensures
            r@ == self.events()[i as int],
    {
        self.events[i].duplicate()
    }

    /// An owned copy of the register contents.
    pub fn get_register(&self) -> (r: Vec<u8>)
        ensures
            r@ == self.register_view(),
    {
        crate::state::clone_bytes(&self.register)
    }

    /// Appends one event, failing when the ring is full.
    pub fn push_back(&mut self, event: Event) -> (r: Result<(), AoError>)
        requires
            old(self).wf(),
            event_wf(event@, old(self).spec_cb_len()),
        ensures
            final(self).wf(),
            final(self).spec_capacity() == old(self).spec_capacity(),
            final(self).spec_cb_len() == old(self).spec_cb_len(),
            final(self).spec_header().seq_num == old(self).spec_header().seq_num,
            final(self).spec_header().head == old(self).spec_header().head,
            final(self).spec_header().account_tag == old(self).spec_header().account_tag,
            final(self).register_view() == old(self).register_view(),
            match r {
                Ok(_) => {
                    &&& old(self).events().len() < old(self).spec_capacity()
                    &&& final(self).events() =~= old(self).events().push(event@)
                    &&& final(self).spec_header().count == old(self).spec_header().count + 1
                },
                Err(e) => {
                    &&& e == AoError::EventQueueFull
                    &&& old(self).events().len() == old(self).spec_capacity()
                    &&& final(self).events() =~= old(self).events()
                    &&& final(self).spec_header() == old(self).spec_header()
                },
            },
    {
        if self.events.len() == self.capacity {
            return Err(AoError::EventQueueFull);
        }
        self.events.push(event);
        self.header.count = self.header.count + 1;
        proof {
            assert(self.events() =~= old(self).events().push(self.events@.last()@));
        }
        Ok(())
    }

    /// Composes the next order id from a price, this queue's sequence
    /// counter and the side mask, then advances the counter.
    pub fn gen_order_id(&mut self, limit_price: u64, side: Side) -> (r: u128)
        requires
            old(self).wf(),
            old(self).spec_seq_num() < u64::MAX,
        ensures
            final(self).wf(),
            r == spec_order_id(limit_price, old(self).spec_seq_num(), side),
            final(self).spec_header().seq_num == old(self).spec_seq_num() + 1,
            final(self).spec_header().count == old(self).spec_header().count,
            final(self).spec_header().head == old(self).spec_header().head,
            final(self).spec_header().account_tag == old(self).spec_header().account_tag,
            final(self).events() == old(self).events(),
            final(self).spec_capacity() == old(self).spec_capacity(),
            final(self).spec_cb_len() == old(self).spec_cb_len(),
            final(self).register_view() == old(self).register_view(),
    {
        let seq_number = self.header.seq_num;
        let masked: u64 = match side {
            Side::Bid => u64::MAX - seq_number,
            Side::Ask => seq_number,
        };
        proof {
            lemma_mul_inequality(
                limit_price as int,
                u64::MAX as int,
                0x1_0000_0000_0000_0000,
            );
        }
        let upper: u128 = (limit_price as u128) * 0x1_0000_0000_0000_0000u128;
        let key: u128 = upper + (masked as u128);
        self.header.seq_num = seq_number + 1;
        key
    }

    /// Advances the head past `min(number_of_entries_to_consume, count)`
    /// pending events; executed by the consume-events collaborator.
    pub fn pop_n(&mut self, number_of_entries_to_consume: u64)
        requires
            old(self).wf(),
        ensures
            final(self).wf(),
            final(self).spec_capacity() == old(self).spec_capacity(),
            final(self).spec_cb_len() == old(self).spec_cb_len(),
            final(self).spec_header().seq_num == old(self).spec_header().seq_num,
            final(self).spec_header().account_tag == old(self).spec_header().account_tag,
            final(self).register_view() == old(self).register_view(),
            final(self).events() =~= old(self).events().skip(
                vstd::math::min(
                    number_of_entries_to_consume as int,
                    old(self).spec_header().count as int,
                ),
            ),
            final(self).spec_header().count == old(self).spec_header().count - vstd::math::min(
                number_of_entries_to_consume as int,
                old(self).spec_header().count as int,
            ),
            final(self).spec_header().head == (old(self).spec_header().head + vstd::math::min(
                number_of_entries_to_consume as int,
                old(self).spec_header().count as int,
            ) * spec_event_stride(old(self).spec_cb_len())) % (old(self).spec_capacity()
                * spec_event_stride(old(self).spec_cb_len())),
    {
        let capped: u64 = if number_of_entries_to_consume < self.header.count {
            number_of_entries_to_consume
        } else {
            self.header.count
        };
        let ghost stride = spec_event_stride(self.spec_cb_len());
        let ghost cap_bytes_g = self.spec_capacity() * stride;
        proof {
            lemma_mul_inequality(1, self.spec_capacity(), stride);
            lemma_mul_inequality(capped as int, self.spec_capacity(), stride);
            vstd::arithmetic::mul::lemma_mul_is_commutative(self.spec_capacity(), stride);
            vstd::arithmetic::mul::lemma_mul_is_commutative(capped as int, stride);
        }
        let stride_u: u64 = 34 + 2 * (self.callback_info_len as u64);
        let cap_bytes: u64 = (self.capacity as u64) * stride_u;
        let mut k: u64 = 0;
        while k < capped
            invariant
                k <= capped,
                capped <= old(self).spec_header().count,
                old(self).wf(),
                self.events@.len() == old(self).events@.len() - k,
                self.events() =~= old(self).events().skip(k as int),
                self.header == old(self).spec_header(),
                self.capacity == old(self).spec_capacity(),
                self.callback_info_len == old(self).spec_cb_len(),
                self.register@ == old(self).register_view(),
            decreases capped - k,
        {
            let ghost pre = self.events();
            self.events.remove(0);
            proof {
                assert(self.events() =~= pre.skip(1));
                assert(pre.skip(1) =~= old(self).events().skip(k + 1));
                assert(self.events() =~= old(self).events().skip(k + 1));
            }
            k = k + 1;
        }
        self.header.count = self.header.count - capped;
        self.header.head = (self.header.head + capped * stride_u) % cap_bytes;
    }

    /// Serializes the summary of the last mutating call into the register.
    pub fn write_register(&mut self, summary: &OrderSummary)
        requires
            old(self).wf(),
        ensures
            final(self).wf(),
            final(self).register_view() == spec_serialize_order_summary(*summary),
            final(self).events() == old(self).events(),
            final(self).spec_header() == old(self).spec_header(),
            final(self).spec_capacity() == old(self).spec_capacity(),
            final(self).spec_cb_len() == old(self).spec_cb_len(),
    {
        self.register = serialize_order_summary(summary);
    }
}

} // verus!
