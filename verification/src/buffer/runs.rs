//! What holds of a sender's buffer over any run of operations.
use crate::buffer::laws::{
    ack_keeps_in_step, ack_keeps_losses_in_order, ack_keeps_losses_sent,
    dropping_keeps_losses_in_order, dropping_keeps_losses_sent, flush_keeps_losses_sent,
    losses_are_retransmitted_in_order, nak_keeps_in_step, nak_keeps_losses_in_order,
    nak_keeps_losses_sent, nak_keeps_well_formed, new_buffer_is_in_step, pop_keeps_in_step,
    pop_keeps_losses_sent, push_keeps_in_step, push_keeps_losses_in_order, push_keeps_losses_sent,
    push_queues_the_packets, reports_cover_what_is_dropped, retransmission_is_the_lost_packet,
    retransmission_keeps_losses_sent, sending_keeps_losses_in_order,
};
use crate::buffer::messages::{messages_stay_in_order, push_keeps_messages_in_order};
use crate::buffer::model::{
    lemma_ack_keeps_well_formed, lemma_acked_losses, lemma_pushed, SendBufferView,
};
use crate::encapsulate::packet_count;
use crate::loss_list::{decompress, decompressed_are_sequence_numbers};
use crate::numbers::{
    is_seq, lemma_seq_plus_distance, lemma_seq_plus_plus, seq_before, seq_distance, seq_plus,
    SEQ_HALF,
};
use crate::packet::DataEncryption;
use crate::time::Instant;
use bytes::Bytes;
use vstd::prelude::*;

verus! {

/// What can be done to a buffer.
pub enum Operation {
    /// A message is queued in clear.
    Push(Instant, Seq<u8>),
    /// A message is queued with the encryption and the payloads given for its packets.
    PushSealed(Instant, Seq<u8>, Seq<(DataEncryption, Bytes)>),
    /// The next packet is sent.
    Send,
    /// The next lost packet is retransmitted.
    Retransmit,
    /// The packets before this one are acknowledged.
    Acknowledge(int),
    /// A loss list of these words is reported.
    ReportLosses(Seq<u32>),
    /// What is too late at this timestamp is dropped.
    Drop(int),
    /// The last packet is taken out.
    Flush,
}

impl SendBufferView {
    /// The buffer after one operation.
    pub open spec fn step(self, operation: Operation) -> SendBufferView {
        match operation {
            Operation::Push(at, data) => self.after_push(at, data),
            Operation::PushSealed(at, data, given) => self.after_sealed_push(at, data, given),
            Operation::Send => self.after_pop(),
            Operation::Retransmit => self.after_pop_lost(),
            Operation::Acknowledge(ack) => self.acknowledged(ack),
            Operation::ReportLosses(words) => self.after_nak(decompress(words)),
            Operation::Drop(ts_now) => self.after_drop(ts_now),
            Operation::Flush => self.after_flush(),
        }
    }

    /// The buffer after a run of operations.
    pub open spec fn run(self, operations: Seq<Operation>) -> SendBufferView
        decreases operations.len(),
    {
        if operations.len() == 0 {
            self
        } else {
            self.run(operations.drop_last()).step(operations.last())
        }
    }

    /// Whether an operation can be asked for: sequence numbers are in their range, and a
    /// message can be cut into packets and has one seal for each.
    pub open spec fn can_do(self, operation: Operation) -> bool {
        let max = self.encapsulate.max_packet_size;
        match operation {
            Operation::Push(_, data) => max > 0 || data.len() == 0,
            Operation::PushSealed(_, data, given) => (max > 0 || data.len() == 0) && given.len()
                == packet_count(data.len(), max),
            Operation::Acknowledge(ack) => is_seq(ack),
            _ => true,
        }
    }

    /// Whether each operation of a run can be asked for.
    pub open spec fn can_run(self, operations: Seq<Operation>) -> bool
        decreases operations.len(),
    {
        operations.len() > 0 ==> self.can_run(operations.drop_last()) && self.run(
            operations.drop_last(),
        ).can_do(operations.last())
    }

    /// Whether an operation can be asked for and keeps the packets and the losses within half
    /// of the circle.
    pub open spec fn has_room_for(self, operation: Operation) -> bool {
        &&& self.can_do(operation)
        &&& match operation {
            Operation::Push(_, data) | Operation::PushSealed(_, data, _) => {
                let count = packet_count(data.len(), self.encapsulate.max_packet_size);
                &&& self.packets.len() + count <= SEQ_HALF
                &&& forall|i: int|
                    0 <= i < self.lost.len() ==> self.age(#[trigger] self.lost[i]) + count
                        <= SEQ_HALF
            },
            _ => true,
        }
    }

    /// Whether a run can be asked for and keeps the packets and the losses within half of the
    /// circle.
    pub open spec fn has_room_for_run(self, operations: Seq<Operation>) -> bool
        decreases operations.len(),
    {
        operations.len() > 0 ==> self.has_room_for_run(operations.drop_last()) && self.run(
            operations.drop_last(),
        ).has_room_for(operations.last())
    }

    /// Whether message numbers never run out during a run.
    pub open spec fn has_message_numbers_for(self, operations: Seq<Operation>) -> bool
        decreases operations.len(),
    {
        operations.len() > 0 ==> {
            &&& self.has_message_numbers_for(operations.drop_last())
            &&& operations.last() is Push || operations.last() is PushSealed ==> self.run(
                operations.drop_last(),
            ).has_message_number_left()
        }
    }

    /// Whether a run of operations, with room for each, leads from a new buffer to this one.
    pub open spec fn reachable(self) -> bool {
        exists|start: SendBufferView, operations: Seq<Operation>|
            start.is_new() && #[trigger] start.has_room_for_run(operations) && self == start.run(
                operations,
            )
    }
}

/// Whether an operation queues, acknowledges, reports losses or retransmits.
pub open spec fn sends_nothing_new(operation: Operation) -> bool {
    match operation {
        Operation::Push(_, _)
        | Operation::PushSealed(_, _, _)
        | Operation::Retransmit
        | Operation::Acknowledge(_)
        | Operation::ReportLosses(_) => true,
        _ => false,
    }
}

/// Queueing, acknowledging, reporting losses and retransmitting keep a buffer in step, and
/// leave what was sent last alone.
proof fn lemma_last_sent_stays(v: SendBufferView, operations: Seq<Operation>)
    requires
        v.in_step(),
        v.can_run(operations),
        forall|i: int| 0 <= i < operations.len() ==> sends_nothing_new(#[trigger] operations[i]),
    ensures
        v.run(operations).in_step(),
        v.run(operations).last_sent == v.last_sent,
    decreases operations.len(),
{
    if operations.len() > 0 {
        let before = operations.drop_last();
        assert forall|i: int| 0 <= i < before.len() implies sends_nothing_new(
            #[trigger] before[i],
        ) by {
            assert(before[i] == operations[i]);
        }
        lemma_last_sent_stays(v, before);
        let u = v.run(before);
        assert(sends_nothing_new(operations[operations.len() - 1]));
        match operations.last() {
            Operation::Push(at, data) => {
                push_queues_the_packets(u, at, data, seq![]);
                push_keeps_in_step(u, at, data, u.after_push(at, data));
            },
            Operation::PushSealed(at, data, given) => {
                push_queues_the_packets(u, at, data, given);
                push_keeps_in_step(u, at, data, u.after_sealed_push(at, data, given));
            },
            Operation::Acknowledge(ack) => {
                if u.takes_ack(ack) {
                    ack_keeps_in_step(u, ack);
                }
            },
            Operation::ReportLosses(words) => {
                decompressed_are_sequence_numbers(words);
                nak_keeps_in_step(u, decompress(words));
            },
            _ => {},
        }
    }
}

/// Packets are sent in the order in which they were queued, none skipped and none sent twice,
/// whatever is queued, acknowledged, reported lost and retransmitted in between: the packet
/// that is sent next is numbered one after the one that was sent last.
pub proof fn packets_follow_one_another(v: SendBufferView, operations: Seq<Operation>)
    requires
        v.in_step(),
        v.next_packet() is Some,
        v.after_pop().can_run(operations),
        forall|i: int| 0 <= i < operations.len() ==> sends_nothing_new(#[trigger] operations[i]),
    ensures
        v.after_pop().run(operations).next_packet() matches Some(packet) ==> packet.seq_number
            == seq_plus(v.next_packet()->0.seq_number, 1),
{
    pop_keeps_in_step(v);
    lemma_last_sent_stays(v.after_pop(), operations);
    let w = v.after_pop().run(operations);
    if w.next_packet() is Some {
        let first = w.packets[0].seq_number;
        let last = w.last_sent->0;
        w.lemma_packet_number(w.next_index());
        lemma_seq_plus_distance(first, last);
        lemma_seq_plus_plus(first, seq_distance(first, last), 1);
    }
}

/// An operation keeps a buffer well formed.
proof fn lemma_step_keeps_well_formed(v: SendBufferView, operation: Operation)
    requires
        v.well_formed(),
        v.can_do(operation),
    ensures
        v.step(operation).well_formed(),
{
    match operation {
        Operation::Push(_, data) | Operation::PushSealed(_, data, _) => {
            let count = packet_count(data.len(), v.encapsulate.max_packet_size);
            lemma_pushed(v, v.step(operation), count as int);
        },
        Operation::Acknowledge(ack) => {
            if v.takes_ack(ack) {
                lemma_ack_keeps_well_formed(v, ack);
            }
        },
        Operation::ReportLosses(words) => {
            decompressed_are_sequence_numbers(words);
            nak_keeps_well_formed(v, decompress(words));
        },
        Operation::Drop(ts_now) => {
            reports_cover_what_is_dropped(v, ts_now);
        },
        _ => {},
    }
}

/// Without reports of losses, the loss list only loses entries, at its front.
proof fn lemma_losses_only_go(v: SendBufferView, operations: Seq<Operation>)
    requires
        v.well_formed(),
        v.can_run(operations),
        forall|i: int| 0 <= i < operations.len() ==> !(#[trigger] operations[i] is ReportLosses),
    ensures
        v.run(operations).well_formed(),
        v.run(operations).lost.len() <= v.lost.len(),
        v.run(operations).lost == v.lost.skip(v.lost.len() - v.run(operations).lost.len()),
    decreases operations.len(),
{
    if operations.len() == 0 {
        assert(v.lost.skip(0) =~= v.lost);
    } else {
        let before = operations.drop_last();
        assert forall|i: int| 0 <= i < before.len() implies !(#[trigger] before[i]
            is ReportLosses) by {
            assert(before[i] == operations[i]);
        }
        lemma_losses_only_go(v, before);
        let u = v.run(before);
        let w = v.run(operations);
        assert(!(operations[operations.len() - 1] is ReportLosses));
        lemma_step_keeps_well_formed(u, operations.last());
        match operations.last() {
            Operation::Acknowledge(ack) => {
                lemma_acked_losses(u.lost, ack);
            },
            Operation::Drop(ts_now) => {
                reports_cover_what_is_dropped(u, ts_now);
            },
            _ => {},
        }
        assert(w.lost =~= v.lost.skip(v.lost.len() - w.lost.len()));
    }
}

/// Lost packets are retransmitted in increasing order, each once for all reports of it: as
/// long as no losses are reported in between, whatever else is done, a packet that is
/// retransmitted comes after those that were retransmitted before it. All are marked.
pub proof fn retransmissions_increase(v: SendBufferView, operations: Seq<Operation>)
    requires
        v.losses_in_order(),
        v.after_pop_lost().can_run(operations),
        forall|i: int| 0 <= i < operations.len() ==> !(#[trigger] operations[i] is ReportLosses),
    ensures
        v.next_lost_packet() matches Some(earlier) ==> earlier.retransmitted,
        v.next_lost_packet() matches Some(earlier) ==> (v.after_pop_lost().run(
            operations,
        ).next_lost_packet() matches Some(later) ==> later.retransmitted && seq_before(
            earlier.seq_number,
            later.seq_number,
        )),
{
    let u = v.after_pop_lost();
    let w = u.run(operations);
    sending_keeps_losses_in_order(v);
    lemma_losses_only_go(u, operations);
    if v.next_lost_packet() is Some && w.next_lost_packet() is Some {
        retransmission_is_the_lost_packet(v);
        retransmission_is_the_lost_packet(w);
        let gone = u.lost.len() - w.lost.len();
        assert(w.lost[0] == v.lost[gone + 1]);
        losses_are_retransmitted_in_order(v, gone + 1);
    }
}

/// An operation that there is room for keeps the loss list in order, and only packets that
/// were sent in it.
pub proof fn step_keeps_losses(v: SendBufferView, operation: Operation)
    requires
        v.losses_in_order(),
        v.losses_were_sent(),
        v.has_room_for(operation),
    ensures
        v.step(operation).losses_in_order(),
        v.step(operation).losses_were_sent(),
{
    match operation {
        Operation::Push(at, data) => {
            let after = v.after_push(at, data);
            push_queues_the_packets(v, at, data, seq![]);
            push_keeps_losses_in_order(v, at, data, after);
            push_keeps_losses_sent(v, at, data, after);
        },
        Operation::PushSealed(at, data, given) => {
            let after = v.after_sealed_push(at, data, given);
            push_queues_the_packets(v, at, data, given);
            push_keeps_losses_in_order(v, at, data, after);
            push_keeps_losses_sent(v, at, data, after);
        },
        Operation::Send => {
            sending_keeps_losses_in_order(v);
            pop_keeps_losses_sent(v);
        },
        Operation::Retransmit => {
            sending_keeps_losses_in_order(v);
            retransmission_keeps_losses_sent(v);
        },
        Operation::Acknowledge(ack) => {
            if v.takes_ack(ack) {
                ack_keeps_losses_in_order(v, ack);
                ack_keeps_losses_sent(v, ack);
            }
        },
        Operation::ReportLosses(words) => {
            decompressed_are_sequence_numbers(words);
            nak_keeps_losses_in_order(v, decompress(words));
            nak_keeps_losses_sent(v, decompress(words));
        },
        Operation::Drop(ts_now) => {
            dropping_keeps_losses_in_order(v, ts_now);
            dropping_keeps_losses_sent(v, ts_now);
        },
        Operation::Flush => {
            dropping_keeps_losses_in_order(v, 0);
            flush_keeps_losses_sent(v);
        },
    }
}

/// A run that there is room for keeps the loss list in order, and only packets that were sent
/// in it.
pub proof fn run_keeps_losses(v: SendBufferView, operations: Seq<Operation>)
    requires
        v.losses_in_order(),
        v.losses_were_sent(),
        v.has_room_for_run(operations),
    ensures
        v.run(operations).losses_in_order(),
        v.run(operations).losses_were_sent(),
    decreases operations.len(),
{
    if operations.len() > 0 {
        run_keeps_losses(v, operations.drop_last());
        step_keeps_losses(v.run(operations.drop_last()), operations.last());
    }
}

/// Every buffer in use is in step, its loss list is in order, and only packets that were sent
/// are in it.
pub proof fn reachable_buffers_are_in_step(v: SendBufferView)
    requires
        v.reachable(),
    ensures
        v.in_step(),
        v.losses_in_order(),
        v.losses_were_sent(),
{
    let (start, operations) = choose|start: SendBufferView, operations: Seq<Operation>|
        start.is_new() && #[trigger] start.has_room_for_run(operations) && v == start.run(
            operations,
        );
    new_buffer_is_in_step(start);
    run_keeps_losses(start, operations);
}

/// A run keeps the message numbers in order, unless they run out.
pub proof fn run_keeps_messages_in_order(v: SendBufferView, operations: Seq<Operation>)
    requires
        v.well_formed(),
        v.messages_in_order(),
        v.can_run(operations),
        v.has_message_numbers_for(operations),
    ensures
        v.run(operations).well_formed(),
        v.run(operations).messages_in_order(),
    decreases operations.len(),
{
    if operations.len() > 0 {
        let before = operations.drop_last();
        let u = v.run(before);
        run_keeps_messages_in_order(v, before);
        lemma_step_keeps_well_formed(u, operations.last());
        match operations.last() {
            Operation::Push(at, data) => {
                push_queues_the_packets(u, at, data, seq![]);
                push_keeps_messages_in_order(u, at, data, u.after_push(at, data));
            },
            Operation::PushSealed(at, data, given) => {
                push_queues_the_packets(u, at, data, given);
                push_keeps_messages_in_order(u, at, data, u.after_sealed_push(at, data, given));
            },
            Operation::Acknowledge(ack) => {
                messages_stay_in_order(u, ack, 0);
            },
            Operation::Drop(ts_now) => {
                messages_stay_in_order(u, 0, ts_now);
            },
            Operation::Flush => {
                messages_stay_in_order(u, 0, 0);
            },
            _ => {},
        }
    }
}

} // verus!
