//! What holds of a sender's buffer over several operations.
use crate::buffer::model::{
    acked_losses, lemma_ack_keeps_well_formed, lemma_acked_losses, lemma_loss_position,
    lemma_message_run, lemma_pushed, lemma_with_loss, loss_position, too_late, with_loss,
    with_losses, SendBufferView,
};
use crate::encapsulate::{
    chunk, lemma_packet_count, lemma_packets_cover, packet_count, EncapsulateView,
};
use crate::numbers::{
    is_seq, lemma_seq_distance_by, lemma_seq_distance_plus, lemma_seq_distance_through,
    lemma_seq_distance_to_plus, lemma_seq_plus_distance, lemma_seq_plus_plus, seq_after,
    seq_before, seq_distance, seq_plus, seq_within, SEQ_HALF, SEQ_MODULUS,
};
use crate::packet::{DataEncryption, PacketView};
use crate::time::Instant;
use bytes::Bytes;
use vstd::prelude::*;

verus! {

impl SendBufferView {
    /// The last packet that was sent is one of those that the buffer holds.
    pub open spec fn in_step(self) -> bool {
        &&& self.well_formed()
        &&& self.last_sent matches Some(last) ==> self.packets.len() > 0 && seq_distance(
            self.packets[0].seq_number,
            last,
        ) < self.packets.len()
    }

    /// The packets that were not sent yet.
    pub open spec fn unsent(self) -> Seq<PacketView> {
        if self.packets.len() == 0 {
            seq![]
        } else {
            self.packets.skip(self.next_index())
        }
    }
}

/// The payloads of packets, one after the other.
pub open spec fn payloads(packets: Seq<PacketView>) -> Seq<u8>
    decreases packets.len(),
{
    if packets.len() == 0 {
        seq![]
    } else {
        payloads(packets.drop_last()) + packets.last().payload
    }
}

/// The first packets of a message carry what stands at its start.
proof fn lemma_payloads_prefix(e: EncapsulateView, at: Instant, data: Seq<u8>, n: nat)
    requires
        e.max_packet_size > 0,
        n <= packet_count(data.len(), e.max_packet_size),
    ensures
        payloads(e.packets(at, data).take(n as int)) == data.take(
            if n * e.max_packet_size < data.len() {
                (n * e.max_packet_size) as int
            } else {
                data.len() as int
            },
        ),
    decreases n,
{
    let max = e.max_packet_size;
    let packets = e.packets(at, data).take(n as int);
    if n == 0 {
        assert(0 * max == 0) by (nonlinear_arith);
        assert(payloads(packets) =~= data.take(0));
    } else {
        let m = (n - 1) as nat;
        lemma_payloads_prefix(e, at, data, m);
        assert(packets.drop_last() =~= e.packets(at, data).take(m as int));
        assert(packets.last().payload == chunk(data, max, m as int));
        lemma_packets_cover(data.len(), max, m as int);
        assert(payloads(packets) =~= data.take(
            if n * max < data.len() {
                (n * max) as int
            } else {
                data.len() as int
            },
        ));
    }
}

/// The packets of a message carry the whole message: their payloads, put together, are the
/// message's bytes.
pub proof fn packets_carry_the_message(e: EncapsulateView, at: Instant, data: Seq<u8>)
    requires
        e.max_packet_size > 0,
    ensures
        payloads(e.packets(at, data)) == data,
{
    let max = e.max_packet_size;
    let n = packet_count(data.len(), max);
    lemma_payloads_prefix(e, at, data, n);
    assert(e.packets(at, data).take(n as int) =~= e.packets(at, data));
    lemma_packets_cover(data.len(), max, 0);
    assert(data.take(data.len() as int) =~= data);
}

/// No packet carries more than fits in one.
pub proof fn packets_fit(e: EncapsulateView, at: Instant, data: Seq<u8>, i: int)
    requires
        e.max_packet_size > 0,
        0 <= i < e.packets(at, data).len(),
    ensures
        e.packets(at, data)[i].payload.len() <= e.max_packet_size,
{
    lemma_packets_cover(data.len(), e.max_packet_size, i);
}

/// The packet at `i` stands `i` steps after the oldest one.
proof fn lemma_packet_place(v: SendBufferView, i: int)
    requires
        v.well_formed(),
        0 <= i < v.packets.len(),
    ensures
        seq_distance(v.packets[0].seq_number, v.packets[i].seq_number) == i % (SEQ_MODULUS as int),
{
    v.lemma_packet_number(i);
}

/// Sending the next packet keeps the buffer in step.
pub proof fn pop_keeps_in_step(v: SendBufferView)
    requires
        v.in_step(),
    ensures
        v.after_pop().in_step(),
{
    if v.next_packet() is Some {
        lemma_packet_place(v, v.next_index());
    }
}

/// Queueing a message puts its packets at the end, in clear or sealed, and changes nothing
/// else. What is said below of queueing a message holds of both.
pub proof fn push_queues_the_packets(
    v: SendBufferView,
    at: Instant,
    data: Seq<u8>,
    given: Seq<(DataEncryption, Bytes)>,
)
    ensures
        v.pushed(at, data, v.after_push(at, data)),
        given.len() == packet_count(data.len(), v.encapsulate.max_packet_size) ==> v.pushed(
            at,
            data,
            v.after_sealed_push(at, data, given),
        ),
{
}

/// Queueing a message keeps the buffer in step.
pub proof fn push_keeps_in_step(
    v: SendBufferView,
    at: Instant,
    data: Seq<u8>,
    after: SendBufferView,
)
    requires
        v.in_step(),
        v.pushed(at, data, after),
    ensures
        after.in_step(),
{
    let count = packet_count(data.len(), v.encapsulate.max_packet_size);
    lemma_pushed(v, after, count as int);
}

/// An acknowledgement that is taken lies between the oldest packet and the one after the
/// last that was sent.
#[verifier::rlimit(40)]
#[verifier::spinoff_prover]
proof fn lemma_ack_place(v: SendBufferView, ack: int)
    requires
        v.in_step(),
        v.takes_ack(ack),
        is_seq(ack),
    ensures
        v.last_sent is Some,
        v.packets.len() > 0,
        0 <= seq_distance(v.packets[0].seq_number, ack) <= seq_distance(
            v.packets[0].seq_number,
            v.last_sent->0,
        ) + 1,
        v.acked_packets(ack) == if ack == v.packets[0].seq_number {
            0
        } else {
            seq_distance(v.packets[0].seq_number, ack) - 1
        },
{
    let first = v.packets[0].seq_number;
    let last = v.last_sent->0;
    lemma_seq_distance_to_plus(first, last, 1);
    lemma_seq_distance_to_plus(first, ack, -1);
    lemma_seq_distance_by(first, ack, first);
    lemma_seq_distance_by(first, seq_plus(last, 1), ack);
}

/// An acknowledgement that is taken leaves the buffer in step: what was sent last stays.
pub proof fn ack_keeps_in_step(v: SendBufferView, ack: int)
    requires
        v.in_step(),
        v.takes_ack(ack),
        is_seq(ack),
    ensures
        v.after_ack(ack).in_step(),
{
    lemma_ack_place(v, ack);
    lemma_ack_keeps_well_formed(v, ack);
    let acked = v.acked_packets(ack);
    v.lemma_packet_number(acked);
    lemma_seq_distance_plus(v.packets[0].seq_number, v.last_sent->0, acked);
}

/// Where the last packet that was sent stands when the oldest message is dropped: it stays the
/// last one, as many steps closer to the front as packets went, unless it goes too.
proof fn lemma_last_sent_after_drop(v: SendBufferView)
    requires
        v.in_step(),
        v.packets.len() > 0,
        v.front_message_len() <= SEQ_HALF,
    ensures
        0 < v.front_message_len() <= v.packets.len(),
        v.without_front_message().well_formed(),
        v.without_front_message().last_sent matches Some(last) ==> {
            &&& v.last_sent == Some(last)
            &&& v.without_front_message().packets.len() > 0
            &&& seq_distance(v.without_front_message().packets[0].seq_number, last) == seq_distance(
                v.packets[0].seq_number,
                last,
            ) - v.front_message_len()
        },
        0 < v.next_index() - v.front_message_len() <= SEQ_HALF
            ==> v.without_front_message().last_sent is Some,
{
    lemma_message_run(v.packets, v.packets[0].message_number);
    let count = v.front_message_len();
    if v.last_sent is Some && count < v.packets.len() {
        let first = v.packets[0].seq_number;
        let last = v.last_sent->0;
        v.lemma_packet_number(count);
        lemma_packet_place(v, count);
        lemma_seq_distance_by(first, last, v.packets[count].seq_number);
        if count <= seq_distance(first, last) {
            lemma_seq_distance_plus(first, last, count);
        }
    }
}

/// Dropping the oldest message keeps the buffer in step, unless it has more packets than half
/// of the circle.
pub proof fn drop_keeps_in_step(v: SendBufferView)
    requires
        v.in_step(),
        v.packets.len() > 0,
        v.front_message_len() <= SEQ_HALF,
    ensures
        v.without_front_message().in_step(),
{
    lemma_last_sent_after_drop(v);
}

impl SendBufferView {
    /// How many packets the message at `i` has among those that are dropped one after the
    /// other.
    pub open spec fn dropped_len(self, i: int) -> int
        decreases i,
    {
        if i <= 0 {
            self.front_message_len()
        } else {
            self.without_front_message().dropped_len(i - 1)
        }
    }
}

/// Dropping all that is too late keeps the buffer in step, unless a message that goes has more
/// packets than half of the circle.
pub proof fn dropping_keeps_in_step(v: SendBufferView, ts_now: int)
    requires
        v.in_step(),
        forall|i: int|
            0 <= i < v.dropped(ts_now).len() ==> #[trigger] v.dropped_len(i) <= SEQ_HALF,
    ensures
        v.after_drop(ts_now).in_step(),
        v.after_drop(ts_now).packets.len() <= v.packets.len(),
    decreases v.packets.len(),
{
    if v.front_is_late(ts_now) {
        let next = v.without_front_message();
        lemma_message_run(v.packets, v.packets[0].message_number);
        assert(v.dropped_len(0) <= SEQ_HALF);
        drop_keeps_in_step(v);
        assert forall|i: int| 0 <= i < next.dropped(ts_now).len() implies #[trigger] next.dropped_len(
            i,
        ) <= SEQ_HALF by {
            assert(v.dropped_len(i + 1) <= SEQ_HALF);
        }
        dropping_keeps_in_step(next, ts_now);
    }
}

/// No dropped message has more packets than the buffer.
pub proof fn dropped_messages_fit(v: SendBufferView, ts_now: int, i: int)
    requires
        0 <= i < v.dropped(ts_now).len(),
    ensures
        0 < v.dropped_len(i) <= v.packets.len(),
    decreases i,
{
    lemma_message_run(v.packets, v.packets[0].message_number);
    if i > 0 {
        dropped_messages_fit(v.without_front_message(), ts_now, i - 1);
    }
}

/// Packets are sent in the order in which they were queued, each once: the next packet is
/// the first that was not sent yet, and after it come the others.
pub proof fn packets_are_sent_in_order(v: SendBufferView)
    requires
        v.in_step(),
        v.packets.len() <= SEQ_MODULUS,
    ensures
        v.next_packet() is Some <==> v.unsent().len() > 0,
        v.next_packet() matches Some(packet) ==> packet == v.unsent()[0]
            && v.after_pop().unsent() == v.unsent().drop_first(),
{
    if v.next_packet() is Some {
        lemma_packet_place(v, v.next_index());
        assert(v.after_pop().unsent() =~= v.unsent().drop_first());
    }
}

/// The packets of a message are sent after all that were queued before it.
pub proof fn queued_packets_are_sent_last(
    v: SendBufferView,
    at: Instant,
    data: Seq<u8>,
    after: SendBufferView,
)
    requires
        v.in_step(),
        v.pushed(at, data, after),
    ensures
        after.unsent() == v.unsent() + after.packets.skip(v.packets.len() as int),
{
    assert(after.unsent() =~= v.unsent() + after.packets.skip(v.packets.len() as int));
}

/// An acknowledgement takes nothing from the packets that were not sent yet.
pub proof fn ack_keeps_unsent(v: SendBufferView, ack: int)
    requires
        v.in_step(),
        v.takes_ack(ack),
        is_seq(ack),
    ensures
        v.after_ack(ack).unsent() == v.unsent(),
{
    lemma_ack_place(v, ack);
    let acked = v.acked_packets(ack);
    v.lemma_packet_number(acked);
    lemma_seq_distance_plus(v.packets[0].seq_number, v.last_sent->0, acked);
    assert(v.after_ack(ack).unsent() =~= v.unsent());
}

/// Dropping a message takes only its own packets from those that were not sent yet, and
/// none that was sent comes back.
pub proof fn drop_keeps_unsent(v: SendBufferView)
    requires
        v.in_step(),
        v.packets.len() > 0,
        v.front_message_len() <= SEQ_HALF,
        v.next_index() <= v.front_message_len() + SEQ_HALF,
    ensures
        v.without_front_message().unsent() == v.packets.skip(
            if v.next_index() < v.front_message_len() {
                v.front_message_len()
            } else {
                v.next_index()
            },
        ),
{
    lemma_message_run(v.packets, v.packets[0].message_number);
    lemma_last_sent_after_drop(v);
    let count = v.front_message_len();
    assert(v.without_front_message().unsent() =~= v.packets.skip(
        if v.next_index() < count {
            count
        } else {
            v.next_index()
        },
    ));
}

/// An acknowledgement takes out the packets that come before the last acknowledged one,
/// which stays as the oldest.
pub proof fn ack_keeps_the_last_acked_packet(v: SendBufferView, ack: int)
    requires
        v.in_step(),
        v.takes_ack(ack),
        is_seq(ack),
    ensures
        v.after_ack(ack).packets.len() > 0,
        ack == v.packets[0].seq_number ==> v.after_ack(ack).packets == v.packets,
        ack != v.packets[0].seq_number ==> v.after_ack(ack).packets[0].seq_number == seq_plus(
            ack,
            -1,
        ),
{
    lemma_ack_place(v, ack);
    let acked = v.acked_packets(ack);
    v.lemma_packet_number(acked);
    let first = v.packets[0].seq_number;
    if ack == first {
        assert(v.after_ack(ack).packets =~= v.packets);
    } else {
        lemma_seq_plus_distance(first, ack);
        lemma_seq_plus_plus(first, seq_distance(first, ack), -1);
    }
}

/// Acknowledging the same packets once more changes nothing.
pub proof fn repeated_ack_changes_nothing(v: SendBufferView, ack: int)
    requires
        v.in_step(),
        v.takes_ack(ack),
        is_seq(ack),
    ensures
        v.after_ack(ack).takes_ack(ack),
        v.after_ack(ack).acked_packets(ack) == 0,
        acked_losses(v.after_ack(ack).lost, ack) == 0,
        v.after_ack(ack).after_ack(ack) == v.after_ack(ack),
{
    let after = v.after_ack(ack);
    ack_keeps_in_step(v, ack);
    ack_keeps_the_last_acked_packet(v, ack);
    lemma_ack_place(v, ack);
    let first = v.packets[0].seq_number;
    let acked = v.acked_packets(ack);
    v.lemma_packet_number(acked);
    let front = after.packets[0].seq_number;
    lemma_seq_distance_to_plus(first, v.last_sent->0, 1);
    lemma_seq_distance_to_plus(first, first, acked);
    lemma_seq_distance_by(first, ack, front);
    lemma_seq_distance_by(first, seq_plus(v.last_sent->0, 1), ack);
    lemma_seq_distance_to_plus(front, ack, -1);
    lemma_seq_distance_by(first, front, ack);
    lemma_acked_losses(v.lost, ack);
    lemma_acked_losses(after.lost, ack);
    let again = acked_losses(after.lost, ack);
    if again > 0 {
        assert(after.lost[again - 1] == v.lost[acked_losses(v.lost, ack) + again - 1]);
    }
    assert(after.after_ack(ack).packets =~= after.packets);
    assert(after.after_ack(ack).lost =~= after.lost);
}

/// An acknowledgement, whether it is taken or not, keeps the buffer in step and leaves it at
/// least one packet, so that it never flushes a buffer.
pub proof fn ack_never_empties(v: SendBufferView, ack: int)
    requires
        v.in_step(),
        is_seq(ack),
        v.packets.len() > 0,
    ensures
        v.acknowledged(ack).in_step(),
        v.acknowledged(ack).packets.len() > 0,
        !v.acknowledged(ack).flushed(),
{
    if v.takes_ack(ack) {
        ack_keeps_in_step(v, ack);
        ack_keeps_the_last_acked_packet(v, ack);
    }
}

/// A message that is queued waits to be sent, and so the buffer is not flushed and holds more
/// packets than before. They are counted in 32 bits.
pub proof fn queued_message_waits(
    v: SendBufferView,
    at: Instant,
    data: Seq<u8>,
    after: SendBufferView,
)
    requires
        v.in_step(),
        v.encapsulate.max_packet_size > 0 || data.len() == 0,
        v.pushed(at, data, after),
    ensures
        after.next_packet() is Some,
        after.has_packets_to_send(),
        !after.flushed(),
        after.packets.len() > v.packets.len(),
        after.packets.len() < 0x1_0000_0000 ==> after.unacked_count() > v.unacked_count(),
{
    lemma_packet_count(data.len(), v.encapsulate.max_packet_size);
    if v.packets.len() > 0 {
        assert(after.packets[0] == v.packets[0]);
    }
}

/// A buffer is flushed when it holds no packets and no losses; packets are counted in 32 bits.
/// A flushed buffer has nothing to send, but one that has nothing to send is not flushed while
/// it holds packets.
pub proof fn flushed_buffer_is_empty(v: SendBufferView)
    ensures
        v.packets.len() < 0x1_0000_0000 ==> (v.flushed() <==> v.unacked_count() == 0
            && v.lost.len() == 0),
        v.flushed() ==> !v.has_packets_to_send(),
        v.packets.len() > 0 && !v.has_packets_to_send() ==> !v.flushed(),
{
}

/// A report of lost packets and a retransmission leave the packets that were not sent yet
/// alone.
pub proof fn losses_keep_unsent(v: SendBufferView, reported: Seq<int>)
    ensures
        v.after_nak(reported).unsent() == v.unsent(),
        v.after_nak(reported).next_packet() == v.next_packet(),
        v.after_pop_lost().unsent() == v.unsent(),
        v.after_pop_lost().next_packet() == v.next_packet(),
{
}

/// What adding reported sequence numbers does to a loss list.
proof fn lemma_with_losses(lost: Seq<int>, reported: Seq<int>, first: int, last: int)
    requires
        lost.no_duplicates(),
        forall|i: int| 0 <= i < lost.len() ==> is_seq(#[trigger] lost[i]),
        forall|i: int| 0 <= i < reported.len() ==> is_seq(#[trigger] reported[i]),
    ensures
        with_losses(lost, reported, first, last).no_duplicates(),
        forall|x: int| #[trigger]
            with_losses(lost, reported, first, last).contains(x) <==> lost.contains(x) || (
            reported.contains(x) && seq_within(x, first, last)),
    decreases reported.len(),
{
    if reported.len() > 0 {
        let seq = reported[0];
        let rest = reported.drop_first();
        let next = if seq_within(seq, first, last) {
            with_loss(lost, seq)
        } else {
            lost
        };
        lemma_with_loss(lost, seq);
        lemma_loss_position(lost, seq);
        lemma_with_losses(next, rest, first, last);
        assert forall|x: int| #[trigger] next.contains(x) implies lost.contains(x) || (x == seq
            && seq_within(x, first, last)) by {}
        assert forall|x: int| lost.contains(x) || (x == seq && seq_within(x, first, last)) implies
            #[trigger] next.contains(x) by {
            if next != lost {
                let at = loss_position(lost, seq);
                if x == seq {
                    assert(next[at] == x);
                } else {
                    let i = choose|i: int| 0 <= i < lost.len() && lost[i] == x;
                    if i < at {
                        assert(next[i] == x);
                    } else {
                        assert(next[i + 1] == x);
                    }
                }
            }
        }
        assert forall|x: int| #[trigger] reported.contains(x) <==> x == seq || rest.contains(x) by {
            if reported.contains(x) && x != seq {
                let i = choose|i: int| 0 <= i < reported.len() && reported[i] == x;
                assert(rest[i - 1] == x);
            }
            if rest.contains(x) {
                let i = choose|i: int| 0 <= i < rest.len() && rest[i] == x;
                assert(reported[i + 1] == x);
            }
        }
        assert forall|x: int| #[trigger]
            with_losses(lost, reported, first, last).contains(x) <==> lost.contains(x) || (
            reported.contains(x) && seq_within(x, first, last)) by {
            assert(next.contains(x) <==> lost.contains(x) || (x == seq && seq_within(
                x,
                first,
                last,
            )));
        }
    }
}

/// A report of lost packets adds to the loss list those that were sent and are still in the
/// buffer, and nothing else; what was in the list stays in it.
pub proof fn nak_adds_the_sent_packets(v: SendBufferView, reported: Seq<int>, x: int)
    requires
        v.in_step(),
        v.packets.len() <= SEQ_HALF,
        v.last_sent is Some,
        forall|i: int| 0 <= i < reported.len() ==> is_seq(#[trigger] reported[i]),
    ensures
        v.after_nak(reported).lost.contains(x) <==> v.lost.contains(x) || (reported.contains(x)
            && seq_distance(v.packets[0].seq_number, x) <= seq_distance(
            v.packets[0].seq_number,
            v.last_sent->0,
        )),
{
    let first = v.packets[0].seq_number;
    let last = v.last_sent->0;
    lemma_with_losses(v.lost, reported, first, last);
    lemma_seq_distance_by(first, x, first);
    lemma_seq_distance_by(first, last, x);
    assert(seq_within(x, first, last) <==> seq_distance(first, x) <= seq_distance(first, last));
}

/// A report of lost packets keeps the buffer in step.
pub proof fn nak_keeps_in_step(v: SendBufferView, reported: Seq<int>)
    requires
        v.in_step(),
        forall|i: int| 0 <= i < reported.len() ==> is_seq(#[trigger] reported[i]),
    ensures
        v.after_nak(reported).in_step(),
{
    nak_keeps_well_formed(v, reported);
}

/// A report of lost packets keeps the buffer well formed.
pub proof fn nak_keeps_well_formed(v: SendBufferView, reported: Seq<int>)
    requires
        v.well_formed(),
        forall|i: int| 0 <= i < reported.len() ==> is_seq(#[trigger] reported[i]),
    ensures
        v.after_nak(reported).well_formed(),
{
    if v.packets.len() > 0 && v.last_sent is Some {
        let first = v.packets[0].seq_number;
        let last = v.last_sent->0;
        let lost = with_losses(v.lost, reported, first, last);
        lemma_with_losses(v.lost, reported, first, last);
        assert forall|i: int| 0 <= i < lost.len() implies is_seq(#[trigger] lost[i]) by {
            assert(lost.contains(lost[i]));
        }
    }
}

/// Whether a loss list is in increasing order and each entry is less than half of the
/// circle ahead of `base`.
pub open spec fn ordered_from(base: int, lost: Seq<int>) -> bool {
    &&& forall|i: int|
        0 <= i < lost.len() ==> seq_distance(base, #[trigger] lost[i]) < SEQ_HALF
    &&& forall|i: int, j: int|
        0 <= i < j < lost.len() ==> seq_distance(base, #[trigger] lost[i]) < seq_distance(
            base,
            #[trigger] lost[j],
        )
}

/// A sequence number goes to its place in an ordered loss list.
proof fn lemma_with_loss_ordered(base: int, lost: Seq<int>, seq: int)
    requires
        ordered_from(base, lost),
        forall|i: int| 0 <= i < lost.len() ==> is_seq(#[trigger] lost[i]),
        is_seq(seq),
        seq_distance(base, seq) < SEQ_HALF,
    ensures
        ordered_from(base, with_loss(lost, seq)),
{
    lemma_loss_position(lost, seq);
    let at = loss_position(lost, seq);
    assert forall|i: int| 0 <= i < lost.len() implies (seq_before(seq, #[trigger] lost[i])
        <==> seq_distance(base, seq) < seq_distance(base, lost[i])) by {
        lemma_seq_distance_by(base, seq, lost[i]);
    }
    if !lost.contains(seq) {
        assert forall|i: int| 0 <= i < lost.len() implies seq_distance(base, #[trigger] lost[i])
            != seq_distance(base, seq) by {
            lemma_seq_distance_by(base, seq, lost[i]);
            assert(lost.contains(lost[i]));
        }
        let next = lost.insert(at, seq);
        assert forall|i: int, j: int| 0 <= i < j < next.len() implies seq_distance(
            base,
            #[trigger] next[i],
        ) < seq_distance(base, #[trigger] next[j]) by {
            let a = if i < at {
                i
            } else {
                i - 1
            };
            let b = if j < at {
                j
            } else {
                j - 1
            };
            if i == at {
                assert(next[j] == lost[j - 1]);
                if at < j - 1 {
                    assert(seq_distance(base, lost[at]) < seq_distance(base, lost[j - 1]));
                }
            } else if j == at {
                assert(next[i] == lost[i]);
            } else {
                assert(next[i] == lost[a]);
                assert(next[j] == lost[b]);
            }
        }
    }
}

/// Reported sequence numbers go to their places in an ordered loss list.
pub proof fn lemma_with_losses_ordered(
    base: int,
    lost: Seq<int>,
    reported: Seq<int>,
    first: int,
    last: int,
)
    requires
        ordered_from(base, lost),
        forall|i: int| 0 <= i < lost.len() ==> is_seq(#[trigger] lost[i]),
        forall|i: int| 0 <= i < reported.len() ==> is_seq(#[trigger] reported[i]),
        seq_distance(base, first) <= seq_distance(base, last) < SEQ_HALF,
    ensures
        ordered_from(base, with_losses(lost, reported, first, last)),
    decreases reported.len(),
{
    if reported.len() > 0 {
        let seq = reported[0];
        let next = if seq_within(seq, first, last) {
            with_loss(lost, seq)
        } else {
            lost
        };
        if seq_within(seq, first, last) {
            lemma_seq_distance_by(base, seq, first);
            lemma_seq_distance_by(base, last, seq);
            lemma_with_loss_ordered(base, lost, seq);
            lemma_loss_position(lost, seq);
        }
        lemma_with_losses_ordered(base, next, reported.drop_first(), first, last);
    }
}

impl SendBufferView {
    /// How many sequence numbers were given out since `seq` was, counting `seq`.
    pub open spec fn age(self, seq: int) -> int {
        seq_distance(seq, self.encapsulate.next_seq)
    }

    /// The loss list is in increasing order: each entry was given out before the next one. The
    /// entries and the packets all lie within half of the circle.
    pub open spec fn losses_in_order(self) -> bool {
        &&& self.in_step()
        &&& self.packets.len() <= SEQ_HALF
        &&& forall|i: int|
            0 <= i < self.lost.len() ==> 1 <= self.age(#[trigger] self.lost[i]) <= SEQ_HALF
        &&& forall|i: int, j: int|
            0 <= i < j < self.lost.len() ==> self.age(#[trigger] self.lost[i]) > self.age(
                #[trigger] self.lost[j],
            )
    }

    /// The sequence number that lies half of the circle behind the next one.
    spec fn half_behind(self) -> int {
        seq_plus(self.encapsulate.next_seq, -(SEQ_HALF as int))
    }
}

/// Ages are distances from half of the circle behind.
proof fn lemma_age_by_distance(v: SendBufferView, seq: int)
    ensures
        1 <= v.age(seq) <= SEQ_HALF <==> seq_distance(v.half_behind(), seq) < SEQ_HALF,
        1 <= v.age(seq) <= SEQ_HALF ==> seq_distance(v.half_behind(), seq) == SEQ_HALF - v.age(seq),
{
    lemma_seq_distance_by(v.half_behind(), seq, v.encapsulate.next_seq);
    assert(seq_distance(v.half_behind(), v.encapsulate.next_seq) == SEQ_HALF);
}

/// What it means that the loss list is in order.
proof fn lemma_losses_in_order(v: SendBufferView)
    requires
        v.in_step(),
        v.packets.len() <= SEQ_HALF,
    ensures
        v.losses_in_order() <==> ordered_from(v.half_behind(), v.lost),
{
    assert forall|i: int| 0 <= i < v.lost.len() implies (1 <= v.age(#[trigger] v.lost[i])
        <= SEQ_HALF <==> seq_distance(v.half_behind(), v.lost[i]) < SEQ_HALF) && (1 <= v.age(
        v.lost[i],
    ) <= SEQ_HALF ==> seq_distance(v.half_behind(), v.lost[i]) == SEQ_HALF - v.age(v.lost[i])) by {
        lemma_age_by_distance(v, v.lost[i]);
    }
}

/// The packets in the buffer stand at its end within the half of the circle behind the next
/// sequence number.
proof fn lemma_front_by_distance(v: SendBufferView)
    requires
        v.in_step(),
        0 < v.packets.len() <= SEQ_HALF,
    ensures
        seq_distance(v.half_behind(), v.packets[0].seq_number) == SEQ_HALF - v.packets.len(),
{
    assert(v.age(v.packets[0].seq_number) == v.packets.len());
    lemma_age_by_distance(v, v.packets[0].seq_number);
}

/// A buffer that is new is in step, and its loss list is in order.
pub proof fn new_buffer_is_in_step(v: SendBufferView)
    requires
        v.is_new(),
    ensures
        v.in_step(),
        v.losses_in_order(),
        v.losses_were_sent(),
{
}

/// A report of lost packets keeps the loss list in order.
pub proof fn nak_keeps_losses_in_order(v: SendBufferView, reported: Seq<int>)
    requires
        v.losses_in_order(),
        forall|i: int| 0 <= i < reported.len() ==> is_seq(#[trigger] reported[i]),
    ensures
        v.after_nak(reported).losses_in_order(),
{
    nak_keeps_in_step(v, reported);
    lemma_losses_in_order(v);
    lemma_losses_in_order(v.after_nak(reported));
    if v.last_sent is Some {
        let base = v.half_behind();
        let first = v.packets[0].seq_number;
        let last = v.last_sent->0;
        lemma_front_by_distance(v);
        lemma_seq_distance_by(base, first, last);
        lemma_with_losses_ordered(base, v.lost, reported, first, last);
    }
}

/// Queueing a message keeps the loss list in order, unless an entry stays there until half of
/// the sequence numbers have been given out after it.
pub proof fn push_keeps_losses_in_order(
    v: SendBufferView,
    at: Instant,
    data: Seq<u8>,
    after: SendBufferView,
)
    requires
        v.losses_in_order(),
        v.pushed(at, data, after),
        after.packets.len() <= SEQ_HALF,
        forall|i: int|
            0 <= i < v.lost.len() ==> v.age(#[trigger] v.lost[i]) + packet_count(
                data.len(),
                v.encapsulate.max_packet_size,
            ) <= SEQ_HALF,
    ensures
        after.losses_in_order(),
{
    push_keeps_in_step(v, at, data, after);
    let count = packet_count(data.len(), v.encapsulate.max_packet_size) as int;
    assert forall|i: int| 0 <= i < after.lost.len() implies after.age(#[trigger] after.lost[i])
        == v.age(v.lost[i]) + count by {
        lemma_seq_distance_to_plus(v.lost[i], v.encapsulate.next_seq, count);
    }
}

/// A loss list without its first `n` entries is in order.
proof fn lemma_order_without_first(v: SendBufferView, after: SendBufferView, n: int)
    requires
        v.losses_in_order(),
        after.in_step(),
        after.packets.len() <= SEQ_HALF,
        after.encapsulate == v.encapsulate,
        0 <= n <= v.lost.len(),
        after.lost == v.lost.skip(n),
    ensures
        after.losses_in_order(),
{
    assert forall|i: int| 0 <= i < after.lost.len() implies #[trigger] after.lost[i] == v.lost[n
        + i] by {}
}

/// Sending and retransmitting keep the loss list in order.
pub proof fn sending_keeps_losses_in_order(v: SendBufferView)
    requires
        v.losses_in_order(),
    ensures
        v.after_pop().losses_in_order(),
        v.after_pop_lost().losses_in_order(),
{
    pop_keeps_in_step(v);
    if v.lost.len() > 0 {
        let after = v.after_pop_lost();
        assert(after.lost =~= v.lost.skip(1));
        lemma_order_without_first(v, after, 1);
    }
}

/// An acknowledgement keeps the loss list in order.
pub proof fn ack_keeps_losses_in_order(v: SendBufferView, ack: int)
    requires
        v.losses_in_order(),
        v.takes_ack(ack),
        is_seq(ack),
    ensures
        v.after_ack(ack).losses_in_order(),
{
    ack_keeps_in_step(v, ack);
    lemma_acked_losses(v.lost, ack);
    lemma_order_without_first(v, v.after_ack(ack), acked_losses(v.lost, ack) as int);
}

/// Dropping what is too late, and taking the last packet out, keep the loss list in order.
pub proof fn dropping_keeps_losses_in_order(v: SendBufferView, ts_now: int)
    requires
        v.losses_in_order(),
    ensures
        v.after_drop(ts_now).losses_in_order(),
        v.after_flush().losses_in_order(),
{
    assert forall|i: int| 0 <= i < v.dropped(ts_now).len() implies #[trigger] v.dropped_len(i)
        <= SEQ_HALF by {
        dropped_messages_fit(v, ts_now, i);
    }
    dropping_keeps_in_step(v, ts_now);
    reports_cover_what_is_dropped(v, ts_now);
}

/// Lost packets are retransmitted smallest sequence number first: the entry of the loss list
/// that is taken out next comes before all others.
pub proof fn losses_are_retransmitted_in_order(v: SendBufferView, i: int)
    requires
        v.losses_in_order(),
        0 < i < v.lost.len(),
    ensures
        seq_before(v.lost[0], v.lost[i]),
{
    let base = v.half_behind();
    lemma_losses_in_order(v);
    lemma_seq_distance_by(base, v.lost[0], v.lost[i]);
    assert(seq_distance(base, v.lost[0]) < seq_distance(base, v.lost[i]));
}

/// An acknowledgement takes the entries that come before it out of the loss list, and no
/// others.
pub proof fn ack_takes_out_the_losses_before_it(v: SendBufferView, ack: int, i: int)
    requires
        v.losses_in_order(),
        v.takes_ack(ack),
        is_seq(ack),
        0 <= i < v.lost.len(),
    ensures
        i < acked_losses(v.lost, ack) <==> seq_before(v.lost[i], ack),
{
    let base = v.half_behind();
    let lost = v.lost;
    let acked = acked_losses(lost, ack);
    lemma_losses_in_order(v);
    lemma_acked_losses(lost, ack);
    lemma_ack_place(v, ack);
    lemma_front_by_distance(v);
    lemma_seq_distance_by(base, v.packets[0].seq_number, ack);
    lemma_seq_distance_by(base, lost[i], ack);
    if i < acked {
        lemma_seq_distance_by(base, lost[acked - 1], ack);
        if i < acked - 1 {
            assert(seq_distance(base, lost[i]) < seq_distance(base, lost[acked - 1]));
        }
    }
}

/// Which acknowledgements a buffer takes, by their distance from the oldest packet.
proof fn lemma_takes_ack(v: SendBufferView, ack: int)
    requires
        v.in_step(),
        v.last_sent is Some,
        v.packets.len() <= SEQ_HALF,
    ensures
        v.takes_ack(ack) <==> seq_distance(v.packets[0].seq_number, ack) <= seq_distance(
            v.packets[0].seq_number,
            v.last_sent->0,
        ) + 1 && seq_distance(v.packets[0].seq_number, ack) < SEQ_HALF,
{
    let first = v.packets[0].seq_number;
    lemma_seq_distance_by(first, ack, first);
    lemma_seq_distance_to_plus(first, v.last_sent->0, 1);
    lemma_seq_distance_by(first, seq_plus(v.last_sent->0, 1), ack);
}

/// Distances from the oldest packet after an acknowledgement.
proof fn lemma_distance_after_ack(v: SendBufferView, ack: int, seq: int)
    requires
        v.in_step(),
        v.takes_ack(ack),
        is_seq(ack),
        v.acked_packets(ack) <= seq_distance(v.packets[0].seq_number, seq),
    ensures
        v.after_ack(ack).packets.len() > 0,
        seq_distance(v.after_ack(ack).packets[0].seq_number, seq) == seq_distance(
            v.packets[0].seq_number,
            seq,
        ) - v.acked_packets(ack),
{
    lemma_ack_place(v, ack);
    let acked = v.acked_packets(ack);
    v.lemma_packet_number(acked);
    lemma_seq_distance_plus(v.packets[0].seq_number, seq, acked);
}

/// An acknowledgement that comes after another one is taken after it too, and together they
/// take out the packets that it takes out alone.
proof fn lemma_later_ack(v: SendBufferView, earlier: int, later: int)
    requires
        v.in_step(),
        v.packets.len() <= SEQ_HALF,
        v.takes_ack(earlier),
        v.takes_ack(later),
        is_seq(earlier),
        is_seq(later),
        !seq_after(earlier, later),
    ensures
        v.after_ack(earlier).takes_ack(later),
        v.acked_packets(later) == v.acked_packets(earlier) + v.after_ack(earlier).acked_packets(
            later,
        ),
        seq_distance(v.packets[0].seq_number, earlier) <= seq_distance(
            v.packets[0].seq_number,
            later,
        ),
{
    let between = v.after_ack(earlier);
    lemma_ack_place(v, earlier);
    lemma_ack_place(v, later);
    lemma_takes_ack(v, earlier);
    lemma_takes_ack(v, later);
    lemma_seq_distance_by(v.packets[0].seq_number, later, earlier);
    ack_keeps_in_step(v, earlier);
    lemma_distance_after_ack(v, earlier, later);
    lemma_distance_after_ack(v, earlier, v.last_sent->0);
    lemma_takes_ack(between, later);
    lemma_ack_place(between, later);
}

/// Two acknowledgements take the losses out that the later one takes out alone.
proof fn lemma_later_ack_losses(v: SendBufferView, earlier: int, later: int)
    requires
        v.losses_in_order(),
        v.takes_ack(earlier),
        v.takes_ack(later),
        is_seq(earlier),
        is_seq(later),
        !seq_after(earlier, later),
    ensures
        acked_losses(v.lost, earlier) + acked_losses(v.after_ack(earlier).lost, later)
            == acked_losses(v.lost, later),
{
    let lost = v.lost;
    let rest = v.after_ack(earlier).lost;
    let a = acked_losses(lost, earlier);
    let e = acked_losses(lost, later);
    let k = acked_losses(rest, later);
    lemma_acked_losses(lost, earlier);
    lemma_acked_losses(lost, later);
    lemma_acked_losses(rest, later);
    if a > 0 {
        let seq = lost[a - 1];
        let base = v.half_behind();
        let first = v.packets[0].seq_number;
        lemma_later_ack(v, earlier, later);
        lemma_ack_place(v, later);
        lemma_losses_in_order(v);
        lemma_front_by_distance(v);
        lemma_seq_distance_by(base, first, earlier);
        lemma_seq_distance_by(base, first, later);
        lemma_seq_distance_by(base, seq, earlier);
        lemma_seq_distance_by(base, seq, later);
        assert(seq_before(seq, later));
    }
    if k > 0 {
        assert(rest[k - 1] == lost[a + k - 1]);
    }
    if a + k < e {
        assert(rest[e - 1 - a] == lost[e - 1]);
    }
}

/// Two acknowledgements take out and count together what the later one takes out and counts
/// alone: one that is skipped loses no count.
pub proof fn acks_add_up(v: SendBufferView, earlier: int, later: int)
    requires
        v.losses_in_order(),
        v.takes_ack(earlier),
        v.takes_ack(later),
        is_seq(earlier),
        is_seq(later),
        !seq_after(earlier, later),
    ensures
        v.after_ack(earlier).takes_ack(later),
        v.acked_packets(earlier) + v.after_ack(earlier).acked_packets(later) == v.acked_packets(
            later,
        ),
        acked_losses(v.lost, earlier) + acked_losses(v.after_ack(earlier).lost, later)
            == acked_losses(v.lost, later),
        v.after_ack(earlier).after_ack(later) == v.after_ack(later),
{
    let between = v.after_ack(earlier);
    lemma_later_ack(v, earlier, later);
    lemma_later_ack_losses(v, earlier, later);
    lemma_ack_place(v, earlier);
    lemma_ack_place(v, later);
    lemma_acked_losses(v.lost, earlier);
    lemma_acked_losses(between.lost, later);
    assert(between.after_ack(later).packets =~= v.after_ack(later).packets);
    assert(between.after_ack(later).lost =~= v.after_ack(later).lost);
}

/// An acknowledgement that is taken after an earlier one is also taken alone, in a buffer that
/// holds less than half as many packets as there are sequence numbers.
pub proof fn later_ack_is_taken_alone(v: SendBufferView, earlier: int, later: int)
    requires
        v.in_step(),
        v.packets.len() < SEQ_HALF,
        v.takes_ack(earlier),
        is_seq(earlier),
        is_seq(later),
        v.after_ack(earlier).takes_ack(later),
    ensures
        v.takes_ack(later),
{
    let acked = v.acked_packets(earlier);
    lemma_ack_place(v, earlier);
    ack_keeps_in_step(v, earlier);
    lemma_distance_after_ack(v, earlier, v.last_sent->0);
    lemma_takes_ack(v.after_ack(earlier), later);
    v.lemma_packet_number(acked);
    lemma_seq_distance_through(v.packets[0].seq_number, acked, later);
    lemma_takes_ack(v, later);
}

/// Two loss lists that are in order and hold the same sequence numbers are the same.
proof fn lemma_ordered_lists_are_equal(base: int, a: Seq<int>, b: Seq<int>)
    requires
        ordered_from(base, a),
        ordered_from(base, b),
        forall|x: int| #[trigger] a.contains(x) <==> b.contains(x),
    ensures
        a == b,
    decreases a.len(),
{
    if a.len() == 0 {
        if b.len() > 0 {
            assert(b.contains(b[0]));
            assert(a.contains(b[0]));
        }
        assert(a =~= b);
    } else {
        assert(a.contains(a.last()));
        assert(b.contains(a.last()));
        assert(b.contains(b.last()));
        assert(a.contains(b.last()));
        let i = choose|i: int| 0 <= i < a.len() && a[i] == b.last();
        let j = choose|j: int| 0 <= j < b.len() && b[j] == a.last();
        assert(i < a.len() - 1 ==> seq_distance(base, a[i]) < seq_distance(base, a.last()));
        assert(j < b.len() - 1 ==> seq_distance(base, b[j]) < seq_distance(base, b.last()));
        assert(a.last() == b.last());
        let a_rest = a.drop_last();
        let b_rest = b.drop_last();
        assert forall|x: int| #[trigger] a_rest.contains(x) <==> b_rest.contains(x) by {
            if a_rest.contains(x) {
                let n = choose|n: int| 0 <= n < a_rest.len() && a_rest[n] == x;
                assert(a[n] == x);
                assert(a.contains(x));
                assert(b.contains(x));
                let m = choose|m: int| 0 <= m < b.len() && b[m] == x;
                assert(seq_distance(base, a[n]) < seq_distance(base, a.last()));
                assert(b_rest[m] == x);
            }
            if b_rest.contains(x) {
                let n = choose|n: int| 0 <= n < b_rest.len() && b_rest[n] == x;
                assert(b[n] == x);
                assert(b.contains(x));
                assert(a.contains(x));
                let m = choose|m: int| 0 <= m < a.len() && a[m] == x;
                assert(seq_distance(base, b[n]) < seq_distance(base, b.last()));
                assert(a_rest[m] == x);
            }
        }
        lemma_ordered_lists_are_equal(base, a_rest, b_rest);
        assert(a =~= a_rest.push(a.last()));
        assert(b =~= b_rest.push(b.last()));
    }
}

/// Neither the order of reports of lost packets nor their repetition matters.
pub proof fn order_of_reports_does_not_matter(v: SendBufferView, x: Seq<int>, y: Seq<int>)
    requires
        v.losses_in_order(),
        forall|i: int| 0 <= i < x.len() ==> is_seq(#[trigger] x[i]),
        forall|i: int| 0 <= i < y.len() ==> is_seq(#[trigger] y[i]),
    ensures
        v.after_nak(x).after_nak(y) == v.after_nak(y).after_nak(x),
        v.after_nak(x).after_nak(x) == v.after_nak(x),
        v.after_nak(x).after_nak(y) == v.after_nak(y).after_nak(x).after_nak(x),
{
    if v.last_sent is Some {
        let first = v.packets[0].seq_number;
        let last = v.last_sent->0;
        let base = v.half_behind();
        let with_x = v.after_nak(x);
        let with_y = v.after_nak(y);
        nak_keeps_losses_in_order(v, x);
        nak_keeps_losses_in_order(v, y);
        nak_keeps_losses_in_order(with_x, x);
        nak_keeps_losses_in_order(with_x, y);
        nak_keeps_losses_in_order(with_y, x);
        nak_keeps_losses_in_order(with_y.after_nak(x), x);
        lemma_losses_in_order(with_x);
        lemma_losses_in_order(with_x.after_nak(x));
        lemma_losses_in_order(with_x.after_nak(y));
        lemma_losses_in_order(with_y.after_nak(x));
        lemma_losses_in_order(with_y.after_nak(x).after_nak(x));
        lemma_with_losses(v.lost, x, first, last);
        lemma_with_losses(v.lost, y, first, last);
        lemma_with_losses(with_x.lost, x, first, last);
        lemma_with_losses(with_x.lost, y, first, last);
        lemma_with_losses(with_y.lost, x, first, last);
        lemma_with_losses(with_y.after_nak(x).lost, x, first, last);
        lemma_ordered_lists_are_equal(base, with_x.after_nak(x).lost, with_x.lost);
        lemma_ordered_lists_are_equal(base, with_x.after_nak(y).lost, with_y.after_nak(x).lost);
        lemma_ordered_lists_are_equal(
            base,
            with_x.after_nak(y).lost,
            with_y.after_nak(x).after_nak(x).lost,
        );
    }
}

/// A retransmitted packet is the one that was reported lost, marked as a retransmission.
pub proof fn retransmission_is_the_lost_packet(v: SendBufferView)
    requires
        v.well_formed(),
    ensures
        v.next_lost_packet() matches Some(packet) ==> packet.seq_number == v.lost[0]
            && packet.retransmitted && exists|i: int|
            0 <= i < v.packets.len() && packet == (PacketView {
                retransmitted: true,
                ..#[trigger] v.packets[i]
            }),
{
    if v.next_lost_packet() is Some {
        let offset = seq_distance(v.packets[0].seq_number, v.lost[0]);
        v.lemma_packet_number(offset);
        assert(v.packets[offset].seq_number == v.lost[0]);
    }
}

impl SendBufferView {
    /// Each packet in the loss list that is still in the buffer was sent.
    pub open spec fn losses_were_sent(self) -> bool {
        &&& self.in_step()
        &&& self.packets.len() <= SEQ_HALF
        &&& forall|i: int|
            0 <= i < self.lost.len() ==> 1 <= self.age(#[trigger] self.lost[i]) && (self.age(
                self.lost[i],
            ) <= self.packets.len() ==> self.last_sent is Some && seq_distance(
                self.packets[0].seq_number,
                self.lost[i],
            ) <= seq_distance(self.packets[0].seq_number, self.last_sent->0))
    }
}

/// A sequence number's place in the buffer, by its age.
proof fn lemma_place_by_age(v: SendBufferView, seq: int)
    requires
        v.in_step(),
        0 < v.packets.len() <= SEQ_HALF,
    ensures
        v.age(seq) == if seq_distance(v.packets[0].seq_number, seq) <= v.packets.len() {
            v.packets.len() - seq_distance(v.packets[0].seq_number, seq)
        } else {
            SEQ_MODULUS + v.packets.len() - seq_distance(v.packets[0].seq_number, seq)
        },
{
    let first = v.packets[0].seq_number;
    let next = v.encapsulate.next_seq;
    lemma_seq_distance_by(first, seq, next);
    assert(seq_distance(first, next) == v.packets.len());
}

/// Only packets that were sent are retransmitted.
pub proof fn retransmitted_packets_were_sent(v: SendBufferView)
    requires
        v.losses_were_sent(),
    ensures
        v.next_lost_packet() is Some ==> seq_distance(v.packets[0].seq_number, v.lost[0])
            < v.next_index(),
{
    if v.next_lost_packet() is Some {
        lemma_place_by_age(v, v.lost[0]);
    }
}

/// Sending a packet keeps it so that only packets that were sent are in the loss list.
pub proof fn pop_keeps_losses_sent(v: SendBufferView)
    requires
        v.losses_were_sent(),
    ensures
        v.after_pop().losses_were_sent(),
{
    pop_keeps_in_step(v);
    if v.next_packet() is Some {
        lemma_packet_place(v, v.next_index());
    }
}

/// Queueing a message keeps it so that only packets that were sent are in the loss list,
/// unless an entry stays there until its sequence number is given out again.
pub proof fn push_keeps_losses_sent(
    v: SendBufferView,
    at: Instant,
    data: Seq<u8>,
    after: SendBufferView,
)
    requires
        v.losses_were_sent(),
        v.pushed(at, data, after),
        after.packets.len() <= SEQ_HALF,
        forall|i: int|
            0 <= i < v.lost.len() ==> v.age(#[trigger] v.lost[i]) + packet_count(
                data.len(),
                v.encapsulate.max_packet_size,
            ) < SEQ_MODULUS,
    ensures
        after.losses_were_sent(),
{
    push_keeps_in_step(v, at, data, after);
    let count = packet_count(data.len(), v.encapsulate.max_packet_size) as int;
    assert forall|i: int| 0 <= i < after.lost.len() implies after.age(#[trigger] after.lost[i])
        == v.age(v.lost[i]) + count by {
        lemma_seq_distance_to_plus(v.lost[i], v.encapsulate.next_seq, count);
    }
}

/// An acknowledgement keeps it so that only packets that were sent are in the loss list.
pub proof fn ack_keeps_losses_sent(v: SendBufferView, ack: int)
    requires
        v.losses_were_sent(),
        v.takes_ack(ack),
        is_seq(ack),
    ensures
        v.after_ack(ack).losses_were_sent(),
{
    ack_keeps_in_step(v, ack);
    lemma_ack_place(v, ack);
    lemma_acked_losses(v.lost, ack);
    let after = v.after_ack(ack);
    let acked = v.acked_packets(ack);
    let taken = acked_losses(v.lost, ack);
    v.lemma_packet_number(acked);
    lemma_seq_distance_plus(v.packets[0].seq_number, v.last_sent->0, acked);
    assert forall|i: int| 0 <= i < after.lost.len() implies 1 <= after.age(#[trigger] after.lost[i])
        && (after.age(after.lost[i]) <= after.packets.len() ==> after.last_sent is Some
        && seq_distance(after.packets[0].seq_number, after.lost[i]) <= seq_distance(
        after.packets[0].seq_number,
        after.last_sent->0,
    )) by {
        assert(after.lost[i] == v.lost[taken + i]);
        lemma_place_by_age(v, v.lost[taken + i]);
        lemma_place_by_age(after, after.lost[i]);
    }
}

/// A report of lost packets keeps it so that only packets that were sent are in the loss
/// list.
pub proof fn nak_keeps_losses_sent(v: SendBufferView, reported: Seq<int>)
    requires
        v.losses_were_sent(),
        forall|i: int| 0 <= i < reported.len() ==> is_seq(#[trigger] reported[i]),
    ensures
        v.after_nak(reported).losses_were_sent(),
{
    nak_keeps_in_step(v, reported);
    let after = v.after_nak(reported);
    if v.last_sent is Some {
        assert forall|i: int| 0 <= i < after.lost.len() implies 1 <= after.age(
            #[trigger] after.lost[i],
        ) && (after.age(after.lost[i]) <= after.packets.len() ==> seq_distance(
            after.packets[0].seq_number,
            after.lost[i],
        ) <= seq_distance(after.packets[0].seq_number, after.last_sent->0)) by {
            assert(after.lost.contains(after.lost[i]));
            nak_adds_the_sent_packets(v, reported, after.lost[i]);
            lemma_place_by_age(v, after.lost[i]);
        }
    }
}

/// Dropping a message keeps it so that only packets that were sent are in the loss list.
pub proof fn drop_keeps_losses_sent(v: SendBufferView)
    requires
        v.losses_were_sent(),
        v.packets.len() > 0,
    ensures
        v.without_front_message().losses_were_sent(),
{
    lemma_message_run(v.packets, v.packets[0].message_number);
    drop_keeps_in_step(v);
    lemma_last_sent_after_drop(v);
    let after = v.without_front_message();
    assert forall|i: int| 0 <= i < after.lost.len() implies 1 <= after.age(#[trigger] after.lost[i])
        && (after.age(after.lost[i]) <= after.packets.len() ==> after.last_sent is Some
        && seq_distance(after.packets[0].seq_number, after.lost[i]) <= seq_distance(
        after.packets[0].seq_number,
        after.last_sent->0,
    )) by {
        lemma_place_by_age(v, v.lost[i]);
        if after.packets.len() > 0 {
            lemma_place_by_age(after, v.lost[i]);
        }
    }
}

/// Dropping all that is too late keeps it so that only packets that were sent are in the
/// loss list.
pub proof fn dropping_keeps_losses_sent(v: SendBufferView, ts_now: int)
    requires
        v.losses_were_sent(),
    ensures
        v.after_drop(ts_now).losses_were_sent(),
    decreases v.packets.len(),
{
    if v.front_is_late(ts_now) {
        drop_keeps_losses_sent(v);
        lemma_message_run(v.packets, v.packets[0].message_number);
        dropping_keeps_losses_sent(v.without_front_message(), ts_now);
    }
}

/// Taking the next entry out of the loss list keeps it so that only packets that were sent
/// are in it.
pub proof fn retransmission_keeps_losses_sent(v: SendBufferView)
    requires
        v.losses_were_sent(),
    ensures
        v.after_pop_lost().losses_were_sent(),
{
    let after = v.after_pop_lost();
    assert forall|i: int| 0 <= i < after.lost.len() implies 1 <= after.age(#[trigger] after.lost[i])
        && (after.age(after.lost[i]) <= after.packets.len() ==> after.last_sent is Some
        && seq_distance(after.packets[0].seq_number, after.lost[i]) <= seq_distance(
        after.packets[0].seq_number,
        after.last_sent->0,
    )) by {
        if v.lost.len() > 0 {
            assert(after.lost[i] == v.lost[i + 1]);
        }
    }
}

/// Taking the last packet out keeps it so that only packets that were sent are in the loss
/// list.
pub proof fn flush_keeps_losses_sent(v: SendBufferView)
    requires
        v.losses_were_sent(),
    ensures
        v.after_flush().losses_were_sent(),
{
}

/// Dropping what is too late leaves no packet at the front that is too late: at the same
/// time there is nothing more to drop.
pub proof fn nothing_late_is_left(v: SendBufferView, ts_now: int)
    ensures
        !v.after_drop(ts_now).front_is_late(ts_now),
        v.after_drop(ts_now).dropped(ts_now).len() == 0,
        v.after_drop(ts_now).after_drop(ts_now) == v.after_drop(ts_now),
        !v.front_is_late(ts_now) ==> v.after_drop(ts_now) == v,
    decreases v.packets.len(),
{
    if v.front_is_late(ts_now) {
        lemma_message_run(v.packets, v.packets[0].message_number);
        nothing_late_is_left(v.without_front_message(), ts_now);
    }
}

/// What is dropped is exactly what is reported: the packets that go are the oldest ones, the
/// reports name them without a gap from the first to the last, and each report ends where
/// its message ends.
pub proof fn reports_cover_what_is_dropped(v: SendBufferView, ts_now: int)
    requires
        v.well_formed(),
    ensures
        v.after_drop(ts_now).well_formed(),
        v.after_drop(ts_now).packets.len() <= v.packets.len(),
        v.after_drop(ts_now).packets == v.packets.skip(
            v.packets.len() - v.after_drop(ts_now).packets.len(),
        ),
        v.after_drop(ts_now).lost == v.lost,
        v.after_drop(ts_now).encapsulate == v.encapsulate,
        v.dropped(ts_now).len() == 0 <==> v.after_drop(ts_now).packets.len() == v.packets.len(),
        v.dropped(ts_now).len() > 0 ==> {
            let dropped = v.dropped(ts_now);
            let kept = v.after_drop(ts_now).packets;
            let count = v.packets.len() - kept.len();
            &&& dropped[0].first == v.packets[0].seq_number
            &&& dropped.last().last == v.packets[count - 1].seq_number
            &&& dropped.last().msg == v.packets[count - 1].message_number
            &&& kept.len() > 0 ==> kept[0].message_number != dropped.last().msg
        },
        forall|i: int|
            0 < i < v.dropped(ts_now).len() ==> (#[trigger] v.dropped(ts_now)[i]).first == seq_plus(
                v.dropped(ts_now)[i - 1].last,
                1,
            ),
    decreases v.packets.len(),
{
    if v.front_is_late(ts_now) {
        lemma_message_run(v.packets, v.packets[0].message_number);
        let next = v.without_front_message();
        let count = v.front_message_len();
        assert(next.well_formed());
        reports_cover_what_is_dropped(next, ts_now);
        let after = v.after_drop(ts_now);
        assert(after.packets =~= v.packets.skip(v.packets.len() - after.packets.len()));
        let dropped = v.dropped(ts_now);
        let rest = next.dropped(ts_now);
        assert forall|i: int| 0 < i < dropped.len() implies (#[trigger] dropped[i]).first
            == seq_plus(dropped[i - 1].last, 1) by {
            assert(dropped[i] == rest[i - 1]);
            if i == 1 {
                assert(next.packets[0] == v.packets[count]);
                lemma_seq_plus_plus(v.encapsulate.next_seq, count - 1 - v.packets.len(), 1);
            } else {
                assert(dropped[i - 1] == rest[i - 2]);
            }
        }
        if rest.len() > 0 {
            assert(dropped.last() == rest.last());
        }
    } else {
        assert(v.packets.skip(0) =~= v.packets);
    }
}

/// Each report of dropped packets runs forward over its message's packets, from the first to
/// the last, unless the message has more packets than half of the circle.
pub proof fn reports_run_forward(v: SendBufferView, ts_now: int, i: int)
    requires
        v.well_formed(),
        0 <= i < v.dropped(ts_now).len(),
        v.dropped_len(i) <= SEQ_HALF,
    ensures
        !seq_before(v.dropped(ts_now)[i].last, v.dropped(ts_now)[i].first),
        seq_distance(v.dropped(ts_now)[i].first, v.dropped(ts_now)[i].last) + 1 == v.dropped_len(i),
    decreases v.packets.len(),
{
    lemma_message_run(v.packets, v.packets[0].message_number);
    let first = v.packets[0].seq_number;
    let last = v.packets[v.front_message_len() - 1].seq_number;
    if i > 0 {
        let next = v.without_front_message();
        assert(next.well_formed());
        reports_run_forward(next, ts_now, i - 1);
    } else {
        lemma_packet_place(v, v.front_message_len() - 1);
        lemma_seq_distance_by(first, last, first);
    }
}

/// Only packets of messages whose oldest packet is too late are dropped: the first packet of
/// each dropped message was too late.
pub proof fn only_late_messages_are_dropped(v: SendBufferView, ts_now: int, i: int)
    requires
        v.well_formed(),
        0 <= i < v.dropped(ts_now).len(),
    ensures
        exists|j: int|
            0 <= j < v.packets.len() && (#[trigger] v.packets[j]).seq_number
                == v.dropped(ts_now)[i].first && v.packets[j].message_number
                == v.dropped(ts_now)[i].msg && too_late(v.packets[j], v.latency_window, ts_now),
    decreases v.packets.len(),
{
    lemma_message_run(v.packets, v.packets[0].message_number);
    if i > 0 {
        let next = v.without_front_message();
        only_late_messages_are_dropped(next, ts_now, i - 1);
        let j = choose|j: int|
            0 <= j < next.packets.len() && (#[trigger] next.packets[j]).seq_number == next.dropped(
                ts_now,
            )[i - 1].first && next.packets[j].message_number == next.dropped(ts_now)[i - 1].msg
                && too_late(next.packets[j], next.latency_window, ts_now);
        assert(next.packets[j] == v.packets[j + v.front_message_len()]);
    }
}

} // verus!
