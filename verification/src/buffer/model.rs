//! What a sender's buffer holds, and what its operations do to that.
use crate::encapsulate::{packet_count, EncapsulateView};
use crate::numbers::{
    is_seq, lemma_seq_plus_plus, seq_before, seq_distance, seq_plus, seq_within, SEQ_MODULUS,
};
use crate::packet::{content, DataEncryption, DataPacket, PacketView};
use crate::time::{
    timestamp_before, timestamp_plus, Duration, Instant, NANOS_PER_MICRO, NANOS_PER_SECOND,
};
use bytes::Bytes;
use vstd::prelude::*;

verus! {

/// What a `SendBuffer` holds.
pub struct SendBufferView {
    pub encapsulate: EncapsulateView,
    /// How long a packet is of use to the receiver.
    pub latency_window: Duration,
    /// The packets that were not acknowledged or dropped yet, oldest first.
    pub packets: Seq<PacketView>,
    /// The sequence number of the last packet that was sent.
    pub last_sent: Option<int>,
    /// The sequence numbers that were reported lost, in the order of retransmission.
    pub lost: Seq<int>,
}

/// How long packets are kept for a receiver with this latency: two and a half times the
/// latency, and at least a second.
pub open spec fn latency_window_nanos(latency: Duration) -> int {
    let window = latency.nanos * 2 + latency.nanos as int / 2;
    if window < NANOS_PER_SECOND {
        NANOS_PER_SECOND as int
    } else {
        window
    }
}

impl SendBufferView {
    /// The packets are numbered without a gap up to the next sequence number, and no
    /// sequence number is reported lost twice.
    pub open spec fn well_formed(self) -> bool {
        &&& is_seq(self.encapsulate.next_seq)
        &&& forall|i: int|
            0 <= i < self.packets.len() ==> (#[trigger] self.packets[i]).seq_number == seq_plus(
                self.encapsulate.next_seq,
                i - self.packets.len(),
            )
        &&& self.last_sent matches Some(last) ==> is_seq(last)
        &&& self.lost.no_duplicates()
        &&& forall|i: int| 0 <= i < self.lost.len() ==> is_seq(#[trigger] self.lost[i])
    }

    /// A buffer that nothing was done to yet.
    pub open spec fn is_new(self) -> bool {
        &&& self.well_formed()
        &&& self.packets.len() == 0
        &&& self.last_sent is None
        &&& self.lost.len() == 0
    }

    /// The packet at `i` is numbered `i` steps after the oldest one.
    pub proof fn lemma_packet_number(self, i: int)
        requires
            self.well_formed(),
            0 <= i < self.packets.len(),
        ensures
            self.packets[i].seq_number == seq_plus(self.packets[0].seq_number, i),
    {
        lemma_seq_plus_plus(self.encapsulate.next_seq, -(self.packets.len() as int), i);
    }

    /// The sequence number of the oldest packet.
    pub open spec fn front(self) -> Option<int> {
        if self.packets.len() > 0 {
            Some(self.packets[0].seq_number)
        } else {
            None
        }
    }

    /// The place of the next packet to send.
    pub open spec fn next_index(self) -> int {
        match self.last_sent {
            Some(last) => seq_distance(self.packets[0].seq_number, last) + 1,
            None => 0,
        }
    }

    /// The next packet to send, if one waits.
    pub open spec fn next_packet(self) -> Option<PacketView> {
        if self.packets.len() > 0 && self.next_index() < self.packets.len() {
            Some(self.packets[self.next_index()])
        } else {
            None
        }
    }
}

/// How many entries at the start of a loss list an acknowledgement takes out: those up to
/// the last one that comes before `ack`.
pub open spec fn acked_losses(lost: Seq<int>, ack: int) -> nat
    decreases lost.len(),
{
    if lost.len() == 0 {
        0
    } else if seq_before(lost.last(), ack) {
        lost.len()
    } else {
        acked_losses(lost.drop_last(), ack)
    }
}

/// Where `seq` goes in a loss list: before the first entry that it comes before.
pub open spec fn loss_position(lost: Seq<int>, seq: int) -> int
    decreases lost.len(),
{
    if lost.len() == 0 || seq_before(seq, lost[0]) {
        0
    } else {
        1 + loss_position(lost.skip(1), seq)
    }
}

/// A loss list with `seq` in it.
pub open spec fn with_loss(lost: Seq<int>, seq: int) -> Seq<int> {
    if lost.contains(seq) {
        lost
    } else {
        lost.insert(loss_position(lost, seq), seq)
    }
}

/// A loss list with those of the `reported` sequence numbers in it that lie between `first`
/// and `last`.
pub open spec fn with_losses(lost: Seq<int>, reported: Seq<int>, first: int, last: int) -> Seq<int>
    decreases reported.len(),
{
    if reported.len() == 0 {
        lost
    } else {
        let seq = reported[0];
        let next = if seq_within(seq, first, last) {
            with_loss(lost, seq)
        } else {
            lost
        };
        with_losses(next, reported.drop_first(), first, last)
    }
}

/// How many packets at the start of `packets` belong to the message `msg`.
pub open spec fn message_run(packets: Seq<PacketView>, msg: int) -> nat
    decreases packets.len(),
{
    if packets.len() > 0 && packets[0].message_number == msg {
        1 + message_run(packets.skip(1), msg)
    } else {
        0
    }
}

/// Whether a packet is of no use to the receiver any more at the timestamp `ts_now`.
pub open spec fn too_late(packet: PacketView, latency_window: Duration, ts_now: int) -> bool {
    timestamp_before(
        timestamp_plus(packet.timestamp, latency_window.nanos as int / NANOS_PER_MICRO as int),
        ts_now,
    )
}

/// The packets of one message that were dropped.
pub struct DroppedView {
    pub msg: int,
    pub first: int,
    pub last: int,
}

/// A packet with the encryption and the payload of `seal`.
pub open spec fn sealed(packet: PacketView, seal: (DataEncryption, Bytes)) -> PacketView {
    PacketView { encryption: seal.0, payload: content(seal.1), ..packet }
}

/// Whether `seal` is what `encrypt` gives for a packet.
pub open spec fn seals<F: Fn(&DataPacket) -> (DataEncryption, Bytes)>(
    encrypt: F,
    packet: PacketView,
    seal: (DataEncryption, Bytes),
) -> bool {
    exists|clear: DataPacket| clear@ == packet && #[trigger] call_ensures(encrypt, (&clear,), seal)
}

impl SendBufferView {
    /// The buffer after its next packet was sent.
    pub open spec fn after_pop(self) -> SendBufferView {
        match self.next_packet() {
            Some(packet) => SendBufferView { last_sent: Some(packet.seq_number), ..self },
            None => self,
        }
    }

    /// The buffer after a message was queued.
    pub open spec fn after_push(self, at: Instant, data: Seq<u8>) -> SendBufferView {
        SendBufferView {
            encapsulate: self.encapsulate.after(data.len()),
            packets: self.packets + self.encapsulate.packets(at, data),
            ..self
        }
    }

    /// The packets of a message with the encryption and the payloads of `given`.
    pub open spec fn sealed_packets(
        self,
        at: Instant,
        data: Seq<u8>,
        given: Seq<(DataEncryption, Bytes)>,
    ) -> Seq<PacketView> {
        Seq::new(given.len(), |i: int| sealed(self.encapsulate.packet(at, data, i), given[i]))
    }

    /// The buffer after a message was queued with the encryption and the payloads of `given`.
    pub open spec fn after_sealed_push(
        self,
        at: Instant,
        data: Seq<u8>,
        given: Seq<(DataEncryption, Bytes)>,
    ) -> SendBufferView {
        SendBufferView {
            encapsulate: self.encapsulate.after(data.len()),
            packets: self.packets + self.sealed_packets(at, data, given),
            ..self
        }
    }

    /// Whether `after` is the buffer after the packets of a message were queued, whatever they
    /// carry and whether it is encrypted.
    pub open spec fn pushed(self, at: Instant, data: Seq<u8>, after: SendBufferView) -> bool {
        let count = packet_count(data.len(), self.encapsulate.max_packet_size);
        &&& after == (SendBufferView {
            encapsulate: self.encapsulate.after(data.len()),
            packets: after.packets,
            ..self
        })
        &&& after.packets.len() == self.packets.len() + count
        &&& forall|i: int|
            0 <= i < self.packets.len() ==> #[trigger] after.packets[i] == self.packets[i]
        &&& forall|i: int|
            0 <= i < count ==> {
                let packet = #[trigger] after.packets[self.packets.len() + i];
                packet == PacketView {
                    encryption: packet.encryption,
                    payload: packet.payload,
                    ..self.encapsulate.packet(at, data, i)
                }
            }
    }

    /// Whether nothing waits for an acknowledgement or a retransmission.
    pub open spec fn flushed(self) -> bool {
        self.lost.len() == 0 && self.packets.len() == 0
    }

    /// Whether a packet waits to be sent or retransmitted.
    pub open spec fn has_packets_to_send(self) -> bool {
        self.next_packet() is Some || self.lost.len() > 0
    }

    /// How many packets the buffer holds, in 32 bits.
    pub open spec fn unacked_count(self) -> int {
        self.packets.len() as int % 0x1_0000_0000
    }

    /// Whether an acknowledgement of the packets before `ack` is taken: not where nothing
    /// was sent, nor for packets that are gone, nor for packets that were not sent.
    pub open spec fn takes_ack(self, ack: int) -> bool {
        match (self.front(), self.last_sent) {
            (Some(first), Some(last)) => seq_within(ack, first, seq_plus(last, 1)),
            _ => false,
        }
    }

    /// How many packets an acknowledgement takes out: those that come before the last
    /// acknowledged one, which stays.
    pub open spec fn acked_packets(self, ack: int) -> int {
        let first = self.packets[0].seq_number;
        let last_acked = seq_plus(ack, -1);
        let distance = seq_distance(first, last_acked);
        if !seq_before(first, last_acked) {
            0
        } else if distance < self.packets.len() {
            distance
        } else {
            self.packets.len() as int
        }
    }

    /// The buffer after an acknowledgement that it takes.
    pub open spec fn after_ack(self, ack: int) -> SendBufferView {
        SendBufferView {
            packets: self.packets.skip(self.acked_packets(ack)),
            lost: self.lost.skip(acked_losses(self.lost, ack) as int),
            ..self
        }
    }

    /// The buffer after an acknowledgement, whether it takes it or not.
    pub open spec fn acknowledged(self, ack: int) -> SendBufferView {
        if self.takes_ack(ack) {
            self.after_ack(ack)
        } else {
            self
        }
    }

    /// The buffer after a report of lost packets.
    pub open spec fn after_nak(self, reported: Seq<int>) -> SendBufferView {
        match (self.front(), self.last_sent) {
            (Some(first), Some(last)) => SendBufferView {
                lost: with_losses(self.lost, reported, first, last),
                ..self
            },
            _ => self,
        }
    }

    /// The packet to retransmit next, if there is one: the first in the loss list, if it is
    /// still there.
    pub open spec fn next_lost_packet(self) -> Option<PacketView> {
        if self.lost.len() == 0 || self.packets.len() == 0 {
            None
        } else {
            let offset = seq_distance(self.packets[0].seq_number, self.lost[0]);
            if offset < self.packets.len() {
                Some(PacketView { retransmitted: true, ..self.packets[offset] })
            } else {
                None
            }
        }
    }

    /// The buffer after the first entry of its loss list was taken out.
    pub open spec fn after_pop_lost(self) -> SendBufferView {
        if self.lost.len() > 0 {
            SendBufferView { lost: self.lost.drop_first(), ..self }
        } else {
            self
        }
    }

    /// The buffer after its last packet was taken out.
    pub open spec fn after_flush(self) -> SendBufferView {
        if self.packets.len() == 1 {
            SendBufferView { packets: seq![], last_sent: None, ..self }
        } else {
            self
        }
    }

    /// Whether the oldest packet is too late at the timestamp `ts_now`.
    pub open spec fn front_is_late(self, ts_now: int) -> bool {
        self.packets.len() > 0 && too_late(self.packets[0], self.latency_window, ts_now)
    }

    /// Whether there are several packets and the oldest is too late at the timestamp `ts_now`.
    pub open spec fn has_packets_to_drop(self, ts_now: int) -> bool {
        self.packets.len() > 1 && self.front_is_late(ts_now)
    }

    /// The next packet to send, if its sequence number is a multiple of 16.
    pub open spec fn next_16n_packet(self) -> Option<PacketView> {
        match self.next_packet() {
            Some(packet) if packet.seq_number % 16 == 0 => Some(packet),
            _ => None,
        }
    }

    /// How many packets at the front belong to the oldest packet's message.
    pub open spec fn front_message_len(self) -> int {
        message_run(self.packets, self.packets[0].message_number) as int
    }

    /// The oldest packet's message, as it is reported when it is dropped.
    pub open spec fn front_message(self) -> DroppedView {
        DroppedView {
            msg: self.packets[0].message_number,
            first: self.packets[0].seq_number,
            last: self.packets[self.front_message_len() - 1].seq_number,
        }
    }

    /// The buffer without the oldest packet's message.
    pub open spec fn without_front_message(self) -> SendBufferView {
        let packets = self.packets.skip(self.front_message_len());
        SendBufferView {
            packets,
            last_sent: match self.last_sent {
                Some(last) if packets.len() > 0 && !seq_before(last, packets[0].seq_number) => Some(
                    last,
                ),
                _ => None,
            },
            ..self
        }
    }

    /// The messages that are dropped at the timestamp `ts_now`: from the front on, as long
    /// as the oldest packet is too late.
    pub open spec fn dropped(self, ts_now: int) -> Seq<DroppedView>
        decreases self.packets.len(),
    {
        if self.front_is_late(ts_now) {
            proof {
                lemma_message_run(self.packets, self.packets[0].message_number);
            }
            seq![self.front_message()] + self.without_front_message().dropped(ts_now)
        } else {
            seq![]
        }
    }

    /// The buffer after those messages were dropped.
    pub open spec fn after_drop(self, ts_now: int) -> SendBufferView
        decreases self.packets.len(),
    {
        if self.front_is_late(ts_now) {
            proof {
                lemma_message_run(self.packets, self.packets[0].message_number);
            }
            self.without_front_message().after_drop(ts_now)
        } else {
            self
        }
    }
}

/// Packets that take the next sequence numbers keep a buffer well formed.
pub proof fn lemma_pushed(before: SendBufferView, after: SendBufferView, count: int)
    requires
        before.well_formed(),
        after.packets.len() == before.packets.len() + count,
        count >= 0,
        forall|i: int|
            0 <= i < before.packets.len() ==> #[trigger] after.packets[i] == before.packets[i],
        forall|i: int|
            0 <= i < count ==> (#[trigger] after.packets[before.packets.len() + i]).seq_number
                == seq_plus(before.encapsulate.next_seq, i),
        after.encapsulate.next_seq == seq_plus(before.encapsulate.next_seq, count),
        after.last_sent == before.last_sent,
        after.lost == before.lost,
    ensures
        after.well_formed(),
{
    let next = before.encapsulate.next_seq;
    assert forall|i: int| 0 <= i < after.packets.len() implies (
    #[trigger] after.packets[i]).seq_number == seq_plus(
        after.encapsulate.next_seq,
        i - after.packets.len(),
    ) by {
        lemma_seq_plus_plus(next, count, i - after.packets.len());
        if i >= before.packets.len() {
            let j = i - before.packets.len();
            assert(after.packets[before.packets.len() + j].seq_number == seq_plus(next, j));
        }
    }
}

/// The packets that `message_run` counts, and only those, are the message's first ones.
pub proof fn lemma_message_run(packets: Seq<PacketView>, msg: int)
    ensures
        message_run(packets, msg) <= packets.len(),
        packets.len() > 0 && packets[0].message_number == msg ==> message_run(packets, msg) > 0,
        forall|i: int|
            0 <= i < message_run(packets, msg) ==> (#[trigger] packets[i]).message_number == msg,
        message_run(packets, msg) < packets.len() ==> packets[message_run(
            packets,
            msg,
        ) as int].message_number != msg,
    decreases packets.len(),
{
    if packets.len() > 0 && packets[0].message_number == msg {
        lemma_message_run(packets.skip(1), msg);
        assert forall|i: int| 0 <= i < message_run(packets, msg) implies (
        #[trigger] packets[i]).message_number == msg by {
            if i > 0 {
                assert(packets.skip(1)[i - 1] == packets[i]);
            }
        }
    }
}

/// Which entries of a loss list an acknowledgement takes out.
pub proof fn lemma_acked_losses(lost: Seq<int>, ack: int)
    ensures
        acked_losses(lost, ack) <= lost.len(),
        acked_losses(lost, ack) > 0 ==> seq_before(lost[acked_losses(lost, ack) - 1], ack),
        forall|i: int|
            acked_losses(lost, ack) <= i < lost.len() ==> !seq_before(#[trigger] lost[i], ack),
    decreases lost.len(),
{
    if lost.len() > 0 && !seq_before(lost.last(), ack) {
        lemma_acked_losses(lost.drop_last(), ack);
        assert forall|i: int| acked_losses(lost, ack) <= i < lost.len() implies !seq_before(
            #[trigger] lost[i],
            ack,
        ) by {
            if i < lost.len() - 1 {
                assert(lost.drop_last()[i] == lost[i]);
            }
        }
    }
}

/// Where `loss_position` is.
pub proof fn lemma_loss_position(lost: Seq<int>, seq: int)
    ensures
        0 <= loss_position(lost, seq) <= lost.len(),
        forall|i: int|
            0 <= i < loss_position(lost, seq) ==> !seq_before(seq, #[trigger] lost[i]),
        loss_position(lost, seq) < lost.len() ==> seq_before(seq, lost[loss_position(lost, seq)]),
    decreases lost.len(),
{
    if lost.len() > 0 && !seq_before(seq, lost[0]) {
        lemma_loss_position(lost.skip(1), seq);
        assert forall|i: int| 0 <= i < loss_position(lost, seq) implies !seq_before(
            seq,
            #[trigger] lost[i],
        ) by {
            if i > 0 {
                assert(lost.skip(1)[i - 1] == lost[i]);
            }
        }
    }
}

/// A loss list without duplicates is no longer than there are sequence numbers.
pub proof fn lemma_loss_list_len(lost: Seq<int>)
    requires
        lost.no_duplicates(),
        forall|i: int| 0 <= i < lost.len() ==> is_seq(#[trigger] lost[i]),
    ensures
        lost.len() <= SEQ_MODULUS,
{
    let all = vstd::set_lib::set_int_range(0, SEQ_MODULUS as int);
    vstd::set_lib::lemma_int_range(0, SEQ_MODULUS as int);
    lost.unique_seq_to_set();
    assert(lost.to_set().subset_of(all));
    vstd::set_lib::lemma_len_subset(lost.to_set(), all);
}

/// Adding to a loss list keeps it without duplicates.
pub proof fn lemma_with_loss(lost: Seq<int>, seq: int)
    requires
        lost.no_duplicates(),
        forall|i: int| 0 <= i < lost.len() ==> is_seq(#[trigger] lost[i]),
        is_seq(seq),
    ensures
        with_loss(lost, seq).no_duplicates(),
        forall|i: int| 0 <= i < with_loss(lost, seq).len() ==> is_seq(
            #[trigger] with_loss(lost, seq)[i],
        ),
{
    lemma_loss_position(lost, seq);
}

/// An acknowledgement leaves a buffer well formed.
pub proof fn lemma_ack_keeps_well_formed(v: SendBufferView, ack: int)
    requires
        v.well_formed(),
        v.packets.len() > 0,
    ensures
        v.after_ack(ack).well_formed(),
{
    lemma_acked_losses(v.lost, ack);
}

} // verus!
