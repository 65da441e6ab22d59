//! The sender's buffer: packets that wait to be sent, or for an acknowledgement.
pub mod duties;
pub mod laws;
pub mod messages;
pub mod model;
pub mod runs;

use crate::encapsulate::{packet_count, Encapsulate, EncapsulateView};
use crate::loss_list::{decompress, seq_values, CompressedLossList};
use crate::numbers::{
    lemma_seq_distance_plus, msg_number_is_its_value, seq_before, seq_number_is_its_value,
    seq_plus, MsgNumber, SeqNumber, SEQ_HALF, SEQ_MODULUS,
};
use crate::packet::{content, DataEncryption, DataPacket};
use crate::settings::ConnectionSettings;
use crate::time::{Duration, Instant, TimeStamp, MAX_DURATION_NANOS, NANOS_PER_SECOND};
use bytes::Bytes;
use model::{
    acked_losses, latency_window_nanos, lemma_acked_losses, lemma_loss_list_len,
    lemma_loss_position, lemma_message_run, lemma_pushed, lemma_with_loss, loss_position,
    message_run, seals, with_loss, with_losses, DroppedView, SendBufferView,
};
use std::collections::VecDeque;
use vstd::prelude::*;

verus! {

/// Packets that wait to be sent, or for an acknowledgement.
#[derive(Debug)]
pub struct SendBuffer {
    encapsulate: Encapsulate,
    latency_window: Duration,
    buffer: VecDeque<DataPacket>,
    last_sent: Option<SeqNumber>,
    /// The sequence numbers of the lost packets that the receiver reported, in increasing
    /// order.
    lost_list: Vec<SeqNumber>,
}

impl View for SendBuffer {
    type V = SendBufferView;

    closed spec fn view(&self) -> SendBufferView {
        SendBufferView {
            encapsulate: self.encapsulate@,
            latency_window: self.latency_window,
            packets: self.buffer@.map_values(|p: DataPacket| p@),
            last_sent: match self.last_sent {
                Some(last) => Some(last@),
                None => None,
            },
            lost: seq_values(self.lost_list@),
        }
    }
}

/// A buffer's view holds what the buffer holds.
proof fn buffer_is_seen_as_it_is(b: SendBuffer)
    ensures
        b@.encapsulate == b.encapsulate@,
        b@.latency_window == b.latency_window,
        b@.packets.len() == b.buffer@.len(),
        forall|i: int| 0 <= i < b.buffer@.len() ==> #[trigger] b@.packets[i] == b.buffer@[i]@,
        b@.last_sent is Some <==> b.last_sent is Some,
        b.last_sent matches Some(last) ==> b@.last_sent == Some(last@),
        b@.lost.len() == b.lost_list@.len(),
        forall|i: int| 0 <= i < b.lost_list@.len() ==> #[trigger] b@.lost[i] == b.lost_list@[i]@,
{
}

impl SendBuffer {
    pub fn new(settings: &ConnectionSettings) -> (r: SendBuffer)
        requires
            settings.send_tsbpd_latency.nanos * 2 + settings.send_tsbpd_latency.nanos as int / 2
                <= MAX_DURATION_NANOS,
        ensures
            r@.is_new(),
            r@.encapsulate == (EncapsulateView {
                start: settings.socket_start_time,
                dest_sockid: settings.remote_sockid,
                max_packet_size: settings.max_packet_size as nat,
                next_message: 0,
                next_seq: settings.init_seq_num@,
            }),
            r@.latency_window.nanos == latency_window_nanos(settings.send_tsbpd_latency),
    {
        let latency: u128 = settings.send_tsbpd_latency.nanos;
        let window: u128 = latency * 2 + latency / 2;
        let nanos: u128 = if window < NANOS_PER_SECOND {
            NANOS_PER_SECOND
        } else {
            window
        };
        proof {
            use_type_invariant(&settings.init_seq_num);
        }
        SendBuffer {
            encapsulate: Encapsulate::new(settings),
            latency_window: Duration { nanos },
            buffer: VecDeque::new(),
            last_sent: None,
            lost_list: Vec::new(),
        }
    }

    /// Queues the packets of a message, submitted at the given instant, as they are, and
    /// tells how many there are.
    pub fn push_data(&mut self, data: (Instant, Bytes)) -> (r: u64)
        requires
            old(self)@.well_formed(),
            old(self)@.encapsulate.max_packet_size > 0 || content(data.1).len() == 0,
        ensures
            final(self)@.well_formed(),
            r == packet_count(content(data.1).len(), old(self)@.encapsulate.max_packet_size),
            final(self)@ == old(self)@.after_push(data.0, content(data.1)),
    {
        let mut packets = self.encapsulate.encapsulate(data.0, data.1);
        let count: usize = packets.len();
        self.buffer.append(&mut packets);
        proof {
            assert(self@.packets =~= old(self)@.packets + old(self)@.encapsulate.packets(
                data.0,
                content(data.1),
            ));
            lemma_pushed(old(self)@, self@, count as int);
        }
        count as u64
    }

    /// Queues the packets of a message, submitted at the given instant, each with the
    /// encryption and the payload that `encrypt` gives for it, and tells how many there are.
    pub fn push_encrypted_data<F: Fn(&DataPacket) -> (DataEncryption, Bytes)>(
        &mut self,
        data: (Instant, Bytes),
        encrypt: F,
    ) -> (r: u64)
        requires
            old(self)@.well_formed(),
            old(self)@.encapsulate.max_packet_size > 0 || content(data.1).len() == 0,
            forall|packet: &DataPacket| #[trigger] call_requires(encrypt, (packet,)),
        ensures
            final(self)@.well_formed(),
            r == packet_count(content(data.1).len(), old(self)@.encapsulate.max_packet_size),
            exists|given: Seq<(DataEncryption, Bytes)>|
                {
                    &&& given.len() == r
                    &&& forall|i: int|
                        0 <= i < r ==> seals(
                            encrypt,
                            old(self)@.encapsulate.packet(data.0, content(data.1), i),
                            #[trigger] given[i],
                        )
                    &&& forall|i: int|
                        0 <= i < r ==> {
                            let packet = final(self)@.packets[old(self)@.packets.len() + i];
                            packet.encryption == (#[trigger] given[i]).0 && packet.payload
                                == content(given[i].1)
                        }
                    &&& final(self)@ == #[trigger] old(self)@.after_sealed_push(
                        data.0,
                        content(data.1),
                        given,
                    )
                },
    {
        let ghost at = data.0;
        let ghost whole = content(data.1);
        let ghost before = self@;
        let mut packets = self.encapsulate.encapsulate(data.0, data.1);
        let count: usize = packets.len();
        let ghost clear = packets@;
        let ghost mut given: Seq<(DataEncryption, Bytes)> = seq![];
        assert(clear.skip(0) =~= clear);
        assert(self@.packets =~= before.packets + before.sealed_packets(at, whole, given));
        loop
            invariant
                forall|packet: &DataPacket| #[trigger] call_requires(encrypt, (packet,)),
                given.len() <= clear.len(),
                packets@ == clear.skip(given.len() as int),
                forall|i: int|
                    0 <= i < clear.len() ==> (#[trigger] clear[i])@ == before.encapsulate.packet(
                        at,
                        whole,
                        i,
                    ),
                forall|i: int|
                    0 <= i < given.len() ==> seals(
                        encrypt,
                        before.encapsulate.packet(at, whole, i),
                        #[trigger] given[i],
                    ),
                self@ == (SendBufferView {
                    encapsulate: before.encapsulate.after(whole.len()),
                    packets: before.packets + before.sealed_packets(at, whole, given),
                    ..before
                }),
            ensures
                given.len() == clear.len(),
            decreases packets@.len(),
        {
            let mut packet = match packets.pop_front() {
                Some(packet) => packet,
                None => break ,
            };
            let ghost done = given;
            assert(packet == clear[done.len() as int]);
            let (encryption, payload) = encrypt(&packet);
            proof {
                given = given.push((encryption, payload));
            }
            packet.encryption = encryption;
            packet.payload = payload;
            self.push_packet(packet);
            assert(before.sealed_packets(at, whole, given) =~= before.sealed_packets(
                at,
                whole,
                done,
            ).push(packet@));
            assert(self@.packets =~= before.packets + before.sealed_packets(at, whole, given));
            assert(packets@ =~= clear.skip(given.len() as int));
        }
        proof {
            lemma_pushed(before, self@, count as int);
            assert(self@ == before.after_sealed_push(at, whole, given));
        }
        count as u64
    }

    /// Whether nothing waits for an acknowledgement or a retransmission.
    pub fn is_flushed(&self) -> (r: bool)
        ensures
            r == self@.flushed(),
    {
        self.lost_list.len() == 0 && self.buffer.len() == 0
    }

    /// Takes the next lost packet to retransmit out of the loss list, if there is one. An
    /// entry whose packet is gone is taken out too, and gives no packet.
    pub fn pop_next_lost_packet(&mut self) -> (r: Option<DataPacket>)
        requires
            old(self)@.well_formed(),
        ensures
            final(self)@.well_formed(),
            match r {
                Some(packet) => old(self)@.next_lost_packet() == Some(packet@),
                None => old(self)@.next_lost_packet() is None,
            },
            final(self)@ == old(self)@.after_pop_lost(),
    {
        let next_lost = match self.pop_lost_list() {
            Some(next_lost) => next_lost,
            None => return None,
        };
        let front = match self.front_packet() {
            Some(front) => front,
            None => return None,
        };
        let offset: usize = next_lost.distance_from(front) as usize;
        if offset < self.buffer.len() {
            let mut packet = self.buffer[offset].clone();
            packet.retransmitted = true;
            Some(packet)
        } else {
            None
        }
    }

    /// Whether a packet waits to be sent or retransmitted.
    pub fn has_packets_to_send(&self) -> (r: bool)
        ensures
            r == self@.has_packets_to_send(),
    {
        self.peek_next_packet().is_some() || self.lost_list.len() != 0
    }

    /// The timestamp of packets that are sent at `at`.
    pub fn timestamp_from(&self, at: Instant) -> (r: TimeStamp)
        ensures
            r@ == self@.encapsulate.timestamp(at),
    {
        self.encapsulate.timestamp_from(at)
    }

    /// How many packets the buffer holds, in 32 bits.
    pub fn number_of_unacked_packets(&mut self) -> (r: u32)
        ensures
            r == old(self)@.unacked_count(),
            *final(self) == *old(self),
    {
        let count: u64 = self.buffer.len() as u64;
        (count % 0x1_0000_0000) as u32
    }

    /// Takes the next packet to send, if one waits.
    pub fn pop_next_packet(&mut self) -> (r: Option<DataPacket>)
        requires
            old(self)@.well_formed(),
        ensures
            final(self)@.well_formed(),
            match r {
                Some(packet) => old(self)@.next_packet() == Some(packet@),
                None => old(self)@.next_packet() is None,
            },
            final(self)@ == old(self)@.after_pop(),
    {
        let packet = match self.peek_next_packet() {
            Some(packet) => packet.clone(),
            None => return None,
        };
        proof {
            use_type_invariant(&packet.seq_number);
        }
        self.last_sent = Some(packet.seq_number);
        Some(packet)
    }

    /// Takes the next packet to send, if one waits and its sequence number is a multiple
    /// of 16.
    pub fn pop_next_16n_packet(&mut self) -> (r: Option<DataPacket>)
        requires
            old(self)@.well_formed(),
        ensures
            final(self)@.well_formed(),
            match r {
                Some(packet) => {
                    &&& old(self)@.next_packet() == Some(packet@)
                    &&& packet@.seq_number % 16 == 0
                    &&& final(self)@ == old(self)@.after_pop()
                },
                None => {
                    &&& old(self)@.next_packet() matches Some(next) ==> next.seq_number % 16 != 0
                    &&& final(self)@ == old(self)@
                },
            },
            match r {
                Some(packet) => old(self)@.next_16n_packet() == Some(packet@),
                None => old(self)@.next_16n_packet() is None,
            },
    {
        match self.peek_next_packet() {
            Some(packet) => {
                if packet.seq_number.as_raw() % 16 != 0 {
                    return None;
                }
            },
            None => return None,
        }
        self.pop_next_packet()
    }

    /// Takes the last packet out, if it is the only one and the buffer is to be drained.
    pub fn flush_on_close(&mut self, should_drain: bool) -> (r: Option<DataPacket>)
        requires
            old(self)@.well_formed(),
        ensures
            final(self)@.well_formed(),
            match r {
                Some(packet) => {
                    &&& should_drain
                    &&& old(self)@.packets == seq![packet@]
                    &&& final(self)@ == old(self)@.after_flush()
                },
                None => {
                    &&& !should_drain || old(self)@.packets.len() != 1
                    &&& final(self)@ == old(self)@
                },
            },
    {
        if should_drain && self.buffer.len() == 1 {
            self.last_sent = None;
            let packet = self.pop_front_packet();
            assert(self@.packets =~= seq![]);
            assert(old(self)@.packets =~= seq![packet.unwrap()@]);
            packet
        } else {
            None
        }
    }

    /// Takes an acknowledgement of the packets before `ack_number`, and tells how many
    /// packets went out of the buffer and how many out of the loss list. The last
    /// acknowledged packet stays in the buffer.
    pub fn update_largest_acked_seq_number(&mut self, ack_number: SeqNumber) -> (r: Option<
        (u32, u32),
    >)
        requires
            old(self)@.well_formed(),
        ensures
            final(self)@.well_formed(),
            match r {
                Some((received, recovered)) => {
                    &&& old(self)@.takes_ack(ack_number@)
                    &&& received == old(self)@.acked_packets(ack_number@)
                    &&& recovered == acked_losses(old(self)@.lost, ack_number@)
                    &&& final(self)@ == old(self)@.after_ack(ack_number@)
                },
                None => !old(self)@.takes_ack(ack_number@) && final(self)@ == old(self)@,
            },
    {
        let first = match self.front_packet() {
            Some(first) => first,
            None => return None,
        };
        let last = match self.last_sent {
            Some(last) => last,
            None => return None,
        };
        if !ack_number.is_within(first, last.plus(1)) {
            return None;
        }
        let recovered_count: u32 = self.recover_before(ack_number);
        let received_count: u32 = self.receive_before(ack_number);
        Some((received_count, recovered_count))
    }

    /// Puts those of the reported sequence numbers into the loss list that were sent and are
    /// still in the buffer.
    pub fn add_to_loss_list(&mut self, nak: CompressedLossList)
        requires
            old(self)@.well_formed(),
        ensures
            final(self)@.well_formed(),
            final(self)@ == old(self)@.after_nak(decompress(nak@)),
    {
        if let Some(first) = self.front_packet() {
            if let Some(last) = self.last_sent {
                let ghost before = self@;
                let mut reported = nak.iter_decompressed();
                let ghost all = reported@;
                loop
                    invariant
                        before.well_formed(),
                        self@.well_formed(),
                        with_losses(self@.lost, reported@, first@, last@) == with_losses(
                            before.lost,
                            all,
                            first@,
                            last@,
                        ),
                        self@ == (SendBufferView { lost: self@.lost, ..before }),
                    ensures
                        reported@.len() == 0,
                    decreases reported@.len(),
                {
                    let seq = match reported.next() {
                        Some(seq) => seq,
                        None => break ,
                    };
                    if seq.is_within(first, last) {
                        self.insert_lost(seq);
                    }
                }
            }
        }
    }

    /// Puts `seq` into the loss list.
    fn insert_lost(&mut self, seq: SeqNumber)
        requires
            old(self)@.well_formed(),
        ensures
            final(self)@.well_formed(),
            final(self)@ == (SendBufferView {
                lost: with_loss(old(self)@.lost, seq@),
                ..old(self)@
            }),
    {
        let ghost lost = self@.lost;
        proof {
            use_type_invariant(&seq);
            lemma_loss_position(lost, seq@);
            lemma_with_loss(lost, seq@);
        }
        let mut i: usize = 0;
        let mut position: Option<usize> = None;
        while i < self.lost_list.len()
            invariant
                *self == *old(self),
                old(self)@.well_formed(),
                lost == self@.lost,
                lost.len() == self.lost_list@.len(),
                i <= lost.len(),
                forall|j: int| 0 <= j < i ==> #[trigger] lost[j] != seq@,
                0 <= loss_position(lost, seq@) <= lost.len(),
                forall|j: int|
                    0 <= j < loss_position(lost, seq@) ==> !seq_before(seq@, #[trigger] lost[j]),
                loss_position(lost, seq@) < lost.len() ==> seq_before(
                    seq@,
                    lost[loss_position(lost, seq@)],
                ),
                match position {
                    Some(p) => p == loss_position(lost, seq@),
                    None => i <= loss_position(lost, seq@),
                },
            decreases lost.len() - i,
        {
            let entry = self.lost_list[i];
            assert(lost[i as int] == entry@);
            if entry == seq {
                return ;
            }
            proof {
                broadcast use seq_number_is_its_value;

                assert(entry@ != seq@);
            }
            if position.is_none() && seq < entry {
                position = Some(i);
            }
            i = i + 1;
        }
        let at: usize = match position {
            Some(at) => at,
            None => self.lost_list.len(),
        };
        self.lost_list.insert(at, seq);
        assert(self@.lost =~= lost.insert(at as int, seq@));
    }

    /// Whether there are several packets and the oldest is too late at `now`.
    pub fn has_packets_to_drop(&self, now: Instant) -> (r: bool)
        ensures
            r == (self@.packets.len() > 1 && self@.front_is_late(self@.encapsulate.timestamp(now))),
            r == self@.has_packets_to_drop(self@.encapsulate.timestamp(now)),
    {
        let ts_now = self.timestamp_from(now);
        self.buffer.len() > 1 && self.front_is_late(ts_now)
    }

    /// Whether the oldest packet is too late at the timestamp `ts_now`.
    fn front_is_late(&self, ts_now: TimeStamp) -> (r: bool)
        ensures
            r == self@.front_is_late(ts_now@),
    {
        self.buffer.len() > 0 && self.buffer[0].timestamp.plus(self.latency_window).is_before(
            ts_now,
        )
    }

    /// Drops messages, each when the iterator is asked for the next one, from the front on,
    /// as long as the oldest packet is too late at `now`.
    pub fn drop_too_late_packets(&mut self, now: Instant) -> (r: DroppedPacketsIterator<'_>)
        ensures
            r.ts_now@ == old(self)@.encapsulate.timestamp(now),
            *r.buffer == *old(self),
            *final(r.buffer) == *final(self),
    {
        let ts_now = self.timestamp_from(now);
        DroppedPacketsIterator { ts_now, buffer: self }
    }

    /// Takes entries out of the loss list until none comes before `ack_number`, and counts
    /// them.
    fn recover_before(&mut self, ack_number: SeqNumber) -> (r: u32)
        requires
            old(self)@.well_formed(),
        ensures
            final(self)@.well_formed(),
            r == acked_losses(old(self)@.lost, ack_number@),
            final(self)@ == (SendBufferView {
                lost: old(self)@.lost.skip(r as int),
                ..old(self)@
            }),
    {
        let ghost before = self@;
        let ghost acked = acked_losses(before.lost, ack_number@);
        let mut count: u32 = 0;
        proof {
            lemma_acked_losses(before.lost, ack_number@);
            lemma_loss_list_len(before.lost);
            assert(before.lost.skip(0) =~= before.lost);
        }
        loop
            invariant
                count <= acked <= before.lost.len() <= SEQ_MODULUS,
                self@ == (SendBufferView { lost: before.lost.skip(count as int), ..before }),
                acked > 0 ==> seq_before(before.lost[acked - 1], ack_number@),
                forall|i: int|
                    acked <= i < before.lost.len() ==> !seq_before(
                        #[trigger] before.lost[i],
                        ack_number@,
                    ),
            ensures
                count == acked,
            decreases self@.lost.len(),
        {
            if self.peek_next_lost(ack_number).is_none() {
                proof {
                    if count < acked {
                        assert(self@.lost[acked - 1 - count] == before.lost[acked - 1]);
                    }
                }
                break ;
            }
            let _ = self.pop_lost_list();
            count = count + 1;
            assert(self@.lost =~= before.lost.skip(count as int));
        }
        count
    }

    /// Takes packets out of the buffer while they come before the last one that an
    /// acknowledgement of `ack_number` covers, and counts them.
    fn receive_before(&mut self, ack_number: SeqNumber) -> (r: u32)
        requires
            old(self)@.well_formed(),
            old(self)@.packets.len() > 0,
        ensures
            final(self)@.well_formed(),
            r == old(self)@.acked_packets(ack_number@),
            final(self)@ == (SendBufferView {
                packets: old(self)@.packets.skip(r as int),
                ..old(self)@
            }),
    {
        let ghost before = self@;
        let ghost acked = before.acked_packets(ack_number@);
        let last_acked = ack_number.minus(1);
        let mut count: u32 = 0;
        assert(before.packets.skip(0) =~= before.packets);
        loop
            invariant
                before.well_formed(),
                before.packets.len() > 0,
                acked == before.acked_packets(ack_number@),
                last_acked@ == seq_plus(ack_number@, -1),
                count <= acked <= SEQ_HALF,
                acked <= before.packets.len(),
                self@ == (SendBufferView { packets: before.packets.skip(count as int), ..before }),
            ensures
                count == acked,
            decreases self@.packets.len(),
        {
            proof {
                if count < before.packets.len() {
                    before.lemma_packet_number(count as int);
                    lemma_seq_distance_plus(
                        before.packets[0].seq_number,
                        last_acked@,
                        count as int,
                    );
                }
            }
            match self.front_packet() {
                Some(front) if front < last_acked => {
                    let _ = self.pop_front_packet();
                    count = count + 1;
                    assert(self@.packets =~= before.packets.skip(count as int));
                },
                _ => break ,
            }
        }
        count
    }

    /// Takes the packets of the oldest packet's message out.
    fn drop_front_message(&mut self) -> (r: DroppedPackets)
        requires
            old(self)@.well_formed(),
            old(self)@.packets.len() > 0,
        ensures
            final(self)@.well_formed(),
            r@ == old(self)@.front_message(),
            final(self)@ == old(self)@.without_front_message(),
    {
        let ghost before = self@;
        let msg = self.buffer[0].message_number;
        let first = self.buffer[0].seq_number;
        let mut last = first;
        let ghost mut count: int = 0;
        proof {
            lemma_message_run(before.packets, msg@);
            assert(before.packets.skip(0) =~= before.packets);
        }
        while self.buffer.len() > 0 && self.buffer[0].message_number == msg
            invariant
                before.packets.len() > 0,
                0 <= count <= message_run(before.packets, msg@) <= before.packets.len(),
                forall|i: int|
                    0 <= i < message_run(before.packets, msg@) ==> (
                    #[trigger] before.packets[i]).message_number == msg@,
                message_run(before.packets, msg@) < before.packets.len()
                    ==> before.packets[message_run(before.packets, msg@) as int].message_number
                    != msg@,
                self@ == (SendBufferView { packets: before.packets.skip(count), ..before }),
                last@ == before.packets[if count > 0 {
                    count - 1
                } else {
                    0
                }].seq_number,
            decreases self@.packets.len(),
        {
            assert(self@.packets[0] == self.buffer@[0]@);
            assert(self@.packets[0] == before.packets[count]);
            last = self.buffer[0].seq_number;
            let _ = self.pop_front_packet();
            proof {
                count = count + 1;
                assert(self@.packets =~= before.packets.skip(count));
            }
        }
        proof {
            broadcast use msg_number_is_its_value;

            if count < message_run(before.packets, msg@) {
                assert(self@.packets[0] == self.buffer@[0]@);
                assert(self@.packets[0] == before.packets[count]);
            }
        }
        self.last_sent = match (self.front_packet(), self.last_sent) {
            (Some(front), Some(back)) if back >= front => Some(back),
            _ => None,
        };
        DroppedPackets { msg, first, last }
    }

    /// Puts a packet at the end.
    fn push_packet(&mut self, packet: DataPacket)
        ensures
            final(self)@ == (SendBufferView {
                packets: old(self)@.packets.push(packet@),
                ..old(self)@
            }),
    {
        self.buffer.push_back(packet);
        assert(self@.packets =~= old(self)@.packets.push(packet@));
    }

    /// Takes the oldest packet out.
    fn pop_front_packet(&mut self) -> (r: Option<DataPacket>)
        ensures
            match r {
                Some(packet) => {
                    &&& old(self)@.packets.len() > 0
                    &&& packet@ == old(self)@.packets[0]
                    &&& final(self)@ == (SendBufferView {
                        packets: old(self)@.packets.drop_first(),
                        ..old(self)@
                    })
                },
                None => old(self)@.packets.len() == 0 && final(self)@ == old(self)@,
            },
    {
        let packet = self.buffer.pop_front();
        assert(packet is Some ==> self@.packets =~= old(self)@.packets.drop_first());
        packet
    }

    fn front_packet(&self) -> (r: Option<SeqNumber>)
        ensures
            match r {
                Some(seq) => self@.front() == Some(seq@),
                None => self@.front() is None,
            },
    {
        if self.buffer.len() == 0 {
            None
        } else {
            Some(self.buffer[0].seq_number)
        }
    }

    fn peek_next_packet(&self) -> (r: Option<&DataPacket>)
        ensures
            match r {
                Some(packet) => self@.next_packet() == Some(packet@),
                None => self@.next_packet() is None,
            },
    {
        let first = match self.front_packet() {
            Some(first) => first,
            None => return None,
        };
        let index: usize = match self.last_sent {
            Some(last) => last.distance_from(first) as usize + 1,
            None => 0,
        };
        if index < self.buffer.len() {
            Some(&self.buffer[index])
        } else {
            None
        }
    }

    /// Takes the first entry out of the loss list.
    fn pop_lost_list(&mut self) -> (r: Option<SeqNumber>)
        ensures
            match r {
                Some(seq) => {
                    &&& old(self)@.lost.len() > 0
                    &&& seq@ == old(self)@.lost[0]
                    &&& final(self)@ == (SendBufferView {
                        lost: old(self)@.lost.drop_first(),
                        ..old(self)@
                    })
                },
                None => old(self)@.lost.len() == 0 && final(self)@ == old(self)@,
            },
    {
        if self.lost_list.len() == 0 {
            None
        } else {
            let next = self.lost_list.remove(0);
            assert(self@.lost =~= old(self)@.lost.drop_first());
            Some(next)
        }
    }

    /// The first entry of the loss list that comes before `seq_num`.
    fn peek_next_lost(&self, seq_num: SeqNumber) -> (r: Option<SeqNumber>)
        ensures
            match r {
                Some(seq) => exists|i: int|
                    0 <= i < self@.lost.len() && #[trigger] self@.lost[i] == seq@ && seq_before(
                        self@.lost[i],
                        seq_num@,
                    ) && forall|j: int| 0 <= j < i ==> !seq_before(#[trigger] self@.lost[j], seq_num@),
                None => forall|i: int|
                    0 <= i < self@.lost.len() ==> !seq_before(#[trigger] self@.lost[i], seq_num@),
            },
    {
        let mut i: usize = 0;
        while i < self.lost_list.len()
            invariant
                i <= self@.lost.len(),
                self@.lost.len() == self.lost_list@.len(),
                forall|j: int| 0 <= j < i ==> !seq_before(#[trigger] self@.lost[j], seq_num@),
            decreases self.lost_list.len() - i,
        {
            if self.lost_list[i] < seq_num {
                assert(self@.lost[i as int] == self.lost_list@[i as int]@);
                return Some(self.lost_list[i]);
            }
            assert(self@.lost[i as int] == self.lost_list@[i as int]@);
            i = i + 1;
        }
        None
    }
}

/// The packets of one message that were dropped because they came too late.
#[derive(Debug, PartialEq, Eq)]
pub struct DroppedPackets {
    pub msg: MsgNumber,
    pub first: SeqNumber,
    pub last: SeqNumber,
}

impl View for DroppedPackets {
    type V = DroppedView;

    open spec fn view(&self) -> DroppedView {
        DroppedView { msg: self.msg@, first: self.first@, last: self.last@ }
    }
}

/// Drops messages that come too late, one after the other.
pub struct DroppedPacketsIterator<'a> {
    pub ts_now: TimeStamp,
    pub buffer: &'a mut SendBuffer,
}

impl<'a> DroppedPacketsIterator<'a> {
    /// Drops the next message, if the oldest packet is too late.
    pub fn next(&mut self) -> (r: Option<DroppedPackets>)
        requires
            old(self).buffer@.well_formed(),
        ensures
            final(self).buffer@.well_formed(),
            final(self).ts_now == old(self).ts_now,
            *final(final(self).buffer) == *final(old(self).buffer),
            match r {
                Some(dropped) => {
                    &&& old(self).buffer@.front_is_late(old(self).ts_now@)
                    &&& dropped@ == old(self).buffer@.front_message()
                    &&& final(self).buffer@ == old(self).buffer@.without_front_message()
                },
                None => {
                    &&& !old(self).buffer@.front_is_late(old(self).ts_now@)
                    &&& final(self).buffer@ == old(self).buffer@
                },
            },
    {
        if !self.buffer.front_is_late(self.ts_now) {
            return None;
        }
        Some(self.buffer.drop_front_message())
    }

    /// Drops every message that is to be dropped, and lists them.
    pub fn collect(self) -> (r: Vec<DroppedPackets>)
        requires
            self.buffer@.well_formed(),
        ensures
            final(self.buffer)@.well_formed(),
            r@.map_values(|d: DroppedPackets| d@) == old(self.buffer)@.dropped(self.ts_now@),
            final(self.buffer)@ == old(self.buffer)@.after_drop(self.ts_now@),
    {
        let ghost before = self.buffer@;
        let ghost ts_now = self.ts_now@;
        let mut messages = self;
        let mut dropped: Vec<DroppedPackets> = Vec::new();
        assert(dropped@.map_values(|d: DroppedPackets| d@) + before.dropped(ts_now)
            =~= before.dropped(ts_now));
        loop
            invariant
                messages.buffer@.well_formed(),
                messages.ts_now@ == ts_now,
                *final(messages.buffer) == *final(self.buffer),
                dropped@.map_values(|d: DroppedPackets| d@) + messages.buffer@.dropped(ts_now)
                    == before.dropped(ts_now),
                messages.buffer@.after_drop(ts_now) == before.after_drop(ts_now),
            ensures
                !messages.buffer@.front_is_late(ts_now),
            decreases messages.buffer@.packets.len(),
        {
            let ghost current = messages.buffer@;
            proof {
                if current.packets.len() > 0 {
                    lemma_message_run(current.packets, current.packets[0].message_number);
                }
            }
            let ghost listed = dropped@.map_values(|d: DroppedPackets| d@);
            match messages.next() {
                Some(message) => {
                    dropped.push(message);
                    assert(dropped@.map_values(|d: DroppedPackets| d@) =~= listed.push(
                        current.front_message(),
                    ));
                    assert(listed.push(current.front_message()) + messages.buffer@.dropped(ts_now)
                        =~= listed + current.dropped(ts_now));
                },
                None => break ,
            }
        }
        assert(messages.buffer@.dropped(ts_now) =~= seq![]);
        assert(dropped@.map_values(|d: DroppedPackets| d@) =~= before.dropped(ts_now));
        dropped
    }
}

} // verus!
