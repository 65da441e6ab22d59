//! Cutting messages into packets.
use crate::numbers::{msg_next, seq_plus, MsgNumber, SeqNumber, SocketId};
use crate::packet::{content, DataEncryption, DataPacket, PacketLocation, PacketView};
use crate::settings::ConnectionSettings;
use crate::time::{micros_between, timestamp_plus, Instant, TimeStamp};
use bytes::Bytes;
use std::collections::VecDeque;
use vstd::prelude::*;

verus! {

/// How many packets carry a message of `len` bytes, `max` in each: at least one.
pub open spec fn packet_count(len: nat, max: nat) -> nat {
    if len == 0 {
        1
    } else {
        ((len - 1) / (max as int) + 1) as nat
    }
}

/// Where the packet at `index` stands among the `count` packets of its message.
pub open spec fn location(index: int, count: nat) -> PacketLocation {
    if count == 1 {
        PacketLocation::Only
    } else if index == 0 {
        PacketLocation::First
    } else if index == count - 1 {
        PacketLocation::Last
    } else {
        PacketLocation::Middle
    }
}

/// The part of `data` that the packet at `index` carries, `max` bytes in each packet.
pub open spec fn chunk(data: Seq<u8>, max: nat, index: int) -> Seq<u8> {
    let end = (index + 1) * max;
    data.subrange(index * max, if end < data.len() { end } else { data.len() as int })
}

/// What an `Encapsulate` holds.
pub struct EncapsulateView {
    pub start: Instant,
    pub dest_sockid: SocketId,
    pub max_packet_size: nat,
    pub next_message: int,
    pub next_seq: int,
}

impl EncapsulateView {
    /// The timestamp of packets that are sent at `at`.
    pub open spec fn timestamp(self, at: Instant) -> int {
        timestamp_plus(0, micros_between(self.start, at))
    }

    /// The packet at `index` among the packets that carry `data`, submitted at `at`.
    pub open spec fn packet(self, at: Instant, data: Seq<u8>, index: int) -> PacketView {
        PacketView {
            seq_number: seq_plus(self.next_seq, index),
            message_loc: location(index, packet_count(data.len(), self.max_packet_size)),
            in_order_delivery: false,
            encryption: DataEncryption::Clear,
            retransmitted: false,
            message_number: self.next_message,
            timestamp: self.timestamp(at),
            dest_sockid: self.dest_sockid,
            payload: chunk(data, self.max_packet_size, index),
        }
    }

    /// The packets that carry `data`, submitted at `at`.
    pub open spec fn packets(self, at: Instant, data: Seq<u8>) -> Seq<PacketView> {
        Seq::new(packet_count(data.len(), self.max_packet_size), |i: int| self.packet(at, data, i))
    }

    /// The state after a message of `len` bytes.
    pub open spec fn after(self, len: nat) -> EncapsulateView {
        EncapsulateView {
            next_message: msg_next(self.next_message),
            next_seq: seq_plus(
                self.next_seq,
                packet_count(len, self.max_packet_size) as int,
            ),
            ..self
        }
    }
}

/// Numbers messages and packets, and cuts messages into packets.
#[derive(Debug)]
pub struct Encapsulate {
    start: Instant,
    dest_sockid: SocketId,
    max_packet_size: usize,
    next_message: MsgNumber,
    next_seq: SeqNumber,
}

impl View for Encapsulate {
    type V = EncapsulateView;

    closed spec fn view(&self) -> EncapsulateView {
        EncapsulateView {
            start: self.start,
            dest_sockid: self.dest_sockid,
            max_packet_size: self.max_packet_size as nat,
            next_message: self.next_message@,
            next_seq: self.next_seq@,
        }
    }
}

/// After `count` full packets, whether what is left fits in one more packet.
proof fn lemma_remaining_packets(len: nat, max: nat, count: nat)
    requires
        max > 0,
        count == 0 || count * max < len,
    ensures
        len - count * max > max ==> count + 2 <= packet_count(len, max) && (count + 1) * max < len,
        len - count * max <= max ==> count + 1 == packet_count(len, max),
{
    assert((count + 1) * max == count * max + max) by (nonlinear_arith);
    if len > 0 {
        let last = (len - 1) as int;
        let whole = last / (max as int);
        vstd::arithmetic::div_mod::lemma_fundamental_div_mod(last, max as int);
        vstd::arithmetic::div_mod::lemma_mod_bound(last, max as int);
        assert(max * whole == whole * max) by (nonlinear_arith);
        if len - count * max > max {
            assert(whole >= count + 1) by (nonlinear_arith)
                requires
                    whole * max + max > last,
                    last >= (count + 1) * max,
                    max > 0,
            ;
        } else {
            assert(whole == count) by (nonlinear_arith)
                requires
                    whole * max <= last < whole * max + max,
                    count * max <= last < (count + 1) * max,
                    max > 0,
            ;
        }
    }
}

/// A message has at least one packet.
pub proof fn lemma_packet_count(len: nat, max: nat)
    requires
        max > 0 || len == 0,
    ensures
        packet_count(len, max) > 0,
{
    if len > 0 {
        vstd::arithmetic::div_mod::lemma_div_pos_is_pos(len - 1, max as int);
    }
}

/// The packets of a message cover it, and each starts within it.
pub proof fn lemma_packets_cover(len: nat, max: nat, i: int)
    requires
        max > 0,
        0 <= i < packet_count(len, max),
    ensures
        0 <= i * max <= len,
        len > 0 ==> i * max < len,
        (i + 1) * max == i * max + max,
        packet_count(len, max) * max >= len,
{
    assert((i + 1) * max == i * max + max) by (nonlinear_arith);
    assert(i * max >= 0) by (nonlinear_arith)
        requires
            i >= 0,
            max > 0,
    ;
    if len > 0 {
        let last = (len - 1) as int;
        let whole = last / (max as int);
        vstd::arithmetic::div_mod::lemma_fundamental_div_mod(last, max as int);
        vstd::arithmetic::div_mod::lemma_mod_bound(last, max as int);
        assert(i * max <= last && (whole + 1) * max > last) by (nonlinear_arith)
            requires
                i <= whole,
                last == max * whole + last % (max as int),
                0 <= last % (max as int) < max,
                max > 0,
        ;
    } else {
        assert(0 * max == 0) by (nonlinear_arith);
    }
}

impl Encapsulate {
    pub fn new(settings: &ConnectionSettings) -> (r: Encapsulate)
        ensures
            r@ == (EncapsulateView {
                start: settings.socket_start_time,
                dest_sockid: settings.remote_sockid,
                max_packet_size: settings.max_packet_size as nat,
                next_message: 0,
                next_seq: settings.init_seq_num@,
            }),
    {
        Encapsulate {
            start: settings.socket_start_time,
            dest_sockid: settings.remote_sockid,
            max_packet_size: settings.max_packet_size,
            next_message: MsgNumber::new_truncate(0),
            next_seq: settings.init_seq_num,
        }
    }

    /// The timestamp of packets that are sent at `at`.
    pub fn timestamp_from(&self, at: Instant) -> (r: TimeStamp)
        ensures
            r@ == self@.timestamp(at),
    {
        TimeStamp::of_instant(self.start, at)
    }

    /// Makes the packet that carries `payload` and takes the next sequence number.
    fn next_packet(
        &mut self,
        timestamp: TimeStamp,
        message_loc: PacketLocation,
        payload: Bytes,
    ) -> (r: DataPacket)
        ensures
            r@ == (PacketView {
                seq_number: old(self)@.next_seq,
                message_loc,
                in_order_delivery: false,
                encryption: DataEncryption::Clear,
                retransmitted: false,
                message_number: old(self)@.next_message,
                timestamp: timestamp@,
                dest_sockid: old(self)@.dest_sockid,
                payload: content(payload),
            }),
            final(self)@ == (EncapsulateView {
                next_seq: seq_plus(old(self)@.next_seq, 1),
                ..old(self)@
            }),
    {
        let seq_number = self.next_seq;
        self.next_seq = seq_number.plus(1);
        DataPacket {
            seq_number,
            message_loc,
            in_order_delivery: false,
            encryption: DataEncryption::Clear,
            retransmitted: false,
            message_number: self.next_message,
            timestamp,
            dest_sockid: self.dest_sockid,
            payload,
        }
    }

    /// Cuts the message `data`, submitted at `at`, into packets.
    pub fn encapsulate(&mut self, at: Instant, data: Bytes) -> (r: VecDeque<DataPacket>)
        requires
            old(self)@.max_packet_size > 0 || content(data).len() == 0,
        ensures
            r@.len() == packet_count(content(data).len(), old(self)@.max_packet_size),
            forall|i: int|
                0 <= i < r@.len() ==> #[trigger] r@[i]@ == old(self)@.packet(at, content(data), i),
            final(self)@ == old(self)@.after(content(data).len()),
    {
        let timestamp = self.timestamp_from(at);
        let max = self.max_packet_size;
        let mut packets: VecDeque<DataPacket> = VecDeque::new();
        let mut rest = data;
        let ghost whole = content(data);
        let ghost before = self@;
        let ghost count = packet_count(whole.len(), max as nat);
        assert(whole.subrange(0, whole.len() as int) == whole);
        proof {
            use_type_invariant(&self.next_seq);
        }
        while rest.len() > max
            invariant
                max > 0 || whole.len() == 0,
                count == packet_count(whole.len(), max as nat),
                before.max_packet_size == max,
                timestamp@ == before.timestamp(at),
                packets@.len() * max <= whole.len(),
                packets@.len() == 0 || packets@.len() * max < whole.len(),
                content(rest) == whole.subrange(packets@.len() * max, whole.len() as int),
                forall|i: int|
                    0 <= i < packets@.len() ==> #[trigger] packets@[i]@ == before.packet(
                        at,
                        whole,
                        i,
                    ),
                self@ == (EncapsulateView {
                    next_seq: seq_plus(before.next_seq, packets@.len() as int),
                    ..before
                }),
            decreases content(rest).len(),
        {
            let ghost done = packets@.len();
            proof {
                lemma_remaining_packets(whole.len(), max as nat, done);
                assert((done + 1) * max == done * max + max) by (nonlinear_arith);
            }
            let payload = rest.split_to(max);
            assert(content(payload) =~= chunk(whole, max as nat, done as int));
            let message_loc = if packets.len() == 0 {
                PacketLocation::First
            } else {
                PacketLocation::Middle
            };
            let packet = self.next_packet(timestamp, message_loc, payload);
            packets.push_back(packet);
        }
        proof {
            if max > 0 {
                lemma_remaining_packets(whole.len(), max as nat, packets@.len());
            }
            let done = packets@.len();
            assert((done + 1) * max == done * max + max) by (nonlinear_arith);
        }
        let message_loc = if packets.len() == 0 {
            PacketLocation::Only
        } else {
            PacketLocation::Last
        };
        let packet = self.next_packet(timestamp, message_loc, rest);
        packets.push_back(packet);
        self.next_message = self.next_message.next();
        packets
    }
}

/// All packets of a message have its number, the timestamp of the instant at which it was
/// submitted and the peer's socket, and are numbered one after the other from the next
/// sequence number on. They are in clear and no retransmissions.
pub proof fn packets_belong_to_the_message(e: EncapsulateView, at: Instant, data: Seq<u8>, i: int)
    requires
        0 <= i < e.packets(at, data).len(),
    ensures
        ({
            let packet = e.packets(at, data)[i];
            &&& packet == e.packet(at, data, i)
            &&& packet.message_number == e.next_message
            &&& packet.dest_sockid == e.dest_sockid
            &&& packet.seq_number == (e.next_seq + i) % 0x8000_0000
            &&& packet.timestamp == e.timestamp(at)
            &&& packet.encryption == DataEncryption::Clear
            &&& !packet.retransmitted
            &&& !packet.in_order_delivery
        }),
{
}

/// The timestamp of an instant counts the whole microseconds since the connection's start.
pub proof fn packets_are_stamped_in_microseconds(e: EncapsulateView, at: Instant)
    requires
        e.start.nanos <= at.nanos,
    ensures
        e.timestamp(at) == ((at.nanos - e.start.nanos) / 1_000) % 0x1_0000_0000,
{
}

/// The first packet of a message is marked as the first one, the last as the last, and those
/// between them as such; a packet that is alone is marked as the only one.
pub proof fn packets_are_marked_by_their_place(
    e: EncapsulateView,
    at: Instant,
    data: Seq<u8>,
    i: int,
)
    requires
        0 <= i < e.packets(at, data).len(),
    ensures
        ({
            let packets = e.packets(at, data);
            let mark = packets[i].message_loc;
            &&& mark == PacketLocation::Only <==> packets.len() == 1
            &&& mark == PacketLocation::First <==> i == 0 && packets.len() > 1
            &&& mark == PacketLocation::Last <==> i == packets.len() - 1 && packets.len() > 1
            &&& mark == PacketLocation::Middle <==> 0 < i < packets.len() - 1
        }),
{
}

/// Each byte of a message is carried by the packet that its place falls into, at its place
/// there.
pub proof fn each_byte_is_carried(e: EncapsulateView, at: Instant, data: Seq<u8>, j: int)
    requires
        e.max_packet_size > 0,
        0 <= j < data.len(),
    ensures
        ({
            let max = e.max_packet_size as int;
            let packets = e.packets(at, data);
            &&& 0 <= j / max < packets.len()
            &&& 0 <= j % max < packets[j / max].payload.len()
            &&& packets[j / max].payload[j % max] == data[j]
        }),
{
    let max = e.max_packet_size as int;
    let i = j / max;
    let last = data.len() - 1;
    vstd::arithmetic::div_mod::lemma_fundamental_div_mod(j, max);
    vstd::arithmetic::div_mod::lemma_mod_bound(j, max);
    vstd::arithmetic::div_mod::lemma_div_pos_is_pos(j, max);
    vstd::arithmetic::div_mod::lemma_div_is_ordered(j, last, max);
    lemma_packets_cover(data.len(), e.max_packet_size, i);
    assert(i * max == max * i) by (nonlinear_arith);
    assert(e.packets(at, data)[i].payload == chunk(data, e.max_packet_size, i));
    assert(chunk(data, e.max_packet_size, i)[j % max] == data[i * max + j % max]);
}

/// All packets of a message but the last are full, and the last carries the rest. A message
/// that is empty has one packet, which is empty; the others have no empty packets.
pub proof fn packets_are_full_but_the_last(e: EncapsulateView, at: Instant, data: Seq<u8>, i: int)
    requires
        e.max_packet_size > 0,
        0 <= i < e.packets(at, data).len(),
    ensures
        ({
            let max = e.max_packet_size;
            let packets = e.packets(at, data);
            &&& i < packets.len() - 1 ==> packets[i].payload.len() == max
            &&& i == packets.len() - 1 ==> packets[i].payload.len() == data.len() - i * max
            &&& packets[i].payload.len() <= max
            &&& data.len() > 0 ==> packets[i].payload.len() > 0
            &&& data.len() == 0 ==> packets.len() == 1
        }),
{
    let max = e.max_packet_size;
    let count = packet_count(data.len(), max);
    lemma_packets_cover(data.len(), max, i);
    assert(e.packets(at, data)[i].payload == chunk(data, max, i));
    if i < count - 1 {
        lemma_packets_cover(data.len(), max, i + 1);
    } else {
        assert(count * max == (i + 1) * max);
    }
}

/// After a message come the next message number, and the sequence number after its last
/// packet's; nothing else changes.
pub proof fn numbers_go_on_after_a_message(e: EncapsulateView, at: Instant, data: Seq<u8>)
    ensures
        ({
            let after = e.after(data.len());
            &&& after.next_seq == (e.next_seq + e.packets(at, data).len()) % 0x8000_0000
            &&& after.next_message == (e.next_message + 1) % 0x0400_0000
            &&& after.start == e.start
            &&& after.dest_sockid == e.dest_sockid
            &&& after.max_packet_size == e.max_packet_size
        }),
{
}

} // verus!
