//! What each operation of a sender's buffer does, packet by packet and number by number.
use crate::buffer::laws::{lemma_with_losses_ordered, nothing_late_is_left, ordered_from};
use crate::buffer::model::{
    acked_losses, latency_window_nanos, lemma_acked_losses, lemma_loss_position,
    lemma_message_run, loss_position, seals, too_late, with_loss, with_losses, SendBufferView,
};
use crate::buffer::DroppedPackets;
use crate::encapsulate::{lemma_packet_count, lemma_packets_cover, packet_count};
use crate::numbers::{seq_before, seq_distance, seq_plus, seq_within, within_is_on_the_way};
use crate::packet::{content, DataEncryption, DataPacket, PacketView};
use crate::time::{Duration, Instant};
use bytes::Bytes;
use vstd::prelude::*;

verus! {

/// A packet's view holds what the packet holds.
pub proof fn packet_is_seen_as_it_is(packet: DataPacket)
    ensures
        packet@.seq_number == packet.seq_number@,
        packet@.message_loc == packet.message_loc,
        packet@.in_order_delivery == packet.in_order_delivery,
        packet@.encryption == packet.encryption,
        packet@.retransmitted == packet.retransmitted,
        packet@.message_number == packet.message_number@,
        packet@.timestamp == packet.timestamp.micros,
        packet@.dest_sockid == packet.dest_sockid,
        packet@.payload == content(packet.payload),
{
}

/// The view of a report holds what the report holds.
pub proof fn report_is_seen_as_it_is(dropped: DroppedPackets)
    ensures
        dropped@.msg == dropped.msg@,
        dropped@.first == dropped.first@,
        dropped@.last == dropped.last@,
{
}

/// The packets of a buffer are numbered one after the other, up to the sequence number that
/// comes next, and no number is listed as lost twice.
pub proof fn packets_are_numbered_in_a_row(v: SendBufferView, i: int)
    requires
        v.well_formed(),
    ensures
        0 <= i < v.packets.len() ==> v.packets[i].seq_number == (v.packets[0].seq_number + i)
            % 0x8000_0000,
        v.packets.len() > 0 ==> 0 <= v.packets[0].seq_number < 0x8000_0000,
        v.packets.len() > 0 ==> v.encapsulate.next_seq == (v.packets[0].seq_number
            + v.packets.len()) % 0x8000_0000,
        v.lost.no_duplicates(),
        0 <= i < v.lost.len() ==> 0 <= v.lost[i] < 0x8000_0000,
{
    if 0 <= i < v.packets.len() {
        v.lemma_packet_number(i);
    }
}

/// In a buffer in step, what was sent last is a packet that it holds.
pub proof fn last_sent_packet_is_held(v: SendBufferView)
    requires
        v.in_step(),
        v.last_sent is Some,
    ensures
        exists|k: int|
            0 <= k < v.packets.len() && v.last_sent == Some((#[trigger] v.packets[k]).seq_number),
{
    let k = seq_distance(v.packets[0].seq_number, v.last_sent->0);
    packets_are_numbered_in_a_row(v, k);
    assert(v.packets[k].seq_number == v.last_sent->0);
}

/// The latency window is two and a half times the latency, rounded down to nanoseconds, and
/// at least a second.
pub proof fn window_is_two_and_a_half_latencies(latency: Duration)
    ensures
        ({
            let window = latency_window_nanos(latency);
            &&& window >= 1_000_000_000
            &&& window > 1_000_000_000 ==> 5 * latency.nanos - 1 <= 2 * window <= 5 * latency.nanos
            &&& 5 * latency.nanos >= 2_000_000_000 ==> 5 * latency.nanos - 1 <= 2 * window
            &&& 5 * latency.nanos < 2_000_000_000 ==> window == 1_000_000_000
        }),
{
}

/// Where nothing was sent, the oldest packet is sent next.
pub proof fn oldest_packet_is_sent_first(v: SendBufferView)
    requires
        v.last_sent is None,
    ensures
        v.packets.len() > 0 ==> v.next_packet() == Some(v.packets[0]),
        v.packets.len() == 0 ==> v.next_packet() is None,
        v.has_packets_to_send() <==> v.packets.len() > 0 || v.lost.len() > 0,
{
}

/// The packet that is sent next is the one behind the one that was sent last; none waits when
/// that was the newest.
pub proof fn next_packet_is_behind_the_last_sent(v: SendBufferView, k: int)
    requires
        0 <= v.packets[0].seq_number < 0x8000_0000,
        forall|i: int|
            0 <= i < v.packets.len() ==> (#[trigger] v.packets[i]).seq_number == (
            v.packets[0].seq_number + i) % 0x8000_0000,
        0 <= k < v.packets.len(),
        k < 0x8000_0000,
        v.last_sent == Some(v.packets[k].seq_number),
    ensures
        k + 1 < v.packets.len() ==> v.next_packet() == Some(v.packets[k + 1]),
        k + 1 == v.packets.len() ==> v.next_packet() is None,
        v.has_packets_to_send() <==> k + 1 < v.packets.len() || v.lost.len() > 0,
{
    assert(v.packets[k].seq_number == (v.packets[0].seq_number + k) % 0x8000_0000);
    assert(v.next_index() == k + 1);
}

/// Sending notes which packet was sent last, and changes nothing else.
pub proof fn sending_notes_the_packet(v: SendBufferView)
    ensures
        v.next_packet() matches Some(packet) ==> v.after_pop() == (SendBufferView {
            last_sent: Some(packet.seq_number),
            ..v
        }),
        v.next_packet() is None ==> v.after_pop() == v,
{
}

/// Queueing a message puts its packets behind those in the buffer, and changes nothing else
/// but the numbers that come next.
pub proof fn queueing_appends_the_packets(v: SendBufferView, at: Instant, data: Seq<u8>)
    ensures
        ({
            let after = v.after_push(at, data);
            &&& after.packets == v.packets + v.encapsulate.packets(at, data)
            &&& after.encapsulate == v.encapsulate.after(data.len())
            &&& after.last_sent == v.last_sent
            &&& after.lost == v.lost
            &&& after.latency_window == v.latency_window
        }),
{
}

/// A message has as few packets as its bytes fit into, and at least one.
pub proof fn message_has_as_few_packets_as_it_fits_into(
    v: SendBufferView,
    at: Instant,
    data: Seq<u8>,
)
    requires
        v.encapsulate.max_packet_size > 0,
    ensures
        ({
            let max = v.encapsulate.max_packet_size;
            let count = packet_count(data.len(), max);
            &&& v.encapsulate.packets(at, data).len() == count
            &&& count >= 1
            &&& count * max >= data.len()
            &&& data.len() > 0 ==> (count - 1) * max < data.len()
            &&& data.len() == 0 ==> count == 1
        }),
{
    let max = v.encapsulate.max_packet_size;
    lemma_packet_count(data.len(), max);
    let count = packet_count(data.len(), max);
    lemma_packets_cover(data.len(), max, count - 1);
}

/// Each packet of a message that is queued encrypted carries the encryption and the payload
/// that were given for it, wherever it stands in the message. All else is as in clear.
pub proof fn each_packet_is_sealed(
    v: SendBufferView,
    at: Instant,
    data: Seq<u8>,
    given: Seq<(DataEncryption, Bytes)>,
    i: int,
)
    requires
        given.len() == v.encapsulate.packets(at, data).len(),
        0 <= i < given.len(),
    ensures
        ({
            let clear = v.after_push(at, data);
            let sealed = v.after_sealed_push(at, data, given);
            let place = v.packets.len() + i;
            &&& sealed.packets.len() == clear.packets.len()
            &&& sealed.packets[place].encryption == given[i].0
            &&& sealed.packets[place].payload == content(given[i].1)
            &&& sealed.packets[place] == (PacketView {
                encryption: given[i].0,
                payload: content(given[i].1),
                ..clear.packets[place]
            })
            &&& forall|j: int|
                0 <= j < v.packets.len() ==> #[trigger] sealed.packets[j] == v.packets[j]
            &&& sealed.encapsulate == clear.encapsulate
            &&& sealed.last_sent == v.last_sent
            &&& sealed.lost == v.lost
            &&& sealed.latency_window == v.latency_window
        }),
{
}

/// What is given for a packet is what encryption gave for a packet with that view.
pub proof fn seals_come_from_encryption<F: Fn(&DataPacket) -> (DataEncryption, Bytes)>(
    encrypt: F,
    packet: PacketView,
    seal: (DataEncryption, Bytes),
)
    requires
        seals(encrypt, packet, seal),
    ensures
        exists|clear: DataPacket|
            clear@ == packet && #[trigger] call_ensures(encrypt, (&clear,), seal),
{
}

/// Nothing is acknowledged where nothing was sent.
pub proof fn nothing_unsent_is_acknowledged(v: SendBufferView, ack: int)
    requires
        v.packets.len() == 0 || v.last_sent is None,
    ensures
        !v.takes_ack(ack),
        v.acknowledged(ack) == v,
{
}

/// Which acknowledgements lie between the first of some packets and one behind the packet `k`
/// steps behind it, and how many packets come before the last acknowledged one.
proof fn lemma_acknowledged(first: int, k: int, n: int)
    requires
        0 <= first < 0x8000_0000,
        0 <= k,
        k + 1 < 0x4000_0000,
        0 <= n < 0x8000_0000,
    ensures
        ({
            let ack = (first + n) % 0x8000_0000;
            &&& seq_within(ack, first, seq_plus((first + k) % 0x8000_0000, 1)) <==> n <= k + 1
            &&& n <= k + 1 ==> (seq_before(first, seq_plus(ack, -1)) <==> n >= 2)
            &&& n >= 1 ==> seq_distance(first, seq_plus(ack, -1)) == n - 1
        }),
{
    assert(seq_plus((first + k) % 0x8000_0000, 1) == (first + k + 1) % 0x8000_0000);
    within_is_on_the_way(first, k + 1, n);
    let last_acked = seq_plus((first + n) % 0x8000_0000, -1);
    assert(last_acked == (first + n - 1) % 0x8000_0000);
}

/// An acknowledgement is taken from the oldest packet on to one behind the last that was sent,
/// and not beyond. It takes out all packets before the last acknowledged one, and nothing else
/// but losses.
pub proof fn acknowledged_packets_go(v: SendBufferView, k: int, n: int)
    requires
        0 <= v.packets[0].seq_number < 0x8000_0000,
        forall|i: int|
            0 <= i < v.packets.len() ==> (#[trigger] v.packets[i]).seq_number == (
            v.packets[0].seq_number + i) % 0x8000_0000,
        0 <= k < v.packets.len(),
        k + 1 < 0x4000_0000,
        v.last_sent == Some(v.packets[k].seq_number),
        0 <= n < 0x8000_0000,
    ensures
        ({
            let ack = (v.packets[0].seq_number + n) % 0x8000_0000;
            let after = v.after_ack(ack);
            let gone = if n == 0 {
                0
            } else {
                n - 1
            };
            &&& v.takes_ack(ack) <==> n <= k + 1
            &&& n <= k + 1 ==> {
                &&& v.acknowledged(ack) == after
                &&& v.acked_packets(ack) == gone
                &&& after.packets == v.packets.skip(gone)
                &&& after.lost == v.lost.skip(acked_losses(v.lost, ack) as int)
                &&& after.last_sent == v.last_sent
                &&& after.encapsulate == v.encapsulate
                &&& after.latency_window == v.latency_window
            }
            &&& n > k + 1 ==> v.acknowledged(ack) == v
        }),
{
    let first = v.packets[0].seq_number;
    assert(v.packets[k].seq_number == (first + k) % 0x8000_0000);
    lemma_acknowledged(first, k, n);
}

/// An acknowledgement takes the losses before it out of a loss list that is in order, and
/// leaves the others. The losses stand `places` steps behind some sequence number `base`, and
/// the acknowledgement `place` steps.
pub proof fn acknowledged_losses_go(lost: Seq<int>, base: int, places: Seq<int>, place: int)
    requires
        places.len() == lost.len(),
        forall|i: int|
            0 <= i < lost.len() ==> #[trigger] lost[i] == (base + places[i]) % 0x8000_0000,
        forall|i: int| 0 <= i < lost.len() ==> 0 <= #[trigger] places[i] < 0x4000_0000,
        forall|i: int, j: int|
            0 <= i < j < lost.len() ==> #[trigger] places[i] < #[trigger] places[j],
        0 <= place <= 0x4000_0000,
    ensures
        ({
            let gone = acked_losses(lost, (base + place) % 0x8000_0000);
            &&& gone <= lost.len()
            &&& forall|i: int| 0 <= i < lost.len() ==> (i < gone <==> #[trigger] places[i] < place)
        }),
{
    let ack = (base + place) % 0x8000_0000;
    lemma_acked_losses(lost, ack);
    let gone = acked_losses(lost, ack);
    assert forall|i: int| 0 <= i < lost.len() implies (seq_before(lost[i], ack)
        <==> #[trigger] places[i] < place) by {
        assert(lost[i] == (base + places[i]) % 0x8000_0000);
        lemma_places(base, places[i], place);
    }
    assert forall|i: int| 0 <= i < lost.len() implies (i < gone <==> #[trigger] places[i]
        < place) by {
        if i < gone {
            assert(places[gone - 1] < place);
        }
    }
}

/// How sequence numbers within half of the circle stand to each other.
proof fn lemma_places(base: int, a: int, b: int)
    requires
        0 <= a < 0x4000_0000,
        0 <= b <= 0x4000_0000,
    ensures
        seq_before((base + a) % 0x8000_0000, (base + b) % 0x8000_0000) <==> a < b,
        seq_distance((base + a) % 0x8000_0000, (base + b) % 0x8000_0000) == if a <= b {
            b - a
        } else {
            0x8000_0000 + b - a
        },
{
    assert(((base + b) % 0x8000_0000 - (base + a) % 0x8000_0000) % 0x8000_0000 == (b - a)
        % 0x8000_0000);
}

/// Reports of losses change nothing where nothing was sent.
pub proof fn nothing_unsent_is_lost(v: SendBufferView, reported: Seq<int>)
    requires
        v.packets.len() == 0 || v.last_sent is None,
    ensures
        v.after_nak(reported) == v,
{
}

/// Which numbers a loss list holds after one is added.
proof fn lemma_loss_is_added(lost: Seq<int>, seq: int, x: int)
    ensures
        with_loss(lost, seq).contains(x) <==> lost.contains(x) || x == seq,
{
    lemma_loss_position(lost, seq);
    let at = loss_position(lost, seq);
    let after = with_loss(lost, seq);
    if !lost.contains(seq) {
        assert(after[at] == seq);
        if lost.contains(x) {
            let i = choose|i: int| 0 <= i < lost.len() && lost[i] == x;
            assert(after[if i < at {
                i
            } else {
                i + 1
            }] == x);
        }
        if after.contains(x) && x != seq {
            let i = choose|i: int| 0 <= i < after.len() && after[i] == x;
            assert(lost[if i < at {
                i
            } else {
                i - 1
            }] == x);
        }
    }
}

proof fn lemma_losses_are_added(lost: Seq<int>, reported: Seq<int>, first: int, last: int, x: int)
    ensures
        with_losses(lost, reported, first, last).contains(x) <==> lost.contains(x) || (
        reported.contains(x) && seq_within(x, first, last)),
    decreases reported.len(),
{
    if reported.len() > 0 {
        let seq = reported[0];
        let rest = reported.drop_first();
        let next = if seq_within(seq, first, last) {
            with_loss(lost, seq)
        } else {
            lost
        };
        lemma_loss_is_added(lost, seq, x);
        lemma_losses_are_added(next, rest, first, last, x);
        if reported.contains(x) && x != seq {
            let i = choose|i: int| 0 <= i < reported.len() && reported[i] == x;
            assert(rest[i - 1] == x);
        }
        if rest.contains(x) {
            let i = choose|i: int| 0 <= i < rest.len() && rest[i] == x;
            assert(reported[i + 1] == x);
        }
        assert(reported.contains(seq));
    }
}

/// A report of losses puts exactly those of the reported numbers into the loss list that are
/// numbers of packets in the buffer up to the last that was sent, and changes nothing else.
pub proof fn reported_packets_are_lost(v: SendBufferView, reported: Seq<int>, k: int, x: int)
    requires
        0 <= v.packets[0].seq_number < 0x8000_0000,
        forall|i: int|
            0 <= i < v.packets.len() ==> (#[trigger] v.packets[i]).seq_number == (
            v.packets[0].seq_number + i) % 0x8000_0000,
        0 <= k < v.packets.len(),
        k < 0x4000_0000,
        v.last_sent == Some(v.packets[k].seq_number),
        0 <= x < 0x8000_0000,
    ensures
        ({
            let after = v.after_nak(reported);
            &&& after.lost.contains(x) <==> v.lost.contains(x) || (reported.contains(x) && exists|
                i: int,
            |
                0 <= i <= k && (#[trigger] v.packets[i]).seq_number == x)
            &&& after.packets == v.packets
            &&& after.last_sent == v.last_sent
            &&& after.encapsulate == v.encapsulate
            &&& after.latency_window == v.latency_window
        }),
{
    let first = v.packets[0].seq_number;
    let last = v.packets[k].seq_number;
    lemma_losses_are_added(v.lost, reported, first, last, x);
    assert(last == (first + k) % 0x8000_0000);
    let m = (x - first) % 0x8000_0000;
    assert(x == (first + m) % 0x8000_0000);
    within_is_on_the_way(first, k, m);
    if m <= k {
        assert(v.packets[m].seq_number == x);
    }
    if exists|i: int| 0 <= i <= k && (#[trigger] v.packets[i]).seq_number == x {
        let i = choose|i: int| 0 <= i <= k && (#[trigger] v.packets[i]).seq_number == x;
        assert(x == (first + i) % 0x8000_0000);
    }
}

/// The packet that was reported lost is retransmitted whenever the buffer holds it, wherever
/// it stands, and is marked; only where the buffer does not hold it, none is.
pub proof fn lost_packet_is_retransmitted(v: SendBufferView, i: int)
    requires
        0 <= v.packets[0].seq_number < 0x8000_0000,
        v.packets.len() <= 0x8000_0000,
        forall|j: int|
            0 <= j < v.packets.len() ==> (#[trigger] v.packets[j]).seq_number == (
            v.packets[0].seq_number + j) % 0x8000_0000,
        v.lost.len() > 0,
        0 <= v.lost[0] < 0x8000_0000,
    ensures
        0 <= i < v.packets.len() && v.packets[i].seq_number == v.lost[0] ==> v.next_lost_packet()
            == Some(PacketView { retransmitted: true, ..v.packets[i] }),
        v.next_lost_packet() is None <==> forall|j: int|
            0 <= j < v.packets.len() ==> (#[trigger] v.packets[j]).seq_number != v.lost[0],
{
    let first = v.packets[0].seq_number;
    let offset = seq_distance(first, v.lost[0]);
    if offset < v.packets.len() {
        assert(v.packets[offset].seq_number == (first + offset) % 0x8000_0000);
        assert(v.packets[offset].seq_number == v.lost[0]);
    }
    assert forall|j: int|
        0 <= j < v.packets.len() && (#[trigger] v.packets[j]).seq_number == v.lost[0] implies j
        == offset by {}
}

/// A retransmission takes the first entry out of the loss list, and changes nothing else.
/// There is none where no losses are listed.
pub proof fn retransmission_takes_one_loss_out(v: SendBufferView)
    ensures
        v.lost.len() > 0 ==> v.lost == seq![v.lost[0]] + v.after_pop_lost().lost,
        v.lost.len() == 0 ==> v.after_pop_lost() == v && v.next_lost_packet() is None,
        v.after_pop_lost().packets == v.packets,
        v.after_pop_lost().last_sent == v.last_sent,
        v.after_pop_lost().encapsulate == v.encapsulate,
        v.after_pop_lost().latency_window == v.latency_window,
{
    if v.lost.len() > 0 {
        assert(v.lost =~= seq![v.lost[0]] + v.after_pop_lost().lost);
    }
}

/// A packet is too late exactly when its timestamp and the window lie between one and 2^31
/// microseconds before the current timestamp, whatever it carries.
pub proof fn lateness_goes_by_the_timestamp(
    v: SendBufferView,
    packet: PacketView,
    ts_now: int,
)
    ensures
        too_late(packet, v.latency_window, ts_now) <==> 1 <= (ts_now - (packet.timestamp
            + v.latency_window.nanos as int / 1_000)) % 0x1_0000_0000 <= 0x8000_0000,
        v.front_is_late(ts_now) <==> v.packets.len() > 0 && 1 <= (ts_now - (
        v.packets[0].timestamp + v.latency_window.nanos as int / 1_000)) % 0x1_0000_0000
            <= 0x8000_0000,
{
}

/// The oldest packet is too late from a microsecond on after the window since it was submitted
/// has passed, and not before the window has passed, up to half of the circle of timestamps
/// away.
pub proof fn packet_is_late_when_its_window_has_passed(
    v: SendBufferView,
    at: Instant,
    now: Instant,
)
    requires
        v.packets.len() > 0,
        v.encapsulate.start.nanos <= at.nanos,
        v.encapsulate.start.nanos <= now.nanos,
        v.packets[0].timestamp == v.encapsulate.timestamp(at),
    ensures
        ({
            let passed = now.nanos - at.nanos - v.latency_window.nanos;
            &&& 1_000 <= passed <= 0x7fff_fffe * 1_000 ==> v.front_is_late(
                v.encapsulate.timestamp(now),
            )
            &&& -0x7fff_fffe * 1_000 <= passed <= -1_000 ==> !v.front_is_late(
                v.encapsulate.timestamp(now),
            )
        }),
{
    let start = v.encapsulate.start.nanos as int;
    let a = (at.nanos - start) / 1_000;
    let n = (now.nanos - start) / 1_000;
    let w = v.latency_window.nanos as int / 1_000;
    assert(v.packets[0].timestamp == a % 0x1_0000_0000);
    assert(v.encapsulate.timestamp(now) == n % 0x1_0000_0000);
    assert((n % 0x1_0000_0000 - (a % 0x1_0000_0000 + w)) % 0x1_0000_0000 == (n - a - w)
        % 0x1_0000_0000);
    lateness_goes_by_the_timestamp(v, v.packets[0], v.encapsulate.timestamp(now));
}

/// After dropping, the oldest packet is none whose window has passed.
pub proof fn no_old_packet_stays_in_front(v: SendBufferView, at: Instant, now: Instant)
    requires
        v.encapsulate.start.nanos <= at.nanos,
        1_000 <= now.nanos - at.nanos - v.latency_window.nanos <= 0x7fff_fffe * 1_000,
    ensures
        ({
            let after = v.after_drop(v.encapsulate.timestamp(now));
            after.packets.len() > 0 ==> after.packets[0].timestamp != v.encapsulate.timestamp(at)
        }),
{
    let ts_now = v.encapsulate.timestamp(now);
    let after = v.after_drop(ts_now);
    nothing_late_is_left(v, ts_now);
    lemma_drop_keeps_the_rest(v, ts_now);
    if after.packets.len() > 0 && after.packets[0].timestamp == v.encapsulate.timestamp(at) {
        packet_is_late_when_its_window_has_passed(after, at, now);
    }
}

proof fn lemma_drop_keeps_the_rest(v: SendBufferView, ts_now: int)
    ensures
        v.after_drop(ts_now).encapsulate == v.encapsulate,
        v.after_drop(ts_now).latency_window == v.latency_window,
        v.after_drop(ts_now).lost == v.lost,
    decreases v.packets.len(),
{
    if v.front_is_late(ts_now) {
        lemma_message_run(v.packets, v.packets[0].message_number);
        lemma_drop_keeps_the_rest(v.without_front_message(), ts_now);
    }
}

/// The message that is dropped next is the oldest packet's, with all of its packets that stand
/// together at the front. The report names its number, and its first and last packet. The
/// losses and all that comes next stay.
pub proof fn whole_message_is_dropped(v: SendBufferView, n: int)
    requires
        0 < n <= v.packets.len(),
        forall|i: int|
            0 <= i < n ==> (#[trigger] v.packets[i]).message_number == v.packets[0].message_number,
        n < v.packets.len() ==> v.packets[n].message_number != v.packets[0].message_number,
    ensures
        v.front_message_len() == n,
        v.front_message().msg == v.packets[0].message_number,
        v.front_message().first == v.packets[0].seq_number,
        v.front_message().last == v.packets[n - 1].seq_number,
        v.without_front_message().packets == v.packets.skip(n),
        v.without_front_message().lost == v.lost,
        v.without_front_message().encapsulate == v.encapsulate,
        v.without_front_message().latency_window == v.latency_window,
{
    let msg = v.packets[0].message_number;
    lemma_message_run(v.packets, msg);
    let run = v.front_message_len();
    if run < n {
        assert(v.packets[run].message_number == msg);
    }
    if n < run {
        assert(v.packets[n].message_number == msg);
    }
}

/// When a message is dropped, the packet that was sent last stays the last one if it stays,
/// and none counts as sent if it goes.
pub proof fn last_sent_packet_stays_or_goes(v: SendBufferView, k: int)
    requires
        0 <= v.packets[0].seq_number < 0x8000_0000,
        0 < v.packets.len() <= 0x4000_0000,
        forall|i: int|
            0 <= i < v.packets.len() ==> (#[trigger] v.packets[i]).seq_number == (
            v.packets[0].seq_number + i) % 0x8000_0000,
        v.last_sent is Some ==> 0 <= k < v.packets.len() && v.last_sent == Some(
            v.packets[k].seq_number,
        ),
    ensures
        v.last_sent is None ==> v.without_front_message().last_sent is None,
        v.last_sent is Some && k >= v.front_message_len()
            ==> v.without_front_message().last_sent == v.last_sent,
        v.last_sent is Some && k < v.front_message_len()
            ==> v.without_front_message().last_sent is None,
{
    lemma_message_run(v.packets, v.packets[0].message_number);
    let n = v.front_message_len();
    if v.last_sent is Some && n < v.packets.len() {
        let first = v.packets[0].seq_number;
        assert(v.packets[k].seq_number == (first + k) % 0x8000_0000);
        assert(v.packets[n].seq_number == (first + n) % 0x8000_0000);
        lemma_places(first, k, n);
    }
}

/// Messages are dropped one after the other, each as long as the oldest packet is too late,
/// and are reported in that order.
pub proof fn messages_are_dropped_from_the_front(v: SendBufferView, ts_now: int)
    ensures
        v.front_is_late(ts_now) ==> v.dropped(ts_now) == seq![v.front_message()]
            + v.without_front_message().dropped(ts_now) && v.after_drop(ts_now)
            == v.without_front_message().after_drop(ts_now),
        !v.front_is_late(ts_now) ==> v.dropped(ts_now).len() == 0 && v.after_drop(ts_now) == v,
        v.after_drop(ts_now).lost == v.lost,
        v.after_drop(ts_now).encapsulate == v.encapsulate,
        v.after_drop(ts_now).latency_window == v.latency_window,
    decreases v.packets.len(),
{
    lemma_drop_keeps_the_rest(v, ts_now);
    if v.front_is_late(ts_now) {
        lemma_message_run(v.packets, v.packets[0].message_number);
    }
}

/// Each packet that is dropped is named by a report of its message.
#[verifier::rlimit(40)]
#[verifier::spinoff_prover]
pub proof fn each_dropped_packet_is_reported(v: SendBufferView, ts_now: int, i: int) -> (r: int)
    requires
        0 <= v.packets[0].seq_number < 0x8000_0000,
        forall|j: int|
            0 <= j < v.packets.len() ==> (#[trigger] v.packets[j]).seq_number == (
            v.packets[0].seq_number + j) % 0x8000_0000,
        0 <= i < v.packets.len() - v.after_drop(ts_now).packets.len(),
    ensures
        0 <= r < v.dropped(ts_now).len(),
        v.dropped(ts_now)[r].msg == v.packets[i].message_number,
        exists|a: int, b: int|
            0 <= a <= i <= b < v.packets.len() && (#[trigger] v.packets[a]).seq_number
                == v.dropped(ts_now)[r].first && (#[trigger] v.packets[b]).seq_number
                == v.dropped(ts_now)[r].last,
    decreases v.packets.len(),
{
    lemma_message_run(v.packets, v.packets[0].message_number);
    if v.front_is_late(ts_now) {
        let n = v.front_message_len();
        if i < n {
            assert(v.packets[0].seq_number == v.dropped(ts_now)[0].first);
            assert(v.packets[n - 1].seq_number == v.dropped(ts_now)[0].last);
            0
        } else {
            let next = v.without_front_message();
            assert forall|j: int| 0 <= j < next.packets.len() implies (
            #[trigger] next.packets[j]).seq_number == (next.packets[0].seq_number + j)
                % 0x8000_0000 by {
                assert(next.packets[j] == v.packets[n + j]);
                assert(next.packets[0] == v.packets[n]);
            }
            assert(next.packets[i - n] == v.packets[i]);
            assert(next.packets[0] == v.packets[n]);
            let s = each_dropped_packet_is_reported(next, ts_now, i - n);
            let (a, b) = choose|a: int, b: int|
                0 <= a <= i - n <= b < next.packets.len() && (
                #[trigger] next.packets[a]).seq_number == next.dropped(ts_now)[s].first && (
                #[trigger] next.packets[b]).seq_number == next.dropped(ts_now)[s].last;
            assert(v.dropped(ts_now)[s + 1] == next.dropped(ts_now)[s]);
            assert(v.packets[a + n].seq_number == v.dropped(ts_now)[s + 1].first);
            assert(v.packets[b + n].seq_number == v.dropped(ts_now)[s + 1].last);
            s + 1
        }
    } else {
        0
    }
}

/// Flushing takes a packet out that is alone, and then none counts as sent. It does nothing
/// else.
pub proof fn flushing_takes_the_last_packet_out(v: SendBufferView)
    ensures
        v.packets.len() == 1 ==> v.after_flush().packets.len() == 0 && v.after_flush().last_sent
            is None && v.after_flush().lost == v.lost && v.after_flush().encapsulate
            == v.encapsulate && v.after_flush().latency_window == v.latency_window,
        v.packets.len() != 1 ==> v.after_flush() == v,
{
}

/// A buffer is flushed exactly when it holds no packets and no losses are listed, and its
/// packets are counted in 32 bits.
pub proof fn flushed_means_nothing_is_held(v: SendBufferView)
    ensures
        v.flushed() <==> v.packets.len() == 0 && v.lost.len() == 0,
        v.packets.len() < 0x1_0000_0000 ==> v.unacked_count() == v.packets.len(),
        v.is_new() ==> v.flushed() && v.last_sent is None,
{
}

/// The loss list stays in increasing order when losses are reported. Its entries, and the
/// packets that were sent, stand less than 2^30 steps behind some sequence number `base`.
pub proof fn losses_are_listed_in_order(v: SendBufferView, reported: Seq<int>, base: int, k: int)
    requires
        0 <= v.packets[0].seq_number < 0x8000_0000,
        forall|i: int|
            0 <= i < v.packets.len() ==> (#[trigger] v.packets[i]).seq_number == (
            v.packets[0].seq_number + i) % 0x8000_0000,
        0 <= k < v.packets.len(),
        v.last_sent == Some(v.packets[k].seq_number),
        (v.packets[0].seq_number - base) % 0x8000_0000 + k < 0x4000_0000,
        forall|i: int| 0 <= i < reported.len() ==> 0 <= #[trigger] reported[i] < 0x8000_0000,
        forall|i: int|
            0 <= i < v.lost.len() ==> 0 <= #[trigger] v.lost[i] < 0x8000_0000 && (v.lost[i] - base)
                % 0x8000_0000 < 0x4000_0000,
        forall|i: int, j: int|
            0 <= i < j < v.lost.len() ==> (#[trigger] v.lost[i] - base) % 0x8000_0000 < (
            #[trigger] v.lost[j] - base) % 0x8000_0000,
    ensures
        forall|i: int, j: int|
            0 <= i < j < v.after_nak(reported).lost.len() ==> (#[trigger] v.after_nak(
                reported,
            ).lost[i] - base) % 0x8000_0000 < (#[trigger] v.after_nak(reported).lost[j] - base)
                % 0x8000_0000,
{
    let first = v.packets[0].seq_number;
    let last = v.packets[k].seq_number;
    assert(last == (first + k) % 0x8000_0000);
    assert(seq_distance(base, last) == seq_distance(base, first) + k);
    assert forall|i: int, j: int| 0 <= i < j < v.lost.len() implies seq_distance(
        base,
        #[trigger] v.lost[i],
    ) < seq_distance(base, #[trigger] v.lost[j]) by {}
    assert(ordered_from(base, v.lost));
    lemma_with_losses_ordered(base, v.lost, reported, first, last);
    let after = v.after_nak(reported).lost;
    assert forall|i: int, j: int| 0 <= i < j < after.len() implies (#[trigger] after[i] - base)
        % 0x8000_0000 < (#[trigger] after[j] - base) % 0x8000_0000 by {
        assert(seq_distance(base, after[i]) < seq_distance(base, after[j]));
    }
}

/// Where there are packets to drop, dropping reports at least one message. Where there are
/// none, it reports none, unless the buffer holds a single packet, which may go.
pub proof fn what_is_to_be_dropped_is_dropped(v: SendBufferView, ts_now: int)
    ensures
        v.has_packets_to_drop(ts_now) ==> v.dropped(ts_now).len() > 0,
        v.packets.len() != 1 && !v.has_packets_to_drop(ts_now) ==> v.dropped(ts_now).len() == 0,
        v.packets.len() <= 1 ==> !v.has_packets_to_drop(ts_now),
{
    if v.front_is_late(ts_now) {
        messages_are_dropped_from_the_front(v, ts_now);
    }
}

/// The next packet is singled out when its number is a multiple of sixteen, also after the
/// numbers wrapped.
pub proof fn each_sixteenth_packet_is_singled_out(v: SendBufferView, n: int)
    requires
        v.next_packet() is Some,
        0 <= n,
        v.next_packet()->0.seq_number == (16 * n) % 0x8000_0000,
    ensures
        v.next_16n_packet() == v.next_packet(),
{
    assert(((16 * n) % 0x8000_0000) % 16 == 0);
}

/// A packet whose number is no multiple of sixteen is not singled out, nor is one where none
/// waits.
pub proof fn other_packets_are_not_singled_out(v: SendBufferView)
    requires
        v.next_packet() matches Some(packet) ==> packet.seq_number % 16 != 0,
    ensures
        v.next_16n_packet() is None,
{
}

} // verus!
