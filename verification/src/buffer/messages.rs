//! What holds of the message numbers in a sender's buffer.
use crate::buffer::laws::reports_cover_what_is_dropped;
use crate::buffer::model::{lemma_message_run, SendBufferView};
use crate::encapsulate::{lemma_packet_count, packet_count};
use crate::numbers::MSG_MODULUS;
use crate::time::Instant;
use vstd::prelude::*;

verus! {

impl SendBufferView {
    /// How many messages were queued since `msg` was, counting `msg`.
    pub open spec fn message_age(self, msg: int) -> int {
        (self.encapsulate.next_message - msg) % (MSG_MODULUS as int)
    }

    /// The packets are those of at most as many messages as there are packets, oldest message
    /// first, and none has the number of the next message.
    pub open spec fn messages_in_order(self) -> bool {
        &&& 0 <= self.encapsulate.next_message < MSG_MODULUS
        &&& forall|i: int|
            0 <= i < self.packets.len() ==> 0 <= (#[trigger] self.packets[i]).message_number
                < MSG_MODULUS && 1 <= self.message_age(self.packets[i].message_number)
                <= self.packets.len() - i
        &&& forall|i: int, j: int|
            0 <= i <= j < self.packets.len() ==> self.message_age(
                (#[trigger] self.packets[i]).message_number,
            ) >= self.message_age((#[trigger] self.packets[j]).message_number)
    }

    /// Whether the next message number but one is not in use: the oldest message in the buffer
    /// was not queued as many messages ago as there are message numbers.
    pub open spec fn has_message_number_left(self) -> bool {
        self.packets.len() > 0 ==> self.message_age(self.packets[0].message_number) + 1
            < MSG_MODULUS
    }
}

/// The message numbers of a new buffer are in order.
pub proof fn new_buffer_has_messages_in_order(v: SendBufferView)
    requires
        v.encapsulate.next_message == 0,
        v.packets.len() == 0,
    ensures
        v.messages_in_order(),
{
}

/// The number of the next message is not in use in the buffer.
pub proof fn next_message_number_is_fresh(v: SendBufferView, i: int)
    requires
        v.messages_in_order(),
        0 <= i < v.packets.len(),
    ensures
        v.packets[i].message_number != v.encapsulate.next_message,
{
}

/// A message is dropped whole: no packet that stays has its number.
pub proof fn messages_are_dropped_whole(v: SendBufferView, i: int)
    requires
        v.messages_in_order(),
        v.packets.len() > 0,
        v.front_message_len() <= i < v.packets.len(),
    ensures
        v.packets[i].message_number != v.front_message().msg,
{
    let msg = v.packets[0].message_number;
    lemma_message_run(v.packets, msg);
    let next = v.packets[v.front_message_len()].message_number;
    assert(v.message_age(next) <= v.message_age(msg));
    assert(v.message_age(v.packets[i].message_number) <= v.message_age(next));
}

/// Packets that have the next message number go to the end in order.
proof fn lemma_queued(v: SendBufferView, after: SendBufferView, count: int)
    requires
        v.messages_in_order(),
        v.has_message_number_left(),
        count > 0,
        after.packets.len() == v.packets.len() + count,
        after.encapsulate.next_message == (v.encapsulate.next_message + 1) % (MSG_MODULUS as int),
        forall|i: int|
            0 <= i < v.packets.len() ==> #[trigger] after.packets[i] == v.packets[i],
        forall|i: int|
            v.packets.len() <= i < after.packets.len() ==> (
            #[trigger] after.packets[i]).message_number == v.encapsulate.next_message,
    ensures
        after.messages_in_order(),
{
    let next = v.encapsulate.next_message;
    assert forall|i: int| 0 <= i < after.packets.len() implies after.message_age(
        (#[trigger] after.packets[i]).message_number,
    ) == if i < v.packets.len() {
        v.message_age(v.packets[i].message_number) + 1
    } else {
        1
    } by {
        if i < v.packets.len() {
            let age = v.message_age(v.packets[i].message_number);
            assert(1 <= age <= v.message_age(v.packets[0].message_number));
        }
    }
}

/// Queueing a message keeps the message numbers in order, unless they run out.
pub proof fn push_keeps_messages_in_order(
    v: SendBufferView,
    at: Instant,
    data: Seq<u8>,
    after: SendBufferView,
)
    requires
        v.messages_in_order(),
        v.has_message_number_left(),
        v.encapsulate.max_packet_size > 0 || data.len() == 0,
        v.pushed(at, data, after),
    ensures
        after.messages_in_order(),
{
    let count = packet_count(data.len(), v.encapsulate.max_packet_size);
    lemma_packet_count(data.len(), v.encapsulate.max_packet_size);
    assert forall|i: int| v.packets.len() <= i < after.packets.len() implies (
    #[trigger] after.packets[i]).message_number == v.encapsulate.next_message by {
        let j = i - v.packets.len();
        assert(after.packets[v.packets.len() + j].message_number == v.encapsulate.next_message);
    }
    lemma_queued(v, after, count as int);
}

/// Message numbers do not run out while there are fewer packets than message numbers.
pub proof fn few_packets_leave_message_numbers(v: SendBufferView)
    requires
        v.messages_in_order(),
        v.packets.len() + 1 < MSG_MODULUS,
    ensures
        v.has_message_number_left(),
{
}

/// Taking packets out at the front keeps the message numbers in order.
pub proof fn removal_keeps_messages_in_order(v: SendBufferView, after: SendBufferView, n: int)
    requires
        v.messages_in_order(),
        0 <= n <= v.packets.len(),
        after.packets == v.packets.skip(n),
        after.encapsulate == v.encapsulate,
    ensures
        after.messages_in_order(),
{
    assert forall|i: int| 0 <= i < after.packets.len() implies #[trigger] after.packets[i]
        == v.packets[n + i] by {}
}

/// An acknowledgement, dropping what is too late, and taking the last packet out keep the
/// message numbers in order.
pub proof fn messages_stay_in_order(v: SendBufferView, ack: int, ts_now: int)
    requires
        v.well_formed(),
        v.messages_in_order(),
    ensures
        v.acknowledged(ack).messages_in_order(),
        v.after_drop(ts_now).messages_in_order(),
        v.after_flush().messages_in_order(),
{
    if v.takes_ack(ack) {
        removal_keeps_messages_in_order(v, v.after_ack(ack), v.acked_packets(ack));
    }
    reports_cover_what_is_dropped(v, ts_now);
    let after = v.after_drop(ts_now);
    removal_keeps_messages_in_order(v, after, v.packets.len() - after.packets.len());
}

} // verus!
