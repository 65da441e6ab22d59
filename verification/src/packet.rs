//! Data packets.
use crate::numbers::{MsgNumber, SeqNumber, SocketId};
use crate::time::TimeStamp;
use bytes::Bytes;
use vstd::prelude::*;

verus! {

/// `bytes::Bytes`: a cheaply cloneable, immutable run of bytes.
#[verifier::external_type_specification]
#[verifier::external_body]
pub struct ExBytes(Bytes);

/// The bytes that a `Bytes` holds.
pub uninterp spec fn content(bytes: Bytes) -> Seq<u8>;

/// `bytes::Bytes::len`: how many bytes there are.
pub assume_specification[ Bytes::len ](bytes: &Bytes) -> (r: usize)
    ensures
        r == content(*bytes).len(),
;

/// `bytes::Bytes::split_to`: takes the first `at` bytes out and leaves the others; it panics
/// when there are fewer than `at`.
pub assume_specification[ Bytes::split_to ](bytes: &mut Bytes, at: usize) -> (r: Bytes)
    requires
        at <= content(*old(bytes)).len(),
    ensures
        content(r) == content(*old(bytes)).subrange(0, at as int),
        content(*final(bytes)) == content(*old(bytes)).subrange(
            at as int,
            content(*old(bytes)).len() as int,
        ),
;

/// `<bytes::Bytes as Clone>::clone`: another handle to the same bytes.
pub assume_specification[ <Bytes as Clone>::clone ](bytes: &Bytes) -> (r: Bytes)
    ensures
        content(r) == content(*bytes),
;

/// Where a packet stands among the packets of its message.
#[derive(Debug, Clone, Copy, PartialEq, Eq, Structural)]
pub enum PacketLocation {
    First,
    Middle,
    Last,
    Only,
}

/// With which of the two session keys a packet's payload is encrypted, if it is.
#[derive(Debug, Clone, Copy, PartialEq, Eq, Structural)]
pub enum DataEncryption {
    Clear,
    Even,
    Odd,
}

/// A packet of application data.
#[derive(Debug, PartialEq, Eq)]
pub struct DataPacket {
    pub seq_number: SeqNumber,
    pub message_loc: PacketLocation,
    pub in_order_delivery: bool,
    pub encryption: DataEncryption,
    pub retransmitted: bool,
    pub message_number: MsgNumber,
    pub timestamp: TimeStamp,
    pub dest_sockid: SocketId,
    pub payload: Bytes,
}

/// What a data packet holds.
pub struct PacketView {
    pub seq_number: int,
    pub message_loc: PacketLocation,
    pub in_order_delivery: bool,
    pub encryption: DataEncryption,
    pub retransmitted: bool,
    pub message_number: int,
    pub timestamp: int,
    pub dest_sockid: SocketId,
    pub payload: Seq<u8>,
}

impl View for DataPacket {
    type V = PacketView;

    open spec fn view(&self) -> PacketView {
        PacketView {
            seq_number: self.seq_number@,
            message_loc: self.message_loc,
            in_order_delivery: self.in_order_delivery,
            encryption: self.encryption,
            retransmitted: self.retransmitted,
            message_number: self.message_number@,
            timestamp: self.timestamp@,
            dest_sockid: self.dest_sockid,
            payload: content(self.payload),
        }
    }
}

impl Clone for DataPacket {
    fn clone(&self) -> (r: DataPacket)
        ensures
            r@ == self@,
    {
        DataPacket {
            seq_number: self.seq_number,
            message_loc: self.message_loc,
            in_order_delivery: self.in_order_delivery,
            encryption: self.encryption,
            retransmitted: self.retransmitted,
            message_number: self.message_number,
            timestamp: self.timestamp,
            dest_sockid: self.dest_sockid,
            payload: self.payload.clone(),
        }
    }
}

} // verus!
