//! What two peers agreed on when they connected.
use crate::address::PeerAddress;
use crate::numbers::{SeqNumber, SocketId};
use crate::time::{Duration, Instant};
use vstd::prelude::*;

verus! {

/// The settings of a connection.
#[derive(Debug)]
pub struct ConnectionSettings {
    pub remote: PeerAddress,
    pub remote_sockid: SocketId,
    pub local_sockid: SocketId,
    /// When the connection's timestamps start.
    pub socket_start_time: Instant,
    pub rtt: Duration,
    /// The sequence number of the first packet.
    pub init_seq_num: SeqNumber,
    /// How many bytes of payload fit in one packet.
    pub max_packet_size: usize,
    /// How many packets may be in flight.
    pub max_flow_size: usize,
    pub send_tsbpd_latency: Duration,
    pub recv_tsbpd_latency: Duration,
    pub stream_id: Option<String>,
}

} // verus!
