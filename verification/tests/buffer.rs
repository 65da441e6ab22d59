use bytes::Bytes;
use srt::address::{IpAddress, PeerAddress};
use srt::buffer::{DroppedPackets, SendBuffer};
use srt::loss_list::CompressedLossList;
use srt::numbers::{MsgNumber, SeqNumber, SocketId};
use srt::packet::{DataEncryption, DataPacket, PacketLocation};
use srt::settings::ConnectionSettings;
use srt::time::{Duration, Instant, TimeStamp};

const START: Instant = Instant { nanos: 5_000_000_000 };
const MILLIS: u128 = 1_000_000;
const TSBPD: u128 = 2_000_000_000;

fn after_start(nanos: u128) -> Instant {
    Instant { nanos: START.nanos + nanos }
}

fn seq(raw: u32) -> SeqNumber {
    SeqNumber::new_truncate(raw)
}

fn msg(raw: u32) -> MsgNumber {
    MsgNumber::new_truncate(raw)
}

fn new_settings() -> ConnectionSettings {
    ConnectionSettings {
        remote: PeerAddress {
            ip: IpAddress::V4(0x7f00_0001),
            port: 2223,
            flow_info: 0,
            scope_id: 0,
        },
        remote_sockid: SocketId(2),
        local_sockid: SocketId(2),
        socket_start_time: START,
        rtt: Duration { nanos: 0 },
        init_seq_num: seq(0),
        max_packet_size: 1316,
        max_flow_size: 8192,
        send_tsbpd_latency: Duration { nanos: TSBPD },
        recv_tsbpd_latency: Duration { nanos: TSBPD },
        stream_id: None,
    }
}

#[test]
fn not_ready_empty() {
    let settings = new_settings();
    let mut buffer = SendBuffer::new(&settings);

    let data = Bytes::new();
    buffer.push_data((START, data));

    assert!(!buffer.is_flushed());
    assert_eq!(
        buffer.pop_next_packet(),
        Some(DataPacket {
            seq_number: seq(0),
            message_loc: PacketLocation::Only,
            in_order_delivery: false,
            encryption: DataEncryption::Clear,
            retransmitted: false,
            message_number: msg(0),
            timestamp: TimeStamp { micros: 0 },
            dest_sockid: SocketId(2),
            payload: Bytes::new()
        })
    );

    assert!(!buffer.is_flushed());
}

#[test]
fn pop_next_packet() {
    let mut buffer = SendBuffer::new(&new_settings());
    for n in 0..=16u32 {
        let now = after_start(n as u128 * MILLIS);
        buffer.push_data((now, Bytes::new()));
        assert!(buffer.has_packets_to_send());
        assert!(!buffer.is_flushed());
    }
    for n in 0..=16 {
        let next_packet = buffer.pop_next_packet().map(|p| p.seq_number.as_raw());
        let next_packet_16n = buffer.pop_next_16n_packet().map(|p| p.seq_number.as_raw());

        if n < 15 {
            assert_eq!(next_packet, Some(n));
            assert_eq!(next_packet_16n, None);
        } else if n < 16 {
            assert_eq!(next_packet, Some(n));
            assert_eq!(next_packet_16n, Some(n + 1));
        } else {
            assert_eq!(next_packet, None);
            assert_eq!(next_packet_16n, None);
        }
    }
    assert!(!buffer.has_packets_to_send());
    assert!(!buffer.is_flushed());
}

#[test]
fn pop_next_lost_packet() {
    let mut buffer = SendBuffer::new(&new_settings());

    for n in 0..=13 {
        let now = after_start(n * MILLIS);
        buffer.push_data((now, Bytes::new()));
    }

    for _ in 0..=11 {
        assert_ne!(buffer.pop_next_packet(), None);
    }

    assert_eq!(buffer.pop_next_lost_packet(), None);

    buffer.add_to_loss_list(CompressedLossList::from_loss_list(vec![seq(11), seq(13)]));
    buffer.add_to_loss_list(CompressedLossList::from_loss_list(vec![seq(7), seq(12)]));

    // the loss list is ordered smallest to largest
    let next = buffer
        .pop_next_lost_packet()
        .map(|p| (p.seq_number.as_raw(), p.retransmitted));
    assert_eq!(next, Some((7, true)));
    let next = buffer
        .pop_next_lost_packet()
        .map(|p| (p.seq_number.as_raw(), p.retransmitted));
    assert_eq!(next, Some((11, true)));

    assert_eq!(buffer.pop_next_lost_packet(), None);

    assert!(buffer.has_packets_to_send());
    assert!(!buffer.is_flushed());
}

#[test]
fn on_ack() {
    let mut buffer = SendBuffer::new(&new_settings());

    assert!(buffer.is_flushed());

    for n in 0..=3 {
        let now = after_start(n * MILLIS);
        buffer.push_data((now, Bytes::new()));
    }

    for _ in 0..=2 {
        assert_ne!(buffer.pop_next_packet(), None);
    }

    assert_eq!(buffer.number_of_unacked_packets(), 4);
    // two packets are received, one packet is kept for a retransmission on flush
    assert_eq!(buffer.update_largest_acked_seq_number(seq(3)), Some((2, 0)));
    assert_eq!(buffer.number_of_unacked_packets(), 2);
    assert!(!buffer.is_flushed());
    assert!(buffer.has_packets_to_send());

    // a NAK for packets from the past is ignored
    buffer.add_to_loss_list(CompressedLossList::from_loss_list(vec![seq(1)]));
    assert_eq!(buffer.pop_next_lost_packet(), None);
    assert_eq!(buffer.number_of_unacked_packets(), 2);
    assert!(!buffer.is_flushed());
    assert!(buffer.has_packets_to_send());

    // an ACK for unsent packets is ignored
    assert_eq!(buffer.update_largest_acked_seq_number(seq(4)), None);
    assert_eq!(buffer.number_of_unacked_packets(), 2);
    assert!(!buffer.is_flushed());
    assert!(buffer.has_packets_to_send());

    assert_ne!(buffer.pop_next_packet(), None);
    assert_eq!(buffer.pop_next_packet(), None);
    assert_eq!(buffer.number_of_unacked_packets(), 2);
    assert!(!buffer.is_flushed());
    assert!(!buffer.has_packets_to_send());

    assert_eq!(buffer.update_largest_acked_seq_number(seq(4)), Some((1, 0)));
    assert_eq!(buffer.number_of_unacked_packets(), 1);
    assert!(!buffer.is_flushed());
    assert!(!buffer.has_packets_to_send());
}

#[test]
fn nak_then_ack() {
    let mut buffer = SendBuffer::new(&new_settings());

    for n in 0..=2 {
        let now = after_start(n * MILLIS);
        buffer.push_data((now, Bytes::new()));
        assert_ne!(buffer.pop_next_packet(), None);
    }

    buffer.add_to_loss_list(CompressedLossList::from_loss_list(vec![seq(1)]));
    // two packets received, one recovered
    assert_eq!(buffer.update_largest_acked_seq_number(seq(3)), Some((2, 1)));
    assert_eq!(buffer.pop_next_lost_packet(), None);

    assert_eq!(buffer.number_of_unacked_packets(), 1);
    assert!(!buffer.has_packets_to_send());
    assert!(!buffer.is_flushed());
}

fn first_two_messages() -> Vec<DroppedPackets> {
    vec![
        DroppedPackets { msg: msg(0), first: seq(0), last: seq(1) },
        DroppedPackets { msg: msg(1), first: seq(2), last: seq(3) },
    ]
}

#[test]
fn drop_too_late_packets_queued() {
    let mut buffer = SendBuffer::new(&new_settings());
    for n in 0..=2 {
        let now = after_start(n * MILLIS);
        buffer.push_data((now, Bytes::from_iter([0u8; 2048])));
    }

    let now = after_start(TSBPD * 2 + TSBPD / 2 + 2 * MILLIS);
    assert!(buffer.has_packets_to_drop(now));
    let dropped = buffer.drop_too_late_packets(now).collect();

    // only drop the too late packets, leave the rest queued
    assert_eq!(dropped, first_two_messages());
    assert!(!buffer.has_packets_to_drop(now));
    assert!(!buffer.is_flushed())
}

#[test]
fn drop_too_late_packets_sent() {
    let mut buffer = SendBuffer::new(&new_settings());
    for n in 0..=2 {
        let now = after_start(n * MILLIS);
        buffer.push_data((now, Bytes::from_iter([0u8; 2048])));
    }

    // packets from the first two messages are sent
    assert_ne!(buffer.pop_next_packet(), None);
    assert_ne!(buffer.pop_next_packet(), None);
    assert_ne!(buffer.pop_next_packet(), None);

    let now = after_start(TSBPD * 2 + TSBPD / 2 + 2 * MILLIS);
    assert!(buffer.has_packets_to_drop(now));
    let dropped = buffer.drop_too_late_packets(now).collect();

    // only drop the too late packets, leave the rest queued
    assert_eq!(dropped, first_two_messages());
    assert!(!buffer.has_packets_to_drop(now));
    assert!(!buffer.is_flushed())
}

#[test]
fn drop_too_late_packets_lost() {
    let mut buffer = SendBuffer::new(&new_settings());
    for n in 0..=2 {
        let now = after_start(n * MILLIS);
        buffer.push_data((now, Bytes::from_iter([0u8; 2048])));
    }

    // packets from the first two messages are sent
    assert_ne!(buffer.pop_next_packet(), None);
    assert_ne!(buffer.pop_next_packet(), None);
    assert_ne!(buffer.pop_next_packet(), None);

    let _ = buffer.add_to_loss_list(CompressedLossList::from_loss_list(vec![seq(1), seq(2)]));

    let now = after_start(TSBPD * 2 + TSBPD / 2 + 2 * MILLIS);
    assert!(buffer.has_packets_to_drop(now));
    // only drop the too late packets, leave the rest queued
    assert_eq!(buffer.drop_too_late_packets(now).collect(), first_two_messages());
    assert!(!buffer.has_packets_to_drop(now));
    assert!(!buffer.is_flushed())
}
