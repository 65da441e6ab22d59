use bytes::Bytes;
use srt::address::{IpAddress, PeerAddress};
use srt::buffer::SendBuffer;
use srt::loss_list::CompressedLossList;
use srt::numbers::{SeqNumber, SocketId};
use srt::packet::{DataEncryption, DataPacket, PacketLocation};
use srt::settings::ConnectionSettings;
use srt::time::{Duration, Instant};

const START: Instant = Instant { nanos: 1_000_000_000 };

fn at_millis(millis: u128) -> Instant {
    Instant { nanos: START.nanos + millis * 1_000_000 }
}

fn seq(raw: u32) -> SeqNumber {
    SeqNumber::new_truncate(raw)
}

fn settings(first: u32, max_packet_size: usize, latency_millis: u64) -> ConnectionSettings {
    let local = PeerAddress { ip: IpAddress::V6(1), port: 9, flow_info: 0, scope_id: 0 };
    ConnectionSettings {
        remote: local,
        remote_sockid: SocketId(40),
        local_sockid: SocketId(41),
        socket_start_time: START,
        rtt: Duration::from_millis(1),
        init_seq_num: seq(first),
        max_packet_size,
        max_flow_size: 100,
        send_tsbpd_latency: Duration::from_millis(latency_millis),
        recv_tsbpd_latency: Duration::from_millis(latency_millis),
        stream_id: None,
    }
}

fn buffer(first: u32) -> SendBuffer {
    SendBuffer::new(&settings(first, 4, 1_000))
}

fn sent_packets(buffer: &mut SendBuffer) -> Vec<DataPacket> {
    let mut packets = Vec::new();
    while let Some(packet) = buffer.pop_next_packet() {
        packets.push(packet);
    }
    packets
}

fn lost(numbers: &[u32]) -> CompressedLossList {
    CompressedLossList::from_loss_list(numbers.iter().map(|n| seq(*n)).collect())
}

fn raw(packet: Option<DataPacket>) -> Option<u32> {
    packet.map(|p| p.seq_number.as_raw())
}

#[test]
fn message_is_cut_into_packets() {
    let mut buffer = buffer(0x7fff_ffff);
    assert_eq!(buffer.push_data((at_millis(3), Bytes::from_static(b"0123456789"))), 3);
    assert_eq!(buffer.push_data((at_millis(4), Bytes::from_static(b"abcd"))), 1);
    let packets = sent_packets(&mut buffer);
    let payloads: Vec<&[u8]> = packets.iter().map(|p| &p.payload[..]).collect();
    assert_eq!(payloads, vec![&b"0123"[..], &b"4567"[..], &b"89"[..], &b"abcd"[..]]);
    let numbers: Vec<u32> = packets.iter().map(|p| p.seq_number.as_raw()).collect();
    assert_eq!(numbers, vec![0x7fff_ffff, 0, 1, 2]);
    let messages: Vec<u32> = packets.iter().map(|p| p.message_number.as_raw()).collect();
    assert_eq!(messages, vec![0, 0, 0, 1]);
    let locations: Vec<PacketLocation> = packets.iter().map(|p| p.message_loc).collect();
    assert_eq!(
        locations,
        vec![
            PacketLocation::First,
            PacketLocation::Middle,
            PacketLocation::Last,
            PacketLocation::Only
        ]
    );
    assert!(packets.iter().all(|p| p.dest_sockid == SocketId(40)));
    assert_eq!(packets[0].timestamp.micros, 3_000);
    assert_eq!(packets[3].timestamp.micros, 4_000);
}

#[test]
fn message_that_fills_its_packets_has_no_empty_one() {
    let mut buffer = buffer(0);
    assert_eq!(buffer.push_data((START, Bytes::from_static(b"01234567"))), 2);
}

#[test]
fn encrypted_packets_keep_their_headers() {
    let mut buffer = buffer(5);
    let count = buffer.push_encrypted_data((START, Bytes::from_static(b"abcdef")), |packet| {
        let payload: Vec<u8> = packet.payload.iter().map(|b| b ^ 0x20).collect();
        (DataEncryption::Even, Bytes::from(payload))
    });
    assert_eq!(count, 2);
    let packets = sent_packets(&mut buffer);
    assert_eq!(&packets[0].payload[..], b"ABCD");
    assert_eq!(&packets[1].payload[..], b"EF");
    assert_eq!(packets[1].encryption, DataEncryption::Even);
    assert_eq!(packets[1].seq_number, seq(6));
    assert_eq!(packets[1].message_loc, PacketLocation::Last);
}

#[test]
fn timestamps_are_those_of_the_connection() {
    assert_eq!(buffer(0).timestamp_from(at_millis(7)).micros, 7_000);
}

#[test]
fn acknowledgement_works_across_the_wrap() {
    let mut buffer = buffer(0x7fff_fffe);
    for _ in 0..4 {
        buffer.push_data((START, Bytes::new()));
    }
    assert_eq!(sent_packets(&mut buffer).len(), 4);
    assert_eq!(buffer.update_largest_acked_seq_number(seq(1)), Some((2, 0)));
    assert_eq!(buffer.number_of_unacked_packets(), 2);
    // the same acknowledgement changes nothing more
    assert_eq!(buffer.update_largest_acked_seq_number(seq(1)), Some((0, 0)));
    // one for packets that are gone is not taken
    assert_eq!(buffer.update_largest_acked_seq_number(seq(0x7fff_ffff)), None);
    assert_eq!(buffer.update_largest_acked_seq_number(seq(2)), Some((1, 0)));
    assert_eq!(buffer.update_largest_acked_seq_number(seq(3)), None);
}

#[test]
fn nothing_is_acknowledged_before_something_is_sent() {
    let mut buffer = buffer(0);
    assert_eq!(buffer.update_largest_acked_seq_number(seq(0)), None);
    buffer.push_data((START, Bytes::new()));
    assert_eq!(buffer.update_largest_acked_seq_number(seq(0)), None);
    buffer.add_to_loss_list(lost(&[0]));
    assert_eq!(buffer.pop_next_lost_packet(), None);
}

#[test]
fn losses_are_kept_in_order_across_the_wrap() {
    let mut buffer = buffer(0x7fff_fffd);
    for _ in 0..6 {
        buffer.push_data((START, Bytes::new()));
    }
    assert_eq!(sent_packets(&mut buffer).len(), 6);
    buffer.add_to_loss_list(lost(&[1, 0x7fff_ffff]));
    buffer.add_to_loss_list(lost(&[0, 1, 0x7fff_fffe]));
    assert_eq!(raw(buffer.pop_next_lost_packet()), Some(0x7fff_fffe));
    assert_eq!(raw(buffer.pop_next_lost_packet()), Some(0x7fff_ffff));
    assert_eq!(raw(buffer.pop_next_lost_packet()), Some(0));
    assert_eq!(raw(buffer.pop_next_lost_packet()), Some(1));
    assert_eq!(buffer.pop_next_lost_packet(), None);
}

#[test]
fn loss_whose_packet_is_dropped_gives_no_packet() {
    let mut buffer = buffer(0);
    buffer.push_data((START, Bytes::from_static(b"01234567")));
    buffer.push_data((at_millis(2_400), Bytes::new()));
    assert_eq!(sent_packets(&mut buffer).len(), 3);
    buffer.add_to_loss_list(lost(&[1]));
    let now = at_millis(2_501);
    assert!(buffer.has_packets_to_drop(now));
    assert_eq!(buffer.drop_too_late_packets(now).collect().len(), 1);
    assert!(buffer.has_packets_to_send());
    assert_eq!(buffer.pop_next_lost_packet(), None);
    assert!(!buffer.has_packets_to_send());
}

#[test]
fn messages_are_dropped_one_by_one() {
    let mut buffer = buffer(0);
    buffer.push_data((START, Bytes::from_static(b"01234567")));
    buffer.push_data((at_millis(1), Bytes::new()));
    let now = at_millis(5_000);
    {
        let mut messages = buffer.drop_too_late_packets(now);
        let first = messages.next().unwrap();
        assert_eq!((first.msg.as_raw(), first.first.as_raw(), first.last.as_raw()), (0, 0, 1));
    }
    // the other message is still there, and alone in the buffer it is not asked for
    assert_eq!(buffer.number_of_unacked_packets(), 1);
    assert!(!buffer.has_packets_to_drop(now));
    let rest = buffer.drop_too_late_packets(now).collect();
    assert_eq!(rest.len(), 1);
    assert_eq!(rest[0].first, seq(2));
    assert!(buffer.is_flushed());
    assert_eq!(buffer.drop_too_late_packets(now).collect().len(), 0);
}

#[test]
fn packets_are_kept_for_at_least_a_second() {
    let mut buffer = SendBuffer::new(&settings(0, 4, 10));
    buffer.push_data((START, Bytes::new()));
    buffer.push_data((START, Bytes::new()));
    assert!(!buffer.has_packets_to_drop(at_millis(1_000)));
    assert!(buffer.has_packets_to_drop(at_millis(1_001)));
}

#[test]
fn unsent_packets_are_sent_after_sent_ones_are_dropped() {
    let mut buffer = buffer(0);
    buffer.push_data((START, Bytes::new()));
    buffer.push_data((at_millis(3_000), Bytes::new()));
    assert_eq!(raw(buffer.pop_next_packet()), Some(0));
    assert_eq!(buffer.drop_too_late_packets(at_millis(3_000)).collect().len(), 1);
    assert_eq!(raw(buffer.pop_next_packet()), Some(1));
    assert_eq!(buffer.pop_next_packet(), None);
}

#[test]
fn last_packet_is_flushed_on_close() {
    let mut buffer = buffer(0);
    assert_eq!(buffer.flush_on_close(true), None);
    buffer.push_data((START, Bytes::new()));
    assert_eq!(raw(buffer.pop_next_packet()), Some(0));
    assert_eq!(buffer.flush_on_close(false), None);
    assert_eq!(raw(buffer.flush_on_close(true)), Some(0));
    assert!(buffer.is_flushed());
    buffer.push_data((START, Bytes::new()));
    buffer.push_data((START, Bytes::new()));
    assert_eq!(buffer.flush_on_close(true), None);
    assert_eq!(raw(buffer.pop_next_packet()), Some(1));
}

fn sent_buffer(first: u32, messages: u32) -> SendBuffer {
    let mut buffer = buffer(first);
    for _ in 0..messages {
        buffer.push_data((START, Bytes::new()));
    }
    assert_eq!(sent_packets(&mut buffer).len(), messages as usize);
    buffer
}

fn retransmitted(buffer: &mut SendBuffer) -> Vec<u32> {
    let mut numbers = Vec::new();
    while let Some(packet) = buffer.pop_next_lost_packet() {
        assert!(packet.retransmitted);
        numbers.push(packet.seq_number.as_raw());
    }
    numbers
}

#[test]
fn skipped_acknowledgement_loses_no_count() {
    let mut one = sent_buffer(0x7fff_fffc, 8);
    let mut two = sent_buffer(0x7fff_fffc, 8);
    for buffer in [&mut one, &mut two] {
        buffer.add_to_loss_list(lost(&[0x7fff_fffd, 0x7fff_ffff, 2]));
    }
    assert_eq!(one.update_largest_acked_seq_number(seq(0x7fff_fffe)), Some((1, 1)));
    assert_eq!(one.update_largest_acked_seq_number(seq(1)), Some((3, 1)));
    assert_eq!(two.update_largest_acked_seq_number(seq(1)), Some((4, 2)));
    assert_eq!(one.number_of_unacked_packets(), two.number_of_unacked_packets());
    assert_eq!(retransmitted(&mut one), vec![2]);
    assert_eq!(retransmitted(&mut two), vec![2]);
}

#[test]
fn order_of_loss_reports_does_not_matter() {
    let mut one = sent_buffer(0x7fff_fffe, 6);
    let mut two = sent_buffer(0x7fff_fffe, 6);
    one.add_to_loss_list(lost(&[3, 0x7fff_ffff]));
    one.add_to_loss_list(lost(&[0, 3, 1]));
    two.add_to_loss_list(lost(&[0, 3, 1]));
    two.add_to_loss_list(lost(&[3, 0x7fff_ffff]));
    two.add_to_loss_list(lost(&[3, 0x7fff_ffff]));
    assert_eq!(retransmitted(&mut one), vec![0x7fff_ffff, 0, 1, 3]);
    assert_eq!(retransmitted(&mut two), vec![0x7fff_ffff, 0, 1, 3]);
}

#[test]
fn packets_follow_one_another_whatever_comes_between() {
    let mut buffer = buffer(0x7fff_fffe);
    buffer.push_data((START, Bytes::from_static(b"01234567")));
    assert_eq!(raw(buffer.pop_next_packet()), Some(0x7fff_fffe));
    assert_eq!(raw(buffer.pop_next_packet()), Some(0x7fff_ffff));
    buffer.push_data((START, Bytes::new()));
    buffer.add_to_loss_list(lost(&[0x7fff_fffe, 0]));
    assert_eq!(raw(buffer.pop_next_lost_packet()), Some(0x7fff_fffe));
    assert_eq!(buffer.update_largest_acked_seq_number(seq(0)), Some((1, 0)));
    buffer.push_data((START, Bytes::new()));
    assert_eq!(raw(buffer.pop_next_packet()), Some(0));
    assert_eq!(raw(buffer.pop_next_packet()), Some(1));
    assert_eq!(buffer.pop_next_packet(), None);
}

#[test]
fn pushed_message_waits_and_is_counted() {
    let mut buffer = buffer(3);
    assert!(buffer.is_flushed());
    assert!(!buffer.has_packets_to_send());
    assert_eq!(buffer.number_of_unacked_packets(), 0);
    buffer.push_data((START, Bytes::from_static(b"01234567")));
    assert!(buffer.has_packets_to_send());
    assert_eq!(buffer.number_of_unacked_packets(), 2);
    assert_eq!(sent_packets(&mut buffer).len(), 2);
    assert!(!buffer.has_packets_to_send());
    assert!(!buffer.is_flushed());
    // an acknowledgement of all that was sent keeps the last packet
    assert_eq!(buffer.update_largest_acked_seq_number(seq(5)), Some((1, 0)));
    assert!(!buffer.is_flushed());
}

#[test]
fn reports_run_forward_across_the_wrap() {
    let mut buffer = buffer(0x7fff_ffff);
    buffer.push_data((START, Bytes::from_static(b"01234567")));
    buffer.push_data((START, Bytes::from_static(b"abcdefghij")));
    buffer.push_data((at_millis(4_000), Bytes::new()));
    let dropped = buffer.drop_too_late_packets(at_millis(4_000)).collect();
    let named: Vec<(u32, u32, u32)> =
        dropped.iter().map(|d| (d.msg.as_raw(), d.first.as_raw(), d.last.as_raw())).collect();
    assert_eq!(named, vec![(0, 0x7fff_ffff, 0), (1, 1, 3)]);
    assert!(dropped.iter().all(|d| d.first <= d.last));
    let kept = buffer.pop_next_packet().unwrap();
    assert_eq!((kept.seq_number, kept.message_number.as_raw()), (seq(4), 2));
}
