use srt::numbers::{MsgNumber, SeqNumber};
use srt::time::{Duration, Instant, TimeStamp};

fn seq(raw: u32) -> SeqNumber {
    SeqNumber::new_truncate(raw)
}

#[test]
fn sequence_numbers_lose_their_top_bit() {
    assert_eq!(seq(0x8000_0005).as_raw(), 5);
    assert_eq!(seq(0x7fff_ffff).as_raw(), 0x7fff_ffff);
}

#[test]
fn sequence_numbers_wrap() {
    assert_eq!(seq(0x7fff_ffff).plus(1), seq(0));
    assert_eq!(seq(0).minus(1), seq(0x7fff_ffff));
    assert_eq!(seq(3).plus(0xffff_ffff), seq(2));
    assert_eq!(seq(3).minus(0xffff_ffff), seq(4));
    assert_eq!(seq(2).distance_from(seq(0x7fff_fffe)), 4);
    assert_eq!(seq(0x7fff_fffe).distance_from(seq(2)), 0x7fff_fffc);
}

#[test]
fn sequence_numbers_are_ordered_around_the_circle() {
    assert!(seq(1) < seq(2));
    assert!(seq(0x7fff_ffff) < seq(0));
    assert!(seq(0) > seq(0x7fff_ffff));
    assert!(seq(5) <= seq(5));
    assert!(seq(0) < seq(0x4000_0000));
    assert!(seq(0x4000_0000) < seq(0));
    assert!(seq(0) > seq(0x4000_0001));
}

#[test]
fn sequence_numbers_lie_in_ranges() {
    assert!(seq(5).is_within(seq(5), seq(7)));
    assert!(seq(7).is_within(seq(5), seq(7)));
    assert!(!seq(8).is_within(seq(5), seq(7)));
    assert!(!seq(4).is_within(seq(5), seq(7)));
    assert!(seq(0).is_within(seq(0x7fff_ffff), seq(1)));
}

#[test]
fn message_numbers_wrap() {
    assert_eq!(MsgNumber::new_truncate(0x03ff_ffff).next().as_raw(), 0);
    assert_eq!(MsgNumber::new_truncate(0x0400_0007).as_raw(), 7);
    assert_eq!(MsgNumber::new_truncate(7).next().as_raw(), 8);
}

#[test]
fn timestamps_count_microseconds() {
    let start = Instant { nanos: 10_000_000_000 };
    let at = |nanos: u128| TimeStamp::of_instant(start, Instant { nanos });
    assert_eq!(at(10_000_000_000).micros, 0);
    assert_eq!(at(10_000_001_999).micros, 1);
    assert_eq!(at(10_002_000_000).micros, 2_000);
    assert_eq!(at(9_999_999_001).micros, 0);
    assert_eq!(at(9_999_999_000).micros, 0xffff_ffff);
    assert_eq!(at(10_000_000_000 + 4_294_967_296_000 + 5_000).micros, 5);
}

#[test]
fn timestamps_wrap_and_are_ordered_around_the_circle() {
    let ts = |micros: u32| TimeStamp { micros };
    assert_eq!(ts(0xffff_ffff).plus(Duration { nanos: 3_999 }), ts(2));
    assert_eq!(ts(7).plus(Duration { nanos: 4_294_967_296_000 }), ts(7));
    assert!(ts(1).is_before(ts(2)));
    assert!(!ts(2).is_before(ts(2)));
    assert!(ts(0xffff_fff0).is_before(ts(3)));
    assert!(!ts(3).is_before(ts(0xffff_fff0)));
    assert!(ts(0).is_before(ts(0x8000_0000)));
    assert!(!ts(0).is_before(ts(0x8000_0001)));
}

#[test]
fn durations_are_in_nanoseconds() {
    assert_eq!(Duration::from_millis(3).nanos, 3_000_000);
    assert_eq!(Duration::from_secs(3).nanos, 3_000_000_000);
}

#[test]
fn instants_time_out_when_more_than_the_timeout_has_passed() {
    let since = Instant { nanos: 100 };
    let timeout = Duration { nanos: 50 };
    assert!(!since.timed_out(timeout, Instant { nanos: 90 }));
    assert!(!since.timed_out(timeout, Instant { nanos: 150 }));
    assert!(since.timed_out(timeout, Instant { nanos: 151 }));
    assert!(!since.timed_out(Duration { nanos: u128::MAX }, Instant { nanos: u128::MAX }));
}
