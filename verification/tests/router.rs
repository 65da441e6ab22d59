use srt::address::{IpAddress, PeerAddress};
use srt::router::publishers::{Publisher, PublisherAction, PublisherEvent, Publishers};
use srt::router::relay::{
    relay_from_publisher, relay_to_subscriber, PublisherInput, PublisherStep, SubscriberInput,
    SubscriberStep,
};
use srt::router::sources::{Source, SourceInput, Sources};
use srt::router::subscribers::{Subscriber, SubscriberAction, SubscriberEvent, Subscribers};
use srt::router::{CollectionEvent, Router};
use srt::source_id::SourceId;
use srt::time::Instant;

const SECOND: u128 = 1_000_000_000;

fn peer(port: u16) -> PeerAddress {
    PeerAddress { ip: IpAddress::V4(0x7f00_0001), port, flow_info: 0, scope_id: 0 }
}

fn at(nanos: u128) -> Instant {
    Instant { nanos }
}

fn id(name: &str) -> SourceId {
    SourceId::from_name(name.to_string()).unwrap()
}

#[test]
fn publisher_states_are_kept_by_address() {
    let mut publishers = Publishers::new();
    assert_eq!(publishers.get(peer(1)), None);
    publishers.set_connecting(peer(1), at(1));
    publishers.set_connecting(peer(2), at(2));
    publishers.set_publishing(peer(1), at(3));
    assert_eq!(publishers.get(peer(1)), Some(Publisher::Publishing(at(3))));
    assert_eq!(publishers.get(peer(2)), Some(Publisher::Connecting(at(2))));
    publishers.set_rejected(peer(1), at(4));
    publishers.set_disconnected(peer(2), at(5));
    assert_eq!(publishers.get(peer(1)), Some(Publisher::Rejected(at(4))));
    assert_eq!(publishers.get(peer(2)), Some(Publisher::Disconnected(at(5))));
}

#[test]
fn publishers_are_forgotten_after_a_minute() {
    let mut publishers = Publishers::new();
    publishers.set_connecting(peer(1), at(0));
    publishers.set_publishing(peer(2), at(0));
    publishers.set_rejected(peer(3), at(0));
    publishers.set_disconnected(peer(4), at(1));
    publishers.collect_expired(at(60 * SECOND));
    assert!(publishers.get(peer(3)).is_some());
    publishers.collect_expired(at(60 * SECOND + 1));
    assert!(publishers.get(peer(3)).is_none());
    assert!(publishers.get(peer(4)).is_some());
    publishers.collect_expired(at(1_000 * SECOND));
    assert!(publishers.get(peer(4)).is_none());
    assert!(publishers.get(peer(1)).is_some());
    assert!(publishers.get(peer(2)).is_some());
}

#[test]
fn publisher_request_is_accepted_and_connected() {
    let mut publishers = Publishers::new();
    let event = PublisherEvent::Requested(Some("#!::r=source"));
    let source_id = match publishers.handle_publisher_request(peer(1), event, at(1)) {
        PublisherAction::Accept(source_id) => source_id,
        _ => panic!("the request names a source"),
    };
    assert_eq!(source_id.deref(), "source");
    assert_eq!(publishers.get(peer(1)), Some(Publisher::Connecting(at(1))));
    let event = PublisherEvent::Accepted(source_id);
    match publishers.handle_publisher_request(peer(1), event, at(2)) {
        PublisherAction::Connect(source_id) => assert_eq!(source_id.deref(), "source"),
        _ => panic!("the connection was accepted"),
    }
    assert_eq!(publishers.get(peer(1)), Some(Publisher::Connecting(at(1))));
}

#[test]
fn publisher_request_is_refused() {
    let mut publishers = Publishers::new();
    for (port, stream_id) in [(1, None), (2, Some("source")), (3, Some("#!::u=eve"))] {
        let event = PublisherEvent::Requested(stream_id);
        let action = publishers.handle_publisher_request(peer(port), event, at(1));
        assert!(matches!(action, PublisherAction::Finish));
        assert_eq!(publishers.get(peer(port)), Some(Publisher::Rejected(at(1))));
    }
    let event = PublisherEvent::AcceptFailed;
    let action = publishers.handle_publisher_request(peer(4), event, at(2));
    assert!(matches!(action, PublisherAction::Finish));
    assert_eq!(publishers.get(peer(4)), Some(Publisher::Disconnected(at(2))));
}

#[test]
fn subscriber_request_needs_a_source() {
    let mut sources: Sources<char, u32> = Sources::new();
    let mut subscribers: Subscribers<u32> = Subscribers::new();
    let stream_id = Some("#!::r=source");
    let event = SubscriberEvent::Requested(stream_id);
    let action = subscribers.handle_subscriber_request(&sources, peer(1), event, at(1));
    assert!(matches!(action, SubscriberAction::Finish));
    assert!(matches!(subscribers.get(peer(1)), Some(Subscriber::Rejected(Instant { nanos: 1 }))));

    let event = SubscriberEvent::Requested(None);
    let action = subscribers.handle_subscriber_request(&sources, peer(1), event, at(2));
    assert!(matches!(action, SubscriberAction::Finish));

    assert_eq!(sources.connect_publisher(&id("source"), 'r', at(2)), None);
    let event = SubscriberEvent::Requested(stream_id);
    let source_id = match subscribers.handle_subscriber_request(&sources, peer(1), event, at(3)) {
        SubscriberAction::Accept(source_id) => source_id,
        _ => panic!("there is such a source"),
    };
    assert_eq!(source_id, id("source"));
    assert!(matches!(subscribers.get(peer(1)), Some(Subscriber::Connecting(Instant { nanos: 3 }))));

    let event = SubscriberEvent::Accepted(source_id);
    let action = subscribers.handle_subscriber_request(&sources, peer(1), event, at(4));
    assert!(matches!(action, SubscriberAction::Subscribe(s) if s == id("source")));

    let event = SubscriberEvent::AcceptFailed;
    let action = subscribers.handle_subscriber_request(&sources, peer(1), event, at(5));
    assert!(matches!(action, SubscriberAction::Finish));
    assert!(matches!(
        subscribers.get(peer(1)),
        Some(Subscriber::Disconnected(Instant { nanos: 5 }))
    ));
}

#[test]
fn subscribers_are_forgotten_after_ten_seconds() {
    let mut subscribers: Subscribers<u32> = Subscribers::new();
    subscribers.set_connecting(peer(1), at(0));
    subscribers.set_connected(peer(2), id("source"), 9, at(0));
    subscribers.set_rejected(peer(3), at(0));
    subscribers.set_disconnected(peer(4), at(0));
    subscribers.collect_expired(at(10 * SECOND));
    assert!(subscribers.get(peer(3)).is_some());
    assert!(subscribers.get(peer(4)).is_some());
    subscribers.collect_expired(at(10 * SECOND + 1));
    assert!(subscribers.get(peer(3)).is_none());
    assert!(subscribers.get(peer(4)).is_none());
    assert!(subscribers.get(peer(1)).is_some());
    match subscribers.get(peer(2)) {
        Some(Subscriber::Connected(_, source_id, 9)) => assert_eq!(*source_id, id("source")),
        _ => panic!("the subscriber is connected"),
    }
}

#[test]
fn source_follows_its_publisher() {
    let mut source: Source<char, u32> = Source::new('r', at(1));
    assert!(matches!(source.input, SourceInput::Connecting(Instant { nanos: 1 })));
    source.publisher_stopped(at(2));
    assert!(matches!(source.input, SourceInput::Connecting(Instant { nanos: 1 })));
    source.publisher_connected(peer(1), 5, at(3));
    assert!(matches!(source.input, SourceInput::Connected(Instant { nanos: 3 }, _, 5)));
    assert_eq!(source.connect_publisher(at(4)), Some(5));
    assert!(matches!(source.input, SourceInput::Connecting(Instant { nanos: 4 })));
    source.publisher_connected(peer(2), 6, at(5));
    source.publisher_stopped(at(6));
    assert!(matches!(source.input, SourceInput::Disconnected(Instant { nanos: 6 })));
    assert_eq!(source.connect_publisher(at(7)), None);
    assert_eq!(*source.subscribe(), 'r');
}

#[test]
fn new_publisher_takes_over_and_keeps_the_relay() {
    let mut sources: Sources<char, u32> = Sources::new();
    assert_eq!(sources.subscribe(&id("source")), None);
    assert_eq!(sources.publisher_connected(&id("source"), peer(1), 5, at(1)), Some(5));
    assert_eq!(sources.connect_publisher(&id("source"), 'a', at(1)), None);
    assert_eq!(sources.publisher_connected(&id("source"), peer(1), 5, at(2)), None);
    assert_eq!(sources.connect_publisher(&id("source"), 'b', at(3)), Some(5));
    // the publisher that was told to stop does not disturb the new one
    sources.publisher_stopped(&id("source"), at(4));
    sources.collect_expired(at(1_000 * SECOND));
    assert_eq!(sources.subscribe(&id("source")), Some(&'a'));
    assert_eq!(sources.subscribe(&id("other")), None);
}

#[test]
fn sources_are_forgotten_after_two_minutes() {
    let mut sources: Sources<char, u32> = Sources::new();
    sources.connect_publisher(&id("source"), 'a', at(0));
    sources.publisher_connected(&id("source"), peer(1), 5, at(0));
    sources.publisher_stopped(&id("source"), at(0));
    sources.collect_expired(at(120 * SECOND));
    assert!(sources.subscribe(&id("source")).is_some());
    sources.collect_expired(at(120 * SECOND + 1));
    assert!(sources.subscribe(&id("source")).is_none());
}

#[test]
fn relay_from_publisher_goes_on_while_data_is_relayed() {
    assert!(matches!(
        relay_from_publisher(PublisherInput::Data("hello")),
        PublisherStep::Relay("hello")
    ));
    assert!(matches!(
        relay_from_publisher(PublisherInput::<()>::Relayed(true)),
        PublisherStep::Wait
    ));
    for input in [
        PublisherInput::<()>::Relayed(false),
        PublisherInput::Failed,
        PublisherInput::Closed,
        PublisherInput::Canceled,
    ] {
        assert!(matches!(relay_from_publisher(input), PublisherStep::Stop));
    }
}

#[test]
fn relay_to_subscriber_survives_lost_items() {
    assert!(matches!(
        relay_to_subscriber(SubscriberInput::Data("hello")),
        SubscriberStep::Send("hello")
    ));
    assert!(matches!(
        relay_to_subscriber(SubscriberInput::<()>::Lagged(12)),
        SubscriberStep::ReportLost(12)
    ));
    assert!(matches!(
        relay_to_subscriber(SubscriberInput::<()>::Sent(true)),
        SubscriberStep::Wait
    ));
    for input in [
        SubscriberInput::<()>::Sent(false),
        SubscriberInput::Closed,
        SubscriberInput::Canceled,
    ] {
        assert!(matches!(relay_to_subscriber(input), SubscriberStep::Stop));
    }
}

#[test]
fn router_collects_each_second_until_it_closes() {
    let mut router: Router<char, u32> = Router::new();
    router.sources.connect_publisher(&id("source"), 'a', at(0));
    router.sources.publisher_connected(&id("source"), peer(1), 5, at(0));
    router.publisher_started(peer(1), at(0));
    assert_eq!(router.publishers.get(peer(1)), Some(Publisher::Publishing(at(0))));
    router.subscribers.set_rejected(peer(2), at(0));
    router.publisher_stopped(peer(1), &id("source"), at(SECOND));
    assert_eq!(router.publishers.get(peer(1)), Some(Publisher::Disconnected(at(SECOND))));

    assert!(!router.run_collection(CollectionEvent::Canceled, at(1_000 * SECOND)));
    assert!(router.subscribers.get(peer(2)).is_some());

    assert!(router.run_collection(CollectionEvent::Tick, at(100 * SECOND)));
    assert!(router.subscribers.get(peer(2)).is_none());
    assert!(router.publishers.get(peer(1)).is_none());
    assert!(router.sources.subscribe(&id("source")).is_some());
    assert!(router.run_collection(CollectionEvent::Tick, at(122 * SECOND)));
    assert!(router.sources.subscribe(&id("source")).is_none());
}

#[test]
fn publisher_reaches_subscriber() {
    let mut router: Router<char, u32> = Router::new();
    let stream_id = Some("#!::r=source");

    let event = PublisherEvent::Requested(stream_id);
    let source_id = match router.publishers.handle_publisher_request(peer(1), event, at(1)) {
        PublisherAction::Accept(source_id) => source_id,
        _ => panic!("the publisher names a source"),
    };
    assert_eq!(router.sources.connect_publisher(&source_id, 'r', at(2)), None);
    assert_eq!(router.sources.publisher_connected(&source_id, peer(1), 5, at(3)), None);
    router.publisher_started(peer(1), at(3));
    assert!(router.run_collection(CollectionEvent::Tick, at(10_000 * SECOND)));
    // the publisher goes for two minutes, and comes back
    router.publisher_stopped(peer(1), &source_id, at(10_000 * SECOND));
    assert!(router.run_collection(CollectionEvent::Tick, at(10_120 * SECOND)));
    assert_eq!(router.sources.connect_publisher(&source_id, 's', at(10_120 * SECOND)), None);
    assert_eq!(
        router.sources.publisher_connected(&source_id, peer(1), 5, at(10_120 * SECOND)),
        None
    );
    assert!(router.run_collection(CollectionEvent::Tick, at(20_000 * SECOND)));

    let event = SubscriberEvent::Requested(stream_id);
    let subscribers = &mut router.subscribers;
    let action = subscribers.handle_subscriber_request(&router.sources, peer(2), event, at(4));
    match action {
        SubscriberAction::Accept(wanted) => {
            assert_eq!(router.sources.subscribe(&wanted), Some(&'r'));
            router.subscribers.set_connected(peer(2), wanted, 6, at(5));
        }
        _ => panic!("the source has a publisher"),
    }

    // another publisher takes over, and the subscriber's relay stays
    assert_eq!(router.sources.connect_publisher(&source_id, 's', at(6)), Some(5));
    router.publisher_stopped(peer(1), &source_id, at(7));
    assert_eq!(router.sources.publisher_connected(&source_id, peer(3), 7, at(8)), None);
    assert_eq!(router.sources.subscribe(&source_id), Some(&'r'));
    assert_eq!(router.publishers.get(peer(1)), Some(Publisher::Disconnected(at(7))));
    assert_eq!(router.sources.connect_publisher(&source_id, 's', at(9)), Some(7));
}
