//! What holds of a router over any run of events.
use crate::address::PeerAddress;
use crate::router::publishers::{publisher_request, Publisher, PublisherEvent};
use crate::router::sources::{
    connected_handle, publisher_awaited, publisher_connected, publisher_stopped, SourceInput,
    SOURCE_TIMEOUT_NANOS,
};
use crate::router::subscribers::{
    available_source, subscriber_request, Subscriber, SubscriberEvent,
};
use crate::router::RouterView;
use crate::source_id::{source_of, SourceId};
use crate::time::{timed_out, Duration, Instant};
use vstd::prelude::*;

verus! {

/// What can happen to a router.
pub enum RouterEvent<'a, R, H> {
    /// Something happened to a publisher's request.
    PublisherRequest(PeerAddress, PublisherEvent<'a>, Instant),
    /// Something happened to a subscriber's request.
    SubscriberRequest(PeerAddress, SubscriberEvent<'a>, Instant),
    /// The source of this name is made ready for a new publisher.
    PublisherAwaited(Seq<char>, R, Instant),
    /// A publisher feeds the source of this name now.
    PublisherConnected(Seq<char>, PeerAddress, H, Instant),
    /// A publisher started.
    PublisherStarted(PeerAddress, Instant),
    /// A publisher stopped, and does not feed the source of this name any more.
    PublisherStopped(PeerAddress, Seq<char>, Instant),
    /// A subscriber listens to a source.
    SubscriberConnected(PeerAddress, SourceId, H, Instant),
    /// A subscriber is gone.
    SubscriberGone(PeerAddress, Instant),
    /// What is expired is forgotten.
    Collected(Instant),
}

impl<R, H> RouterView<R, H> {
    /// The router after an event.
    pub open spec fn step(self, event: RouterEvent<'_, R, H>) -> RouterView<R, H> {
        match event {
            RouterEvent::PublisherRequest(remote, event, now) => RouterView {
                publishers: publisher_request(self.publishers, remote, event, now),
                ..self
            },
            RouterEvent::SubscriberRequest(remote, event, now) => RouterView {
                subscribers: subscriber_request(
                    self.subscribers,
                    self.sources,
                    remote,
                    event,
                    now,
                ),
                ..self
            },
            RouterEvent::PublisherAwaited(name, relay, now) => RouterView {
                sources: publisher_awaited(self.sources, name, relay, now),
                ..self
            },
            RouterEvent::PublisherConnected(name, remote, handle, now) => RouterView {
                sources: publisher_connected(self.sources, name, remote, handle, now),
                ..self
            },
            RouterEvent::PublisherStarted(remote, now) => RouterView {
                publishers: self.publishers.insert(remote, Publisher::Publishing(now)),
                ..self
            },
            RouterEvent::PublisherStopped(remote, name, now) => RouterView {
                publishers: self.publishers.insert(remote, Publisher::Disconnected(now)),
                sources: publisher_stopped(self.sources, name, now),
                ..self
            },
            RouterEvent::SubscriberConnected(remote, source_id, handle, now) => RouterView {
                subscribers: self.subscribers.insert(
                    remote,
                    Subscriber::Connected(now, source_id, handle),
                ),
                ..self
            },
            RouterEvent::SubscriberGone(remote, now) => RouterView {
                subscribers: self.subscribers.insert(remote, Subscriber::Disconnected(now)),
                ..self
            },
            RouterEvent::Collected(now) => self.collected(now),
        }
    }

    /// The router after a run of events.
    pub open spec fn run(self, events: Seq<RouterEvent<'_, R, H>>) -> RouterView<R, H>
        decreases events.len(),
    {
        if events.len() == 0 {
            self
        } else {
            self.run(events.drop_last()).step(events.last())
        }
    }

    /// Whether a source's publisher is never gone for more than two minutes when the router
    /// collects what is expired during a run.
    pub open spec fn keeps_publisher(
        self,
        name: Seq<char>,
        events: Seq<RouterEvent<'_, R, H>>,
    ) -> bool
        decreases events.len(),
    {
        events.len() > 0 ==> {
            &&& self.keeps_publisher(name, events.drop_last())
            &&& events.last() matches RouterEvent::Collected(now) ==> match self.run(
                events.drop_last(),
            ).sources[name].input {
                SourceInput::Disconnected(since) => !timed_out(
                    since,
                    Duration { nanos: SOURCE_TIMEOUT_NANOS },
                    now,
                ),
                _ => true,
            }
        }
    }
}

/// A source stays, and keeps its relay, whatever happens to the router, as long as its
/// publisher is not gone for more than two minutes.
pub proof fn source_stays_with_its_relay<R, H>(
    v: RouterView<R, H>,
    name: Seq<char>,
    events: Seq<RouterEvent<'_, R, H>>,
)
    requires
        v.sources.contains_key(name),
        v.keeps_publisher(name, events),
    ensures
        v.run(events).sources.contains_key(name),
        v.run(events).sources[name].relay == v.sources[name].relay,
    decreases events.len(),
{
    if events.len() > 0 {
        source_stays_with_its_relay(v, name, events.drop_last());
    }
}

/// A publisher and a subscriber that ask for one source meet: once the publisher feeds the
/// source, the subscriber's request is accepted whatever happens before it comes, as long as
/// the source's publisher is not gone for more than two minutes. The relay that the subscriber
/// listens to is the one that the publisher feeds.
pub proof fn subscriber_finds_its_publisher<R, H>(
    v: RouterView<R, H>,
    publisher_stream: &str,
    subscriber_stream: &str,
    publisher: PeerAddress,
    subscriber: PeerAddress,
    relay: R,
    handle: H,
    awaited: Instant,
    connected: Instant,
    events: Seq<RouterEvent<'_, R, H>>,
    now: Instant,
)
    requires
        source_of(publisher_stream@) is Some,
        source_of(subscriber_stream@) == source_of(publisher_stream@),
        ({
            let name = source_of(publisher_stream@)->0;
            v.step(RouterEvent::PublisherAwaited(name, relay, awaited)).step(
                RouterEvent::PublisherConnected(name, publisher, handle, connected),
            ).keeps_publisher(name, events)
        }),
    ensures
        ({
            let name = source_of(publisher_stream@)->0;
            let waiting = v.step(RouterEvent::PublisherAwaited(name, relay, awaited));
            let fed = waiting.step(
                RouterEvent::PublisherConnected(name, publisher, handle, connected),
            );
            let later = fed.run(events);
            let request = SubscriberEvent::Requested(Some(subscriber_stream));
            &&& connected_handle(fed.sources[name].input) == Some(handle)
            &&& available_source(later.sources, Some(subscriber_stream)) == Some(name)
            &&& later.step(
                RouterEvent::SubscriberRequest(subscriber, request, now),
            ).subscribers[subscriber] == Subscriber::<H>::Connecting(now)
            &&& later.sources[name].relay == waiting.sources[name].relay
        }),
{
    let name = source_of(publisher_stream@)->0;
    let fed = v.step(RouterEvent::PublisherAwaited(name, relay, awaited)).step(
        RouterEvent::PublisherConnected(name, publisher, handle, connected),
    );
    source_stays_with_its_relay(fed, name, events);
}

} // verus!
