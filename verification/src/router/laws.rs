//! What holds of a router over several operations.
use crate::address::PeerAddress;
use crate::router::publishers::{publisher_request, Publisher, PublisherEvent};
use crate::router::sources::{
    connected_handle, publisher_awaited, publisher_connected, publisher_stopped, Source,
    SourceInput,
};
use crate::router::subscribers::{
    available_source, subscriber_request, Subscriber, SubscriberEvent,
};
use crate::router::RouterView;
use crate::source_id::requested_source;
use crate::table::{unexpired, Expires};
use crate::time::Instant;
use vstd::prelude::*;

verus! {

/// Collecting twice at one time is collecting once.
pub proof fn collecting_again_changes_nothing<K, V: Expires>(table: Map<K, V>, now: Instant)
    ensures
        unexpired(unexpired(table, now), now) == unexpired(table, now),
{
    assert(unexpired(unexpired(table, now), now) =~= unexpired(table, now));
}

/// It makes no difference to a later collection of publishers whether there was an earlier
/// one.
pub proof fn earlier_collection_of_publishers_is_covered(
    publishers: Map<PeerAddress, Publisher>,
    now: Instant,
    later: Instant,
)
    requires
        now.nanos <= later.nanos,
    ensures
        unexpired(unexpired(publishers, now), later) == unexpired(publishers, later),
{
    assert(unexpired(unexpired(publishers, now), later) =~= unexpired(publishers, later));
}

/// It makes no difference to a later collection of subscribers whether there was an earlier
/// one.
pub proof fn earlier_collection_of_subscribers_is_covered<H>(
    subscribers: Map<PeerAddress, Subscriber<H>>,
    now: Instant,
    later: Instant,
)
    requires
        now.nanos <= later.nanos,
    ensures
        unexpired(unexpired(subscribers, now), later) == unexpired(subscribers, later),
{
    assert(unexpired(unexpired(subscribers, now), later) =~= unexpired(subscribers, later));
}

/// It makes no difference to a later collection of sources whether there was an earlier one.
pub proof fn earlier_collection_of_sources_is_covered<R, H>(
    sources: Map<Seq<char>, Source<R, H>>,
    now: Instant,
    later: Instant,
)
    requires
        now.nanos <= later.nanos,
    ensures
        unexpired(unexpired(sources, now), later) == unexpired(sources, later),
{
    assert(unexpired(unexpired(sources, now), later) =~= unexpired(sources, later));
}

/// A publisher that connects or publishes is never forgotten.
pub proof fn active_publisher_is_kept(
    publishers: Map<PeerAddress, Publisher>,
    remote: PeerAddress,
    now: Instant,
)
    requires
        publishers.contains_key(remote),
        publishers[remote] is Connecting || publishers[remote] is Publishing,
    ensures
        unexpired(publishers, now).contains_key(remote),
        unexpired(publishers, now)[remote] == publishers[remote],
{
}

/// A subscriber that connects or is connected is never forgotten.
pub proof fn active_subscriber_is_kept<H>(
    subscribers: Map<PeerAddress, Subscriber<H>>,
    remote: PeerAddress,
    now: Instant,
)
    requires
        subscribers.contains_key(remote),
        subscribers[remote] is Connecting || subscribers[remote] is Connected,
    ensures
        unexpired(subscribers, now).contains_key(remote),
        unexpired(subscribers, now)[remote] == subscribers[remote],
{
}

/// A source that waits for a publisher or has one is never forgotten.
pub proof fn active_source_is_kept<R, H>(
    sources: Map<Seq<char>, Source<R, H>>,
    name: Seq<char>,
    now: Instant,
)
    requires
        sources.contains_key(name),
        sources[name].input is Connecting || sources[name].input is Connected,
    ensures
        unexpired(sources, now).contains_key(name),
        unexpired(sources, now)[name] == sources[name],
{
}

/// Subscribers stay with a source when its publisher goes and another one comes: the relay
/// that they listen to stays the same.
pub proof fn source_keeps_its_relay<R, H>(
    sources: Map<Seq<char>, Source<R, H>>,
    name: Seq<char>,
    relay: R,
    stopped: Instant,
    connected: Instant,
)
    requires
        sources.contains_key(name),
    ensures
        publisher_stopped(sources, name, stopped)[name].relay == sources[name].relay,
        publisher_awaited(
            publisher_stopped(sources, name, stopped),
            name,
            relay,
            connected,
        )[name].relay == sources[name].relay,
{
}

/// A source has at most one publisher: when another one comes, the source lets go of the one
/// before it, and that this one then stops leaves the source waiting for the new one. Then
/// the new one feeds the source, and when it stops nobody does.
pub proof fn new_publisher_takes_over<R, H>(
    sources: Map<Seq<char>, Source<R, H>>,
    name: Seq<char>,
    relay: R,
    remote: PeerAddress,
    handle: H,
    awaited: Instant,
    connected: Instant,
    stopped: Instant,
)
    ensures
        ({
            let waiting = publisher_awaited(sources, name, relay, awaited);
            let fed = publisher_connected(waiting, name, remote, handle, connected);
            &&& connected_handle(waiting[name].input) is None
            &&& publisher_stopped(waiting, name, stopped) == waiting
            &&& connected_handle(fed[name].input) == Some(handle)
            &&& connected_handle(publisher_stopped(fed, name, stopped)[name].input) is None
        }),
{
}

/// A publisher's request that asks for no source is rejected, and the rejection is forgotten
/// after the timeout.
pub proof fn publisher_without_source_is_rejected(
    publishers: Map<PeerAddress, Publisher>,
    remote: PeerAddress,
    stream_id: Option<&str>,
    now: Instant,
    later: Instant,
)
    requires
        requested_source(stream_id) is None,
    ensures
        publisher_request(
            publishers,
            remote,
            PublisherEvent::Requested(stream_id),
            now,
        )[remote] == Publisher::Rejected(now),
        unexpired(
            publisher_request(publishers, remote, PublisherEvent::Requested(stream_id), now),
            later,
        ).contains_key(remote) <==> later.nanos <= now.nanos + 60_000_000_000,
{
}

/// A subscriber's request for a source that nobody publishes is rejected, and the rejection
/// is forgotten after the timeout.
pub proof fn subscriber_without_source_is_rejected<R, P, H>(
    subscribers: Map<PeerAddress, Subscriber<H>>,
    sources: Map<Seq<char>, Source<R, P>>,
    remote: PeerAddress,
    stream_id: Option<&str>,
    now: Instant,
    later: Instant,
)
    requires
        available_source(sources, stream_id) is None,
    ensures
        ({
            let after = subscriber_request(
                subscribers,
                sources,
                remote,
                SubscriberEvent::Requested(stream_id),
                now,
            );
            &&& after[remote] == Subscriber::<H>::Rejected(now)
            &&& unexpired(after, later).contains_key(remote) <==> later.nanos <= now.nanos
                + 10_000_000_000
        }),
{
}

/// What happens to a publisher's request concerns that publisher only. It connects when it
/// asks for a source, and is rejected otherwise; when it was accepted nothing changes, and when
/// that failed it is gone.
pub proof fn publisher_request_is_answered(
    publishers: Map<PeerAddress, Publisher>,
    remote: PeerAddress,
    other: PeerAddress,
    stream_id: Option<&str>,
    event: PublisherEvent<'_>,
    now: Instant,
)
    ensures
        requested_source(stream_id) is Some ==> publisher_request(
            publishers,
            remote,
            PublisherEvent::Requested(stream_id),
            now,
        ) == publishers.insert(remote, Publisher::Connecting(now)),
        requested_source(stream_id) is None ==> publisher_request(
            publishers,
            remote,
            PublisherEvent::Requested(stream_id),
            now,
        ) == publishers.insert(remote, Publisher::Rejected(now)),
        event is Accepted ==> publisher_request(publishers, remote, event, now) == publishers,
        event is AcceptFailed ==> publisher_request(publishers, remote, event, now)
            == publishers.insert(remote, Publisher::Disconnected(now)),
        other != remote ==> (publisher_request(publishers, remote, event, now).contains_key(other)
            <==> publishers.contains_key(other)),
        other != remote && publishers.contains_key(other) ==> publisher_request(
            publishers,
            remote,
            event,
            now,
        )[other] == publishers[other],
{
}

/// What happens to a subscriber's request concerns that subscriber only. It connects when it
/// asks for a source that there is, and is rejected otherwise; when it was accepted nothing
/// changes, and when that failed it is gone.
pub proof fn subscriber_request_is_answered<R, P, H>(
    subscribers: Map<PeerAddress, Subscriber<H>>,
    sources: Map<Seq<char>, Source<R, P>>,
    remote: PeerAddress,
    other: PeerAddress,
    stream_id: Option<&str>,
    event: SubscriberEvent<'_>,
    now: Instant,
)
    ensures
        ({
            let there_is = requested_source(stream_id) is Some && sources.contains_key(
                requested_source(stream_id)->0,
            );
            let requested = SubscriberEvent::Requested(stream_id);
            let after = subscriber_request(subscribers, sources, remote, requested, now);
            &&& there_is ==> after == subscribers.insert(remote, Subscriber::Connecting(now))
            &&& !there_is ==> after == subscribers.insert(remote, Subscriber::Rejected(now))
            &&& there_is ==> available_source(sources, stream_id) == requested_source(stream_id)
            &&& !there_is ==> available_source(sources, stream_id) is None
        }),
        ({
            let after = subscriber_request(subscribers, sources, remote, event, now);
            &&& event is Accepted ==> after == subscribers
            &&& event is AcceptFailed ==> after == subscribers.insert(
                remote,
                Subscriber::Disconnected(now),
            )
            &&& other != remote ==> (after.contains_key(other) <==> subscribers.contains_key(other))
            &&& other != remote && subscribers.contains_key(other) ==> after[other]
                == subscribers[other]
        }),
{
}

/// Making a source ready, feeding it and leaving it concern that source only.
pub proof fn other_sources_are_left_alone<R, H>(
    sources: Map<Seq<char>, Source<R, H>>,
    name: Seq<char>,
    other: Seq<char>,
    relay: R,
    remote: PeerAddress,
    handle: H,
    now: Instant,
)
    requires
        other != name,
    ensures
        ({
            let awaited = publisher_awaited(sources, name, relay, now);
            let connected = publisher_connected(sources, name, remote, handle, now);
            let stopped = publisher_stopped(sources, name, now);
            &&& awaited.contains_key(other) <==> sources.contains_key(other)
            &&& connected.contains_key(other) <==> sources.contains_key(other)
            &&& stopped.contains_key(other) <==> sources.contains_key(other)
            &&& sources.contains_key(other) ==> awaited[other] == sources[other]
                && connected[other] == sources[other] && stopped[other] == sources[other]
        }),
{
}

/// A source that is made ready waits since then, and is there from then on: with the relay
/// given if it is new, and with its own otherwise.
pub proof fn awaited_source_is_there<R, H>(
    sources: Map<Seq<char>, Source<R, H>>,
    name: Seq<char>,
    relay: R,
    now: Instant,
)
    ensures
        ({
            let after = publisher_awaited(sources, name, relay, now);
            &&& after.contains_key(name)
            &&& after[name].input == SourceInput::<H>::Connecting(now)
            &&& sources.contains_key(name) ==> after[name].relay == sources[name].relay
            &&& !sources.contains_key(name) ==> after[name].relay == relay
        }),
{
}

/// A publisher that comes to feed a source that is there does so since then, and the relay
/// stays. When the publisher of a source stops, nobody feeds it since then; a source that
/// nobody feeds is not changed by that.
pub proof fn source_follows_its_publisher<R, H>(
    sources: Map<Seq<char>, Source<R, H>>,
    name: Seq<char>,
    remote: PeerAddress,
    handle: H,
    now: Instant,
)
    ensures
        ({
            let connected = publisher_connected(sources, name, remote, handle, now);
            let stopped = publisher_stopped(sources, name, now);
            &&& !sources.contains_key(name) ==> connected == sources && stopped == sources
            &&& sources.contains_key(name) ==> {
                &&& connected.contains_key(name)
                &&& stopped.contains_key(name)
                &&& connected[name].input == SourceInput::Connected(now, remote, handle)
                &&& connected[name].relay == sources[name].relay
                &&& stopped[name].relay == sources[name].relay
                &&& sources[name].input is Connected ==> stopped[name].input
                    == SourceInput::<H>::Disconnected(now)
                &&& !(sources[name].input is Connected) ==> stopped == sources
            }
            &&& connected_handle(SourceInput::Connected(now, remote, handle)) == Some(handle)
            &&& connected_handle(SourceInput::<H>::Connecting(now)) is None
            &&& connected_handle(SourceInput::<H>::Disconnected(now)) is None
        }),
{
}

/// Collecting forgets a publisher that is gone or was rejected, once more than a minute has
/// passed, and no other; what is kept stays as it is.
pub proof fn publishers_are_forgotten_after_a_minute<R, H>(
    v: RouterView<R, H>,
    remote: PeerAddress,
    now: Instant,
)
    ensures
        ({
            let after = v.collected(now).publishers;
            &&& after == unexpired(v.publishers, now)
            &&& after.contains_key(remote) <==> v.publishers.contains_key(remote) && match
                v.publishers[remote] {
                Publisher::Rejected(since) | Publisher::Disconnected(since) => now.nanos
                    <= since.nanos + 60_000_000_000,
                Publisher::Connecting(_) | Publisher::Publishing(_) => true,
            }
            &&& after.contains_key(remote) ==> after[remote] == v.publishers[remote]
        }),
{
}

/// Collecting forgets a subscriber that is gone or was rejected, once more than ten seconds
/// have passed, and no other; what is kept stays as it is.
pub proof fn subscribers_are_forgotten_after_ten_seconds<R, H>(
    v: RouterView<R, H>,
    remote: PeerAddress,
    now: Instant,
)
    ensures
        ({
            let after = v.collected(now).subscribers;
            &&& after == unexpired(v.subscribers, now)
            &&& after.contains_key(remote) <==> v.subscribers.contains_key(remote) && match
                v.subscribers[remote] {
                Subscriber::Rejected(since) | Subscriber::Disconnected(since) => now.nanos
                    <= since.nanos + 10_000_000_000,
                Subscriber::Connecting(_) | Subscriber::Connected(_, _, _) => true,
            }
            &&& after.contains_key(remote) ==> after[remote] == v.subscribers[remote]
        }),
{
}

/// Collecting forgets a source that nobody feeds, once more than two minutes have passed, and
/// no other; what is kept stays as it is.
pub proof fn sources_are_forgotten_after_two_minutes<R, H>(
    v: RouterView<R, H>,
    name: Seq<char>,
    now: Instant,
)
    ensures
        ({
            let after = v.collected(now).sources;
            &&& after == unexpired(v.sources, now)
            &&& after.contains_key(name) <==> v.sources.contains_key(name) && match
                v.sources[name].input {
                SourceInput::Disconnected(since) => now.nanos <= since.nanos + 120_000_000_000,
                SourceInput::Connecting(_) | SourceInput::Connected(_, _, _) => true,
            }
            &&& after.contains_key(name) ==> after[name] == v.sources[name]
        }),
{
}

} // verus!
