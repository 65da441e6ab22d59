//! The peers that listen to a source, or tried to.
use crate::address::PeerAddress;
use crate::router::sources::{Source, Sources};
use crate::source_id::{requested_source, SourceId};
use crate::table::{unexpired, Expires, Table};
use crate::time::{timed_out, Duration, Instant};
use vstd::prelude::*;

verus! {

/// How long a subscriber that is gone or was rejected is remembered: ten seconds.
pub const SUBSCRIBER_TIMEOUT_NANOS: u128 = 10_000_000_000;

/// What is known of a subscriber, and since when. `H` is the handle by which it is told to
/// stop.
#[derive(Debug)]
pub enum Subscriber<H> {
    Connecting(Instant),
    Connected(Instant, SourceId, H),
    Rejected(Instant),
    Disconnected(Instant),
}

impl<H> Expires for Subscriber<H> {
    open spec fn expired(&self, now: Instant) -> bool {
        match self {
            Subscriber::Rejected(since) | Subscriber::Disconnected(since) => timed_out(
                *since,
                Duration { nanos: SUBSCRIBER_TIMEOUT_NANOS },
                now,
            ),
            _ => false,
        }
    }

    fn is_expired(&self, now: Instant) -> (r: bool) {
        let timeout = Duration { nanos: SUBSCRIBER_TIMEOUT_NANOS };
        match self {
            Subscriber::Rejected(since) | Subscriber::Disconnected(since) => since.timed_out(
                timeout,
                now,
            ),
            _ => false,
        }
    }
}

/// What happened to a subscriber's request.
pub enum SubscriberEvent<'a> {
    /// The request came, with this stream identifier.
    Requested(Option<&'a str>),
    /// The connection for the source was accepted.
    Accepted(SourceId),
    /// The connection could not be accepted.
    AcceptFailed,
}

/// What is to be done about a subscriber's request.
pub enum SubscriberAction {
    /// Listen to the source and accept the connection for it.
    Accept(SourceId),
    /// Send what comes from the source to the subscriber.
    Subscribe(SourceId),
    /// Nothing more.
    Finish,
}

/// The subscribers, by their address.
#[derive(Debug)]
pub struct Subscribers<H> {
    table: Table<PeerAddress, Subscriber<H>>,
}

impl<H> View for Subscribers<H> {
    type V = Map<PeerAddress, Subscriber<H>>;

    closed spec fn view(&self) -> Map<PeerAddress, Subscriber<H>> {
        self.table@
    }
}

/// The source that a subscriber's request asks for, if there is such a source.
pub open spec fn available_source<R, P>(
    sources: Map<Seq<char>, Source<R, P>>,
    stream_id: Option<&str>,
) -> Option<Seq<char>> {
    match requested_source(stream_id) {
        Some(name) if sources.contains_key(name) => Some(name),
        _ => None,
    }
}

/// What a subscriber's request leads to.
pub open spec fn subscriber_request<R, P, H>(
    subscribers: Map<PeerAddress, Subscriber<H>>,
    sources: Map<Seq<char>, Source<R, P>>,
    remote: PeerAddress,
    event: SubscriberEvent,
    now: Instant,
) -> Map<PeerAddress, Subscriber<H>> {
    match event {
        SubscriberEvent::Requested(stream_id) => subscribers.insert(
            remote,
            if available_source(sources, stream_id) is Some {
                Subscriber::Connecting(now)
            } else {
                Subscriber::Rejected(now)
            },
        ),
        SubscriberEvent::Accepted(_) => subscribers,
        SubscriberEvent::AcceptFailed => subscribers.insert(remote, Subscriber::Disconnected(now)),
    }
}

impl<H> Subscribers<H> {
    /// No subscribers.
    pub fn new() -> (r: Subscribers<H>)
        ensures
            r@ == Map::<PeerAddress, Subscriber<H>>::empty(),
    {
        Subscribers { table: Table::new() }
    }

    /// What is known of a subscriber.
    pub fn get(&self, remote: PeerAddress) -> (r: Option<&Subscriber<H>>)
        ensures
            match r {
                Some(subscriber) => self@.contains_key(remote) && *subscriber == self@[remote],
                None => !self@.contains_key(remote),
            },
    {
        self.table.get(&remote)
    }

    /// The subscriber connects.
    pub fn set_connecting(&mut self, remote: PeerAddress, now: Instant)
        ensures
            final(self)@ == old(self)@.insert(remote, Subscriber::Connecting(now)),
    {
        let _ = self.table.insert(remote, Subscriber::Connecting(now));
    }

    /// The subscriber is gone.
    pub fn set_disconnected(&mut self, remote: PeerAddress, now: Instant)
        ensures
            final(self)@ == old(self)@.insert(remote, Subscriber::Disconnected(now)),
    {
        let _ = self.table.insert(remote, Subscriber::Disconnected(now));
    }

    /// The subscriber was rejected.
    pub fn set_rejected(&mut self, remote: PeerAddress, now: Instant)
        ensures
            final(self)@ == old(self)@.insert(remote, Subscriber::Rejected(now)),
    {
        let _ = self.table.insert(remote, Subscriber::Rejected(now));
    }

    /// The subscriber listens to a source.
    pub fn set_connected(
        &mut self,
        remote: PeerAddress,
        source_id: SourceId,
        cancel: H,
        now: Instant,
    )
        ensures
            final(self)@ == old(self)@.insert(
                remote,
                Subscriber::Connected(now, source_id, cancel),
            ),
    {
        let _ = self.table.insert(remote, Subscriber::Connected(now, source_id, cancel));
    }

    /// Forgets the subscribers that are gone or were rejected more than ten seconds ago.
    pub fn collect_expired(&mut self, now: Instant)
        ensures
            final(self)@ == unexpired(old(self)@, now),
    {
        self.table.collect_expired(now);
    }

    /// Decides what is to be done about a subscriber's request: accept it when it asks for a
    /// source that exists, and feed it from the source when it was accepted.
    pub fn handle_subscriber_request<R, P>(
        &mut self,
        sources: &Sources<R, P>,
        remote: PeerAddress,
        event: SubscriberEvent<'_>,
        now: Instant,
    ) -> (r: SubscriberAction)
        ensures
            final(self)@ == subscriber_request(old(self)@, sources@, remote, event, now),
            match event {
                SubscriberEvent::Requested(stream_id) => match available_source(
                    sources@,
                    stream_id,
                ) {
                    Some(name) => r matches SubscriberAction::Accept(id) && id@ == name,
                    None => r is Finish,
                },
                SubscriberEvent::Accepted(source_id) => r == SubscriberAction::Subscribe(source_id),
                SubscriberEvent::AcceptFailed => r is Finish,
            },
    {
        match event {
            SubscriberEvent::Requested(stream_id) => {
                self.set_connecting(remote, now);
                if let Ok(source_id) = SourceId::try_from(stream_id) {
                    if sources.subscribe(&source_id).is_some() {
                        return SubscriberAction::Accept(source_id);
                    }
                }
                self.set_rejected(remote, now);
                assert(self@ =~= old(self)@.insert(remote, Subscriber::Rejected(now)));
                SubscriberAction::Finish
            },
            SubscriberEvent::Accepted(source_id) => SubscriberAction::Subscribe(source_id),
            SubscriberEvent::AcceptFailed => {
                self.set_disconnected(remote, now);
                SubscriberAction::Finish
            },
        }
    }
}

} // verus!
