//! The peers that publish, or tried to.
use crate::address::PeerAddress;
use crate::source_id::{requested_source, SourceId};
use crate::table::{unexpired, Expires, Table};
use crate::time::{timed_out, Duration, Instant};
use vstd::prelude::*;

verus! {

/// How long a publisher that is gone or was rejected is remembered: a minute.
pub const PUBLISHER_TIMEOUT_NANOS: u128 = 60_000_000_000;

/// What is known of a publisher, and since when.
#[derive(Debug, Clone, Copy, PartialEq, Eq, Structural)]
pub enum Publisher {
    Connecting(Instant),
    Publishing(Instant),
    Rejected(Instant),
    Disconnected(Instant),
}

impl Expires for Publisher {
    open spec fn expired(&self, now: Instant) -> bool {
        match self {
            Publisher::Rejected(since) | Publisher::Disconnected(since) => timed_out(
                *since,
                Duration { nanos: PUBLISHER_TIMEOUT_NANOS },
                now,
            ),
            _ => false,
        }
    }

    fn is_expired(&self, now: Instant) -> (r: bool) {
        let timeout = Duration { nanos: PUBLISHER_TIMEOUT_NANOS };
        match self {
            Publisher::Rejected(since) | Publisher::Disconnected(since) => since.timed_out(
                timeout,
                now,
            ),
            _ => false,
        }
    }
}

/// What happened to a publisher's request.
pub enum PublisherEvent<'a> {
    /// The request came, with this stream identifier.
    Requested(Option<&'a str>),
    /// The connection for the source was accepted.
    Accepted(SourceId),
    /// The connection could not be accepted.
    AcceptFailed,
}

/// What is to be done about a publisher's request.
pub enum PublisherAction {
    /// Accept the connection for the source.
    Accept(SourceId),
    /// Connect the publisher to the source.
    Connect(SourceId),
    /// Nothing more.
    Finish,
}

/// The publishers, by their address.
#[derive(Debug)]
pub struct Publishers {
    table: Table<PeerAddress, Publisher>,
}

impl View for Publishers {
    type V = Map<PeerAddress, Publisher>;

    closed spec fn view(&self) -> Map<PeerAddress, Publisher> {
        self.table@
    }
}

/// What a publisher's request leads to.
pub open spec fn publisher_request(
    publishers: Map<PeerAddress, Publisher>,
    remote: PeerAddress,
    event: PublisherEvent,
    now: Instant,
) -> Map<PeerAddress, Publisher> {
    match event {
        PublisherEvent::Requested(stream_id) => publishers.insert(
            remote,
            if requested_source(stream_id) is Some {
                Publisher::Connecting(now)
            } else {
                Publisher::Rejected(now)
            },
        ),
        PublisherEvent::Accepted(_) => publishers,
        PublisherEvent::AcceptFailed => publishers.insert(remote, Publisher::Disconnected(now)),
    }
}

impl Publishers {
    /// No publishers.
    pub fn new() -> (r: Publishers)
        ensures
            r@ == Map::<PeerAddress, Publisher>::empty(),
    {
        Publishers { table: Table::new() }
    }

    /// What is known of a publisher.
    pub fn get(&self, remote: PeerAddress) -> (r: Option<Publisher>)
        ensures
            match r {
                Some(publisher) => self@.contains_key(remote) && publisher == self@[remote],
                None => !self@.contains_key(remote),
            },
    {
        match self.table.get(&remote) {
            Some(publisher) => Some(*publisher),
            None => None,
        }
    }

    /// The publisher connects.
    pub fn set_connecting(&mut self, remote: PeerAddress, now: Instant)
        ensures
            final(self)@ == old(self)@.insert(remote, Publisher::Connecting(now)),
    {
        let _ = self.table.insert(remote, Publisher::Connecting(now));
    }

    /// The publisher is gone.
    pub fn set_disconnected(&mut self, remote: PeerAddress, now: Instant)
        ensures
            final(self)@ == old(self)@.insert(remote, Publisher::Disconnected(now)),
    {
        let _ = self.table.insert(remote, Publisher::Disconnected(now));
    }

    /// The publisher was rejected.
    pub fn set_rejected(&mut self, remote: PeerAddress, now: Instant)
        ensures
            final(self)@ == old(self)@.insert(remote, Publisher::Rejected(now)),
    {
        let _ = self.table.insert(remote, Publisher::Rejected(now));
    }

    /// The publisher publishes.
    pub fn set_publishing(&mut self, remote: PeerAddress, now: Instant)
        ensures
            final(self)@ == old(self)@.insert(remote, Publisher::Publishing(now)),
    {
        let _ = self.table.insert(remote, Publisher::Publishing(now));
    }

    /// Forgets the publishers that are gone or were rejected more than a minute ago.
    pub fn collect_expired(&mut self, now: Instant)
        ensures
            final(self)@ == unexpired(old(self)@, now),
    {
        self.table.collect_expired(now);
    }

    /// Decides what is to be done about a publisher's request: accept it when it asks for a
    /// source, and connect it to the source when it was accepted.
    pub fn handle_publisher_request(
        &mut self,
        remote: PeerAddress,
        event: PublisherEvent<'_>,
        now: Instant,
    ) -> (r: PublisherAction)
        ensures
            final(self)@ == publisher_request(old(self)@, remote, event, now),
            match event {
                PublisherEvent::Requested(stream_id) => match requested_source(stream_id) {
                    Some(name) => r matches PublisherAction::Accept(id) && id@ == name,
                    None => r is Finish,
                },
                PublisherEvent::Accepted(source_id) => r == PublisherAction::Connect(source_id),
                PublisherEvent::AcceptFailed => r is Finish,
            },
    {
        match event {
            PublisherEvent::Requested(stream_id) => {
                self.set_connecting(remote, now);
                match SourceId::try_from(stream_id) {
                    Ok(source_id) => PublisherAction::Accept(source_id),
                    Err(()) => {
                        self.set_rejected(remote, now);
                        assert(self@ =~= old(self)@.insert(remote, Publisher::Rejected(now)));
                        PublisherAction::Finish
                    },
                }
            },
            PublisherEvent::Accepted(source_id) => PublisherAction::Connect(source_id),
            PublisherEvent::AcceptFailed => {
                self.set_disconnected(remote, now);
                PublisherAction::Finish
            },
        }
    }
}

} // verus!
