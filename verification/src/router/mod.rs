//! The router: publishers feed sources, and subscribers listen to them.
pub mod args;
pub mod laws;
pub mod publishers;
pub mod relay;
pub mod runs;
pub mod sources;
pub mod subscribers;

use crate::address::PeerAddress;
use crate::source_id::SourceId;
use crate::table::unexpired;
use crate::time::Instant;
use publishers::{Publisher, Publishers};
use sources::{publisher_stopped, Source, Sources};
use subscribers::{Subscriber, Subscribers};
use vstd::prelude::*;

verus! {

/// What a router knows. `R` is the relay of a source, and `H` is the handle by which a
/// publisher or a subscriber is told to stop.
#[derive(Debug)]
pub struct Router<R, H> {
    pub publishers: Publishers,
    pub sources: Sources<R, H>,
    pub subscribers: Subscribers<H>,
}

/// What is known to a router.
pub struct RouterView<R, H> {
    pub publishers: Map<PeerAddress, Publisher>,
    pub sources: Map<Seq<char>, Source<R, H>>,
    pub subscribers: Map<PeerAddress, Subscriber<H>>,
}

impl<R, H> View for Router<R, H> {
    type V = RouterView<R, H>;

    open spec fn view(&self) -> RouterView<R, H> {
        RouterView {
            publishers: self.publishers@,
            sources: self.sources@,
            subscribers: self.subscribers@,
        }
    }
}

impl<R, H> RouterView<R, H> {
    /// The router without what is expired at `now`.
    pub open spec fn collected(self, now: Instant) -> RouterView<R, H> {
        RouterView {
            publishers: unexpired(self.publishers, now),
            sources: unexpired(self.sources, now),
            subscribers: unexpired(self.subscribers, now),
        }
    }
}

impl<R, H> Router<R, H> {
    /// A router without publishers, sources and subscribers.
    pub fn new() -> (r: Router<R, H>)
        ensures
            r.publishers@.dom().is_empty(),
            r.sources@.dom().is_empty(),
            r.subscribers@.dom().is_empty(),
    {
        Router {
            publishers: Publishers::new(),
            sources: Sources::new(),
            subscribers: Subscribers::new(),
        }
    }

    /// A publisher starts to feed its source.
    pub fn publisher_started(&mut self, remote: PeerAddress, now: Instant)
        ensures
            final(self).publishers@ == old(self).publishers@.insert(
                remote,
                Publisher::Publishing(now),
            ),
            final(self).sources == old(self).sources,
            final(self).subscribers == old(self).subscribers,
    {
        self.publishers.set_publishing(remote, now);
    }

    /// A publisher stopped.
    pub fn publisher_stopped(&mut self, remote: PeerAddress, source_id: &SourceId, now: Instant)
        ensures
            final(self).publishers@ == old(self).publishers@.insert(
                remote,
                Publisher::Disconnected(now),
            ),
            final(self).sources@ == publisher_stopped(old(self).sources@, source_id@, now),
            final(self).subscribers == old(self).subscribers,
    {
        self.publishers.set_disconnected(remote, now);
        self.sources.publisher_stopped(source_id, now);
    }

    /// Forgets the publishers and the subscribers that are gone for long enough, and the
    /// sources that had no publisher for long enough.
    pub fn collect_expired(&mut self, now: Instant)
        ensures
            final(self)@ == old(self)@.collected(now),
    {
        self.publishers.collect_expired(now);
        self.sources.collect_expired(now);
        self.subscribers.collect_expired(now);
    }
}

/// What happens while a router runs.
pub enum CollectionEvent {
    /// A second has passed.
    Tick,
    /// The router closes.
    Canceled,
}

/// How long the router waits between two collections: a second.
pub const COLLECTION_INTERVAL_NANOS: u64 = 1_000_000_000;

impl<R, H> Router<R, H> {
    /// Collects what is expired each second, until the router closes. Tells whether to go on.
    pub fn run_collection(&mut self, event: CollectionEvent, now: Instant) -> (r: bool)
        ensures
            r == (event is Tick),
            event is Canceled ==> *final(self) == *old(self),
            event is Tick ==> final(self)@ == old(self)@.collected(now),
    {
        match event {
            CollectionEvent::Tick => {
                self.collect_expired(now);
                true
            },
            CollectionEvent::Canceled => false,
        }
    }
}

} // verus!
