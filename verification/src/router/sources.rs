//! The sources, which relay what one publisher sends to any number of subscribers.
use crate::address::PeerAddress;
use crate::source_id::SourceId;
use crate::table::{unexpired, Expires, Table};
use crate::time::{timed_out, Duration, Instant};
use vstd::prelude::*;

verus! {

/// How long a source without a publisher is kept: two minutes.
pub const SOURCE_TIMEOUT_NANOS: u128 = 120_000_000_000;

/// How many items a relay holds for a subscriber that is behind.
pub const RELAY_CAPACITY: usize = 10_000;

/// What feeds a source, and since when. `H` is the handle by which a publisher is told to
/// stop.
#[derive(Debug)]
pub enum SourceInput<H> {
    Connecting(Instant),
    Connected(Instant, PeerAddress, H),
    Disconnected(Instant),
}

/// A source: what feeds it, and its relay to the subscribers.
#[derive(Debug)]
pub struct Source<R, H> {
    pub input: SourceInput<H>,
    pub relay: R,
}

impl<R, H> Expires for Source<R, H> {
    open spec fn expired(&self, now: Instant) -> bool {
        match self.input {
            SourceInput::Disconnected(since) => timed_out(
                since,
                Duration { nanos: SOURCE_TIMEOUT_NANOS },
                now,
            ),
            _ => false,
        }
    }

    fn is_expired(&self, now: Instant) -> (r: bool) {
        match self.input {
            SourceInput::Disconnected(since) => since.timed_out(
                Duration { nanos: SOURCE_TIMEOUT_NANOS },
                now,
            ),
            _ => false,
        }
    }
}

/// The handle of the publisher that feeds a source.
pub open spec fn connected_handle<H>(input: SourceInput<H>) -> Option<H> {
    match input {
        SourceInput::Connected(_, _, handle) => Some(handle),
        _ => None,
    }
}

impl<R, H> Source<R, H> {
    /// A source that waits for its publisher.
    pub fn new(relay: R, now: Instant) -> (r: Source<R, H>)
        ensures
            r == (Source { input: SourceInput::<H>::Connecting(now), relay }),
    {
        Source { input: SourceInput::Connecting(now), relay }
    }

    /// Gets the source ready for a new publisher, and gives the handle of the one that feeds
    /// it, which is to stop.
    pub fn connect_publisher(&mut self, now: Instant) -> (r: Option<H>)
        ensures
            r == connected_handle(old(self).input),
            final(self).input == SourceInput::<H>::Connecting(now),
            final(self).relay == old(self).relay,
    {
        let mut input: SourceInput<H> = SourceInput::Connecting(now);
        std::mem::swap(&mut input, &mut self.input);
        match input {
            SourceInput::Connected(_, _, handle) => Some(handle),
            _ => None,
        }
    }

    /// The relay to listen to.
    pub fn subscribe(&self) -> (r: &R)
        ensures
            *r == self.relay,
    {
        &self.relay
    }

    /// The publisher that the source waited for feeds it now.
    pub fn publisher_connected(&mut self, remote: PeerAddress, handle: H, now: Instant)
        ensures
            final(self).input == SourceInput::Connected(now, remote, handle),
            final(self).relay == old(self).relay,
    {
        self.input = SourceInput::Connected(now, remote, handle);
    }

    /// The publisher stopped. A source that waits for another one already goes on waiting.
    pub fn publisher_stopped(&mut self, now: Instant)
        ensures
            final(self).input == match old(self).input {
                SourceInput::Connected(_, _, _) => SourceInput::<H>::Disconnected(now),
                other => other,
            },
            final(self).relay == old(self).relay,
    {
        if let SourceInput::Connected(_, _, _) = self.input {
            self.input = SourceInput::Disconnected(now);
        }
    }
}

/// The sources, by their name.
#[derive(Debug)]
pub struct Sources<R, H> {
    table: Table<SourceId, Source<R, H>>,
}

impl<R, H> View for Sources<R, H> {
    type V = Map<Seq<char>, Source<R, H>>;

    closed spec fn view(&self) -> Map<Seq<char>, Source<R, H>> {
        self.table@
    }
}

/// The sources after one was made ready for a new publisher.
pub open spec fn publisher_awaited<R, H>(
    sources: Map<Seq<char>, Source<R, H>>,
    name: Seq<char>,
    relay: R,
    now: Instant,
) -> Map<Seq<char>, Source<R, H>> {
    sources.insert(
        name,
        Source {
            input: SourceInput::Connecting(now),
            relay: if sources.contains_key(name) {
                sources[name].relay
            } else {
                relay
            },
        },
    )
}

/// The sources after a publisher came to feed one of them, if it is there.
pub open spec fn publisher_connected<R, H>(
    sources: Map<Seq<char>, Source<R, H>>,
    name: Seq<char>,
    remote: PeerAddress,
    handle: H,
    now: Instant,
) -> Map<Seq<char>, Source<R, H>> {
    if sources.contains_key(name) {
        sources.insert(
            name,
            Source {
                input: SourceInput::Connected(now, remote, handle),
                relay: sources[name].relay,
            },
        )
    } else {
        sources
    }
}

/// The sources after one's publisher stopped.
pub open spec fn publisher_stopped<R, H>(
    sources: Map<Seq<char>, Source<R, H>>,
    name: Seq<char>,
    now: Instant,
) -> Map<Seq<char>, Source<R, H>> {
    if sources.contains_key(name) && sources[name].input is Connected {
        sources.insert(
            name,
            Source { input: SourceInput::Disconnected(now), relay: sources[name].relay },
        )
    } else {
        sources
    }
}

impl<R, H> Sources<R, H> {
    /// No sources.
    pub fn new() -> (r: Sources<R, H>)
        ensures
            r@ == Map::<Seq<char>, Source<R, H>>::empty(),
    {
        Sources { table: Table::new() }
    }

    /// Gets a source ready for a new publisher, and gives the handle of the one that feeds
    /// it, which is to stop. A source that is new gets `relay`.
    pub fn connect_publisher(&mut self, source_id: &SourceId, relay: R, now: Instant) -> (r: Option<
        H,
    >)
        ensures
            r == if old(self)@.contains_key(source_id@) {
                connected_handle(old(self)@[source_id@].input)
            } else {
                None
            },
            final(self)@ == publisher_awaited(old(self)@, source_id@, relay, now),
    {
        let mut source = match self.table.remove(source_id) {
            Some(source) => source,
            None => Source::new(relay, now),
        };
        let replaced = source.connect_publisher(now);
        let _ = self.table.insert(source_id.clone(), source);
        assert(self@ =~= publisher_awaited(old(self)@, source_id@, relay, now));
        replaced
    }

    /// The publisher that a source waited for feeds it now. Gives the handle back when there
    /// is no such source.
    pub fn publisher_connected(
        &mut self,
        source_id: &SourceId,
        remote: PeerAddress,
        handle: H,
        now: Instant,
    ) -> (r: Option<H>)
        ensures
            r == if old(self)@.contains_key(source_id@) {
                None
            } else {
                Some(handle)
            },
            final(self)@ == publisher_connected(old(self)@, source_id@, remote, handle, now),
    {
        match self.table.remove(source_id) {
            Some(source) => {
                let mut source = source;
                source.publisher_connected(remote, handle, now);
                let _ = self.table.insert(source_id.clone(), source);
                assert(self@ =~= old(self)@.insert(source_id@, source));
                None
            },
            None => {
                assert(self@ =~= old(self)@);
                Some(handle)
            },
        }
    }

    /// The publisher of a source stopped.
    pub fn publisher_stopped(&mut self, source_id: &SourceId, now: Instant)
        ensures
            final(self)@ == publisher_stopped(old(self)@, source_id@, now),
    {
        if let Some(source) = self.table.remove(source_id) {
            let mut source = source;
            source.publisher_stopped(now);
            let _ = self.table.insert(source_id.clone(), source);
            assert(self@ =~= old(self)@.insert(source_id@, source));
        }
        assert(self@ =~= publisher_stopped(old(self)@, source_id@, now));
    }

    /// The relay to listen to for a source.
    pub fn subscribe(&self, source_id: &SourceId) -> (r: Option<&R>)
        ensures
            match r {
                Some(relay) => self@.contains_key(source_id@) && *relay
                    == self@[source_id@].relay,
                None => !self@.contains_key(source_id@),
            },
    {
        match self.table.get(source_id) {
            Some(source) => Some(source.subscribe()),
            None => None,
        }
    }

    /// Forgets the sources that had no publisher for more than two minutes.
    pub fn collect_expired(&mut self, now: Instant)
        ensures
            final(self)@ == unexpired(old(self)@, now),
    {
        self.table.collect_expired(now);
    }
}

} // verus!
