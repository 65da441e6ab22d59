//! The listener: it carries out what the protocol asks for, and keeps track of the
//! connections that wait for approval and of those that are open.
pub mod runs;

use crate::address::PeerAddress;
use crate::numbers::SocketId;
use crate::table::{Key, Table};
use crate::time::Duration;
use vstd::prelude::*;

verus! {

/// How long the listener waits for input: a tenth of a second.
pub const INPUT_TIMEOUT_NANOS: u128 = 100_000_000;

/// A session: the address of the peer, and its socket there.
#[derive(Debug, Clone, Copy, PartialEq, Eq, Structural)]
pub struct SessionId(pub PeerAddress, pub SocketId);

impl View for SessionId {
    type V = SessionId;

    open spec fn view(&self) -> SessionId {
        *self
    }
}

impl Key for SessionId {
    fn same(&self, other: &SessionId) -> (r: bool) {
        *self == *other
    }
}

/// What the protocol asks the listener to do. `K` is a packet and where it goes, `Q` a
/// request for access, `C` a connection and `S` the statistics.
pub enum Action<K, Q, C, S> {
    SendPacket(K),
    RequestAccess(SessionId, Q),
    RejectConnection(SessionId, Option<K>),
    OpenConnection(SessionId, Box<(Option<K>, C)>),
    DelegatePacket(SessionId, K),
    DropConnection(SessionId),
    UpdateStatistics(S),
    WaitForInput,
    Close,
}

/// Which action an input answers.
#[derive(Debug, Clone, Copy, PartialEq, Eq, Structural)]
pub enum NextInputContext {
    SendPacket,
    RequestAccess(SessionId),
    RejectConnection(SessionId),
    OpenConnection(SessionId),
    DelegatePacket(SessionId),
    DropConnection(SessionId),
    UpdateStatistics,
    WaitForInput,
    Close,
}

/// What the listener tells the protocol. `K` is what came of receiving a packet, and `A` an
/// answer to a request for access.
pub enum Input<K, A> {
    Packet(K),
    AccessResponse(Option<(SessionId, A)>),
    Success(NextInputContext),
    Failure(NextInputContext),
    Timer,
}

/// What came of an action. `K` is what came of receiving a packet, and `A` an answer to a
/// request for access.
pub enum Outcome<K, A> {
    /// It was carried out, or that failed.
    Done(Result<(), ()>),
    /// A packet came, or receiving it failed.
    Received(K),
    /// A request for access was answered, or no answers come any more.
    Answered(Option<(SessionId, A)>),
    /// Nothing came in time.
    TimedOut,
}

/// The input that answers an action with this outcome. Closing is not answered.
pub open spec fn next_input<K, A>(context: NextInputContext, outcome: Outcome<K, A>) -> Option<
    Input<K, A>,
> {
    if context is Close {
        None
    } else {
        Some(
            match outcome {
                Outcome::Done(Ok(())) => Input::Success(context),
                Outcome::Done(Err(())) => Input::Failure(context),
                Outcome::Received(packet) => Input::Packet(packet),
                Outcome::Answered(response) => Input::AccessResponse(response),
                Outcome::TimedOut => Input::Timer,
            },
        )
    }
}

/// The input that a listener starts with.
pub fn first_input<K, A>() -> (r: Input<K, A>)
    ensures
        r == Input::<K, A>::Timer,
{
    Input::Timer
}

/// Which action the next input answers.
pub open spec fn context_of<K, Q, C, S>(action: Action<K, Q, C, S>) -> NextInputContext {
    match action {
        Action::SendPacket(_) => NextInputContext::SendPacket,
        Action::RequestAccess(session_id, _) => NextInputContext::RequestAccess(session_id),
        Action::RejectConnection(session_id, _) => NextInputContext::RejectConnection(session_id),
        Action::OpenConnection(session_id, _) => NextInputContext::OpenConnection(session_id),
        Action::DelegatePacket(session_id, _) => NextInputContext::DelegatePacket(session_id),
        Action::DropConnection(session_id) => NextInputContext::DropConnection(session_id),
        Action::UpdateStatistics(_) => NextInputContext::UpdateStatistics,
        Action::WaitForInput => NextInputContext::WaitForInput,
        Action::Close => NextInputContext::Close,
    }
}

impl NextInputContext {
    /// The context of the input that answers `action`.
    pub fn for_action<K, Q, C, S>(action: &Action<K, Q, C, S>) -> (r: NextInputContext)
        ensures
            r == context_of(*action),
    {
        match action {
            Action::SendPacket(_) => NextInputContext::SendPacket,
            Action::RequestAccess(session_id, _) => NextInputContext::RequestAccess(*session_id),
            Action::RejectConnection(session_id, _) => NextInputContext::RejectConnection(
                *session_id,
            ),
            Action::OpenConnection(session_id, _) => NextInputContext::OpenConnection(*session_id),
            Action::DelegatePacket(session_id, _) => NextInputContext::DelegatePacket(*session_id),
            Action::DropConnection(session_id) => NextInputContext::DropConnection(*session_id),
            Action::UpdateStatistics(_) => NextInputContext::UpdateStatistics,
            Action::WaitForInput => NextInputContext::WaitForInput,
            Action::Close => NextInputContext::Close,
        }
    }

    /// The input that tells how the action went.
    pub fn input_from<K, A, T, E>(self, result: Result<T, E>) -> (r: Input<K, A>)
        ensures
            r == if result is Ok {
                Input::<K, A>::Success(self)
            } else {
                Input::<K, A>::Failure(self)
            },
    {
        match result {
            Ok(_) => Input::Success(self),
            Err(_) => Input::Failure(self),
        }
    }
}

impl NextInputContext {
    /// The input that answers an action with this outcome, unless the listener stops.
    pub fn next_input<K, A>(self, outcome: Outcome<K, A>) -> (r: Option<Input<K, A>>)
        ensures
            r == next_input(self, outcome),
    {
        if let NextInputContext::Close = self {
            return None;
        }
        Some(
            match outcome {
                Outcome::Done(result) => self.input_from(result),
                Outcome::Received(packet) => Input::Packet(packet),
                Outcome::Answered(response) => Input::AccessResponse(response),
                Outcome::TimedOut => Input::Timer,
            },
        )
    }
}

/// What is to be done for an action. `P` is a connection that waits for approval.
pub enum Command<K, Q, C, S, P> {
    /// Send the packet. The action went as that goes.
    Send(K),
    /// Ask for approval of the session, and tell `access_requested` how that went.
    AskForApproval(SessionId, Q),
    /// Turn the connection that waited into an open one, and tell `connection_opened`, which
    /// takes the packet that goes out then, how that went.
    Open(SessionId, P, C, Option<K>),
    /// Hand the packet to the session's open connection. The action went as that goes.
    Delegate(SessionId, K),
    /// Publish the statistics. The action went as that goes.
    Publish(S),
    /// Wait for a packet or an answer to a request for access, but no longer than this.
    Wait(Duration),
    /// Nothing: the action is done, and this is how it went.
    Done(Result<(), ()>),
    /// Stop listening.
    Stop,
}

/// The connections of a listener: those that wait for approval, `P`, and those that are
/// open, `O`.
#[derive(Debug)]
pub struct SrtListenerState<P, O> {
    pending_connections: Table<SessionId, P>,
    open_connections: Table<SessionId, O>,
}

/// What is known of a listener's connections.
pub struct ListenerView<P, O> {
    pub pending: Map<SessionId, P>,
    pub open: Map<SessionId, O>,
}

impl<P, O> View for SrtListenerState<P, O> {
    type V = ListenerView<P, O>;

    closed spec fn view(&self) -> ListenerView<P, O> {
        ListenerView { pending: self.pending_connections@, open: self.open_connections@ }
    }
}

impl<P, O> ListenerView<P, O> {
    /// What is to be done for an action.
    pub open spec fn command<K, Q, C, S>(self, action: Action<K, Q, C, S>) -> Command<
        K,
        Q,
        C,
        S,
        P,
    > {
        match action {
            Action::SendPacket(packet) => Command::Send(packet),
            Action::RequestAccess(session_id, request) => Command::AskForApproval(
                session_id,
                request,
            ),
            Action::RejectConnection(_, Some(packet)) => Command::Send(packet),
            Action::RejectConnection(_, None) => Command::Done(Ok(())),
            Action::OpenConnection(session_id, connection) => if self.pending.contains_key(
                session_id,
            ) {
                Command::Open(session_id, self.pending[session_id], connection.1, connection.0)
            } else {
                Command::Done(Err(()))
            },
            Action::DelegatePacket(session_id, packet) => if self.open.contains_key(session_id) {
                Command::Delegate(session_id, packet)
            } else {
                Command::Done(Err(()))
            },
            Action::DropConnection(session_id) => Command::Done(
                if self.open.contains_key(session_id) {
                    Ok(())
                } else {
                    Err(())
                },
            ),
            Action::UpdateStatistics(statistics) => Command::Publish(statistics),
            Action::WaitForInput => Command::Wait(Duration { nanos: INPUT_TIMEOUT_NANOS }),
            Action::Close => Command::Stop,
        }
    }

    /// The connections when one more waits for approval.
    pub open spec fn with_pending(self, session_id: SessionId, pending: P) -> ListenerView<P, O> {
        ListenerView { pending: self.pending.insert(session_id, pending), open: self.open }
    }

    /// The connections when one more is open.
    pub open spec fn with_open(self, session_id: SessionId, open: O) -> ListenerView<P, O> {
        ListenerView { pending: self.pending, open: self.open.insert(session_id, open) }
    }

    /// The connections when an action begins.
    pub open spec fn after<K, Q, C, S>(self, action: Action<K, Q, C, S>) -> ListenerView<P, O> {
        match action {
            Action::RejectConnection(session_id, _) | Action::OpenConnection(session_id, _) =>
                ListenerView { pending: self.pending.remove(session_id), open: self.open },
            Action::DropConnection(session_id) => ListenerView {
                pending: self.pending,
                open: self.open.remove(session_id),
            },
            _ => self,
        }
    }
}

impl<P, O> SrtListenerState<P, O> {
    /// A listener without connections.
    pub fn new() -> (r: SrtListenerState<P, O>)
        ensures
            r@.pending == Map::<SessionId, P>::empty(),
            r@.open == Map::<SessionId, O>::empty(),
    {
        SrtListenerState { pending_connections: Table::new(), open_connections: Table::new() }
    }

    /// Begins an action, and tells what is to be done for it.
    pub fn begin<K, Q, C, S>(&mut self, action: Action<K, Q, C, S>) -> (r: Command<K, Q, C, S, P>)
        ensures
            r == old(self)@.command(action),
            final(self)@ == old(self)@.after(action),
    {
        match action {
            Action::SendPacket(packet) => Command::Send(packet),
            Action::RequestAccess(session_id, request) => Command::AskForApproval(
                session_id,
                request,
            ),
            Action::RejectConnection(session_id, packet) => self.reject_connection(
                session_id,
                packet,
            ),
            Action::OpenConnection(session_id, connection) => {
                let (packet, connection) = *connection;
                self.open_connection(session_id, packet, connection)
            },
            Action::DelegatePacket(session_id, packet) => self.delegate_packet(session_id, packet),
            Action::DropConnection(session_id) => Command::Done(self.drop_connection(session_id)),
            Action::UpdateStatistics(statistics) => Command::Publish(statistics),
            Action::WaitForInput => Command::Wait(Duration { nanos: INPUT_TIMEOUT_NANOS }),
            Action::Close => Command::Stop,
        }
    }

    /// The session's request for access went out, with a connection that now waits for
    /// approval; or it did not go out.
    pub fn access_requested(&mut self, session_id: SessionId, pending: Result<P, ()>) -> (r: Result<
        (),
        (),
    >)
        ensures
            match pending {
                Ok(pending) => r is Ok && final(self)@ == old(self)@.with_pending(
                    session_id,
                    pending,
                ),
                Err(()) => r is Err && final(self)@ == old(self)@,
            },
    {
        match pending {
            Ok(pending) => {
                let _ = self.pending_connections.insert(session_id, pending);
                Ok(())
            },
            Err(()) => Err(()),
        }
    }

    /// The session's connection does not wait for approval any more; what is sent then is
    /// the packet, if there is one.
    fn reject_connection<K, Q, C, S>(&mut self, session_id: SessionId, packet: Option<K>) -> (r:
        Command<K, Q, C, S, P>)
        ensures
            r == match packet {
                Some(packet) => Command::<K, Q, C, S, P>::Send(packet),
                None => Command::<K, Q, C, S, P>::Done(Ok(())),
            },
            final(self)@.pending == old(self)@.pending.remove(session_id),
            final(self)@.open == old(self)@.open,
    {
        let _ = self.pending_connections.remove(&session_id);
        match packet {
            Some(packet) => Command::Send(packet),
            None => Command::Done(Ok(())),
        }
    }

    /// The session's connection does not wait for approval any more, and is to be opened, if
    /// it waited.
    fn open_connection<K, Q, C, S>(
        &mut self,
        session_id: SessionId,
        packet: Option<K>,
        connection: C,
    ) -> (r: Command<K, Q, C, S, P>)
        ensures
            r == if old(self)@.pending.contains_key(session_id) {
                Command::<K, Q, C, S, P>::Open(
                    session_id,
                    old(self)@.pending[session_id],
                    connection,
                    packet,
                )
            } else {
                Command::<K, Q, C, S, P>::Done(Err(()))
            },
            final(self)@.pending == old(self)@.pending.remove(session_id),
            final(self)@.open == old(self)@.open,
    {
        match self.pending_connections.remove(&session_id) {
            Some(pending) => Command::Open(session_id, pending, connection, packet),
            None => Command::Done(Err(())),
        }
    }

    /// The session's connection is open, and the packet, if there is one, goes out; or it
    /// could not be opened.
    pub fn connection_opened<K, Q, C, S>(
        &mut self,
        session_id: SessionId,
        active: Result<O, ()>,
        packet: Option<K>,
    ) -> (r: Command<K, Q, C, S, P>)
        ensures
            match active {
                Ok(active) => {
                    &&& r == match packet {
                        Some(packet) => Command::<K, Q, C, S, P>::Send(packet),
                        None => Command::<K, Q, C, S, P>::Done(Ok(())),
                    }
                    &&& final(self)@ == old(self)@.with_open(session_id, active)
                },
                Err(()) => {
                    &&& r == Command::<K, Q, C, S, P>::Done(Err(()))
                    &&& final(self)@ == old(self)@
                },
            },
    {
        match active {
            Ok(active) => {
                let _ = self.open_connections.insert(session_id, active);
                match packet {
                    Some(packet) => Command::Send(packet),
                    None => Command::Done(Ok(())),
                }
            },
            Err(()) => Command::Done(Err(())),
        }
    }

    /// The packet goes to the session's connection, if that is open.
    fn delegate_packet<K, Q, C, S>(&self, session_id: SessionId, packet: K) -> (r: Command<
        K,
        Q,
        C,
        S,
        P,
    >)
        ensures
            r == if self@.open.contains_key(session_id) {
                Command::<K, Q, C, S, P>::Delegate(session_id, packet)
            } else {
                Command::<K, Q, C, S, P>::Done(Err(()))
            },
    {
        match self.open_connections.get(&session_id) {
            Some(_) => Command::Delegate(session_id, packet),
            None => Command::Done(Err(())),
        }
    }

    /// The session's open connection, to hand packets to.
    pub fn connection(&mut self, session_id: SessionId) -> (r: Option<&mut O>)
        ensures
            match r {
                Some(open) => {
                    &&& old(self)@.open.contains_key(session_id)
                    &&& *open == old(self)@.open[session_id]
                    &&& final(self)@ == old(self)@.with_open(session_id, *final(open))
                },
                None => !old(self)@.open.contains_key(session_id) && final(self)@ == old(self)@,
            },
    {
        self.open_connections.get_mut(&session_id)
    }

    /// The session's connection is not open any more. Fails if it was not.
    fn drop_connection(&mut self, session_id: SessionId) -> (r: Result<(), ()>)
        ensures
            r == if old(self)@.open.contains_key(session_id) {
                Ok::<(), ()>(())
            } else {
                Err::<(), ()>(())
            },
            final(self)@.pending == old(self)@.pending,
            final(self)@.open == old(self)@.open.remove(session_id),
    {
        match self.open_connections.remove(&session_id) {
            Some(_) => Ok(()),
            None => Err(()),
        }
    }
}

/// A session whose request went out is opened when it is approved, and its packets reach it
/// from then on.
pub proof fn approved_session_gets_its_packets<P, O, K, Q, C, S>(
    v: ListenerView<P, O>,
    session_id: SessionId,
    pending: P,
    connection: Box<(Option<K>, C)>,
    active: O,
    packet: K,
)
    ensures
        ({
            let open = Action::<K, Q, C, S>::OpenConnection(session_id, connection);
            let waiting = v.with_pending(session_id, pending);
            let opened = waiting.after(open).with_open(session_id, active);
            &&& waiting.command(open) == Command::<K, Q, C, S, P>::Open(
                session_id,
                pending,
                connection.1,
                connection.0,
            )
            &&& opened.command(Action::<K, Q, C, S>::DelegatePacket(session_id, packet))
                == Command::<K, Q, C, S, P>::Delegate(session_id, packet)
            &&& opened.open[session_id] == active
        }),
{
}

/// A session that was rejected is not opened any more: opening it fails, and changes
/// nothing.
pub proof fn rejected_session_is_not_opened<P, O, K, Q, C, S>(
    v: ListenerView<P, O>,
    session_id: SessionId,
    packet: Option<K>,
    connection: Box<(Option<K>, C)>,
)
    ensures
        ({
            let rejected = v.after(Action::<K, Q, C, S>::RejectConnection(session_id, packet));
            let open = Action::<K, Q, C, S>::OpenConnection(session_id, connection);
            &&& rejected.command(open) == Command::<K, Q, C, S, P>::Done(Err(()))
            &&& rejected.after(open) == rejected
        }),
{
    let rejected = v.after(Action::<K, Q, C, S>::RejectConnection(session_id, packet));
    let open = Action::<K, Q, C, S>::OpenConnection(session_id, connection);
    assert(rejected.after(open).pending =~= rejected.pending);
}

/// A connection is opened at most once: opening takes it out of those that wait, so that
/// opening it again fails.
pub proof fn session_is_opened_once<P, O, K, Q, C, S>(
    v: ListenerView<P, O>,
    session_id: SessionId,
    connection: Box<(Option<K>, C)>,
    again: Box<(Option<K>, C)>,
)
    ensures
        v.after(Action::<K, Q, C, S>::OpenConnection(session_id, connection)).command(
            Action::<K, Q, C, S>::OpenConnection(session_id, again),
        ) == Command::<K, Q, C, S, P>::Done(Err(())),
{
}

/// Packets of a session that was dropped go nowhere, and dropping it again fails.
pub proof fn dropped_session_gets_no_packets<P, O, K, Q, C, S>(
    v: ListenerView<P, O>,
    session_id: SessionId,
    packet: K,
)
    ensures
        ({
            let drop = Action::<K, Q, C, S>::DropConnection(session_id);
            let dropped = v.after(drop);
            &&& dropped.command(Action::<K, Q, C, S>::DelegatePacket(session_id, packet))
                == Command::<K, Q, C, S, P>::Done(Err(()))
            &&& dropped.command(drop) == Command::<K, Q, C, S, P>::Done(Err(()))
        }),
{
}

/// What is done for one session leaves the other sessions alone.
pub proof fn other_sessions_are_left_alone<P, O, K, Q, C, S>(
    v: ListenerView<P, O>,
    action: Action<K, Q, C, S>,
    other: SessionId,
)
    requires
        match context_of(action) {
            NextInputContext::RejectConnection(session_id)
            | NextInputContext::OpenConnection(session_id)
            | NextInputContext::DropConnection(session_id) => session_id != other,
            _ => true,
        },
    ensures
        v.after(action).pending.contains_key(other) == v.pending.contains_key(other),
        v.after(action).open.contains_key(other) == v.open.contains_key(other),
        v.pending.contains_key(other) ==> v.after(action).pending[other] == v.pending[other],
        v.open.contains_key(other) ==> v.after(action).open[other] == v.open[other],
{
}

/// Packets and statistics are passed on as they are, a request for access is passed on for
/// its session, waiting ends after a tenth of a second, and closing stops the listener. None of
/// these changes a connection.
pub proof fn actions_are_passed_on<P, O, K, Q, C, S>(
    v: ListenerView<P, O>,
    session_id: SessionId,
    packet: K,
    request: Q,
    statistics: S,
)
    ensures
        v.command(Action::<K, Q, C, S>::SendPacket(packet)) == Command::<K, Q, C, S, P>::Send(
            packet,
        ),
        v.after(Action::<K, Q, C, S>::SendPacket(packet)) == v,
        v.command(Action::<K, Q, C, S>::RequestAccess(session_id, request)) == Command::<
            K,
            Q,
            C,
            S,
            P,
        >::AskForApproval(session_id, request),
        v.after(Action::<K, Q, C, S>::RequestAccess(session_id, request)) == v,
        v.command(Action::<K, Q, C, S>::UpdateStatistics(statistics)) == Command::<
            K,
            Q,
            C,
            S,
            P,
        >::Publish(statistics),
        v.after(Action::<K, Q, C, S>::UpdateStatistics(statistics)) == v,
        v.command(Action::<K, Q, C, S>::WaitForInput) == Command::<K, Q, C, S, P>::Wait(
            Duration { nanos: 100_000_000 },
        ),
        v.after(Action::<K, Q, C, S>::WaitForInput) == v,
        v.command(Action::<K, Q, C, S>::Close) == Command::<K, Q, C, S, P>::Stop,
        v.after(Action::<K, Q, C, S>::Close) == v,
{
}

/// A rejected session does not wait any more, and its packet is sent if there is one. A
/// session that waits is opened with its connection and its packet, and does not wait any
/// more. Packets of an open session, and of no other, go to it. An open session, and no other,
/// can be dropped, and is not open any more.
pub proof fn sessions_go_their_way<P, O, K, Q, C, S>(
    v: ListenerView<P, O>,
    session_id: SessionId,
    packet: K,
    rejection: Option<K>,
    connection: Box<(Option<K>, C)>,
)
    ensures
        ({
            let reject = Action::<K, Q, C, S>::RejectConnection(session_id, rejection);
            &&& rejection is Some ==> v.command(reject) == Command::<K, Q, C, S, P>::Send(
                rejection->0,
            )
            &&& rejection is None ==> v.command(reject) == Command::<K, Q, C, S, P>::Done(Ok(()))
            &&& v.after(reject).pending == v.pending.remove(session_id)
            &&& v.after(reject).open == v.open
        }),
        ({
            let open = Action::<K, Q, C, S>::OpenConnection(session_id, connection);
            &&& v.pending.contains_key(session_id) ==> v.command(open) == Command::<
                K,
                Q,
                C,
                S,
                P,
            >::Open(session_id, v.pending[session_id], connection.1, connection.0)
            &&& !v.pending.contains_key(session_id) ==> v.command(open) == Command::<
                K,
                Q,
                C,
                S,
                P,
            >::Done(Err(()))
            &&& v.after(open).pending == v.pending.remove(session_id)
            &&& v.after(open).open == v.open
        }),
        ({
            let delegate = Action::<K, Q, C, S>::DelegatePacket(session_id, packet);
            &&& v.open.contains_key(session_id) ==> v.command(delegate) == Command::<
                K,
                Q,
                C,
                S,
                P,
            >::Delegate(session_id, packet)
            &&& !v.open.contains_key(session_id) ==> v.command(delegate) == Command::<
                K,
                Q,
                C,
                S,
                P,
            >::Done(Err(()))
            &&& v.after(delegate) == v
        }),
        ({
            let drop = Action::<K, Q, C, S>::DropConnection(session_id);
            &&& v.open.contains_key(session_id) ==> v.command(drop) == Command::<
                K,
                Q,
                C,
                S,
                P,
            >::Done(Ok(()))
            &&& !v.open.contains_key(session_id) ==> v.command(drop) == Command::<
                K,
                Q,
                C,
                S,
                P,
            >::Done(Err(()))
            &&& v.after(drop).open == v.open.remove(session_id)
            &&& v.after(drop).pending == v.pending
        }),
{
}

/// A connection that comes to wait, or to be open, is found under its session, and the others
/// stay.
pub proof fn connections_are_found_by_session<P, O>(
    v: ListenerView<P, O>,
    session_id: SessionId,
    pending: P,
    open: O,
)
    ensures
        v.with_pending(session_id, pending).pending == v.pending.insert(session_id, pending),
        v.with_pending(session_id, pending).open == v.open,
        v.with_open(session_id, open).open == v.open.insert(session_id, open),
        v.with_open(session_id, open).pending == v.pending,
{
}

/// Each action is answered for itself and for its session: by success when it was done, and by
/// failure when it was not; what came while the listener waited is answered as it came. Only
/// closing is not answered.
pub proof fn answers_are_for_their_action<K, Q, C, S, R, A>(
    action: Action<K, Q, C, S>,
    came: R,
    response: Option<(SessionId, A)>,
)
    ensures
        match action {
            Action::SendPacket(_) => context_of(action) == NextInputContext::SendPacket,
            Action::RequestAccess(id, _) => context_of(action) == NextInputContext::RequestAccess(
                id,
            ),
            Action::RejectConnection(id, _) => context_of(action)
                == NextInputContext::RejectConnection(id),
            Action::OpenConnection(id, _) => context_of(action)
                == NextInputContext::OpenConnection(id),
            Action::DelegatePacket(id, _) => context_of(action)
                == NextInputContext::DelegatePacket(id),
            Action::DropConnection(id) => context_of(action) == NextInputContext::DropConnection(
                id,
            ),
            Action::UpdateStatistics(_) => context_of(action)
                == NextInputContext::UpdateStatistics,
            Action::WaitForInput => context_of(action) == NextInputContext::WaitForInput,
            Action::Close => context_of(action) == NextInputContext::Close,
        },
        action is Close ==> next_input(context_of(action), Outcome::<R, A>::TimedOut) is None
            && next_input(context_of(action), Outcome::<R, A>::Received(came)) is None
            && next_input(context_of(action), Outcome::<R, A>::Answered(response)) is None
            && next_input(context_of(action), Outcome::<R, A>::Done(Ok(()))) is None && next_input(
            context_of(action),
            Outcome::<R, A>::Done(Err(())),
        ) is None,
        !(action is Close) ==> {
            let context = context_of(action);
            &&& next_input(context, Outcome::<R, A>::Done(Ok(()))) == Some(
                Input::<R, A>::Success(context),
            )
            &&& next_input(context, Outcome::<R, A>::Done(Err(()))) == Some(
                Input::<R, A>::Failure(context),
            )
            &&& next_input(context, Outcome::<R, A>::Received(came)) == Some(
                Input::<R, A>::Packet(came),
            )
            &&& next_input(context, Outcome::<R, A>::Answered(response)) == Some(
                Input::<R, A>::AccessResponse(response),
            )
            &&& next_input(context, Outcome::<R, A>::TimedOut) == Some(Input::<R, A>::Timer)
        },
{
}

} // verus!
