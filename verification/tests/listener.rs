use srt::address::{IpAddress, PeerAddress};
use srt::listener::{
    first_input, Action, Command, Input, NextInputContext, Outcome, SessionId, SrtListenerState,
    INPUT_TIMEOUT_NANOS,
};
use srt::numbers::SocketId;
use srt::time::Duration;

type State = SrtListenerState<&'static str, u32>;
type TestAction = Action<&'static str, u8, char, u64>;

fn session(port: u16) -> SessionId {
    let peer = PeerAddress { ip: IpAddress::V4(7), port, flow_info: 0, scope_id: 0 };
    SessionId(peer, SocketId(3))
}

fn open(id: SessionId, packet: Option<&'static str>) -> TestAction {
    Action::OpenConnection(id, Box::new((packet, 'c')))
}

#[test]
fn actions_without_a_session_are_passed_on() {
    let mut state = State::new();
    assert!(matches!(state.begin(TestAction::SendPacket("p")), Command::Send("p")));
    assert!(matches!(state.begin(TestAction::UpdateStatistics(5)), Command::Publish(5)));
    assert!(matches!(
        state.begin(TestAction::WaitForInput),
        Command::Wait(Duration { nanos: INPUT_TIMEOUT_NANOS })
    ));
    assert!(matches!(state.begin(TestAction::Close), Command::Stop));
}

#[test]
fn approved_session_is_opened_and_gets_its_packets() {
    let mut state = State::new();
    let id = session(1);
    assert!(matches!(
        state.begin(TestAction::RequestAccess(id, 9)),
        Command::AskForApproval(_, 9)
    ));
    assert_eq!(state.access_requested(id, Ok("waiting")), Ok(()));
    match state.begin(open(id, Some("hello"))) {
        Command::Open(opened, "waiting", 'c', Some("hello")) => assert_eq!(opened, id),
        _ => panic!("the session waits for approval"),
    }
    let next: Command<&'static str, u8, char, u64, &'static str> =
        state.connection_opened(id, Ok(17), Some("hello"));
    assert!(matches!(next, Command::Send("hello")));
    assert_eq!(state.connection(id), Some(&mut 17));
    if let Some(connection) = state.connection(id) {
        *connection = 18;
    }
    assert_eq!(state.connection(id), Some(&mut 18));
    assert_eq!(state.connection(session(2)), None);
    assert!(matches!(
        state.begin(TestAction::DelegatePacket(id, "data")),
        Command::Delegate(_, "data")
    ));
    // it is opened only once
    assert!(matches!(state.begin(open(id, None)), Command::Done(Err(()))));
}

#[test]
fn connection_without_a_packet_is_done_when_it_is_open() {
    let mut state = State::new();
    let id = session(1);
    let next: Command<&'static str, u8, char, u64, &'static str> =
        state.connection_opened(id, Ok(17), None);
    assert!(matches!(next, Command::Done(Ok(()))));
}

#[test]
fn rejected_session_is_not_opened() {
    let mut state = State::new();
    let id = session(1);
    assert_eq!(state.access_requested(id, Ok("waiting")), Ok(()));
    assert_eq!(state.access_requested(session(2), Ok("other")), Ok(()));
    assert!(matches!(
        state.begin(TestAction::RejectConnection(id, Some("no"))),
        Command::Send("no")
    ));
    assert!(matches!(
        state.begin(TestAction::RejectConnection(id, None)),
        Command::Done(Ok(()))
    ));
    assert!(matches!(state.begin(open(id, Some("p"))), Command::Done(Err(()))));
    assert!(matches!(state.begin(open(session(2), None)), Command::Open(_, "other", 'c', None)));
}

#[test]
fn failures_leave_the_sessions_alone() {
    let mut state = State::new();
    let id = session(1);
    assert_eq!(state.access_requested(id, Err(())), Err(()));
    assert!(matches!(state.begin(open(id, None)), Command::Done(Err(()))));
    let next: Command<&'static str, u8, char, u64, &'static str> =
        state.connection_opened(id, Err(()), Some("p"));
    assert!(matches!(next, Command::Done(Err(()))));
    assert_eq!(state.connection(id), None);
}

#[test]
fn dropped_session_gets_no_packets() {
    let mut state = State::new();
    let id = session(1);
    let _: Command<&'static str, u8, char, u64, &'static str> =
        state.connection_opened(id, Ok(17), None);
    assert!(matches!(state.begin(TestAction::DropConnection(id)), Command::Done(Ok(()))));
    assert!(matches!(state.begin(TestAction::DropConnection(id)), Command::Done(Err(()))));
    assert!(matches!(
        state.begin(TestAction::DelegatePacket(id, "data")),
        Command::Done(Err(()))
    ));
}

#[test]
fn inputs_answer_their_actions() {
    let id = session(1);
    let contexts = [
        (TestAction::SendPacket("p"), NextInputContext::SendPacket),
        (TestAction::RequestAccess(id, 1), NextInputContext::RequestAccess(id)),
        (TestAction::RejectConnection(id, None), NextInputContext::RejectConnection(id)),
        (open(id, None), NextInputContext::OpenConnection(id)),
        (TestAction::DelegatePacket(id, "p"), NextInputContext::DelegatePacket(id)),
        (TestAction::DropConnection(id), NextInputContext::DropConnection(id)),
        (TestAction::UpdateStatistics(1), NextInputContext::UpdateStatistics),
        (TestAction::WaitForInput, NextInputContext::WaitForInput),
        (TestAction::Close, NextInputContext::Close),
    ];
    for (action, context) in contexts {
        assert_eq!(NextInputContext::for_action(&action), context);
        let good: Input<(), ()> = context.input_from(Ok::<u8, ()>(1));
        assert!(matches!(good, Input::Success(c) if c == context));
        let bad: Input<(), ()> = context.input_from(Err::<u8, ()>(()));
        assert!(matches!(bad, Input::Failure(c) if c == context));
    }
}

#[test]
fn run_starts_with_the_timer_and_ends_with_close() {
    let id = session(1);
    let first: Input<&str, u8> = first_input();
    assert!(matches!(first, Input::Timer));

    let wait = NextInputContext::WaitForInput;
    let next: Option<Input<&str, u8>> = wait.next_input(Outcome::Received("packet"));
    assert!(matches!(next, Some(Input::Packet("packet"))));
    let next: Option<Input<&str, u8>> = wait.next_input(Outcome::Answered(Some((id, 4))));
    assert!(matches!(next, Some(Input::AccessResponse(Some((s, 4)))) if s == id));
    let next: Option<Input<&str, u8>> = wait.next_input(Outcome::Answered(None));
    assert!(matches!(next, Some(Input::AccessResponse(None))));
    let next: Option<Input<&str, u8>> = wait.next_input(Outcome::TimedOut);
    assert!(matches!(next, Some(Input::Timer)));

    let open = NextInputContext::OpenConnection(id);
    let next: Option<Input<&str, u8>> = open.next_input(Outcome::Done(Ok(())));
    assert!(matches!(next, Some(Input::Success(c)) if c == open));
    let next: Option<Input<&str, u8>> = open.next_input(Outcome::Done(Err(())));
    assert!(matches!(next, Some(Input::Failure(c)) if c == open));

    let close = NextInputContext::Close;
    let next: Option<Input<&str, u8>> = close.next_input(Outcome::Done(Ok(())));
    assert!(next.is_none());
}
