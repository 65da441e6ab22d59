//! What holds of a listener over any run of actions.
use crate::listener::{context_of, next_input, Action, Command, Input, ListenerView, Outcome};
use vstd::prelude::*;

verus! {

/// One turn of a listener: the input that the protocol is given, the action that it asks for,
/// and what came of it.
pub struct Turn<K, Q, C, S, R, A, P, O> {
    pub input: Input<R, A>,
    pub action: Action<K, Q, C, S>,
    /// The connection that waits for approval, if the action asked for it and that went out.
    pub pending: Result<P, ()>,
    /// The connection that was opened, if the action opened it and that went well.
    pub active: Result<O, ()>,
    pub outcome: Outcome<R, A>,
}

/// The input that is due after a run of turns: at first the timer, and then the one that
/// answers the last action. None is due when the listener stopped.
pub open spec fn due<K, Q, C, S, R, A, P, O>(
    turns: Seq<Turn<K, Q, C, S, R, A, P, O>>,
) -> Option<Input<R, A>> {
    if turns.len() == 0 {
        Some(Input::Timer)
    } else {
        next_input(context_of(turns.last().action), turns.last().outcome)
    }
}

impl<P, O> ListenerView<P, O> {
    /// Whether a turn's outcome is one of what was done for its action.
    pub open spec fn outcome_fits<K, Q, C, S, R, A>(
        self,
        turn: Turn<K, Q, C, S, R, A, P, O>,
    ) -> bool {
        match self.command(turn.action) {
            Command::AskForApproval(_, _) => turn.outcome == Outcome::<R, A>::Done(
                match turn.pending {
                    Ok(_) => Ok(()),
                    Err(()) => Err(()),
                },
            ),
            Command::Open(_, _, _, packet) => match (turn.active, packet) {
                (Err(()), _) => turn.outcome == Outcome::<R, A>::Done(Err(())),
                (Ok(_), None) => turn.outcome == Outcome::<R, A>::Done(Ok(())),
                (Ok(_), Some(_)) => turn.outcome is Done,
            },
            Command::Done(result) => turn.outcome == Outcome::<R, A>::Done(result),
            Command::Wait(_) => !(turn.outcome is Done),
            Command::Send(_) | Command::Delegate(_, _) | Command::Publish(_) => turn.outcome
                is Done,
            Command::Stop => true,
        }
    }

    /// The connections after a turn.
    pub open spec fn after_turn<K, Q, C, S, R, A>(
        self,
        turn: Turn<K, Q, C, S, R, A, P, O>,
    ) -> ListenerView<P, O> {
        let begun = self.after(turn.action);
        match (self.command(turn.action), turn.pending, turn.active) {
            (Command::AskForApproval(session_id, _), Ok(pending), _) => begun.with_pending(
                session_id,
                pending,
            ),
            (Command::Open(session_id, _, _, _), _, Ok(active)) => begun.with_open(
                session_id,
                active,
            ),
            _ => begun,
        }
    }

    /// The packet that the listener sends in a turn, if it does.
    pub open spec fn sent<K, Q, C, S, R, A>(
        self,
        turn: Turn<K, Q, C, S, R, A, P, O>,
    ) -> Option<K> {
        match (self.command(turn.action), turn.active) {
            (Command::Send(packet), _) => Some(packet),
            (Command::Open(_, _, _, packet), Ok(_)) => packet,
            _ => None,
        }
    }

    /// The connections after a run of turns.
    pub open spec fn run<K, Q, C, S, R, A>(
        self,
        turns: Seq<Turn<K, Q, C, S, R, A, P, O>>,
    ) -> ListenerView<P, O>
        decreases turns.len(),
    {
        if turns.len() == 0 {
            self
        } else {
            self.run(turns.drop_last()).after_turn(turns.last())
        }
    }

    /// Whether a listener that starts with these connections can go through these turns: each
    /// is given the input that is due, and its outcome is one of what was done for its action.
    pub open spec fn goes_through<K, Q, C, S, R, A>(
        self,
        turns: Seq<Turn<K, Q, C, S, R, A, P, O>>,
    ) -> bool
        decreases turns.len(),
    {
        turns.len() > 0 ==> {
            &&& self.goes_through(turns.drop_last())
            &&& due(turns.drop_last()) == Some(turns.last().input)
            &&& self.run(turns.drop_last()).outcome_fits(turns.last())
        }
    }
}

/// A run holds what was said of its last turn for each of its turns.
proof fn lemma_run_at<K, Q, C, S, R, A, P, O>(
    v: ListenerView<P, O>,
    turns: Seq<Turn<K, Q, C, S, R, A, P, O>>,
    i: int,
)
    requires
        v.goes_through(turns),
        0 <= i < turns.len(),
    ensures
        v.goes_through(turns.take(i)),
        due(turns.take(i)) == Some(turns[i].input),
        v.run(turns.take(i)).outcome_fits(turns[i]),
    decreases turns.len(),
{
    let before = turns.drop_last();
    if i < turns.len() - 1 {
        lemma_run_at(v, before, i);
        assert(before.take(i) =~= turns.take(i));
    } else {
        assert(before =~= turns.take(i));
    }
}

/// The first input is the timer.
pub proof fn first_input_is_the_timer<K, Q, C, S, R, A, P, O>(
    v: ListenerView<P, O>,
    turns: Seq<Turn<K, Q, C, S, R, A, P, O>>,
)
    requires
        v.goes_through(turns),
        turns.len() > 0,
    ensures
        turns[0].input == Input::<R, A>::Timer,
{
    lemma_run_at(v, turns, 0);
}

/// Each action that the listener goes on after is answered by the next input, made from its
/// outcome: what came while it waited, or how the action went. None of them closes it.
pub proof fn each_action_is_answered<K, Q, C, S, R, A, P, O>(
    v: ListenerView<P, O>,
    turns: Seq<Turn<K, Q, C, S, R, A, P, O>>,
    i: int,
)
    requires
        v.goes_through(turns),
        0 <= i < turns.len() - 1,
    ensures
        !(turns[i].action is Close),
        turns[i].action is WaitForInput ==> turns[i + 1].input == match turns[i].outcome {
            Outcome::Received(packet) => Input::Packet(packet),
            Outcome::Answered(response) => Input::AccessResponse(response),
            _ => Input::<R, A>::Timer,
        },
        !(turns[i].action is WaitForInput) ==> turns[i].outcome is Done && turns[i + 1].input == (
        if turns[i].outcome->Done_0 is Ok {
            Input::<R, A>::Success(context_of(turns[i].action))
        } else {
            Input::<R, A>::Failure(context_of(turns[i].action))
        }),
{
    lemma_run_at(v, turns, i);
    lemma_run_at(v, turns, i + 1);
    assert(turns.take(i + 1).last() == turns[i]);
}

/// A listener stops when the protocol closes it, and not before: after any other action there
/// is exactly one input that the next turn can be given. After closing there is no next turn,
/// and closing sends nothing and changes no connection.
pub proof fn run_ends_with_close<K, Q, C, S, R, A, P, O>(
    v: ListenerView<P, O>,
    turns: Seq<Turn<K, Q, C, S, R, A, P, O>>,
    next: Turn<K, Q, C, S, R, A, P, O>,
)
    requires
        v.goes_through(turns),
        turns.len() > 0,
    ensures
        due(turns) is None <==> turns.last().action is Close,
        v.goes_through(turns.push(next)) <==> due(turns) == Some(next.input) && v.run(
            turns,
        ).outcome_fits(next),
        turns.last().action is Close ==> {
            &&& !v.goes_through(turns.push(next))
            &&& v.run(turns.drop_last()).sent(turns.last()) is None
            &&& v.run(turns) == v.run(turns.drop_last())
        },
{
    assert(turns.push(next).drop_last() =~= turns);
}

} // verus!
