//! What the relays between publishers, sources and subscribers do next.
use vstd::prelude::*;

verus! {

/// What happened at a publisher's end of a relay.
pub enum PublisherInput<D> {
    /// The publisher sent this.
    Data(D),
    /// Receiving from the publisher failed.
    Failed,
    /// The publisher closed its connection.
    Closed,
    /// The publisher is to stop.
    Canceled,
    /// What it sent was handed on; `false` if nobody can receive it any more.
    Relayed(bool),
}

/// What is to be done at a publisher's end of a relay.
pub enum PublisherStep<D> {
    /// Hand this on to the subscribers.
    Relay(D),
    /// Wait for what comes next.
    Wait,
    /// Close the connection.
    Stop,
}

/// What a publisher's end of a relay does next.
pub open spec fn publisher_step<D>(input: PublisherInput<D>) -> PublisherStep<D> {
    match input {
        PublisherInput::Data(data) => PublisherStep::Relay(data),
        PublisherInput::Relayed(true) => PublisherStep::Wait,
        _ => PublisherStep::Stop,
    }
}

/// Hands on what a publisher sends, until that fails, the publisher closes or it is to stop.
pub fn relay_from_publisher<D>(input: PublisherInput<D>) -> (r: PublisherStep<D>)
    ensures
        r == match input {
            PublisherInput::Data(data) => PublisherStep::Relay(data),
            PublisherInput::Relayed(true) => PublisherStep::<D>::Wait,
            _ => PublisherStep::<D>::Stop,
        },
        r == publisher_step(input),
{
    match input {
        PublisherInput::Data(data) => PublisherStep::Relay(data),
        PublisherInput::Relayed(true) => PublisherStep::Wait,
        _ => PublisherStep::Stop,
    }
}

/// What happened at a subscriber's end of a relay.
pub enum SubscriberInput<D> {
    /// The source relayed this.
    Data(D),
    /// The subscriber was too slow, and this many items are lost to it.
    Lagged(u64),
    /// The source is gone.
    Closed,
    /// The subscriber is to stop.
    Canceled,
    /// What was relayed was sent; `false` if sending failed.
    Sent(bool),
}

/// What is to be done at a subscriber's end of a relay.
pub enum SubscriberStep<D> {
    /// Send this to the subscriber.
    Send(D),
    /// Report that so many items were lost, and wait for what comes next.
    ReportLost(u64),
    /// Wait for what comes next.
    Wait,
    /// Close the connection.
    Stop,
}

/// What a subscriber's end of a relay does next.
pub open spec fn subscriber_step<D>(input: SubscriberInput<D>) -> SubscriberStep<D> {
    match input {
        SubscriberInput::Data(data) => SubscriberStep::Send(data),
        SubscriberInput::Lagged(lost) => SubscriberStep::ReportLost(lost),
        SubscriberInput::Sent(true) => SubscriberStep::Wait,
        _ => SubscriberStep::Stop,
    }
}

/// Sends on what a source relays, until that fails, the source is gone or the subscriber is
/// to stop. A subscriber that lost items goes on with those that come next.
pub fn relay_to_subscriber<D>(input: SubscriberInput<D>) -> (r: SubscriberStep<D>)
    ensures
        r == match input {
            SubscriberInput::Data(data) => SubscriberStep::Send(data),
            SubscriberInput::Lagged(lost) => SubscriberStep::<D>::ReportLost(lost),
            SubscriberInput::Sent(true) => SubscriberStep::<D>::Wait,
            _ => SubscriberStep::<D>::Stop,
        },
        r == subscriber_step(input),
{
    match input {
        SubscriberInput::Data(data) => SubscriberStep::Send(data),
        SubscriberInput::Lagged(lost) => SubscriberStep::ReportLost(lost),
        SubscriberInput::Sent(true) => SubscriberStep::Wait,
        _ => SubscriberStep::Stop,
    }
}

/// All that a publisher sends is handed on as it came, and nothing else is. Its end of the
/// relay goes on exactly when that went well, and stops when it failed, when the publisher
/// failed or closed, and when it is to stop.
pub proof fn publisher_data_is_handed_on<D>(input: PublisherInput<D>, data: D)
    ensures
        publisher_step(input) == PublisherStep::Relay(data) <==> input == PublisherInput::Data(
            data,
        ),
        publisher_step(input) is Wait <==> input == PublisherInput::<D>::Relayed(true),
        publisher_step(input) is Stop <==> input is Failed || input is Closed || input is Canceled
            || input == PublisherInput::<D>::Relayed(false),
{
}

/// All that a source relays is sent on as it came, and nothing else is. A subscriber's end of
/// the relay goes on when that went well and when items were lost, which it reports; it stops
/// when sending failed, when the source is gone, and when it is to stop.
pub proof fn source_data_is_sent_on<D>(input: SubscriberInput<D>, data: D, lost: u64)
    ensures
        subscriber_step(input) == SubscriberStep::Send(data) <==> input == SubscriberInput::Data(
            data,
        ),
        subscriber_step(input) == SubscriberStep::<D>::ReportLost(lost) <==> input
            == SubscriberInput::<D>::Lagged(lost),
        subscriber_step(input) is Wait <==> input == SubscriberInput::<D>::Sent(true),
        subscriber_step(input) is Stop <==> input is Closed || input is Canceled || input
            == SubscriberInput::<D>::Sent(false),
{
}

} // verus!
