use vstd::prelude::*;

verus! {

/// Seconds between two heartbeats.
pub const HEARTBEAT_PERIOD_SECS: u64 = 1;

/// Seconds between two requests of the full parameter list.
pub const PARAM_POLL_PERIOD_SECS: u64 = 10;

/// Seconds the receiver waits when no message is available.
pub const RECEIVE_IDLE_SECS: u64 = 1;

/// What one receive call on the transport gave.
pub enum ReceiveOutcome<M> {
    /// A decoded message with its routing header.
    Message(M),
    /// No data was available.
    WouldBlock,
    /// Any other read error; `reason` is for the log.
    Failed { reason: String },
}

/// What the receiver does with it.
pub enum ReceiverAction<M> {
    /// Hand the message to the message sink at once.
    Forward(M),
    /// Wait `seconds`, then receive again.
    Sleep { seconds: u64 },
    /// Log the error and receive again.
    LogAndContinue { reason: String },
}

pub open spec fn forwarded_of<M>(o: ReceiveOutcome<M>) -> Option<M> {
    match o {
        ReceiveOutcome::Message(m) => Some(m),
        _ => None,
    }
}

/// Decides what to do with one receive outcome: a message is forwarded
/// unchanged, "would block" waits, any other error is logged and the loop
/// goes on.
pub fn on_receive<M>(outcome: ReceiveOutcome<M>) -> (r: ReceiverAction<M>)
    ensures
        match outcome {
            ReceiveOutcome::Message(m) => r == ReceiverAction::Forward(m),
            ReceiveOutcome::WouldBlock => r == ReceiverAction::<M>::Sleep { seconds: RECEIVE_IDLE_SECS },
            ReceiveOutcome::Failed { reason } => r == ReceiverAction::<M>::LogAndContinue { reason },
        },
{
    match outcome {
        ReceiveOutcome::Message(m) => ReceiverAction::Forward(m),
        ReceiveOutcome::WouldBlock => ReceiverAction::Sleep { seconds: RECEIVE_IDLE_SECS },
        ReceiveOutcome::Failed { reason } => ReceiverAction::LogAndContinue { reason },
    }
}

/// The messages among a run of receive outcomes, in order.
pub open spec fn messages_of<M>(outs: Seq<ReceiveOutcome<M>>) -> Seq<M>
    decreases outs.len(),
{
    if outs.len() == 0 {
        Seq::empty()
    } else {
        match forwarded_of(outs.last()) {
            Some(m) => messages_of(outs.drop_last()).push(m),
            None => messages_of(outs.drop_last()),
        }
    }
}

/// The messages that a run of receiver actions hands to the sink, in order.
pub open spec fn sink_of<M>(acts: Seq<ReceiverAction<M>>) -> Seq<M>
    decreases acts.len(),
{
    if acts.len() == 0 {
        Seq::empty()
    } else {
        match acts.last() {
            ReceiverAction::Forward(m) => sink_of(acts.drop_last()).push(m),
            _ => sink_of(acts.drop_last()),
        }
    }
}

/// Runs the receiver's decision over a batch of receive outcomes, in order.
pub fn pump<M>(outcomes: Vec<ReceiveOutcome<M>>) -> (r: Vec<ReceiverAction<M>>)
    ensures
        r@.len() == outcomes@.len(),
        sink_of(r@) == messages_of(outcomes@),
{
    let mut rest = outcomes;
    let ghost all = rest@;
    let mut rev: Vec<ReceiverAction<M>> = Vec::new();
    // Take outcomes from the back, then turn the result around.
    while rest.len() > 0
        invariant
            rest@.len() + rev@.len() == all.len(),
            rest@ == all.take(rest@.len() as int),
            forall|j: int| 0 <= j < rev@.len() ==> #[trigger] rev@[j] == on_receive_spec(all[all.len() - 1 - j]),
        decreases rest@.len(),
    {
        let o = rest.pop().unwrap();
        let a = on_receive(o);
        rev.push(a);
    }
    let mut out: Vec<ReceiverAction<M>> = Vec::new();
    while rev.len() > 0
        invariant
            rev@.len() + out@.len() == all.len(),
            forall|j: int| 0 <= j < rev@.len() ==> #[trigger] rev@[j] == on_receive_spec(all[all.len() - 1 - j]),
            forall|j: int| 0 <= j < out@.len() ==> #[trigger] out@[j] == on_receive_spec(all[j]),
        decreases rev@.len(),
    {
        let a = rev.pop().unwrap();
        out.push(a);
    }
    proof {
        lemma_pump_order(all, out@);
    }
    out
}

pub open spec fn on_receive_spec<M>(o: ReceiveOutcome<M>) -> ReceiverAction<M> {
    match o {
        ReceiveOutcome::Message(m) => ReceiverAction::Forward(m),
        ReceiveOutcome::WouldBlock => ReceiverAction::Sleep { seconds: RECEIVE_IDLE_SECS },
        ReceiveOutcome::Failed { reason } => ReceiverAction::LogAndContinue { reason },
    }
}

/// The sink sees exactly the received messages, in arrival order, when the
/// receiver's decision is taken on each outcome in turn.
pub proof fn lemma_pump_order<M>(outs: Seq<ReceiveOutcome<M>>, acts: Seq<ReceiverAction<M>>)
    requires
        acts.len() == outs.len(),
        forall|j: int| 0 <= j < acts.len() ==> #[trigger] acts[j] == on_receive_spec(outs[j]),
    ensures
        sink_of(acts) == messages_of(outs),
    decreases outs.len(),
{
    if outs.len() > 0 {
        lemma_pump_order(outs.drop_last(), acts.drop_last());
    }
}


/// What a keepalive task (heartbeat or parameter poll) does next.
#[derive(Clone, Copy, PartialEq, Eq, Structural, Debug)]
pub enum KeepaliveAction {
    /// Send the task's message and report whether the send succeeded.
    Send,
    /// Wait `seconds`, then ask again with no send pending.
    Sleep { seconds: u64 },
    /// The task's connection was replaced: end the task.
    Stop,
}

/// The decision of a keepalive task with period `period`. `current` says
/// whether the task's connection is still the published one; `last_send` is
/// the result of the send just made, if one was. A failed send waits a full
/// period like a successful one, so a broken link is not hammered.
fn keepalive_next(period: u64, current: bool, last_send: Option<bool>) -> (r: KeepaliveAction)
    ensures
        !current ==> r == KeepaliveAction::Stop,
        current && last_send is None ==> r == KeepaliveAction::Send,
        current && last_send is Some ==> r == (KeepaliveAction::Sleep { seconds: period }),
{
    if !current {
        KeepaliveAction::Stop
    } else if last_send.is_none() {
        KeepaliveAction::Send
    } else {
        KeepaliveAction::Sleep { seconds: period }
    }
}

/// The heartbeat task's next step: about one heartbeat per second while the
/// connection is current, whether or not the last send succeeded.
pub fn heartbeat_next(current: bool, last_send: Option<bool>) -> (r: KeepaliveAction)
    ensures
        !current ==> r == KeepaliveAction::Stop,
        current && last_send is None ==> r == KeepaliveAction::Send,
        current && last_send is Some ==> r == (KeepaliveAction::Sleep { seconds: HEARTBEAT_PERIOD_SECS }),
{
    keepalive_next(HEARTBEAT_PERIOD_SECS, current, last_send)
}

/// The parameter-poll task's next step: a full parameter request every
/// `PARAM_POLL_PERIOD_SECS` while the connection is current.
pub fn poll_next(current: bool, last_send: Option<bool>) -> (r: KeepaliveAction)
    ensures
        !current ==> r == KeepaliveAction::Stop,
        current && last_send is None ==> r == KeepaliveAction::Send,
        current && last_send is Some ==> r == (KeepaliveAction::Sleep { seconds: PARAM_POLL_PERIOD_SECS }),
{
    keepalive_next(PARAM_POLL_PERIOD_SECS, current, last_send)
}

} // verus!
