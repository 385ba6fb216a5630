use vstd::prelude::*;

verus! {

/// Attempts at opening the transport before `connect` gives up.
pub const MAX_RETRIES: u32 = 30;

/// A connection-status event pushed to the status sink.
pub enum ConnectUpdate {
    Connected,
    Disconnected { reason: String },
    Connecting { connection_time: u32, retries: u32 },
    Failed { reason: String },
}

pub enum StatusModel {
    Connected,
    Disconnected(Seq<char>),
    Connecting(u32, u32),
    Failed(Seq<char>),
}

impl View for ConnectUpdate {
    type V = StatusModel;

    open spec fn view(&self) -> StatusModel {
        match self {
            ConnectUpdate::Connected => StatusModel::Connected,
            ConnectUpdate::Disconnected { reason } => StatusModel::Disconnected(reason@),
            ConnectUpdate::Connecting { connection_time, retries } => StatusModel::Connecting(*connection_time, *retries),
            ConnectUpdate::Failed { reason } => StatusModel::Failed(reason@),
        }
    }
}

/// Where a connect sequence stands.
#[derive(Clone, Copy, PartialEq, Eq, Structural, Debug)]
pub enum Stage {
    /// Waiting for the next attempt to be due.
    Waiting,
    /// The transport is being opened.
    Opening,
    /// The parameter request is being sent.
    RequestingParameters,
    /// The telemetry stream request is being sent.
    RequestingStream,
    /// The connection is published and its tasks run; `stream_requested`
    /// says whether the stream request went out.
    Ready { stream_requested: bool },
    /// The sequence ended in failure; `exhausted` when every attempt failed.
    Failed { exhausted: bool },
    /// The status sink refused an update: the sequence ended with its error.
    Stopped,
}

/// What the connection loop reports back to the supervisor.
pub enum LinkEvent {
    /// The next attempt is due, `elapsed` seconds after the sequence began.
    AttemptDue { elapsed: u32 },
    Opened,
    OpenFailed { reason: String },
    Sent,
    SendFailed { reason: String },
    /// Emitting the last step's status failed; the step's action was not
    /// performed.
    StatusFailed { reason: String },
}

/// What the connection loop is to do next.
#[derive(Clone, Copy, PartialEq, Eq, Structural, Debug)]
pub enum LinkAction {
    /// Open the transport (after switching it to the newer wire format).
    Open,
    /// Wait `seconds`, then report `AttemptDue`.
    Sleep { seconds: u32 },
    /// Send "request all parameters" with the default header.
    SendParameterRequest,
    /// Send "request data stream" with the default header.
    SendStreamRequest,
    /// Publish the connection into the shared state, start the heartbeat,
    /// receiver and parameter-poll tasks, and return success.
    Publish,
    /// Return the error that the step carries.
    Abort,
    /// Nothing to do: the event does not fit the stage.
    Idle,
}

/// One step's output: at most one status to emit, an action, and for
/// `Abort` the error to return.
pub struct Step {
    pub status: Option<ConnectUpdate>,
    pub action: LinkAction,
    pub error: Option<String>,
}

pub struct StepModel {
    pub status: Option<StatusModel>,
    pub action: LinkAction,
    pub error: Option<Seq<char>>,
}

impl View for Step {
    type V = StepModel;

    open spec fn view(&self) -> StepModel {
        StepModel {
            status: match self.status { Some(s) => Some(s@), None => None },
            action: self.action,
            error: match self.error { Some(e) => Some(e@), None => None },
        }
    }
}

/// The events of one `connect` sequence, as plain values.
pub enum EventModel {
    AttemptDue(u32),
    Opened,
    OpenFailed(Seq<char>),
    Sent,
    SendFailed(Seq<char>),
    StatusFailed(Seq<char>),
}

impl View for LinkEvent {
    type V = EventModel;

    open spec fn view(&self) -> EventModel {
        match self {
            LinkEvent::AttemptDue { elapsed } => EventModel::AttemptDue(*elapsed),
            LinkEvent::Opened => EventModel::Opened,
            LinkEvent::OpenFailed { reason } => EventModel::OpenFailed(reason@),
            LinkEvent::Sent => EventModel::Sent,
            LinkEvent::SendFailed { reason } => EventModel::SendFailed(reason@),
            LinkEvent::StatusFailed { reason } => EventModel::StatusFailed(reason@),
        }
    }
}

pub open spec fn exhausted_text(reason: Seq<char>) -> Seq<char> {
    "Failed to connect after 30 attempts: "@ + reason
}

pub open spec fn param_request_text(reason: Seq<char>) -> Seq<char> {
    "Failed to send parameters request: "@ + reason
}

pub open spec fn stream_request_text(reason: Seq<char>) -> Seq<char> {
    "Failed to send stream request: "@ + reason
}

pub open spec fn param_request_error() -> Seq<char> {
    "Failed to send parameters request"@
}

pub open spec fn quiet(action: LinkAction) -> StepModel {
    StepModel { status: None, action, error: None }
}

/// The decision of one step: the stage and retry count after `e`, and the
/// step's output.
pub open spec fn next(stage: Stage, retries: u32, e: EventModel) -> (Stage, u32, StepModel) {
    match (stage, e) {
        (Stage::Waiting, EventModel::AttemptDue(t)) => (Stage::Opening, retries, StepModel {
            status: Some(StatusModel::Connecting(t, retries)),
            action: LinkAction::Open,
            error: None,
        }),
        (Stage::Opening, EventModel::Opened) => (Stage::RequestingParameters, retries, StepModel {
            status: Some(StatusModel::Connected),
            action: LinkAction::SendParameterRequest,
            error: None,
        }),
        (Stage::Opening, EventModel::OpenFailed(why)) => if retries + 1 >= MAX_RETRIES {
            (Stage::Failed { exhausted: true }, (retries + 1) as u32, StepModel {
                status: Some(StatusModel::Failed(exhausted_text(why))),
                action: LinkAction::Abort,
                error: Some(exhausted_text(why)),
            })
        } else {
            (Stage::Waiting, (retries + 1) as u32, quiet(LinkAction::Sleep { seconds: 1 }))
        },
        (Stage::RequestingParameters, EventModel::Sent) => (Stage::RequestingStream, retries, quiet(LinkAction::SendStreamRequest)),
        (Stage::RequestingParameters, EventModel::SendFailed(why)) => (Stage::Failed { exhausted: false }, retries, StepModel {
            status: Some(StatusModel::Failed(param_request_text(why))),
            action: LinkAction::Abort,
            error: Some(param_request_error()),
        }),
        (Stage::RequestingStream, EventModel::Sent) => (Stage::Ready { stream_requested: true }, retries, quiet(LinkAction::Publish)),
        (Stage::RequestingStream, EventModel::SendFailed(why)) => (Stage::Ready { stream_requested: false }, retries, StepModel {
            status: Some(StatusModel::Failed(stream_request_text(why))),
            action: LinkAction::Publish,
            error: None,
        }),
        (_, EventModel::StatusFailed(why)) => if stage == Stage::Stopped {
            (stage, retries, quiet(LinkAction::Idle))
        } else {
            (Stage::Stopped, retries, StepModel { status: None, action: LinkAction::Abort, error: Some(why) })
        },
        _ => (stage, retries, quiet(LinkAction::Idle)),
    }
}

/// The decisions of `connect`: bounded retry of the open, then the two
/// bootstrap requests, of which only the parameter request is essential.
/// The caller emits each step's status before it performs the step's
/// action; when emitting fails it reports `StatusFailed` instead, and the
/// sequence ends with that error.
pub struct ConnectSupervisor {
    pub stage: Stage,
    pub retries: u32,
}

impl ConnectSupervisor {
    pub open spec fn wf(&self) -> bool {
        &&& self.retries <= MAX_RETRIES
        &&& (self.stage == Stage::Waiting || self.stage == Stage::Opening) ==> self.retries < MAX_RETRIES
    }

    /// A fresh sequence: the first attempt is due at once.
    pub fn new() -> (r: ConnectSupervisor)
        ensures
            r.stage == Stage::Waiting,
            r.retries == 0,
            r.wf(),
    {
        ConnectSupervisor { stage: Stage::Waiting, retries: 0 }
    }

    /// Takes in one event and decides the next action.
    pub fn step(&mut self, event: LinkEvent) -> (r: Step)
        requires
            old(self).wf(),
        ensures
            (final(self).stage, final(self).retries, r@) == next(old(self).stage, old(self).retries, event@),
            final(self).wf(),
    {
        match (self.stage, event) {
            (Stage::Waiting, LinkEvent::AttemptDue { elapsed }) => {
                self.stage = Stage::Opening;
                Step {
                    status: Some(ConnectUpdate::Connecting { connection_time: elapsed, retries: self.retries }),
                    action: LinkAction::Open,
                    error: None,
                }
            },
            (Stage::Opening, LinkEvent::Opened) => {
                self.stage = Stage::RequestingParameters;
                Step { status: Some(ConnectUpdate::Connected), action: LinkAction::SendParameterRequest, error: None }
            },
            (Stage::Opening, LinkEvent::OpenFailed { reason }) => {
                self.retries = self.retries + 1;
                if self.retries >= MAX_RETRIES {
                    self.stage = Stage::Failed { exhausted: true };
                    let text = prefixed("Failed to connect after 30 attempts: ", &reason);
                    let copy = text.clone();
                    Step { status: Some(ConnectUpdate::Failed { reason: text }), action: LinkAction::Abort, error: Some(copy) }
                } else {
                    self.stage = Stage::Waiting;
                    Step { status: None, action: LinkAction::Sleep { seconds: 1 }, error: None }
                }
            },
            (Stage::RequestingParameters, LinkEvent::Sent) => {
                self.stage = Stage::RequestingStream;
                Step { status: None, action: LinkAction::SendStreamRequest, error: None }
            },
            (Stage::RequestingParameters, LinkEvent::SendFailed { reason }) => {
                self.stage = Stage::Failed { exhausted: false };
                let text = prefixed("Failed to send parameters request: ", &reason);
                Step {
                    status: Some(ConnectUpdate::Failed { reason: text }),
                    action: LinkAction::Abort,
                    error: Some(String::from_str("Failed to send parameters request")),
                }
            },
            (Stage::RequestingStream, LinkEvent::Sent) => {
                self.stage = Stage::Ready { stream_requested: true };
                Step { status: None, action: LinkAction::Publish, error: None }
            },
            (Stage::RequestingStream, LinkEvent::SendFailed { reason }) => {
                self.stage = Stage::Ready { stream_requested: false };
                let text = prefixed("Failed to send stream request: ", &reason);
                Step { status: Some(ConnectUpdate::Failed { reason: text }), action: LinkAction::Publish, error: None }
            },
            (st, LinkEvent::StatusFailed { reason }) => {
                if st == Stage::Stopped {
                    Step { status: None, action: LinkAction::Idle, error: None }
                } else {
                    self.stage = Stage::Stopped;
                    Step { status: None, action: LinkAction::Abort, error: Some(reason) }
                }
            },
            _ => Step { status: None, action: LinkAction::Idle, error: None },
        }
    }
}

/// `head` followed by `tail`.
pub fn prefixed(head: &str, tail: &String) -> (r: String)
    ensures
        r@ == head@ + tail@,
{
    let mut r = String::from_str(head);
    r.append(tail.as_str());
    r
}


/// Stage, retry count and outputs after a fresh supervisor took `events`.
pub open spec fn run(events: Seq<EventModel>) -> (Stage, u32, Seq<StepModel>)
    decreases events.len(),
{
    if events.len() == 0 {
        (Stage::Waiting, 0, Seq::empty())
    } else {
        let (st, r, out) = run(events.drop_last());
        let (st2, r2, o) = next(st, r, events.last());
        (st2, r2, out.push(o))
    }
}

pub open spec fn count_connecting(out: Seq<StepModel>) -> nat
    decreases out.len(),
{
    if out.len() == 0 {
        0
    } else {
        count_connecting(out.drop_last()) + if out.last().status matches Some(StatusModel::Connecting(_, _)) { 1nat } else { 0nat }
    }
}

pub open spec fn count_connected(out: Seq<StepModel>) -> nat
    decreases out.len(),
{
    if out.len() == 0 {
        0
    } else {
        count_connected(out.drop_last()) + if out.last().status matches Some(StatusModel::Connected) { 1nat } else { 0nat }
    }
}

pub open spec fn count_failed(out: Seq<StepModel>) -> nat
    decreases out.len(),
{
    if out.len() == 0 {
        0
    } else {
        count_failed(out.drop_last()) + if out.last().status matches Some(StatusModel::Failed(_)) { 1nat } else { 0nat }
    }
}

pub open spec fn count_published(out: Seq<StepModel>) -> nat
    decreases out.len(),
{
    if out.len() == 0 {
        0
    } else {
        count_published(out.drop_last()) + if out.last().action == LinkAction::Publish { 1nat } else { 0nat }
    }
}

/// What the outputs of every run satisfy, stage by stage.
pub open spec fn run_invariant(st: Stage, r: u32, out: Seq<StepModel>) -> bool {
    let c = count_connecting(out);
    let k = count_connected(out);
    let f = count_failed(out);
    let p = count_published(out);
    match st {
        Stage::Waiting => c == r && k == 0 && f == 0 && p == 0 && r < MAX_RETRIES,
        Stage::Opening => c == r + 1 && k == 0 && f == 0 && p == 0 && r < MAX_RETRIES,
        Stage::RequestingParameters => c == r + 1 && k == 1 && f == 0 && p == 0,
        Stage::RequestingStream => c == r + 1 && k == 1 && f == 0 && p == 0,
        Stage::Ready { stream_requested } => c == r + 1 && k == 1 && p == 1 && f == (if stream_requested { 0nat } else { 1nat }),
        Stage::Failed { exhausted } => f == 1 && p == 0 && if exhausted { c == MAX_RETRIES && k == 0 } else { k == 1 },
        Stage::Stopped => true,
    }
}

proof fn lemma_run_invariant(events: Seq<EventModel>)
    ensures
        run_invariant(run(events).0, run(events).1, run(events).2),
    decreases events.len(),
{
    if events.len() > 0 {
        lemma_run_invariant(events.drop_last());
        let (st, r, out) = run(events.drop_last());
        let (st2, r2, o) = next(st, r, events.last());
        let out2 = out.push(o);
        assert(out2.drop_last() == out);
        assert(out2.last() == o);
    }
}

/// A `connect` sequence that ends connected with both bootstrap requests
/// sent has emitted at least one `Connecting`, exactly one `Connected` and no
/// `Failed`; one that used up every attempt has emitted exactly
/// `MAX_RETRIES` `Connecting` and exactly one `Failed`. Any sequence that
/// ends connected has emitted exactly one `Connected`.
pub proof fn lemma_status_counts(events: Seq<EventModel>)
    ensures
        run(events).0 is Ready ==> count_connecting(run(events).2) >= 1 && count_connected(run(events).2) == 1,
        run(events).0 == (Stage::Ready { stream_requested: true }) ==> count_connecting(run(events).2) >= 1
            && count_connected(run(events).2) == 1 && count_failed(run(events).2) == 0,
        run(events).0 == (Stage::Failed { exhausted: true }) ==> count_connecting(run(events).2) == MAX_RETRIES
            && count_failed(run(events).2) == 1 && count_connected(run(events).2) == 0,
{
    lemma_run_invariant(events);
}

/// A failed parameter request ends the sequence with an error and no
/// published connection, whatever follows; a failed stream request still
/// publishes the connection and returns success.
pub proof fn lemma_bootstrap_policy(events: Seq<EventModel>, why: Seq<char>, more: Seq<EventModel>)
    ensures
        run(events).0 == Stage::RequestingParameters ==> ({
            let after = run(events.push(EventModel::SendFailed(why)));
            &&& after.0 == (Stage::Failed { exhausted: false })
            &&& after.2.last().action == LinkAction::Abort
            &&& after.2.last().error is Some
            &&& count_published(run(events.push(EventModel::SendFailed(why)) + more).2) == 0
        }),
        run(events).0 == Stage::RequestingStream ==> ({
            let after = run(events.push(EventModel::SendFailed(why)));
            &&& after.0 == (Stage::Ready { stream_requested: false })
            &&& after.2.last().action == LinkAction::Publish
            &&& after.2.last().error is None
        }),
{
    if run(events).0 == Stage::RequestingParameters {
        let start = events.push(EventModel::SendFailed(why));
        let after = run(start);
        assert(start.drop_last() == events);
        lemma_run_invariant(start);
        lemma_failed_stays(start, more);
    }
    if run(events).0 == Stage::RequestingStream {
        assert(events.push(EventModel::SendFailed(why)).drop_last() == events);
    }
}

proof fn lemma_failed_stays(start: Seq<EventModel>, more: Seq<EventModel>)
    requires
        run(start).0 == (Stage::Failed { exhausted: false }),
        count_published(run(start).2) == 0,
    ensures
        run(start + more).0 == (Stage::Failed { exhausted: false }) || run(start + more).0 == Stage::Stopped,
        count_published(run(start + more).2) == 0,
    decreases more.len(),
{
    if more.len() == 0 {
        assert(start + more == start);
    } else {
        lemma_failed_stays(start, more.drop_last());
        assert((start + more).drop_last() == start + more.drop_last());
        let (st, r, out) = run(start + more.drop_last());
        let (st2, r2, o) = next(st, r, more.last());
        assert((start + more).last() == more.last());
        let out2 = out.push(o);
        assert(out2.drop_last() == out);
    }
}

} // verus!
