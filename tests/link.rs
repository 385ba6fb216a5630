use cursed_mav::receiver::{heartbeat_next, poll_next, KeepaliveAction, HEARTBEAT_PERIOD_SECS, PARAM_POLL_PERIOD_SECS};
use cursed_mav::receiver::{on_receive, pump, ReceiveOutcome, ReceiverAction, RECEIVE_IDLE_SECS};
use cursed_mav::catalog::Catalog;
use cursed_mav::state::MavConnState;
use cursed_mav::supervisor::{
    prefixed, ConnectSupervisor, ConnectUpdate, LinkAction, LinkEvent, Stage, Step, MAX_RETRIES,
};
use cursed_mav::writer::{encode_param_id, param_set_message, ParamChange, ParamWriter};

fn counts(statuses: &[ConnectUpdate]) -> (usize, usize, usize) {
    let connecting = statuses.iter().filter(|s| matches!(s, ConnectUpdate::Connecting { .. })).count();
    let connected = statuses.iter().filter(|s| matches!(s, ConnectUpdate::Connected)).count();
    let failed = statuses.iter().filter(|s| matches!(s, ConnectUpdate::Failed { .. })).count();
    (connecting, connected, failed)
}

fn feed(sup: &mut ConnectSupervisor, events: Vec<LinkEvent>) -> (Vec<ConnectUpdate>, Vec<Step>) {
    let mut statuses = Vec::new();
    let mut steps = Vec::new();
    for e in events {
        let mut s = sup.step(e);
        if let Some(st) = s.status.take() {
            statuses.push(st);
        }
        steps.push(s);
    }
    (statuses, steps)
}

fn fail_open(reason: &str) -> LinkEvent {
    LinkEvent::OpenFailed { reason: reason.to_string() }
}

#[test]
fn connect_after_two_failures_reports_connected_once() {
    let mut sup = ConnectSupervisor::new();
    let events = vec![
        LinkEvent::AttemptDue { elapsed: 0 },
        fail_open("refused"),
        LinkEvent::AttemptDue { elapsed: 1 },
        fail_open("refused"),
        LinkEvent::AttemptDue { elapsed: 2 },
        LinkEvent::Opened,
        LinkEvent::Sent,
        LinkEvent::Sent,
    ];
    let (statuses, steps) = feed(&mut sup, events);
    assert_eq!(counts(&statuses), (3, 1, 0));
    assert!(matches!(statuses[2], ConnectUpdate::Connecting { connection_time: 2, retries: 2 }));
    assert_eq!(steps[1].action, LinkAction::Sleep { seconds: 1 });
    assert_eq!(steps[5].action, LinkAction::SendParameterRequest);
    assert_eq!(steps[6].action, LinkAction::SendStreamRequest);
    assert_eq!(steps[7].action, LinkAction::Publish);
    assert_eq!(sup.stage, Stage::Ready { stream_requested: true });
}

#[test]
fn connect_gives_up_after_max_retries() {
    let mut sup = ConnectSupervisor::new();
    let mut events = Vec::new();
    for t in 0..MAX_RETRIES {
        events.push(LinkEvent::AttemptDue { elapsed: t });
        events.push(fail_open("timeout"));
    }
    let (statuses, steps) = feed(&mut sup, events);
    assert_eq!(counts(&statuses), (30, 0, 1));
    match statuses.last().unwrap() {
        ConnectUpdate::Failed { reason } => assert_eq!(reason, "Failed to connect after 30 attempts: timeout"),
        _ => panic!("expected a failure"),
    }
    let last = steps.last().unwrap();
    assert_eq!(last.action, LinkAction::Abort);
    assert_eq!(last.error.as_deref(), Some("Failed to connect after 30 attempts: timeout"));
    assert_eq!(sup.stage, Stage::Failed { exhausted: true });
    let more = sup.step(LinkEvent::AttemptDue { elapsed: 99 });
    assert_eq!(more.action, LinkAction::Idle);
}

#[test]
fn parameter_request_failure_is_fatal() {
    let mut sup = ConnectSupervisor::new();
    let events = vec![
        LinkEvent::AttemptDue { elapsed: 0 },
        LinkEvent::Opened,
        LinkEvent::SendFailed { reason: "broken pipe".to_string() },
        LinkEvent::Sent,
    ];
    let (statuses, steps) = feed(&mut sup, events);
    assert_eq!(counts(&statuses), (1, 1, 1));
    assert_eq!(steps[2].action, LinkAction::Abort);
    assert_eq!(steps[2].error.as_deref(), Some("Failed to send parameters request"));
    assert!(steps.iter().all(|s| s.action != LinkAction::Publish));
    match &statuses[2] {
        ConnectUpdate::Failed { reason } => assert_eq!(reason, "Failed to send parameters request: broken pipe"),
        _ => panic!("expected a failure"),
    }
}

#[test]
fn stream_request_failure_still_succeeds() {
    let mut sup = ConnectSupervisor::new();
    let events = vec![
        LinkEvent::AttemptDue { elapsed: 0 },
        LinkEvent::Opened,
        LinkEvent::Sent,
        LinkEvent::SendFailed { reason: "busy".to_string() },
    ];
    let (statuses, steps) = feed(&mut sup, events);
    assert_eq!(steps[3].action, LinkAction::Publish);
    assert!(steps[3].error.is_none());
    match statuses.last().unwrap() {
        ConnectUpdate::Failed { reason } => assert_eq!(reason, "Failed to send stream request: busy"),
        _ => panic!("expected a failure status"),
    }
    assert_eq!(sup.stage, Stage::Ready { stream_requested: false });
}

#[test]
fn unexpected_event_is_ignored() {
    let mut sup = ConnectSupervisor::new();
    let s = sup.step(LinkEvent::Opened);
    assert_eq!(s.action, LinkAction::Idle);
    assert!(s.status.is_none());
    assert_eq!(sup.stage, Stage::Waiting);
}

#[test]
fn prefixed_joins_text() {
    assert_eq!(prefixed("ab", &"cd".to_string()), "abcd");
}

#[test]
fn param_id_is_padded_or_cut() {
    let short = encode_param_id("RATE");
    assert_eq!(&short[..4], b"RATE");
    assert!(short[4..].iter().all(|b| *b == 0));
    let long = encode_param_id("ABCDEFGHIJKLMNOPQRST");
    assert_eq!(&long, b"ABCDEFGHIJKLMNOP");
}

#[test]
fn param_set_message_addresses_system_one() {
    let m = param_set_message(&ParamChange { param_name: "X".to_string(), new_value_bits: 1.5f32.to_bits() });
    assert_eq!(m.target_system, 1);
    assert_eq!(m.target_component, 1);
    assert_eq!(f32::from_bits(m.param_value_bits), 1.5);
    assert_eq!(m.param_id[0], b'X');
}

fn three_changes() -> Vec<ParamChange> {
    ["A_ONE", "B_TWO", "C_THREE"]
        .iter()
        .enumerate()
        .map(|(i, n)| ParamChange { param_name: n.to_string(), new_value_bits: (i as f32).to_bits() })
        .collect()
}

#[test]
fn writer_needs_a_connection() {
    let state = MavConnState::new(Catalog::new());
    match ParamWriter::start(&state, three_changes()) {
        Err(e) => assert_eq!(e, "No active MavConnection. Call connect_to_mav first."),
        Ok(_) => panic!("expected an error"),
    }
}

#[test]
fn writer_stops_at_first_failed_send() {
    let mut state = MavConnState::new(Catalog::new());
    assert_eq!(state.publish_connection(), 0);
    let mut w = ParamWriter::start(&state, three_changes()).ok().unwrap();
    let mut sent = Vec::new();
    let mut results = vec![Ok(()), Err("link down".to_string()), Ok(())].into_iter();
    while let Some(m) = w.next_message() {
        sent.push(m.param_id);
        w.record(results.next().unwrap());
    }
    assert_eq!(sent.len(), 2);
    assert_eq!(&sent[0][..5], b"A_ONE");
    assert_eq!(&sent[1][..5], b"B_TWO");
    match w.outcome() {
        Some(Err(e)) => assert_eq!(e, "Failed to send param B_TWO update: link down"),
        _ => panic!("expected the failure"),
    }
}

#[test]
fn writer_succeeds_when_all_sends_do() {
    let mut state = MavConnState::new(Catalog::new());
    state.publish_connection();
    assert_eq!(state.publish_connection(), 1);
    let mut w = ParamWriter::start(&state, three_changes()).ok().unwrap();
    assert!(w.outcome().is_none());
    let mut n = 0;
    while let Some(_) = w.next_message() {
        w.record(Ok(()));
        n += 1;
    }
    assert_eq!(n, 3);
    assert!(matches!(w.outcome(), Some(Ok(()))));
}

#[test]
fn receiver_forwards_in_arrival_order() {
    let outcomes = vec![
        ReceiveOutcome::Message(1u32),
        ReceiveOutcome::WouldBlock,
        ReceiveOutcome::Message(2),
        ReceiveOutcome::Failed { reason: "crc".to_string() },
        ReceiveOutcome::Message(3),
    ];
    let acts = pump(outcomes);
    let forwarded: Vec<u32> = acts
        .iter()
        .filter_map(|a| match a {
            ReceiverAction::Forward(m) => Some(*m),
            _ => None,
        })
        .collect();
    assert_eq!(forwarded, vec![1, 2, 3]);
    assert!(matches!(acts[1], ReceiverAction::Sleep { seconds } if seconds == RECEIVE_IDLE_SECS));
}

#[test]
fn receiver_logs_other_errors() {
    match on_receive::<u8>(ReceiveOutcome::Failed { reason: "io".to_string() }) {
        ReceiverAction::LogAndContinue { reason } => assert_eq!(reason, "io"),
        _ => panic!("expected a log"),
    }
}

#[test]
fn only_the_latest_connection_is_current() {
    let mut state = MavConnState::new(Catalog::new());
    assert!(!state.is_current(0));
    let first = state.publish_connection();
    assert!(state.is_current(first));
    let second = state.publish_connection();
    assert!(state.is_current(second));
    assert!(!state.is_current(first));
}

#[test]
fn keepalive_decisions() {
    assert_eq!(heartbeat_next(true, None), KeepaliveAction::Send);
    assert_eq!(heartbeat_next(true, Some(false)), KeepaliveAction::Sleep { seconds: HEARTBEAT_PERIOD_SECS });
    assert_eq!(heartbeat_next(true, Some(true)), KeepaliveAction::Sleep { seconds: 1 });
    assert_eq!(heartbeat_next(false, None), KeepaliveAction::Stop);
    assert_eq!(poll_next(true, Some(true)), KeepaliveAction::Sleep { seconds: PARAM_POLL_PERIOD_SECS });
    assert_eq!(poll_next(true, Some(false)), KeepaliveAction::Sleep { seconds: 10 });
    assert_eq!(poll_next(false, Some(true)), KeepaliveAction::Stop);
}

#[test]
fn failed_status_publish_ends_connect_with_its_error() {
    let mut sup = ConnectSupervisor::new();
    let events = vec![
        LinkEvent::AttemptDue { elapsed: 0 },
        LinkEvent::StatusFailed { reason: "channel closed".to_string() },
        LinkEvent::Opened,
    ];
    let (_, steps) = feed(&mut sup, events);
    assert_eq!(steps[1].action, LinkAction::Abort);
    assert_eq!(steps[1].error.as_deref(), Some("channel closed"));
    assert_eq!(steps[2].action, LinkAction::Idle);
    assert_eq!(sup.stage, Stage::Stopped);
}

#[test]
fn failed_status_publish_after_failure_status_returns_sink_error() {
    let mut sup = ConnectSupervisor::new();
    let events = vec![
        LinkEvent::AttemptDue { elapsed: 0 },
        LinkEvent::Opened,
        LinkEvent::SendFailed { reason: "broken pipe".to_string() },
        LinkEvent::StatusFailed { reason: "sink gone".to_string() },
    ];
    let (_, steps) = feed(&mut sup, events);
    assert_eq!(steps[3].action, LinkAction::Abort);
    assert_eq!(steps[3].error.as_deref(), Some("sink gone"));
    assert_eq!(sup.stage, Stage::Stopped);
}
