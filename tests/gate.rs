use brainstorm::gate::{
    after_liveness, after_wakefulness, gate_verdict, liveness_from_reply, liveness_query, wakefulness_from_reply,
    GateVerdict, Probe, ProbeError,
};
use brainstorm::naming::valid_animus_name;
use brainstorm::protocol::{Action, Exchange, Outcome, Report};

fn members(list: &[&str]) -> Vec<String> {
    list.iter().map(|s| s.to_string()).collect()
}

fn replied(outcome: Outcome) -> Exchange {
    Exchange::Replied(Report { name: "A".to_string(), action: "Status".to_string(), outcome })
}

#[test]
fn gate_passes_when_all_ready() {
    let m = members(&["a", "b", "c"]);
    let probes = vec![Probe::Ready, Probe::Ready, Probe::Ready];
    assert!(matches!(gate_verdict(&m, &probes), GateVerdict::Passed));
}

#[test]
fn gate_passes_for_an_empty_group() {
    assert!(matches!(gate_verdict(&Vec::new(), &Vec::new()), GateVerdict::Passed));
}

#[test]
fn gate_asks_for_the_next_member_in_order() {
    let m = members(&["a", "b", "c"]);
    assert!(matches!(gate_verdict(&m, &Vec::new()), GateVerdict::Pending(0)));
    assert!(matches!(gate_verdict(&m, &vec![Probe::Ready]), GateVerdict::Pending(1)));
}

#[test]
fn gate_fails_at_the_first_inactive_member() {
    let m = members(&["a", "b", "c", "d"]);
    let probes = vec![Probe::Ready, Probe::Ready, Probe::Inactive];
    match gate_verdict(&m, &probes) {
        GateVerdict::Failed { index, animus, probe } => {
            assert_eq!(index, 2);
            assert_eq!(animus, "c");
            assert!(matches!(probe, Probe::Inactive));
        }
        other => panic!("unexpected verdict {:?}", other),
    }
}

#[test]
fn gate_reports_the_earliest_failure() {
    let m = members(&["a", "b", "c"]);
    let probes = vec![Probe::Ready, Probe::Awake, Probe::Inactive];
    match gate_verdict(&m, &probes) {
        GateVerdict::Failed { index, animus, probe } => {
            assert_eq!(index, 1);
            assert_eq!(animus, "b");
            assert!(matches!(probe, Probe::Awake));
        }
        other => panic!("unexpected verdict {:?}", other),
    }
}

#[test]
fn gate_fails_on_a_faulted_probe() {
    let m = members(&["a"]);
    match gate_verdict(&m, &vec![Probe::Faulted(ProbeError::NoResponse)]) {
        GateVerdict::Failed { index, probe, .. } => {
            assert_eq!(index, 0);
            assert!(matches!(probe, Probe::Faulted(ProbeError::NoResponse)));
        }
        other => panic!("unexpected verdict {:?}", other),
    }
}

#[test]
fn liveness_query_checks_the_name() {
    let c = liveness_query("animus_01").unwrap();
    assert_eq!(c.target, "animus_01");
    assert!(matches!(c.action, Action::Query));
    match liveness_query("bad name") {
        Err(ProbeError::InvalidName(n)) => assert_eq!(n, "bad name"),
        other => panic!("unexpected {:?}", other),
    }
}

#[test]
fn animus_names_follow_the_rule() {
    assert!(valid_animus_name("Abc_09"));
    assert!(!valid_animus_name(""));
    assert!(!valid_animus_name("a-b"));
    assert!(!valid_animus_name("a\n"));
    assert!(!valid_animus_name("é"));
}

#[test]
fn liveness_reads_success_as_active() {
    assert!(matches!(liveness_from_reply(&replied(Outcome::Success)), Ok(true)));
    assert!(matches!(liveness_from_reply(&replied(Outcome::Failure("no".to_string()))), Ok(false)));
    assert!(matches!(liveness_from_reply(&Exchange::ReadFailed("timeout".to_string())), Ok(false)));
    assert!(matches!(liveness_from_reply(&Exchange::SendFailed("down".to_string())), Err(ProbeError::SendFailed)));
}

#[test]
fn wakefulness_reads_the_returned_flag() {
    assert!(matches!(wakefulness_from_reply(&replied(Outcome::Return(vec![1]))), Ok(true)));
    assert!(matches!(wakefulness_from_reply(&replied(Outcome::Return(vec![0, 7]))), Ok(false)));
    assert!(matches!(
        wakefulness_from_reply(&replied(Outcome::Return(vec![2]))),
        Err(ProbeError::UndecodablePayload)
    ));
    assert!(matches!(wakefulness_from_reply(&replied(Outcome::Return(vec![]))), Err(ProbeError::UndecodablePayload)));
    assert!(matches!(wakefulness_from_reply(&replied(Outcome::Success)), Err(ProbeError::ProtocolViolation)));
    assert!(matches!(wakefulness_from_reply(&replied(Outcome::Unrecognized)), Err(ProbeError::ProtocolViolation)));
    assert!(matches!(wakefulness_from_reply(&Exchange::ReadFailed("t".to_string())), Err(ProbeError::NoResponse)));
    assert!(matches!(wakefulness_from_reply(&Exchange::SendFailed("t".to_string())), Err(ProbeError::SendFailed)));
}

#[test]
fn probes_combine_liveness_and_wakefulness() {
    assert!(after_liveness(Ok(true)).is_none());
    assert!(matches!(after_liveness(Ok(false)), Some(Probe::Inactive)));
    assert!(matches!(after_liveness(Err(ProbeError::SendFailed)), Some(Probe::Faulted(ProbeError::SendFailed))));
    assert!(matches!(after_wakefulness(Ok(false)), Probe::Ready));
    assert!(matches!(after_wakefulness(Ok(true)), Probe::Awake));
    assert!(matches!(after_wakefulness(Err(ProbeError::NoResponse)), Probe::Faulted(ProbeError::NoResponse)));
}
