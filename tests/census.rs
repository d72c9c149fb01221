use brainstorm::census::{census_request, receivers_from_pairs, AutoLinkError, Stage, TractCensus, INPUTS_NOTE, OUTPUTS_NOTE};
use brainstorm::protocol::{Action, Exchange, Outcome, ReceiverInfo, Report};

fn info(tract: &str, address: &str) -> ReceiverInfo {
    ReceiverInfo::new(tract.to_string(), address.to_string())
}

fn names(list: &[&str]) -> Vec<String> {
    list.iter().map(|s| s.to_string()).collect()
}

fn replied(outcome: Outcome) -> Exchange {
    Exchange::Replied(Report { name: "A".to_string(), action: "ReportInputs".to_string(), outcome })
}

/// Sends every planned link successfully and settles it, as a run does.
fn run_links(census: &mut TractCensus) -> Vec<(String, String)> {
    let mut sent = Vec::new();
    for command in census.link_commands() {
        match command.action {
            Action::LinkOutput(info) => {
                sent.push((command.target.clone(), info.tract_name.clone()));
                census.settle_link(&info.tract_name);
            }
            other => panic!("unexpected action {:?}", other),
        }
    }
    sent
}

#[test]
fn matched_pair_links_once_and_leaves_nothing() {
    let mut census = TractCensus::new();
    census.add_outputs("A", &names(&["out1"]));
    census.add_inputs("B", &vec![info("out1", "10.0.0.2:7000")]);
    let commands = census.link_commands();
    assert_eq!(commands.len(), 1);
    assert_eq!(commands[0].target, "A");
    match &commands[0].action {
        Action::LinkOutput(i) => {
            assert_eq!(i.tract_name, "out1");
            assert_eq!(i.address, "10.0.0.2:7000");
        }
        other => panic!("unexpected action {:?}", other),
    }
    let sent = run_links(&mut census);
    assert_eq!(sent, vec![("A".to_string(), "out1".to_string())]);
    assert!(census.leftover_lines().is_empty());
    assert!(census.fault().is_none());
}

#[test]
fn unmatched_output_is_reported_alone() {
    let mut census = TractCensus::new();
    census.add_outputs("A", &names(&["out1", "out2"]));
    census.add_inputs("B", &vec![info("out1", "10.0.0.2:7000")]);
    let sent = run_links(&mut census);
    assert_eq!(sent, vec![("A".to_string(), "out1".to_string())]);
    assert_eq!(census.leftover_lines(), vec![OUTPUTS_NOTE.to_string(), "A: out2".to_string()]);
}

#[test]
fn unmatched_input_is_reported_under_inputs() {
    let mut census = TractCensus::new();
    census.add_outputs("A", &names(&["out1"]));
    census.add_inputs("B", &vec![info("out1", "x"), info("in9", "y")]);
    run_links(&mut census);
    assert_eq!(census.leftover_lines(), vec![INPUTS_NOTE.to_string(), "B: in9".to_string()]);
}

#[test]
fn leftovers_of_both_kinds_come_outputs_first() {
    let mut census = TractCensus::new();
    census.add_outputs("A", &names(&["o"]));
    census.add_inputs("B", &vec![info("i", "y")]);
    assert!(census.link_commands().is_empty());
    assert_eq!(
        census.leftover_lines(),
        vec![OUTPUTS_NOTE.to_string(), "A: o".to_string(), INPUTS_NOTE.to_string(), "B: i".to_string()]
    );
}

#[test]
fn duplicate_input_across_animi_plans_no_links() {
    let mut census = TractCensus::new();
    census.add_inputs("A", &vec![info("x", "a:1"), info("y", "a:2")]);
    census.add_outputs("A", &names(&["y"]));
    census.add_inputs("B", &vec![info("x", "b:1")]);
    census.add_outputs("B", &names(&["z"]));
    match census.fault() {
        Some(AutoLinkError::DuplicateInput { tract }) => assert_eq!(tract, "x"),
        other => panic!("unexpected fault {:?}", other),
    }
    assert!(census.link_commands().is_empty());
    assert!(census.leftover_lines().is_empty());
}

#[test]
fn duplicate_output_within_one_animus_aborts() {
    let mut census = TractCensus::new();
    census.add_outputs("A", &names(&["o", "p", "o"]));
    match census.fault() {
        Some(AutoLinkError::DuplicateOutput { tract }) => assert_eq!(tract, "o"),
        other => panic!("unexpected fault {:?}", other),
    }
    census.add_outputs("B", &names(&["q"]));
    census.add_inputs("C", &vec![info("q", "c:1")]);
    assert!(census.link_commands().is_empty());
}

#[test]
fn the_first_fault_is_kept() {
    let mut census = TractCensus::new();
    census.absorb_reply("A", Stage::Inputs, &Exchange::SendFailed("down".to_string()));
    census.absorb_reply("B", Stage::Outputs, &Exchange::ReadFailed("timeout".to_string()));
    match census.fault() {
        Some(AutoLinkError::SendFailed { animus, stage }) => {
            assert_eq!(animus, "A");
            assert_eq!(stage, Stage::Inputs);
        }
        other => panic!("unexpected fault {:?}", other),
    }
}

#[test]
fn missing_report_is_a_fault() {
    let mut census = TractCensus::new();
    census.absorb_reply("A", Stage::Outputs, &Exchange::ReadFailed("timeout".to_string()));
    match census.fault() {
        Some(AutoLinkError::NoResponse { animus, stage }) => {
            assert_eq!(animus, "A");
            assert_eq!(stage, Stage::Outputs);
        }
        other => panic!("unexpected fault {:?}", other),
    }
}

#[test]
fn success_outcome_to_a_census_request_violates_protocol() {
    let mut census = TractCensus::new();
    census.absorb_reply("A", Stage::Inputs, &replied(Outcome::Success));
    match census.fault() {
        Some(AutoLinkError::ProtocolViolation { animus, stage }) => {
            assert_eq!(animus, "A");
            assert_eq!(stage, Stage::Inputs);
        }
        other => panic!("unexpected fault {:?}", other),
    }
}

#[test]
fn undecodable_payload_is_a_fault() {
    let mut census = TractCensus::new();
    census.absorb_reply("A", Stage::Outputs, &replied(Outcome::Return(vec![9, 0, 0])));
    match census.fault() {
        Some(AutoLinkError::UndecodablePayload { animus, stage }) => {
            assert_eq!(animus, "A");
            assert_eq!(stage, Stage::Outputs);
        }
        other => panic!("unexpected fault {:?}", other),
    }
}

#[test]
fn decoded_replies_feed_the_census() {
    let inputs: Vec<(String, String)> = vec![("t1".to_string(), "10.0.0.2:7000".to_string())];
    let outputs: Vec<String> = vec!["t1".to_string(), "t2".to_string()];
    let mut census = TractCensus::new();
    census.absorb_reply("B", Stage::Inputs, &replied(Outcome::Return(bincode::serialize(&inputs).unwrap())));
    census.absorb_reply("A", Stage::Outputs, &replied(Outcome::Return(bincode::serialize(&outputs).unwrap())));
    assert!(census.fault().is_none());
    let commands = census.link_commands();
    assert_eq!(commands.len(), 1);
    assert_eq!(commands[0].target, "A");
    match &commands[0].action {
        Action::LinkOutput(i) => {
            assert_eq!(i.tract_name, "t1");
            assert_eq!(i.address, "10.0.0.2:7000");
        }
        other => panic!("unexpected action {:?}", other),
    }
    run_links(&mut census);
    assert_eq!(census.leftover_lines(), vec![OUTPUTS_NOTE.to_string(), "A: t2".to_string()]);
}

#[test]
fn census_requests_ask_for_inputs_then_outputs() {
    let c = census_request("A", Stage::Inputs);
    assert_eq!(c.target, "A");
    assert!(matches!(c.action, Action::ReportInputs));
    let c = census_request("A", Stage::Outputs);
    assert!(matches!(c.action, Action::ListOutputs));
}

#[test]
fn pairs_become_receivers() {
    let r = receivers_from_pairs(&vec![("a".to_string(), "b".to_string())]);
    assert_eq!(r.len(), 1);
    assert_eq!(r[0].tract_name, "a");
    assert_eq!(r[0].address, "b");
}

#[test]
fn settling_an_unknown_tract_changes_nothing() {
    let mut census = TractCensus::new();
    census.add_outputs("A", &names(&["o"]));
    census.settle_link(&"zz".to_string());
    assert_eq!(census.leftover_lines(), vec![OUTPUTS_NOTE.to_string(), "A: o".to_string()]);
}
