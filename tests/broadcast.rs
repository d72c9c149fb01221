use brainstorm::broadcast::{broadcast_commands, broadcast_faults, MemberFault};
use brainstorm::protocol::{Action, Exchange, Outcome, Report};

fn names(list: &[&str]) -> Vec<String> {
    list.iter().map(|s| s.to_string()).collect()
}

fn answered(name: &str) -> Exchange {
    Exchange::Replied(Report { name: name.to_string(), action: "Wake".to_string(), outcome: Outcome::Success })
}

#[test]
fn every_member_gets_the_action() {
    let m = names(&["a", "b", "c"]);
    let commands = broadcast_commands(&m, &Action::Wake);
    assert_eq!(commands.len(), 3);
    for (c, name) in commands.iter().zip(m.iter()) {
        assert_eq!(&c.target, name);
        assert!(matches!(c.action, Action::Wake));
    }
}

#[test]
fn one_failed_send_gives_one_fault() {
    let m = names(&["a", "b", "c"]);
    let replies = vec![answered("a"), Exchange::SendFailed("refused".to_string()), answered("c")];
    let faults = broadcast_faults(&m, &replies);
    assert_eq!(faults.len(), 1);
    match &faults[0] {
        MemberFault::NotSent(n) => assert_eq!(n, "b"),
        other => panic!("unexpected {:?}", other),
    }
}

#[test]
fn send_and_response_faults_are_told_apart() {
    let m = names(&["a", "b"]);
    let replies = vec![Exchange::ReadFailed("timeout".to_string()), Exchange::SendFailed("x".to_string())];
    let faults = broadcast_faults(&m, &replies);
    assert_eq!(faults.len(), 2);
    assert!(matches!(&faults[0], MemberFault::NoReport(n) if n == "a"));
    assert!(matches!(&faults[1], MemberFault::NotSent(n) if n == "b"));
}
