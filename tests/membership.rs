use brainstorm::membership::{decode_members, encode_members, group_add_animus, group_remove_animus, MembershipError};

fn names(list: &[&str]) -> Vec<String> {
    list.iter().map(|s| s.to_string()).collect()
}

#[test]
fn round_trip_of_several_members() {
    let m = names(&["alpha", "beta", "gamma_2"]);
    let text = encode_members(&m);
    assert_eq!(text, "alpha\nbeta\ngamma_2");
    assert_eq!(decode_members(&text), m);
}

#[test]
fn round_trip_of_no_members() {
    let m: Vec<String> = Vec::new();
    let text = encode_members(&m);
    assert_eq!(text, "");
    assert_eq!(decode_members(&text), m);
}

#[test]
fn round_trip_of_one_member() {
    let m = names(&["solo"]);
    assert_eq!(decode_members(&encode_members(&m)), m);
}

#[test]
fn blank_lines_are_skipped() {
    assert_eq!(decode_members("\n\na\n\nb\n"), names(&["a", "b"]));
    assert!(decode_members("\n\n").is_empty());
}

#[test]
fn adding_appends_a_new_member() {
    let m = names(&["a", "b"]);
    assert_eq!(group_add_animus(&m, "c").unwrap(), names(&["a", "b", "c"]));
    match group_add_animus(&m, "a") {
        Err(MembershipError::AlreadyMember(n)) => assert_eq!(n, "a"),
        other => panic!("unexpected {:?}", other),
    }
}

#[test]
fn removing_drops_the_member() {
    let m = names(&["a", "b", "c"]);
    assert_eq!(group_remove_animus(&m, "b").unwrap(), names(&["a", "c"]));
    match group_remove_animus(&m, "z") {
        Err(MembershipError::NotMember(n)) => assert_eq!(n, "z"),
        other => panic!("unexpected {:?}", other),
    }
}
