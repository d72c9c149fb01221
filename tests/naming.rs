use brainstorm::naming::name_confirmation;

#[test]
fn confirmation_answers() {
    assert_eq!(name_confirmation("Y"), Some(true));
    assert_eq!(name_confirmation("y"), Some(true));
    assert_eq!(name_confirmation(""), Some(true));
    assert_eq!(name_confirmation("N"), Some(false));
    assert_eq!(name_confirmation("n"), Some(false));
    assert_eq!(name_confirmation("yes"), None);
}
