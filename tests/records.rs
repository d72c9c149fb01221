use brainstorm::records::{animus_dir, animus_exists, group_exists, group_path, is_network_file, network_exists, network_path, remote_animus_path};

#[test]
fn record_paths() {
    assert_eq!(animus_dir("a1"), "~/.cajal/animi/a1");
    assert_eq!(group_path("g"), "~/.cajal/animi/groups/g");
    assert_eq!(remote_animus_path("r"), "~/.cajal/animi/remote/r");
    assert_eq!(network_path("net"), "~/.cajal/saved/net.nn");
}

#[test]
fn network_files_end_in_nn() {
    assert!(is_network_file("brain.nn"));
    assert!(is_network_file(".nn"));
    assert!(!is_network_file("brain.txt"));
    assert!(!is_network_file("nn"));
}

#[test]
fn records_are_found_among_listed_names() {
    let entries: Vec<String> = vec!["a1".to_string(), "net.nn".to_string(), "g".to_string()];
    assert!(animus_exists(&entries, "a1"));
    assert!(!animus_exists(&entries, "a2"));
    assert!(network_exists(&entries, "net.nn"));
    assert!(!network_exists(&entries, "net"));
    assert!(group_exists(&entries, "g"));
    assert!(!group_exists(&Vec::new(), "g"));
}
