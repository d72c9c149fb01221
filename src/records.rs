//! The records of animi, groups and saved networks: where they are kept,
//! and whether one is present among the names a directory lists.

use vstd::prelude::*;
use crate::codec::string_views;

verus! {

pub const ANIMI_DIR: &'static str = "~/.cajal/animi/";

pub const GROUPS_DIR: &'static str = "~/.cajal/animi/groups/";

pub const REMOTE_DIR: &'static str = "~/.cajal/animi/remote/";

pub const SAVED_DIR: &'static str = "~/.cajal/saved/";

pub const NETWORK_EXTENSION: &'static str = ".nn";

fn joined(dir: &str, name: &str) -> (r: String)
    ensures
        r@ == dir@ + name@,
{
    let mut r = dir.to_string();
    r.append(name);
    r
}

/// The directory dedicated to an animus.
pub fn animus_dir(animus_name: &str) -> (r: String)
    ensures
        r@ == ANIMI_DIR@ + animus_name@,
{
    joined(ANIMI_DIR, animus_name)
}

/// The membership file of a group.
pub fn group_path(group_name: &str) -> (r: String)
    ensures
        r@ == GROUPS_DIR@ + group_name@,
{
    joined(GROUPS_DIR, group_name)
}

/// The record of an animus that runs on another device.
pub fn remote_animus_path(name: &str) -> (r: String)
    ensures
        r@ == REMOTE_DIR@ + name@,
{
    joined(REMOTE_DIR, name)
}

/// The file of a saved network.
pub fn network_path(network_name: &str) -> (r: String)
    ensures
        r@ == SAVED_DIR@ + network_name@ + NETWORK_EXTENSION@,
{
    let mut r = joined(SAVED_DIR, network_name);
    r.append(NETWORK_EXTENSION);
    r
}

/// Whether a file name is that of a saved network: it ends in the network
/// extension.
pub fn is_network_file(name: &str) -> (r: bool)
    ensures
        r == (name@.len() >= NETWORK_EXTENSION@.len() && name@.subrange(
            name@.len() - NETWORK_EXTENSION@.len(),
            name@.len() as int,
        ) == NETWORK_EXTENSION@),
{
    let n = name.unicode_len();
    let e = NETWORK_EXTENSION.unicode_len();
    if n < e {
        return false;
    }
    let tail = name.substring_char(n - e, n).to_string();
    let ext = NETWORK_EXTENSION.to_string();
    tail == ext
}

fn listed(entries: &Vec<String>, name: &str) -> (r: bool)
    ensures
        r == string_views(entries@).contains(name@),
{
    let target = name.to_string();
    let mut j: usize = 0;
    while j < entries.len()
        invariant
            0 <= j <= entries@.len(),
            target@ == name@,
            forall|k: int| 0 <= k < j ==> entries@[k]@ != name@,
        decreases entries@.len() - j,
    {
        if entries[j] == target {
            assert(string_views(entries@)[j as int] == name@);
            return true;
        }
        j += 1;
    }
    proof {
        if string_views(entries@).contains(name@) {
            let k = choose|k: int|
                0 <= k < entries@.len() && string_views(entries@)[k] == name@;
            assert(entries@[k]@ == name@);
        }
    }
    false
}

/// Whether an animus has a record, given the names listed in the animi
/// directory.
pub fn animus_exists(entries: &Vec<String>, animus_name: &str) -> (r: bool)
    ensures
        r == string_views(entries@).contains(animus_name@),
{
    listed(entries, animus_name)
}

/// Whether a group has a membership file, given the names listed in the
/// groups directory.
pub fn group_exists(entries: &Vec<String>, group_name: &str) -> (r: bool)
    ensures
        r == string_views(entries@).contains(group_name@),
{
    listed(entries, group_name)
}

/// Whether a network is saved, given the names listed in the saved
/// networks directory.
pub fn network_exists(entries: &Vec<String>, network_name: &str) -> (r: bool)
    ensures
        r == string_views(entries@).contains(network_name@),
{
    listed(entries, network_name)
}

} // verus!
