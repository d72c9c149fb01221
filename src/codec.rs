//! Decoding of the payloads that an animus returns inside a report.

use vstd::prelude::*;

verus! {

/// What bincode makes of `b` when asked for a list of string pairs.
pub uninterp spec fn bincode_string_pairs(b: Seq<u8>) -> Option<Seq<(Seq<char>, Seq<char>)>>;

/// What bincode makes of `b` when asked for a list of strings.
pub uninterp spec fn bincode_strings(b: Seq<u8>) -> Option<Seq<Seq<char>>>;

pub open spec fn pair_views(v: Seq<(String, String)>) -> Seq<(Seq<char>, Seq<char>)> {
    v.map_values(|p: (String, String)| (p.0@, p.1@))
}

pub open spec fn string_views(v: Seq<String>) -> Seq<Seq<char>> {
    v.map_values(|s: String| s@)
}

/// Relies on `bincode::deserialize::<Vec<(String, String)>>` (bincode 1.x):
/// the decoded list, or `None` when the bytes do not hold one. The result
/// depends on the bytes alone.
#[verifier::external_body]
pub(crate) fn decode_string_pairs(bytes: &Vec<u8>) -> (r: Option<Vec<(String, String)>>)
    ensures
        match r {
            Some(v) => bincode_string_pairs(bytes@) == Some(pair_views(v@)),
            None => bincode_string_pairs(bytes@) is None,
        },
{
    bincode::deserialize::<Vec<(String, String)>>(bytes).ok()
}

/// Relies on `bincode::deserialize::<Vec<String>>` (bincode 1.x): the
/// decoded list, or `None` when the bytes do not hold one. The result
/// depends on the bytes alone.
#[verifier::external_body]
pub(crate) fn decode_strings(bytes: &Vec<u8>) -> (r: Option<Vec<String>>)
    ensures
        match r {
            Some(v) => bincode_strings(bytes@) == Some(string_views(v@)),
            None => bincode_strings(bytes@) is None,
        },
{
    bincode::deserialize::<Vec<String>>(bytes).ok()
}

/// The boolean that bincode 1.x reads from `b`: one byte, 0 or 1, with any
/// trailing bytes ignored.
pub open spec fn bincode_flag(b: Seq<u8>) -> Option<bool> {
    if b.len() == 0 {
        None
    } else if b[0] == 0 {
        Some(false)
    } else if b[0] == 1 {
        Some(true)
    } else {
        None
    }
}

/// Relies on `bincode::deserialize::<bool>` (bincode 1.x): it reads one byte,
/// 1 as true and 0 as false, fails on any other byte or on no byte, and
/// allows trailing bytes.
#[verifier::external_body]
pub(crate) fn decode_flag(bytes: &Vec<u8>) -> (r: Option<bool>)
    ensures
        r == bincode_flag(bytes@),
{
    bincode::deserialize::<bool>(bytes).ok()
}

} // verus!
