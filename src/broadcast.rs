//! Sending one action to every member of a group, member after member,
//! whatever happens to the others.

use vstd::prelude::*;
use crate::codec::string_views;
use crate::protocol::{Action, Command, Exchange};

verus! {

/// The commands of a broadcast: `action` addressed to each member, in group
/// order.
pub fn broadcast_commands(members: &Vec<String>, action: &Action) -> (r: Vec<Command>)
    ensures
        r@.len() == members@.len(),
        forall|k: int|
            0 <= k < r@.len() ==> (#[trigger] r@[k]).target@ == members@[k]@ && r@[k].action
                == *action,
{
    let mut out: Vec<Command> = Vec::new();
    let mut i: usize = 0;
    while i < members.len()
        invariant
            0 <= i <= members@.len(),
            out@.len() == i,
            forall|k: int|
                0 <= k < i ==> (#[trigger] out@[k]).target@ == members@[k]@ && out@[k].action
                    == *action,
        decreases members@.len() - i,
    {
        out.push(Command::new(members[i].as_str(), action.duplicate()));
        i += 1;
    }
    out
}

/// A member for which a broadcast went wrong.
#[derive(Debug)]
pub enum MemberFault {
    /// The command could not be encoded or sent.
    NotSent(String),
    /// The command was sent but no readable report came back.
    NoReport(String),
}

impl View for MemberFault {
    /// The member, and whether it was the send that failed.
    type V = (Seq<char>, bool);

    open spec fn view(&self) -> (Seq<char>, bool) {
        match self {
            MemberFault::NotSent(a) => (a@, true),
            MemberFault::NoReport(a) => (a@, false),
        }
    }
}

/// The fault of the member `animus` whose exchange was `reply`, if any.
pub open spec fn fault_of(animus: Seq<char>, reply: Exchange) -> Seq<(Seq<char>, bool)> {
    match reply {
        Exchange::SendFailed(_) => seq![(animus, true)],
        Exchange::ReadFailed(_) => seq![(animus, false)],
        Exchange::Replied(_) => seq![],
    }
}

/// The faults among the first `n` members, in group order.
pub open spec fn faults_upto(names: Seq<Seq<char>>, replies: Seq<Exchange>, n: int) -> Seq<
    (Seq<char>, bool),
>
    decreases n,
{
    if n <= 0 {
        seq![]
    } else {
        faults_upto(names, replies, n - 1) + fault_of(names[n - 1], replies[n - 1])
    }
}

pub open spec fn fault_views(v: Seq<MemberFault>) -> Seq<(Seq<char>, bool)> {
    v.map_values(|f: MemberFault| f@)
}

/// The per-member faults of a broadcast, where `replies[i]` is the exchange
/// with `members[i]`: one for each member whose send failed or whose report
/// never came, in group order, and none for the others.
pub fn broadcast_faults(members: &Vec<String>, replies: &Vec<Exchange>) -> (r: Vec<MemberFault>)
    requires
        replies@.len() == members@.len(),
    ensures
        fault_views(r@) == faults_upto(
            string_views(members@),
            replies@,
            members@.len() as int,
        ),
{
    let ghost names = string_views(members@);
    let mut out: Vec<MemberFault> = Vec::new();
    let mut i: usize = 0;
    while i < members.len()
        invariant
            0 <= i <= members@.len(),
            replies@.len() == members@.len(),
            names == string_views(members@),
            fault_views(out@) == faults_upto(names, replies@, i as int),
        decreases members@.len() - i,
    {
        let ghost before = out@;
        match &replies[i] {
            Exchange::SendFailed(_) => {
                out.push(MemberFault::NotSent(members[i].clone()));
                assert(fault_views(out@) =~= fault_views(before) + fault_of(
                    names[i as int],
                    replies@[i as int],
                ));
            },
            Exchange::ReadFailed(_) => {
                out.push(MemberFault::NoReport(members[i].clone()));
                assert(fault_views(out@) =~= fault_views(before) + fault_of(
                    names[i as int],
                    replies@[i as int],
                ));
            },
            Exchange::Replied(_) => {
                assert(fault_views(out@) =~= fault_views(before) + fault_of(
                    names[i as int],
                    replies@[i as int],
                ));
            },
        }
        i += 1;
    }
    out
}

} // verus!

verus! {

proof fn lemma_faults_single(names: Seq<Seq<char>>, replies: Seq<Exchange>, j: int, n: int)
    requires
        0 <= j < names.len(),
        replies.len() == names.len(),
        0 <= n <= names.len(),
        replies[j] is SendFailed,
        forall|i: int| 0 <= i < names.len() && i != j ==> (#[trigger] replies[i]) is Replied,
    ensures
        faults_upto(names, replies, n) == if n <= j {
            seq![]
        } else {
            seq![(names[j], true)]
        },
    decreases n,
{
    if n > 0 {
        lemma_faults_single(names, replies, j, n - 1);
        let prev = faults_upto(names, replies, n - 1);
        if n - 1 == j {
            assert(prev + fault_of(names[j], replies[j]) =~= seq![(names[j], true)]);
        } else {
            assert(replies[n - 1] is Replied);
            assert(prev + fault_of(names[n - 1], replies[n - 1]) =~= prev);
        }
    }
}

/// A member whose send fails does not stop the broadcast: every member gets
/// its command (see `broadcast_commands`), and when the send to member `j`
/// fails while every other member answers, exactly one fault is reported,
/// for member `j`.
pub proof fn lemma_one_failed_send_one_fault(
    names: Seq<Seq<char>>,
    replies: Seq<Exchange>,
    j: int,
)
    requires
        0 <= j < names.len(),
        replies.len() == names.len(),
        replies[j] is SendFailed,
        forall|i: int| 0 <= i < names.len() && i != j ==> (#[trigger] replies[i]) is Replied,
    ensures
        faults_upto(names, replies, names.len() as int) == seq![(names[j], true)],
{
    lemma_faults_single(names, replies, j, names.len() as int);
}

} // verus!
