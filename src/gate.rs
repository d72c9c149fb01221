//! The liveness and wakefulness probes of an animus, and the readiness gate
//! that every member of a group must pass before its tracts are linked.

use vstd::prelude::*;
use crate::codec::{bincode_flag, decode_flag};
use crate::naming::{is_valid_animus_name, valid_animus_name};
use crate::protocol::{Action, Command, Exchange, Outcome};

verus! {

/// Why a probe could not tell the state of an animus.
#[derive(Debug)]
pub enum ProbeError {
    /// The name does not fit the naming rule; nothing was sent.
    InvalidName(String),
    /// The command could not be encoded or sent.
    SendFailed,
    /// No readable report came back.
    NoResponse,
    /// The report carried an outcome that the action does not give.
    ProtocolViolation,
    /// The returned payload did not decode.
    UndecodablePayload,
}

impl ProbeError {
    pub fn duplicate(&self) -> (r: Self)
        ensures
            r == *self,
    {
        match self {
            ProbeError::InvalidName(n) => ProbeError::InvalidName(n.clone()),
            ProbeError::SendFailed => ProbeError::SendFailed,
            ProbeError::NoResponse => ProbeError::NoResponse,
            ProbeError::ProtocolViolation => ProbeError::ProtocolViolation,
            ProbeError::UndecodablePayload => ProbeError::UndecodablePayload,
        }
    }
}

/// The query that tells whether `animus` is active: `Action::Query`
/// addressed to it, once its name is known to be well formed.
pub fn liveness_query(animus: &str) -> (r: Result<Command, ProbeError>)
    ensures
        match r {
            Ok(c) => is_valid_animus_name(animus@) && c.target@ == animus@ && c.action
                is Query,
            Err(e) => !is_valid_animus_name(animus@) && (e matches ProbeError::InvalidName(n)
                && n@ == animus@),
        },
{
    if valid_animus_name(animus) {
        Ok(Command::new(animus, Action::Query))
    } else {
        Err(ProbeError::InvalidName(animus.to_string()))
    }
}

/// Whether the animus is active, from its reply to the liveness query: a
/// success outcome means active; no reply, or any other outcome, means
/// inactive. Only a failed send is an error.
pub fn liveness_from_reply(reply: &Exchange) -> (r: Result<bool, ProbeError>)
    ensures
        match reply {
            Exchange::SendFailed(_) => r matches Err(ProbeError::SendFailed),
            Exchange::ReadFailed(_) => r == Ok::<bool, ProbeError>(false),
            Exchange::Replied(report) => r == Ok::<bool, ProbeError>(report.outcome is Success),
        },
{
    match reply {
        Exchange::SendFailed(_) => Err(ProbeError::SendFailed),
        Exchange::ReadFailed(_) => Ok(false),
        Exchange::Replied(report) => match report.outcome {
            Outcome::Success => Ok(true),
            _ => Ok(false),
        },
    }
}

/// Whether the animus is processing inputs, from its reply to
/// `Action::Status`: the returned payload holds the flag. Every other
/// answer is an error.
pub fn wakefulness_from_reply(reply: &Exchange) -> (r: Result<bool, ProbeError>)
    ensures
        match reply {
            Exchange::SendFailed(_) => r matches Err(ProbeError::SendFailed),
            Exchange::ReadFailed(_) => r matches Err(ProbeError::NoResponse),
            Exchange::Replied(report) => match report.outcome {
                Outcome::Return(bytes) => match bincode_flag(bytes@) {
                    Some(awake) => r == Ok::<bool, ProbeError>(awake),
                    None => r matches Err(ProbeError::UndecodablePayload),
                },
                _ => r matches Err(ProbeError::ProtocolViolation),
            },
        },
{
    match reply {
        Exchange::SendFailed(_) => Err(ProbeError::SendFailed),
        Exchange::ReadFailed(_) => Err(ProbeError::NoResponse),
        Exchange::Replied(report) => match &report.outcome {
            Outcome::Return(bytes) => match decode_flag(bytes) {
                Some(awake) => Ok(awake),
                None => Err(ProbeError::UndecodablePayload),
            },
            _ => Err(ProbeError::ProtocolViolation),
        },
    }
}

/// What the probes found out about one member.
#[derive(Debug)]
pub enum Probe {
    /// Active and asleep.
    Ready,
    Inactive,
    /// Active and processing inputs.
    Awake,
    Faulted(ProbeError),
}

impl Probe {
    pub fn duplicate(&self) -> (r: Self)
        ensures
            r == *self,
    {
        match self {
            Probe::Ready => Probe::Ready,
            Probe::Inactive => Probe::Inactive,
            Probe::Awake => Probe::Awake,
            Probe::Faulted(e) => Probe::Faulted(e.duplicate()),
        }
    }
}

/// The probe of a member once its liveness is known: `None` when it is
/// active, and its wakefulness must be asked next.
pub fn after_liveness(liveness: Result<bool, ProbeError>) -> (r: Option<Probe>)
    ensures
        match liveness {
            Ok(true) => r is None,
            Ok(false) => r == Some(Probe::Inactive),
            Err(e) => r == Some(Probe::Faulted(e)),
        },
{
    match liveness {
        Ok(true) => None,
        Ok(false) => Some(Probe::Inactive),
        Err(e) => Some(Probe::Faulted(e)),
    }
}

/// The probe of an active member once its wakefulness is known.
pub fn after_wakefulness(wakefulness: Result<bool, ProbeError>) -> (r: Probe)
    ensures
        match wakefulness {
            Ok(true) => r == Probe::Awake,
            Ok(false) => r == Probe::Ready,
            Err(e) => r == Probe::Faulted(e),
        },
{
    match wakefulness {
        Ok(true) => Probe::Awake,
        Ok(false) => Probe::Ready,
        Err(e) => Probe::Faulted(e),
    }
}

/// The first `n` probes all found their member ready.
pub open spec fn ready_upto(probes: Seq<Probe>, n: int) -> bool {
    forall|i: int| 0 <= i < n ==> (#[trigger] probes[i]) is Ready
}

/// Where the readiness gate stands after the probes made so far.
#[derive(Debug)]
pub enum GateVerdict {
    /// Every member probed so far is ready; the member at this index is next.
    Pending(usize),
    /// Every member is ready.
    Passed,
    /// The member at `index`, the first in group order that is not ready.
    Failed { index: usize, animus: String, probe: Probe },
}

/// The readiness gate. `probes[i]` is what was found of `members[i]`.
/// Members are asked in group order, one after the other, while the
/// verdict is pending. The verdict is `Passed` once every member is ready,
/// and `Failed` at the first member, in group order, that is not.
pub fn gate_verdict(members: &Vec<String>, probes: &Vec<Probe>) -> (r: GateVerdict)
    requires
        probes@.len() <= members@.len(),
    ensures
        (r is Passed) <==> (ready_upto(probes@, probes@.len() as int) && probes@.len()
            == members@.len()),
        (r is Pending) <==> (ready_upto(probes@, probes@.len() as int) && probes@.len()
            < members@.len()),
        r matches GateVerdict::Pending(next) ==> next == probes@.len(),
        r matches GateVerdict::Failed { index, animus, probe } ==> {
            &&& index < probes@.len()
            &&& ready_upto(probes@, index as int)
            &&& !(probes@[index as int] is Ready)
            &&& animus@ == members@[index as int]@
            &&& probe == probes@[index as int]
        },
{
    let mut i: usize = 0;
    while i < probes.len()
        invariant
            0 <= i <= probes@.len(),
            probes@.len() <= members@.len(),
            ready_upto(probes@, i as int),
        decreases probes@.len() - i,
    {
        match &probes[i] {
            Probe::Ready => {},
            _ => {
                assert(!ready_upto(probes@, probes@.len() as int));
                return GateVerdict::Failed {
                    index: i,
                    animus: members[i].clone(),
                    probe: probes[i].duplicate(),
                };
            },
        }
        i += 1;
    }
    if probes.len() == members.len() {
        GateVerdict::Passed
    } else {
        GateVerdict::Pending(probes.len())
    }
}

} // verus!
