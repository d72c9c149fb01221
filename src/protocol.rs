//! The command vocabulary exchanged with an animus, and what comes back.

use vstd::prelude::*;

verus! {

/// One input port ("tract") of an animus and the endpoint that a linked
/// sender should direct its output to.
#[derive(Debug)]
pub struct ReceiverInfo {
    pub tract_name: String,
    pub address: String,
}

impl View for ReceiverInfo {
    type V = (Seq<char>, Seq<char>);

    open spec fn view(&self) -> (Seq<char>, Seq<char>) {
        (self.tract_name@, self.address@)
    }
}

impl ReceiverInfo {
    pub fn new(tract_name: String, address: String) -> (r: Self)
        ensures
            r.tract_name == tract_name,
            r.address == address,
    {
        ReceiverInfo { tract_name, address }
    }

    /// A copy with equal fields.
    pub fn duplicate(&self) -> (r: Self)
        ensures
            r == *self,
    {
        ReceiverInfo { tract_name: self.tract_name.clone(), address: self.address.clone() }
    }
}

/// The closed set of actions an animus accepts.
#[derive(Debug)]
pub enum Action {
    Name,
    Version,
    ListStructures,
    ListInputs,
    ListOutputs,
    ReportInputs,
    Wake,
    Sleep,
    Status,
    Terminate,
    Save,
    Query,
    LinkOutput(ReceiverInfo),
    UncheckedLink(String, String),
}

impl Action {
    /// A copy with equal payload.
    pub fn duplicate(&self) -> (r: Self)
        ensures
            r == *self,
    {
        match self {
            Action::Name => Action::Name,
            Action::Version => Action::Version,
            Action::ListStructures => Action::ListStructures,
            Action::ListInputs => Action::ListInputs,
            Action::ListOutputs => Action::ListOutputs,
            Action::ReportInputs => Action::ReportInputs,
            Action::Wake => Action::Wake,
            Action::Sleep => Action::Sleep,
            Action::Status => Action::Status,
            Action::Terminate => Action::Terminate,
            Action::Save => Action::Save,
            Action::Query => Action::Query,
            Action::LinkOutput(info) => Action::LinkOutput(info.duplicate()),
            Action::UncheckedLink(t, a) => Action::UncheckedLink(t.clone(), a.clone()),
        }
    }
}

/// An action addressed to a named animus.
#[derive(Debug)]
pub struct Command {
    pub target: String,
    pub action: Action,
}

impl Command {
    pub fn new(target: &str, action: Action) -> (r: Self)
        ensures
            r.target@ == target@,
            r.action == action,
    {
        Command { target: target.to_string(), action }
    }
}

/// How an animus answered an action.
#[derive(Debug)]
pub enum Outcome {
    Success,
    /// An encoded payload whose type depends on the action.
    Return(Vec<u8>),
    Failure(String),
    /// A variant this library does not know: a protocol violation.
    Unrecognized,
}

/// The response of an animus to one action.
#[derive(Debug)]
pub struct Report {
    pub name: String,
    pub action: String,
    pub outcome: Outcome,
}

/// The result of one exchange on the transport: one send, then one read.
#[derive(Debug)]
pub enum Exchange {
    /// The command could not be encoded or sent.
    SendFailed(String),
    /// Nothing readable came back (timeout, I/O error, undecodable report).
    ReadFailed(String),
    Replied(Report),
}

} // verus!
