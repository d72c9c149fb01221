//! The tract census of one auto-link run: which animus sends each output
//! tract and which animus receives each input tract, and what to link.

use vstd::prelude::*;
use crate::codec::{
    bincode_string_pairs, bincode_strings, decode_string_pairs, decode_strings, pair_views,
    string_views,
};
use crate::protocol::{Action, Command, Exchange, Outcome, ReceiverInfo};

verus! {

/// The step of the census that an exchange belonged to.
#[derive(Clone, Copy, Debug, PartialEq, Eq, Structural)]
pub enum Stage {
    /// Asking an animus for its input receivers.
    Inputs,
    /// Asking an animus for its output tract names.
    Outputs,
}

/// Why an auto-link run was abandoned.
#[derive(Debug)]
pub enum AutoLinkError {
    SendFailed { animus: String, stage: Stage },
    NoResponse { animus: String, stage: Stage },
    /// The report carried an outcome other than a returned payload.
    ProtocolViolation { animus: String, stage: Stage },
    UndecodablePayload { animus: String, stage: Stage },
    /// Two receivers declare the same input tract.
    DuplicateInput { tract: String },
    /// Two senders declare the same output tract.
    DuplicateOutput { tract: String },
}

/// An `AutoLinkError` with its strings seen as character sequences.
pub enum LinkFault {
    SendFailed(Seq<char>, Stage),
    NoResponse(Seq<char>, Stage),
    ProtocolViolation(Seq<char>, Stage),
    UndecodablePayload(Seq<char>, Stage),
    DuplicateInput(Seq<char>),
    DuplicateOutput(Seq<char>),
}

impl View for AutoLinkError {
    type V = LinkFault;

    open spec fn view(&self) -> LinkFault {
        match self {
            AutoLinkError::SendFailed { animus, stage } => LinkFault::SendFailed(animus@, *stage),
            AutoLinkError::NoResponse { animus, stage } => LinkFault::NoResponse(animus@, *stage),
            AutoLinkError::ProtocolViolation { animus, stage } => LinkFault::ProtocolViolation(
                animus@,
                *stage,
            ),
            AutoLinkError::UndecodablePayload { animus, stage } => LinkFault::UndecodablePayload(
                animus@,
                *stage,
            ),
            AutoLinkError::DuplicateInput { tract } => LinkFault::DuplicateInput(tract@),
            AutoLinkError::DuplicateOutput { tract } => LinkFault::DuplicateOutput(tract@),
        }
    }
}

impl AutoLinkError {
    pub fn duplicate(&self) -> (r: Self)
        ensures
            r@ == self@,
    {
        match self {
            AutoLinkError::SendFailed { animus, stage } => AutoLinkError::SendFailed {
                animus: animus.clone(),
                stage: *stage,
            },
            AutoLinkError::NoResponse { animus, stage } => AutoLinkError::NoResponse {
                animus: animus.clone(),
                stage: *stage,
            },
            AutoLinkError::ProtocolViolation { animus, stage } => AutoLinkError::ProtocolViolation {
                animus: animus.clone(),
                stage: *stage,
            },
            AutoLinkError::UndecodablePayload { animus, stage } => AutoLinkError::UndecodablePayload {
                animus: animus.clone(),
                stage: *stage,
            },
            AutoLinkError::DuplicateInput { tract } => AutoLinkError::DuplicateInput {
                tract: tract.clone(),
            },
            AutoLinkError::DuplicateOutput { tract } => AutoLinkError::DuplicateOutput {
                tract: tract.clone(),
            },
        }
    }
}

/// An output tract and the animus that sends it: (tract, animus).
pub type SenderView = (Seq<char>, Seq<char>);

/// An input receiver and the animus that owns it: (animus, (tract, address)).
pub type ReceiverView = (Seq<char>, (Seq<char>, Seq<char>));

pub open spec fn sender_keys(s: Seq<SenderView>) -> Seq<Seq<char>> {
    s.map_values(|e: SenderView| e.0)
}

pub open spec fn receiver_keys(r: Seq<ReceiverView>) -> Seq<Seq<char>> {
    r.map_values(|e: ReceiverView| e.1.0)
}

/// Whether `names[i]` is already among `keys` or repeats an earlier name.
pub open spec fn clashes(keys: Seq<Seq<char>>, names: Seq<Seq<char>>, i: int) -> bool {
    keys.contains(names[i]) || names.subrange(0, i).contains(names[i])
}

/// None of the first `n` names clashes.
pub open spec fn clash_free(keys: Seq<Seq<char>>, names: Seq<Seq<char>>, n: int) -> bool {
    forall|i: int| 0 <= i < n ==> !#[trigger] clashes(keys, names, i)
}

/// The receiver entries that an animus adds by declaring `infos`.
pub open spec fn owned_by(animus: Seq<char>, infos: Seq<(Seq<char>, Seq<char>)>) -> Seq<ReceiverView> {
    infos.map_values(|i: (Seq<char>, Seq<char>)| (animus, i))
}

pub open spec fn info_views(v: Seq<ReceiverInfo>) -> Seq<(Seq<char>, Seq<char>)> {
    v.map_values(|i: ReceiverInfo| i@)
}

pub open spec fn tract_names(infos: Seq<(Seq<char>, Seq<char>)>) -> Seq<Seq<char>> {
    infos.map_values(|i: (Seq<char>, Seq<char>)| i.0)
}

/// The sender entries that an animus adds by declaring `names`.
pub open spec fn sent_by(animus: Seq<char>, names: Seq<Seq<char>>) -> Seq<SenderView> {
    names.map_values(|t: Seq<char>| (t, animus))
}

/// The receiver declared under `tract`.
pub open spec fn receiver_for(r: Seq<ReceiverView>, tract: Seq<char>) -> (Seq<char>, Seq<char>) {
    r[receiver_keys(r).index_of(tract)].1
}

/// The links to attempt, in sender order: for each sender whose tract has a
/// receiver, the sending animus and that receiver.
pub open spec fn planned_links(s: Seq<SenderView>, r: Seq<ReceiverView>) -> Seq<
    (Seq<char>, (Seq<char>, Seq<char>)),
>
    decreases s.len(),
{
    if s.len() == 0 {
        seq![]
    } else {
        let rest = planned_links(s.drop_last(), r);
        let e = s.last();
        if receiver_keys(r).contains(e.0) {
            rest.push((e.1, receiver_for(r, e.0)))
        } else {
            rest
        }
    }
}

/// The target and receiver of a link command.
pub open spec fn link_view(c: Command) -> (Seq<char>, (Seq<char>, Seq<char>)) {
    match c.action {
        Action::LinkOutput(info) => (c.target@, info@),
        _ => (c.target@, (seq![], seq![])),
    }
}

pub open spec fn sender_not(tract: Seq<char>) -> spec_fn(SenderView) -> bool {
    |e: SenderView| e.0 != tract
}

pub open spec fn receiver_not(tract: Seq<char>) -> spec_fn(ReceiverView) -> bool {
    |e: ReceiverView| e.1.0 != tract
}

/// `s` without the entry keyed by `tract`.
pub open spec fn without_sender(s: Seq<SenderView>, tract: Seq<char>) -> Seq<SenderView> {
    s.filter(sender_not(tract))
}

/// `r` without the entry keyed by `tract`.
pub open spec fn without_receiver(r: Seq<ReceiverView>, tract: Seq<char>) -> Seq<ReceiverView> {
    r.filter(receiver_not(tract))
}

/// Heads the list of output tracts that found no receiver.
pub const OUTPUTS_NOTE: &'static str = "NOTE -- Some Outputs were not linked (these may go to Motors):";

/// Heads the list of input tracts that found no sender.
pub const INPUTS_NOTE: &'static str = "NOTE -- Some Inputs were not linked (these may come from Sensors):";

/// "animus: tract"
pub open spec fn note_line(animus: Seq<char>, tract: Seq<char>) -> Seq<char> {
    animus + ": "@ + tract
}

pub open spec fn sender_notes(s: Seq<SenderView>) -> Seq<Seq<char>> {
    s.map_values(|e: SenderView| note_line(e.1, e.0))
}

pub open spec fn receiver_notes(r: Seq<ReceiverView>) -> Seq<Seq<char>> {
    r.map_values(|e: ReceiverView| note_line(e.0, e.1.0))
}

/// The report of what stayed unlinked: a headed section for the senders
/// left, then one for the receivers left, each only when it is not empty.
pub open spec fn leftover_report(s: Seq<SenderView>, r: Seq<ReceiverView>) -> Seq<Seq<char>> {
    (if s.len() > 0 {
        seq![OUTPUTS_NOTE@] + sender_notes(s)
    } else {
        seq![]
    }) + (if r.len() > 0 {
        seq![INPUTS_NOTE@] + receiver_notes(r)
    } else {
        seq![]
    })
}

/// The census of one auto-link run. Each tract name is a key at most once
/// among the senders and at most once among the receivers; once a fault is
/// recorded the run is over and both tables are empty.
pub struct TractCensus {
    senders: Vec<(String, String)>,
    receivers: Vec<(String, ReceiverInfo)>,
    fault: Option<AutoLinkError>,
}

/// How the census moves when `animus` declares the output tracts `names`:
/// unchanged once failed; else the senders grow by `names` in order, or, at
/// the first name that clashes, the run fails with a duplicate-output fault.
pub open spec fn outputs_recorded(
    pre: TractCensus,
    post: TractCensus,
    animus: Seq<char>,
    names: Seq<Seq<char>>,
) -> bool {
    let keys = sender_keys(pre.senders());
    &&& pre.failed() ==> post.fault_view() == pre.fault_view()
    &&& !pre.failed() && clash_free(keys, names, names.len() as int) ==> {
        &&& post.senders() == pre.senders() + sent_by(animus, names)
        &&& post.receivers() == pre.receivers()
        &&& !post.failed()
    }
    &&& !pre.failed() && !clash_free(keys, names, names.len() as int) ==> exists|i: int|
        0 <= i < names.len() && clash_free(keys, names, i) && clashes(keys, names, i)
            && post.fault_view() == Some(LinkFault::DuplicateOutput(names[i]))
}

/// How the census moves when `animus` declares the input receivers `infos`:
/// unchanged once failed; else the receivers grow by `infos` in order, or,
/// at the first tract name that clashes, the run fails with a
/// duplicate-input fault.
pub open spec fn inputs_recorded(
    pre: TractCensus,
    post: TractCensus,
    animus: Seq<char>,
    infos: Seq<(Seq<char>, Seq<char>)>,
) -> bool {
    let keys = receiver_keys(pre.receivers());
    let names = tract_names(infos);
    &&& pre.failed() ==> post.fault_view() == pre.fault_view()
    &&& !pre.failed() && clash_free(keys, names, names.len() as int) ==> {
        &&& post.receivers() == pre.receivers() + owned_by(animus, infos)
        &&& post.senders() == pre.senders()
        &&& !post.failed()
    }
    &&& !pre.failed() && !clash_free(keys, names, names.len() as int) ==> exists|i: int|
        0 <= i < names.len() && clash_free(keys, names, i) && clashes(keys, names, i)
            && post.fault_view() == Some(LinkFault::DuplicateInput(names[i]))
}

/// How the census moves on `reply`, the answer of `animus` to a request for
/// its input receivers (at `Stage::Inputs`) or its output tract names (at
/// `Stage::Outputs`). Unchanged once failed. Otherwise a failed send, a
/// missing report, an outcome other than a returned payload or a payload
/// that does not decode each end the run with the matching fault; a decoded
/// payload is recorded.
pub open spec fn reply_absorbed(
    pre: TractCensus,
    post: TractCensus,
    animus: Seq<char>,
    stage: Stage,
    reply: Exchange,
) -> bool {
    &&& pre.failed() ==> post.fault_view() == pre.fault_view()
    &&& !pre.failed() ==> match reply {
        Exchange::SendFailed(_) => post.fault_view() == Some(LinkFault::SendFailed(animus, stage)),
        Exchange::ReadFailed(_) => post.fault_view() == Some(LinkFault::NoResponse(animus, stage)),
        Exchange::Replied(report) => match report.outcome {
            Outcome::Return(bytes) => match stage {
                Stage::Inputs => match bincode_string_pairs(bytes@) {
                    Some(infos) => inputs_recorded(pre, post, animus, infos),
                    None => post.fault_view() == Some(LinkFault::UndecodablePayload(animus, stage)),
                },
                Stage::Outputs => match bincode_strings(bytes@) {
                    Some(names) => outputs_recorded(pre, post, animus, names),
                    None => post.fault_view() == Some(LinkFault::UndecodablePayload(animus, stage)),
                },
            },
            _ => post.fault_view() == Some(LinkFault::ProtocolViolation(animus, stage)),
        },
    }
}

/// The request whose reply `TractCensus::absorb_reply` takes at `stage`.
pub fn census_request(animus: &str, stage: Stage) -> (r: Command)
    ensures
        r.target@ == animus@,
        match stage {
            Stage::Inputs => r.action is ReportInputs,
            Stage::Outputs => r.action is ListOutputs,
        },
{
    match stage {
        Stage::Inputs => Command::new(animus, Action::ReportInputs),
        Stage::Outputs => Command::new(animus, Action::ListOutputs),
    }
}

/// The receivers described by (tract name, address) pairs.
pub fn receivers_from_pairs(pairs: &Vec<(String, String)>) -> (r: Vec<ReceiverInfo>)
    ensures
        info_views(r@) == pair_views(pairs@),
{
    let mut out: Vec<ReceiverInfo> = Vec::new();
    let mut i: usize = 0;
    while i < pairs.len()
        invariant
            0 <= i <= pairs@.len(),
            info_views(out@) == pair_views(pairs@.subrange(0, i as int)),
        decreases pairs@.len() - i,
    {
        let ghost before = out@;
        out.push(ReceiverInfo::new(pairs[i].0.clone(), pairs[i].1.clone()));
        assert(info_views(out@) =~= info_views(before).push(pair_views(pairs@)[i as int]));
        assert(pair_views(pairs@.subrange(0, i + 1)) =~= pair_views(pairs@.subrange(0, i as int)).push(
            pair_views(pairs@)[i as int],
        ));
        i += 1;
    }
    assert(pairs@.subrange(0, i as int) =~= pairs@);
    out
}

impl TractCensus {
    pub closed spec fn senders(&self) -> Seq<SenderView> {
        self.senders@.map_values(|e: (String, String)| (e.0@, e.1@))
    }

    pub closed spec fn receivers(&self) -> Seq<ReceiverView> {
        self.receivers@.map_values(|e: (String, ReceiverInfo)| (e.0@, e.1@))
    }

    pub closed spec fn fault_view(&self) -> Option<LinkFault> {
        match self.fault {
            Some(f) => Some(f@),
            None => None,
        }
    }

    pub open spec fn failed(&self) -> bool {
        self.fault_view() is Some
    }

    pub open spec fn wf(&self) -> bool {
        &&& sender_keys(self.senders()).no_duplicates()
        &&& receiver_keys(self.receivers()).no_duplicates()
        &&& self.failed() ==> self.senders().len() == 0 && self.receivers().len() == 0
    }

    pub fn new() -> (r: Self)
        ensures
            r.wf(),
            r.senders().len() == 0,
            r.receivers().len() == 0,
            !r.failed(),
    {
        let r = TractCensus { senders: Vec::new(), receivers: Vec::new(), fault: None };
        assert(r.senders().len() == 0);
        assert(r.receivers().len() == 0);
        r
    }

    /// The fault that ended the run, if any.
    pub fn fault(&self) -> (r: Option<AutoLinkError>)
        ensures
            match r {
                Some(f) => self.fault_view() == Some(f@),
                None => self.fault_view() is None,
            },
    {
        match &self.fault {
            Some(f) => Some(f.duplicate()),
            None => None,
        }
    }

    /// Ends the run with `f`: whatever was gathered is discarded.
    fn abort(&mut self, f: AutoLinkError)
        ensures
            final(self).fault_view() == Some(f@),
            final(self).senders().len() == 0,
            final(self).receivers().len() == 0,
            final(self).wf(),
    {
        self.fault = Some(f);
        self.senders = Vec::new();
        self.receivers = Vec::new();
        assert(self.senders().len() == 0);
        assert(self.receivers().len() == 0);
    }

    /// Records that `animus` sends the output tracts `outputs`. A name that
    /// is already a sender key, or that repeats within `outputs`, ends the
    /// run with a duplicate-output fault. Does nothing once the run is over.
    pub fn add_outputs(&mut self, animus: &str, outputs: &Vec<String>)
        requires
            old(self).wf(),
        ensures
            final(self).wf(),
            outputs_recorded(*old(self), *final(self), animus@, string_views(outputs@)),
    {
        if self.fault.is_some() {
            return ;
        }
        let ghost s0 = self.senders();
        let ghost keys0 = sender_keys(s0);
        let ghost names = string_views(outputs@);
        let mut i: usize = 0;
        while i < outputs.len()
            invariant
                0 <= i <= outputs@.len(),
                names == string_views(outputs@),
                keys0 == sender_keys(s0),
                s0 == old(self).senders(),
                !old(self).failed(),
                self.fault is None,
                self.wf(),
                clash_free(keys0, names, i as int),
                self.senders() == s0 + sent_by(animus@, names.subrange(0, i as int)),
                self.receivers() == old(self).receivers(),
            decreases outputs@.len() - i,
        {
            let name = &outputs[i];
            assert(sender_keys(self.senders()) =~= keys0 + names.subrange(0, i as int));
            match self.sender_index(name) {
                Some(_) => {
                    proof {
                        let k = sender_keys(self.senders());
                        assert(k.contains(names[i as int]));
                        let j = choose|j: int| 0 <= j < k.len() && k[j] == names[i as int];
                        if j < keys0.len() {
                            assert(keys0[j] == k[j]);
                            assert(keys0.contains(names[i as int]));
                        } else {
                            assert(names.subrange(0, i as int)[j - keys0.len()] == k[j]);
                            assert(names.subrange(0, i as int).contains(names[i as int]));
                        }
                        assert(clashes(keys0, names, i as int));
                    }
                    self.abort(AutoLinkError::DuplicateOutput { tract: name.clone() });
                    assert(clash_free(keys0, names, i as int) && clashes(keys0, names, i as int));
                    assert(names[i as int] == outputs@[i as int]@);
                    return ;
                },
                None => {
                    proof {
                        let k = sender_keys(self.senders());
                        assert(!keys0.contains(names[i as int])) by {
                            if keys0.contains(names[i as int]) {
                                let j = choose|j: int|
                                    0 <= j < keys0.len() && keys0[j] == names[i as int];
                                assert(k[j] == keys0[j]);
                            }
                        }
                        assert(!names.subrange(0, i as int).contains(names[i as int])) by {
                            if names.subrange(0, i as int).contains(names[i as int]) {
                                let j = choose|j: int|
                                    0 <= j < i && names.subrange(0, i as int)[j] == names[
                                        i as int];
                                assert(k[keys0.len() + j] == names.subrange(0, i as int)[j]);
                            }
                        }
                    }
                    let ghost before = self.senders();
                    self.senders.push((name.clone(), animus.to_string()));
                    proof {
                        assert(self.senders() =~= before.push((names[i as int], animus@)));
                        assert(names.subrange(0, i + 1) =~= names.subrange(0, i as int).push(
                            names[i as int],
                        ));
                        assert(sent_by(animus@, names.subrange(0, i + 1)) =~= sent_by(
                            animus@,
                            names.subrange(0, i as int),
                        ).push((names[i as int], animus@)));
                        let k = sender_keys(before);
                        assert(sender_keys(self.senders()) =~= k.push(names[i as int]));
                        assert(!k.contains(names[i as int]));
                        assert(clash_free(keys0, names, i + 1)) by {
                            assert forall|m: int| 0 <= m < i + 1 implies !#[trigger] clashes(
                                keys0,
                                names,
                                m,
                            ) by {
                                if m == i {
                                    assert(!keys0.contains(names[i as int]));
                                }
                            }
                        }
                    }
                },
            }
            i += 1;
        }
        proof {
            assert(names.subrange(0, i as int) =~= names);
        }
    }

    /// Records that `animus` owns the input receivers `inputs`. A tract name
    /// that is already a receiver key, or that repeats within `inputs`, ends
    /// the run with a duplicate-input fault. Does nothing once the run is over.
    pub fn add_inputs(&mut self, animus: &str, inputs: &Vec<ReceiverInfo>)
        requires
            old(self).wf(),
        ensures
            final(self).wf(),
            inputs_recorded(*old(self), *final(self), animus@, info_views(inputs@)),
    {
        if self.fault.is_some() {
            return ;
        }
        let ghost r0 = self.receivers();
        let ghost keys0 = receiver_keys(r0);
        let ghost infos = info_views(inputs@);
        let ghost names = tract_names(infos);
        let mut i: usize = 0;
        while i < inputs.len()
            invariant
                0 <= i <= inputs@.len(),
                infos == info_views(inputs@),
                names == tract_names(infos),
                keys0 == receiver_keys(r0),
                r0 == old(self).receivers(),
                !old(self).failed(),
                self.fault is None,
                self.wf(),
                clash_free(keys0, names, i as int),
                self.receivers() == r0 + owned_by(animus@, infos.subrange(0, i as int)),
                self.senders() == old(self).senders(),
            decreases inputs@.len() - i,
        {
            let info = &inputs[i];
            assert(names[i as int] == info.tract_name@);
            assert(receiver_keys(self.receivers()) =~= keys0 + names.subrange(0, i as int));
            match self.receiver_index(&info.tract_name) {
                Some(_) => {
                    proof {
                        let k = receiver_keys(self.receivers());
                        assert(k.contains(names[i as int]));
                        let j = choose|j: int| 0 <= j < k.len() && k[j] == names[i as int];
                        if j < keys0.len() {
                            assert(keys0[j] == k[j]);
                            assert(keys0.contains(names[i as int]));
                        } else {
                            assert(names.subrange(0, i as int)[j - keys0.len()] == k[j]);
                            assert(names.subrange(0, i as int).contains(names[i as int]));
                        }
                        assert(clashes(keys0, names, i as int));
                    }
                    self.abort(AutoLinkError::DuplicateInput { tract: info.tract_name.clone() });
                    assert(clash_free(keys0, names, i as int) && clashes(keys0, names, i as int));
                    assert(self.fault_view() == Some(LinkFault::DuplicateInput(names[i as int])));
                    return ;
                },
                None => {
                    proof {
                        let k = receiver_keys(self.receivers());
                        assert(!keys0.contains(names[i as int])) by {
                            if keys0.contains(names[i as int]) {
                                let j = choose|j: int|
                                    0 <= j < keys0.len() && keys0[j] == names[i as int];
                                assert(k[j] == keys0[j]);
                            }
                        }
                        assert(!names.subrange(0, i as int).contains(names[i as int])) by {
                            if names.subrange(0, i as int).contains(names[i as int]) {
                                let j = choose|j: int|
                                    0 <= j < i && names.subrange(0, i as int)[j] == names[
                                        i as int];
                                assert(k[keys0.len() + j] == names.subrange(0, i as int)[j]);
                            }
                        }
                    }
                    let ghost before = self.receivers();
                    self.receivers.push((animus.to_string(), info.duplicate()));
                    proof {
                        assert(self.receivers() =~= before.push((animus@, infos[i as int])));
                        assert(infos.subrange(0, i + 1) =~= infos.subrange(0, i as int).push(
                            infos[i as int],
                        ));
                        assert(owned_by(animus@, infos.subrange(0, i + 1)) =~= owned_by(
                            animus@,
                            infos.subrange(0, i as int),
                        ).push((animus@, infos[i as int])));
                        let k = receiver_keys(before);
                        assert(receiver_keys(self.receivers()) =~= k.push(names[i as int]));
                        assert(!k.contains(names[i as int]));
                        assert(clash_free(keys0, names, i + 1)) by {
                            assert forall|m: int| 0 <= m < i + 1 implies !#[trigger] clashes(
                                keys0,
                                names,
                                m,
                            ) by {
                                if m == i {
                                    assert(!keys0.contains(names[i as int]));
                                }
                            }
                        }
                    }
                },
            }
            i += 1;
        }
        proof {
            assert(infos.subrange(0, i as int) =~= infos);
        }
    }

    /// The link commands of this run, in sender order: to each animus whose
    /// output tract has a receiver, a `LinkOutput` carrying that receiver.
    /// None once the run has failed.
    pub fn link_commands(&self) -> (r: Vec<Command>)
        requires
            self.wf(),
        ensures
            forall|k: int| 0 <= k < r@.len() ==> r@[k].action is LinkOutput,
            r@.map_values(|c: Command| link_view(c)) == planned_links(
                self.senders(),
                self.receivers(),
            ),
            self.failed() ==> r@.len() == 0,
    {
        let mut out: Vec<Command> = Vec::new();
        let mut i: usize = 0;
        let ghost s = self.senders();
        let ghost rv = self.receivers();
        while i < self.senders.len()
            invariant
                0 <= i <= self.senders@.len(),
                s == self.senders(),
                rv == self.receivers(),
                self.wf(),
                forall|k: int| 0 <= k < out@.len() ==> out@[k].action is LinkOutput,
                out@.map_values(|c: Command| link_view(c)) == planned_links(
                    s.subrange(0, i as int),
                    rv,
                ),
            decreases self.senders@.len() - i,
        {
            let entry = &self.senders[i];
            assert(s.subrange(0, i + 1).drop_last() =~= s.subrange(0, i as int));
            assert(s.subrange(0, i + 1).last() == s[i as int]);
            match self.receiver_index(&entry.0) {
                Some(j) => {
                    let info = self.receivers[j].1.duplicate();
                    let c = Command { target: entry.1.clone(), action: Action::LinkOutput(info) };
                    proof {
                        let keys = receiver_keys(rv);
                        assert(keys.contains(s[i as int].0));
                        let x = keys.index_of(s[i as int].0);
                        assert(keys[x] == keys[j as int]);
                        assert(x == j);
                        assert(link_view(c) == (s[i as int].1, receiver_for(rv, s[i as int].0)));
                    }
                    let ghost before = out@;
                    out.push(c);
                    assert(out@.map_values(|c: Command| link_view(c)) =~= before.map_values(
                        |c: Command| link_view(c),
                    ).push(link_view(c)));
                },
                None => {},
            }
            i += 1;
        }
        assert(s.subrange(0, i as int) =~= s);
        out
    }

    /// Forgets the sender and the receiver keyed by `tract`: the link for it
    /// has been sent.
    pub fn settle_link(&mut self, tract: &String)
        requires
            old(self).wf(),
        ensures
            final(self).wf(),
            final(self).senders() == without_sender(old(self).senders(), tract@),
            final(self).receivers() == without_receiver(old(self).receivers(), tract@),
            final(self).fault_view() == old(self).fault_view(),
    {
        let ghost s0 = self.senders();
        let ghost r0 = self.receivers();
        match self.sender_index(tract) {
            Some(j) => {
                let ghost k = sender_keys(s0);
                proof {
                    lemma_sender_remove(s0, j as int);
                }
                self.senders.remove(j);
                assert(self.senders() =~= s0.remove(j as int));
                assert(sender_keys(self.senders()) =~= k.remove(j as int));
                assert(sender_keys(self.senders()).no_duplicates()) by {
                    let k2 = sender_keys(self.senders());
                    assert forall|a: int, b: int|
                        0 <= a < k2.len() && 0 <= b < k2.len() && a != b implies k2[a]
                        != k2[b] by {
                        let a0 = if a < j { a } else { a + 1 };
                        let b0 = if b < j { b } else { b + 1 };
                        assert(k2[a] == k[a0]);
                        assert(k2[b] == k[b0]);
                    }
                }
            },
            None => {
                proof {
                    assert forall|i: int| 0 <= i < s0.len() implies (sender_not(tract@))(
                        #[trigger] s0[i],
                    ) by {
                        assert(sender_keys(s0)[i] == s0[i].0);
                    }
                    lemma_filter_keeps_all(s0, sender_not(tract@));
                }
            },
        }
        match self.receiver_index(tract) {
            Some(j) => {
                let ghost k = receiver_keys(r0);
                proof {
                    lemma_receiver_remove(r0, j as int);
                }
                self.receivers.remove(j);
                assert(self.receivers() =~= r0.remove(j as int));
                assert(receiver_keys(self.receivers()) =~= k.remove(j as int));
                assert(receiver_keys(self.receivers()).no_duplicates()) by {
                    let k2 = receiver_keys(self.receivers());
                    assert forall|a: int, b: int|
                        0 <= a < k2.len() && 0 <= b < k2.len() && a != b implies k2[a]
                        != k2[b] by {
                        let a0 = if a < j { a } else { a + 1 };
                        let b0 = if b < j { b } else { b + 1 };
                        assert(k2[a] == k[a0]);
                        assert(k2[b] == k[b0]);
                    }
                }
            },
            None => {
                proof {
                    assert forall|i: int| 0 <= i < r0.len() implies (receiver_not(tract@))(
                        #[trigger] r0[i],
                    ) by {
                        assert(receiver_keys(r0)[i] == r0[i].1.0);
                    }
                    lemma_filter_keeps_all(r0, receiver_not(tract@));
                }
            },
        }
    }

    /// The lines that report the senders and receivers still left.
    pub fn leftover_lines(&self) -> (r: Vec<String>)
        ensures
            string_views(r@) == leftover_report(self.senders(), self.receivers()),
    {
        let mut out: Vec<String> = Vec::new();
        let ghost s = self.senders();
        let ghost rv = self.receivers();
        if self.senders.len() > 0 {
            out.push(OUTPUTS_NOTE.to_string());
            let mut i: usize = 0;
            while i < self.senders.len()
                invariant
                    0 <= i <= self.senders@.len(),
                    s == self.senders(),
                    string_views(out@) == seq![OUTPUTS_NOTE@] + sender_notes(
                        s.subrange(0, i as int),
                    ),
                decreases self.senders@.len() - i,
            {
                let entry = &self.senders[i];
                let mut line = entry.1.clone();
                line.append(": ");
                line.append(entry.0.as_str());
                let ghost before = out@;
                out.push(line);
                assert(string_views(out@) =~= string_views(before).push(line@));
                assert(sender_notes(s.subrange(0, i + 1)) =~= sender_notes(
                    s.subrange(0, i as int),
                ).push(note_line(s[i as int].1, s[i as int].0)));
                i += 1;
            }
            assert(s.subrange(0, i as int) =~= s);
        }
        let ghost head = string_views(out@);
        assert(head == if s.len() > 0 {
            seq![OUTPUTS_NOTE@] + sender_notes(s)
        } else {
            seq![]
        });
        if self.receivers.len() > 0 {
            let ghost before = out@;
            out.push(INPUTS_NOTE.to_string());
            assert(string_views(out@) =~= head + seq![INPUTS_NOTE@]);
            let mut i: usize = 0;
            while i < self.receivers.len()
                invariant
                    0 <= i <= self.receivers@.len(),
                    rv == self.receivers(),
                    string_views(out@) == head + (seq![INPUTS_NOTE@] + receiver_notes(
                        rv.subrange(0, i as int),
                    )),
                decreases self.receivers@.len() - i,
            {
                let entry = &self.receivers[i];
                let mut line = entry.0.clone();
                line.append(": ");
                line.append(entry.1.tract_name.as_str());
                let ghost before = out@;
                out.push(line);
                assert(string_views(out@) =~= string_views(before).push(line@));
                assert(receiver_notes(rv.subrange(0, i + 1)) =~= receiver_notes(
                    rv.subrange(0, i as int),
                ).push(note_line(rv[i as int].0, rv[i as int].1.0)));
                i += 1;
            }
            assert(rv.subrange(0, i as int) =~= rv);
        }
        assert(string_views(out@) =~= leftover_report(s, rv));
        out
    }

    /// Takes in the reply of `animus` to `Action::ReportInputs` (at
    /// `Stage::Inputs`) or to `Action::ListOutputs` (at `Stage::Outputs`).
    pub fn absorb_reply(&mut self, animus: &str, stage: Stage, reply: &Exchange)
        requires
            old(self).wf(),
        ensures
            final(self).wf(),
            reply_absorbed(*old(self), *final(self), animus@, stage, *reply),
    {
        if self.fault.is_some() {
            return ;
        }
        match reply {
            Exchange::SendFailed(_) => {
                self.abort(AutoLinkError::SendFailed { animus: animus.to_string(), stage });
            },
            Exchange::ReadFailed(_) => {
                self.abort(AutoLinkError::NoResponse { animus: animus.to_string(), stage });
            },
            Exchange::Replied(report) => match &report.outcome {
                Outcome::Return(bytes) => match stage {
                    Stage::Inputs => match decode_string_pairs(bytes) {
                        Some(pairs) => {
                            let infos = receivers_from_pairs(&pairs);
                            self.add_inputs(animus, &infos);
                        },
                        None => {
                            self.abort(
                                AutoLinkError::UndecodablePayload { animus: animus.to_string(), stage },
                            );
                        },
                    },
                    Stage::Outputs => match decode_strings(bytes) {
                        Some(names) => {
                            self.add_outputs(animus, &names);
                        },
                        None => {
                            self.abort(
                                AutoLinkError::UndecodablePayload { animus: animus.to_string(), stage },
                            );
                        },
                    },
                },
                _ => {
                    self.abort(AutoLinkError::ProtocolViolation { animus: animus.to_string(), stage });
                },
            },
        }
    }

    fn sender_index(&self, tract: &String) -> (r: Option<usize>)
        ensures
            match r {
                Some(j) => j < self.senders().len() && sender_keys(self.senders())[j as int]
                    == tract@,
                None => !sender_keys(self.senders()).contains(tract@),
            },
    {
        let mut j: usize = 0;
        while j < self.senders.len()
            invariant
                0 <= j <= self.senders@.len(),
                forall|k: int| 0 <= k < j ==> sender_keys(self.senders())[k] != tract@,
            decreases self.senders@.len() - j,
        {
            if self.senders[j].0 == *tract {
                return Some(j);
            }
            j += 1;
        }
        None
    }

    fn receiver_index(&self, tract: &String) -> (r: Option<usize>)
        ensures
            match r {
                Some(j) => j < self.receivers().len() && receiver_keys(self.receivers())[j as int]
                    == tract@,
                None => !receiver_keys(self.receivers()).contains(tract@),
            },
    {
        let mut j: usize = 0;
        while j < self.receivers.len()
            invariant
                0 <= j <= self.receivers@.len(),
                forall|k: int| 0 <= k < j ==> receiver_keys(self.receivers())[k] != tract@,
            decreases self.receivers@.len() - j,
        {
            if self.receivers[j].1.tract_name == *tract {
                return Some(j);
            }
            j += 1;
        }
        None
    }
}

} // verus!

verus! {

/// Once two animi of a run have declared the same input tract, the run has
/// failed: from then on every step keeps the fault, and `link_commands`
/// plans no link at all, not even for tracts that would match cleanly.
pub proof fn lemma_duplicate_input_aborts(
    c0: TractCensus,
    c1: TractCensus,
    c2: TractCensus,
    a: Seq<char>,
    a_inputs: Seq<(Seq<char>, Seq<char>)>,
    b: Seq<char>,
    b_inputs: Seq<(Seq<char>, Seq<char>)>,
    tract: Seq<char>,
)
    requires
        c0.wf(),
        c1.wf(),
        c2.wf(),
        inputs_recorded(c0, c1, a, a_inputs),
        inputs_recorded(c1, c2, b, b_inputs),
        tract_names(a_inputs).contains(tract),
        tract_names(b_inputs).contains(tract),
    ensures
        c2.failed(),
        planned_links(c2.senders(), c2.receivers()).len() == 0,
{
    if !c1.failed() {
        let ka = receiver_keys(c0.receivers());
        let na = tract_names(a_inputs);
        if !clash_free(ka, na, na.len() as int) {
            let i = choose|i: int|
                0 <= i < na.len() && clash_free(ka, na, i) && clashes(ka, na, i)
                    && c1.fault_view() == Some(LinkFault::DuplicateInput(na[i]));
        }
        assert(c1.receivers() == c0.receivers() + owned_by(a, a_inputs));
        let k1 = receiver_keys(c1.receivers());
        let j = choose|j: int| 0 <= j < na.len() && na[j] == tract;
        assert(k1[c0.receivers().len() + j] == tract);
        assert(k1.contains(tract));
        let nb = tract_names(b_inputs);
        let m = choose|m: int| 0 <= m < nb.len() && nb[m] == tract;
        assert(clashes(k1, nb, m));
        assert(!clash_free(k1, nb, nb.len() as int));
        let i = choose|i: int|
            0 <= i < nb.len() && clash_free(k1, nb, i) && clashes(k1, nb, i)
                && c2.fault_view() == Some(LinkFault::DuplicateInput(nb[i]));
    }
    lemma_failed_census_plans_nothing(c2);
}

/// The same for output tracts declared by two animi.
pub proof fn lemma_duplicate_output_aborts(
    c0: TractCensus,
    c1: TractCensus,
    c2: TractCensus,
    a: Seq<char>,
    a_outputs: Seq<Seq<char>>,
    b: Seq<char>,
    b_outputs: Seq<Seq<char>>,
    tract: Seq<char>,
)
    requires
        c0.wf(),
        c1.wf(),
        c2.wf(),
        outputs_recorded(c0, c1, a, a_outputs),
        outputs_recorded(c1, c2, b, b_outputs),
        a_outputs.contains(tract),
        b_outputs.contains(tract),
    ensures
        c2.failed(),
        planned_links(c2.senders(), c2.receivers()).len() == 0,
{
    if !c1.failed() {
        let ka = sender_keys(c0.senders());
        if !clash_free(ka, a_outputs, a_outputs.len() as int) {
            let i = choose|i: int|
                0 <= i < a_outputs.len() && clash_free(ka, a_outputs, i) && clashes(
                    ka,
                    a_outputs,
                    i,
                ) && c1.fault_view() == Some(LinkFault::DuplicateOutput(a_outputs[i]));
        }
        let k1 = sender_keys(c1.senders());
        let j = choose|j: int| 0 <= j < a_outputs.len() && a_outputs[j] == tract;
        assert(k1[c0.senders().len() + j] == tract);
        assert(k1.contains(tract));
        let m = choose|m: int| 0 <= m < b_outputs.len() && b_outputs[m] == tract;
        assert(clashes(k1, b_outputs, m));
        assert(!clash_free(k1, b_outputs, b_outputs.len() as int));
        let i = choose|i: int|
            0 <= i < b_outputs.len() && clash_free(k1, b_outputs, i) && clashes(k1, b_outputs, i)
                && c2.fault_view() == Some(LinkFault::DuplicateOutput(b_outputs[i]));
    }
    lemma_failed_census_plans_nothing(c2);
}

/// A failed census plans no link.
pub proof fn lemma_failed_census_plans_nothing(c: TractCensus)
    requires
        c.wf(),
        c.failed(),
    ensures
        planned_links(c.senders(), c.receivers()).len() == 0,
{
}

} // verus!

verus! {

/// Filtering with a predicate that every element meets changes nothing.
pub proof fn lemma_filter_keeps_all<A>(s: Seq<A>, p: spec_fn(A) -> bool)
    requires
        forall|i: int| 0 <= i < s.len() ==> p(#[trigger] s[i]),
    ensures
        s.filter(p) == s,
    decreases s.len(),
{
    reveal(Seq::filter);
    if s.len() > 0 {
        let init = s.drop_last();
        assert forall|i: int| 0 <= i < init.len() implies p(#[trigger] init[i]) by {
            assert(init[i] == s[i]);
        }
        lemma_filter_keeps_all(init, p);
        assert(p(s[s.len() - 1]));
        assert(init.push(s.last()) =~= s);
    }
}

/// Filters with predicates that agree on every element are equal.
pub proof fn lemma_filter_agree<A>(s: Seq<A>, p: spec_fn(A) -> bool, q: spec_fn(A) -> bool)
    requires
        forall|i: int| 0 <= i < s.len() ==> p(#[trigger] s[i]) == q(s[i]),
    ensures
        s.filter(p) == s.filter(q),
    decreases s.len(),
{
    reveal(Seq::filter);
    if s.len() > 0 {
        let init = s.drop_last();
        assert forall|i: int| 0 <= i < init.len() implies p(#[trigger] init[i]) == q(init[i]) by {
            assert(init[i] == s[i]);
        }
        lemma_filter_agree(init, p, q);
        assert(p(s[s.len() - 1]) == q(s[s.len() - 1]));
    }
}

/// Removing the entry at `j` of a sender table with unique keys is
/// filtering out its key.
proof fn lemma_sender_remove(s: Seq<SenderView>, j: int)
    requires
        0 <= j < s.len(),
        sender_keys(s).no_duplicates(),
    ensures
        s.remove(j) == s.filter(sender_not(s[j].0)),
    decreases s.len(),
{
    reveal(Seq::filter);
    let t = s[j].0;
    let init = s.drop_last();
    let last = s.len() - 1;
    assert(sender_keys(s)[last] == s[last].0);
    if j == last {
        assert(s.remove(j) =~= init);
        assert forall|i: int| 0 <= i < init.len() implies (sender_not(t))(#[trigger] init[i]) by {
            assert(sender_keys(s)[i] == init[i].0);
        }
        lemma_filter_keeps_all(init, sender_not(t));
    } else {
        assert(sender_keys(init) =~= sender_keys(s).drop_last());
        lemma_sender_remove(init, j);
        assert(init[j] == s[j]);
        assert(s.remove(j) =~= init.remove(j).push(s.last()));
        assert(sender_keys(s)[j] == t);
        assert(s.last().0 != t);
    }
}

/// Removing the entry at `j` of a receiver table with unique keys is
/// filtering out its key.
proof fn lemma_receiver_remove(r: Seq<ReceiverView>, j: int)
    requires
        0 <= j < r.len(),
        receiver_keys(r).no_duplicates(),
    ensures
        r.remove(j) == r.filter(receiver_not(r[j].1.0)),
    decreases r.len(),
{
    reveal(Seq::filter);
    let t = r[j].1.0;
    let init = r.drop_last();
    let last = r.len() - 1;
    assert(receiver_keys(r)[last] == r[last].1.0);
    if j == last {
        assert(r.remove(j) =~= init);
        assert forall|i: int| 0 <= i < init.len() implies (receiver_not(t))(#[trigger] init[i]) by {
            assert(receiver_keys(r)[i] == init[i].1.0);
        }
        lemma_filter_keeps_all(init, receiver_not(t));
    } else {
        assert(receiver_keys(init) =~= receiver_keys(r).drop_last());
        lemma_receiver_remove(init, j);
        assert(init[j] == r[j]);
        assert(r.remove(j) =~= init.remove(j).push(r.last()));
        assert(receiver_keys(r)[j] == t);
        assert(r.last().1.0 != t);
    }
}

} // verus!

verus! {

/// Keeps the senders whose tract is not among `gone`.
pub open spec fn sender_unlinked(gone: Seq<Seq<char>>) -> spec_fn(SenderView) -> bool {
    |e: SenderView| !gone.contains(e.0)
}

/// Keeps the receivers whose tract is not among `gone`.
pub open spec fn receiver_unlinked(gone: Seq<Seq<char>>) -> spec_fn(ReceiverView) -> bool {
    |e: ReceiverView| !gone.contains(e.1.0)
}

/// Keeps the senders whose tract has no receiver in `r`.
pub open spec fn sender_unmatched(r: Seq<ReceiverView>) -> spec_fn(SenderView) -> bool {
    |e: SenderView| !receiver_keys(r).contains(e.0)
}

/// Keeps the receivers whose tract has no sender in `s`.
pub open spec fn receiver_unmatched(s: Seq<SenderView>) -> spec_fn(ReceiverView) -> bool {
    |e: ReceiverView| !sender_keys(s).contains(e.1.0)
}

/// The tables after `settle_link` of each of `tracts`, in order.
pub open spec fn settle_all(s: Seq<SenderView>, r: Seq<ReceiverView>, tracts: Seq<Seq<char>>) -> (
    Seq<SenderView>,
    Seq<ReceiverView>,
)
    decreases tracts.len(),
{
    if tracts.len() == 0 {
        (s, r)
    } else {
        let (s1, r1) = settle_all(s, r, tracts.drop_last());
        (without_sender(s1, tracts.last()), without_receiver(r1, tracts.last()))
    }
}

/// The tract of each planned link.
pub open spec fn link_tracts(plan: Seq<(Seq<char>, (Seq<char>, Seq<char>))>) -> Seq<Seq<char>> {
    plan.map_values(|p: (Seq<char>, (Seq<char>, Seq<char>))| p.1.0)
}

/// Filtering twice is filtering once by both predicates.
pub proof fn lemma_filter_then<A>(
    s: Seq<A>,
    p: spec_fn(A) -> bool,
    q: spec_fn(A) -> bool,
    both: spec_fn(A) -> bool,
)
    requires
        forall|i: int| 0 <= i < s.len() ==> both(#[trigger] s[i]) == (p(s[i]) && q(s[i])),
    ensures
        s.filter(p).filter(q) == s.filter(both),
    decreases s.len(),
{
    reveal(Seq::filter);
    if s.len() > 0 {
        let init = s.drop_last();
        assert forall|i: int| 0 <= i < init.len() implies both(#[trigger] init[i]) == (p(init[i])
            && q(init[i])) by {
            assert(init[i] == s[i]);
        }
        lemma_filter_then(init, p, q, both);
        let e = s[s.len() - 1];
        assert(both(e) == (p(e) && q(e)));
        if p(e) {
            assert(s.filter(p) == init.filter(p).push(e));
            assert(s.filter(p).drop_last() =~= init.filter(p));
        } else {
            assert(s.filter(p) == init.filter(p));
        }
    }
}

proof fn lemma_settle_all(s: Seq<SenderView>, r: Seq<ReceiverView>, tracts: Seq<Seq<char>>)
    ensures
        settle_all(s, r, tracts) == (
            s.filter(sender_unlinked(tracts)),
            r.filter(receiver_unlinked(tracts)),
        ),
    decreases tracts.len(),
{
    if tracts.len() == 0 {
        assert forall|i: int| 0 <= i < s.len() implies (sender_unlinked(tracts))(#[trigger] s[i]) by {}
        lemma_filter_keeps_all(s, sender_unlinked(tracts));
        assert forall|i: int| 0 <= i < r.len() implies (receiver_unlinked(tracts))(
            #[trigger] r[i],
        ) by {}
        lemma_filter_keeps_all(r, receiver_unlinked(tracts));
    } else {
        let init = tracts.drop_last();
        let t = tracts.last();
        lemma_settle_all(s, r, init);
        assert forall|x: Seq<char>| #[trigger] tracts.contains(x) == (init.contains(x) || x == t) by {
            if tracts.contains(x) && x != t {
                let j = choose|j: int| 0 <= j < tracts.len() && tracts[j] == x;
                assert(j != tracts.len() - 1);
                assert(init[j] == x);
            }
            if init.contains(x) {
                let j = choose|j: int| 0 <= j < init.len() && init[j] == x;
                assert(tracts[j] == x);
            }
            if x == t {
                assert(tracts[tracts.len() - 1] == x);
            }
        }
        assert forall|i: int| 0 <= i < s.len() implies (sender_unlinked(tracts))(#[trigger] s[i])
            == ((sender_unlinked(init))(s[i]) && (sender_not(t))(s[i])) by {
            assert(tracts.contains(s[i].0) == (init.contains(s[i].0) || s[i].0 == t));
        }
        lemma_filter_then(s, sender_unlinked(init), sender_not(t), sender_unlinked(tracts));
        assert forall|i: int| 0 <= i < r.len() implies (receiver_unlinked(tracts))(#[trigger] r[i])
            == ((receiver_unlinked(init))(r[i]) && (receiver_not(t))(r[i])) by {
            assert(tracts.contains(r[i].1.0) == (init.contains(r[i].1.0) || r[i].1.0 == t));
        }
        lemma_filter_then(r, receiver_unlinked(init), receiver_not(t), receiver_unlinked(tracts));
    }
}

/// A tract is planned exactly when some sender and some receiver declare it.
proof fn lemma_planned_tracts(s: Seq<SenderView>, r: Seq<ReceiverView>, x: Seq<char>)
    ensures
        link_tracts(planned_links(s, r)).contains(x) == (sender_keys(s).contains(x)
            && receiver_keys(r).contains(x)),
    decreases s.len(),
{
    if s.len() > 0 {
        let init = s.drop_last();
        let e = s.last();
        lemma_planned_tracts(init, r, x);
        let sk = sender_keys(s);
        let ik = sender_keys(init);
        assert(sk.contains(x) == (ik.contains(x) || e.0 == x)) by {
            if sk.contains(x) && e.0 != x {
                let j = choose|j: int| 0 <= j < sk.len() && sk[j] == x;
                assert(j != sk.len() - 1);
                assert(ik[j] == x);
            }
            if ik.contains(x) {
                let j = choose|j: int| 0 <= j < ik.len() && ik[j] == x;
                assert(sk[j] == x);
            }
            if e.0 == x {
                assert(sk[sk.len() - 1] == x);
            }
        }
        let rest = planned_links(init, r);
        let rk = receiver_keys(r);
        if rk.contains(e.0) {
            let link = (e.1, receiver_for(r, e.0));
            let idx = rk.index_of(e.0);
            assert(rk[idx] == e.0);
            assert(link.1.0 == e.0);
            assert(link_tracts(rest.push(link)) =~= link_tracts(rest).push(e.0));
            let lt = link_tracts(rest);
            assert(lt.push(e.0).contains(x) == (lt.contains(x) || e.0 == x)) by {
                if lt.push(e.0).contains(x) && e.0 != x {
                    let j = choose|j: int| 0 <= j < lt.len() + 1 && lt.push(e.0)[j] == x;
                    assert(lt[j] == x);
                }
                if lt.contains(x) {
                    let j = choose|j: int| 0 <= j < lt.len() && lt[j] == x;
                    assert(lt.push(e.0)[j] == x);
                }
                if e.0 == x {
                    assert(lt.push(e.0)[lt.len() as int] == x);
                }
            }
        }
    }
}

/// Once the link of every planned tract has been sent and settled, the
/// senders left are exactly those whose tract no receiver declares, and the
/// receivers left exactly those whose tract no sender declares, each in its
/// first order. In particular a run in which every tract is both sent and
/// received ends with both tables empty and no leftover report.
pub proof fn lemma_link_pass_leaves_unmatched(s: Seq<SenderView>, r: Seq<ReceiverView>)
    ensures
        settle_all(s, r, link_tracts(planned_links(s, r))) == (
            s.filter(sender_unmatched(r)),
            r.filter(receiver_unmatched(s)),
        ),
{
    let tracts = link_tracts(planned_links(s, r));
    lemma_settle_all(s, r, tracts);
    assert forall|i: int| 0 <= i < s.len() implies (sender_unlinked(tracts))(#[trigger] s[i])
        == (sender_unmatched(r))(s[i]) by {
        lemma_planned_tracts(s, r, s[i].0);
        assert(sender_keys(s)[i] == s[i].0);
    }
    lemma_filter_agree(s, sender_unlinked(tracts), sender_unmatched(r));
    assert forall|i: int| 0 <= i < r.len() implies (receiver_unlinked(tracts))(#[trigger] r[i])
        == (receiver_unmatched(s))(r[i]) by {
        lemma_planned_tracts(s, r, r[i].1.0);
        assert(receiver_keys(r)[i] == r[i].1.0);
    }
    lemma_filter_agree(r, receiver_unlinked(tracts), receiver_unmatched(s));
}

} // verus!
