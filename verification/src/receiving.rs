//! Receiving with a ticket, step by step.

use vstd::prelude::*;

use crate::traces;

verus! {

/// The step that is being taken.
#[derive(Debug, Clone, Copy, PartialEq, Eq, Structural)]
pub enum ReceivePhase {
    /// Open the scratch directory, and connect to the sender.
    Connect,
    /// Download what is missing.
    Fetch,
    /// Read the list of files out of what was downloaded.
    Rebuild,
    /// Write the files.
    Export,
    /// Close the scratch directory.
    Flush,
    /// All is there.
    Done,
    /// A step failed.
    Failed,
}

/// What is to be done after a step.
#[derive(Debug, Clone, Copy, PartialEq, Eq, Structural)]
pub enum ReceiveAction {
    /// Close the endpoint.
    CloseEndpoint,
    /// Tell the user what was received.
    Report,
    /// Remove the scratch directory.
    RemoveStore,
    /// End with the error of the step.
    Fail,
}

/// What follows from a step that went well or not: the next step, and what is to
/// be done. A failure leaves the scratch directory as it is.
pub open spec fn receive_next(phase: ReceivePhase, ok: bool) -> (
    ReceivePhase,
    Seq<ReceiveAction>,
) {
    match (phase, ok) {
        (ReceivePhase::Done, _) => (phase, seq![]),
        (ReceivePhase::Failed, _) => (phase, seq![]),
        (_, false) => (ReceivePhase::Failed, seq![ReceiveAction::Fail]),
        (ReceivePhase::Connect, true) => (ReceivePhase::Fetch, seq![]),
        (ReceivePhase::Fetch, true) => (ReceivePhase::Rebuild, seq![]),
        (ReceivePhase::Rebuild, true) => (ReceivePhase::Export, seq![]),
        (ReceivePhase::Export, true) => (ReceivePhase::Flush, seq![ReceiveAction::CloseEndpoint]),
        (ReceivePhase::Flush, true) => (
            ReceivePhase::Done,
            seq![ReceiveAction::Report, ReceiveAction::RemoveStore],
        ),
    }
}

/// A transfer that is being received.
#[derive(Debug)]
pub struct Receiving {
    phase: ReceivePhase,
}

impl Receiving {
    /// The step that is being taken.
    pub closed spec fn doing(&self) -> ReceivePhase {
        self.phase
    }

    /// The first step is to connect.
    pub fn new() -> (r: Self)
        ensures
            r.doing() == ReceivePhase::Connect,
    {
        Receiving { phase: ReceivePhase::Connect }
    }

    /// The step that is being taken.
    pub fn phase(&self) -> (r: ReceivePhase)
        ensures
            r == self.doing(),
    {
        self.phase
    }

    /// Takes the outcome of the step, and says what is to be done, in order.
    pub fn step(&mut self, ok: bool) -> (r: Vec<ReceiveAction>)
        ensures
            final(self).doing() == receive_next(old(self).doing(), ok).0,
            r@ == receive_next(old(self).doing(), ok).1,
    {
        let ghost want = receive_next(self.phase, ok).1;
        let mut todo: Vec<ReceiveAction> = Vec::new();
        match (self.phase, ok) {
            (ReceivePhase::Done, _) | (ReceivePhase::Failed, _) => {},
            (_, false) => {
                self.phase = ReceivePhase::Failed;
                todo.push(ReceiveAction::Fail);
            },
            (ReceivePhase::Connect, true) => {
                self.phase = ReceivePhase::Fetch;
            },
            (ReceivePhase::Fetch, true) => {
                self.phase = ReceivePhase::Rebuild;
            },
            (ReceivePhase::Rebuild, true) => {
                self.phase = ReceivePhase::Export;
            },
            (ReceivePhase::Export, true) => {
                self.phase = ReceivePhase::Flush;
                todo.push(ReceiveAction::CloseEndpoint);
            },
            (ReceivePhase::Flush, true) => {
                self.phase = ReceivePhase::Done;
                todo.push(ReceiveAction::Report);
                todo.push(ReceiveAction::RemoveStore);
            },
        }
        assert(todo@ =~= want);
        todo
    }
}

/// The step that is being taken after the outcomes `oks`.
pub open spec fn receive_phase(oks: Seq<bool>) -> ReceivePhase
    decreases oks.len(),
{
    if oks.len() == 0 {
        ReceivePhase::Connect
    } else {
        receive_next(receive_phase(oks.drop_last()), oks.last()).0
    }
}

/// Everything that was to be done for the outcomes `oks`.
pub open spec fn receive_record(oks: Seq<bool>) -> Seq<ReceiveAction>
    decreases oks.len(),
{
    if oks.len() == 0 {
        Seq::empty()
    } else {
        receive_record(oks.drop_last()) + receive_next(
            receive_phase(oks.drop_last()),
            oks.last(),
        ).1
    }
}

/// An interrupted download can be resumed: the scratch directory is removed, and
/// the user told of what was received, exactly where all has arrived. Where
/// anything failed, what was downloaded is kept.
pub proof fn law_failure_keeps_download(oks: Seq<bool>)
    ensures
        ({
            let done = traces::one(receive_phase(oks) == ReceivePhase::Done);
            let failed = traces::one(receive_phase(oks) == ReceivePhase::Failed);
            &&& traces::times(receive_record(oks), ReceiveAction::RemoveStore) == done
            &&& traces::times(receive_record(oks), ReceiveAction::Report) == done
            &&& traces::times(receive_record(oks), ReceiveAction::Fail) == failed
        }),
    decreases oks.len(),
{
    if oks.len() > 0 {
        let before = oks.drop_last();
        let added = receive_next(receive_phase(before), oks.last()).1;
        law_failure_keeps_download(before);
        traces::lemma_times_concat(receive_record(before), added, ReceiveAction::RemoveStore);
        traces::lemma_times_concat(receive_record(before), added, ReceiveAction::Report);
        traces::lemma_times_concat(receive_record(before), added, ReceiveAction::Fail);
        traces::lemma_times_short(added, ReceiveAction::RemoveStore);
        traces::lemma_times_short(added, ReceiveAction::Report);
        traces::lemma_times_short(added, ReceiveAction::Fail);
    }
}

/// All has arrived exactly where each of the five steps went well.
pub proof fn law_received_after_all(oks: Seq<bool>)
    requires
        oks.len() >= 5,
    ensures
        receive_phase(oks) == ReceivePhase::Done <==> forall|i: int| 0 <= i < 5 ==> oks[i],
    decreases oks.len(),
{
    let before = oks.drop_last();
    if oks.len() > 5 {
        law_received_after_all(before);
        assert(forall|i: int| 0 <= i < 5 ==> before[i] == oks[i]);
        lemma_advances(before);
    } else {
        reveal_with_fuel(receive_phase, 6);
        let b3 = before.drop_last();
        let b2 = b3.drop_last();
        let b1 = b2.drop_last();
        assert(oks[4] == oks.last());
        assert(oks[3] == before.last());
        assert(oks[2] == b3.last());
        assert(oks[1] == b2.last());
        assert(oks[0] == b1.last());
        assert(b1.drop_last().len() == 0);
    }
}

/// Where it is not over, each step so far led to the next.
proof fn lemma_advances(oks: Seq<bool>)
    ensures
        match receive_phase(oks) {
            ReceivePhase::Connect => oks.len() == 0,
            ReceivePhase::Fetch => oks.len() == 1,
            ReceivePhase::Rebuild => oks.len() == 2,
            ReceivePhase::Export => oks.len() == 3,
            ReceivePhase::Flush => oks.len() == 4,
            _ => true,
        },
    decreases oks.len(),
{
    if oks.len() > 0 {
        lemma_advances(oks.drop_last());
    }
}

/// The endpoint is closed once, and exactly where the files were written.
pub proof fn law_endpoint_is_closed_after_export(oks: Seq<bool>)
    ensures
        traces::times(receive_record(oks), ReceiveAction::CloseEndpoint) == traces::one(
            traces::well(oks, 4),
        ),
        receive_phase(oks) == ReceivePhase::Done <==> traces::well(oks, 5),
        receive_phase(oks) == ReceivePhase::Flush ==> oks.len() == 4 && traces::well(oks, 4),
        oks.len() <= 4 && traces::well(oks, oks.len()) ==> receive_phase(oks) != ReceivePhase::Failed
            && receive_phase(oks) != ReceivePhase::Done,
        receive_phase(oks) != ReceivePhase::Failed && receive_phase(oks) != ReceivePhase::Done
            ==> oks.len() <= 4 && traces::well(oks, oks.len()),
    decreases oks.len(),
{
    if oks.len() > 0 {
        let before = oks.drop_last();
        let added = receive_next(receive_phase(before), oks.last()).1;
        law_endpoint_is_closed_after_export(before);
        lemma_advances(before);
        traces::lemma_times_concat(receive_record(before), added, ReceiveAction::CloseEndpoint);
        traces::lemma_times_short(added, ReceiveAction::CloseEndpoint);
        traces::lemma_well_more(oks, 4);
        traces::lemma_well_more(oks, 5);
        traces::lemma_well_more(oks, oks.len());
    }
}

/// What was received is reported before the scratch directory is removed.
pub proof fn law_reported_before_removed(phase: ReceivePhase, ok: bool)
    ensures
        ({
            let todo = receive_next(phase, ok).1;
            todo.contains(ReceiveAction::Report) || todo.contains(ReceiveAction::RemoveStore)
                ==> todo == seq![ReceiveAction::Report, ReceiveAction::RemoveStore]
        }),
{
}

/// A transfer is received step by step: the sender is connected to, everything fetched,
/// the collection read, the files written and the store flushed, each once the step
/// before it went well.
pub proof fn law_received_step_by_step(oks: Seq<bool>)
    ensures
        receive_phase(oks) == ReceivePhase::Connect <==> oks.len() == 0,
        receive_phase(oks) == ReceivePhase::Fetch <==> oks.len() == 1 && traces::well(oks, 1),
        receive_phase(oks) == ReceivePhase::Rebuild <==> oks.len() == 2 && traces::well(oks, 2),
        receive_phase(oks) == ReceivePhase::Export <==> oks.len() == 3 && traces::well(oks, 3),
        receive_phase(oks) == ReceivePhase::Flush <==> oks.len() == 4 && traces::well(oks, 4),
        receive_phase(oks) == ReceivePhase::Done <==> traces::well(oks, 5),
    decreases oks.len(),
{
    if oks.len() > 0 {
        law_received_step_by_step(oks.drop_last());
        traces::lemma_well_more(oks, 1);
        traces::lemma_well_more(oks, 2);
        traces::lemma_well_more(oks, 3);
        traces::lemma_well_more(oks, 4);
        traces::lemma_well_more(oks, 5);
    }
}

} // verus!
