//! Changing the contact book, step by step: renaming a contact, or removing one.

use vstd::prelude::*;

use crate::traces;

verus! {

/// The step that is being taken.
#[derive(Debug, Clone, Copy, PartialEq, Eq, Structural)]
pub enum EditPhase {
    /// Read the contact book.
    Load,
    /// Find the contact, and change it in the book that was read.
    Change,
    /// Store the book.
    Save,
    /// The book is changed.
    Done,
    /// A step failed.
    Failed,
}

/// What is to be done after a step.
#[derive(Debug, Clone, Copy, PartialEq, Eq, Structural)]
pub enum EditAction {
    /// Tell the user what was changed.
    Tell,
    /// End with the error of the step.
    Fail,
}

/// What follows from a step that went well or not: the next step, and what is to
/// be done.
pub open spec fn edit_next(phase: EditPhase, ok: bool) -> (EditPhase, Seq<EditAction>) {
    match (phase, ok) {
        (EditPhase::Done, _) => (phase, seq![]),
        (EditPhase::Failed, _) => (phase, seq![]),
        (_, false) => (EditPhase::Failed, seq![EditAction::Fail]),
        (EditPhase::Load, true) => (EditPhase::Change, seq![]),
        (EditPhase::Change, true) => (EditPhase::Save, seq![]),
        (EditPhase::Save, true) => (EditPhase::Done, seq![EditAction::Tell]),
    }
}

/// A change of the contact book.
#[derive(Debug)]
pub struct BookEdit {
    phase: EditPhase,
}

impl BookEdit {
    /// The step that is being taken.
    pub closed spec fn doing(&self) -> EditPhase {
        self.phase
    }

    /// The first step is to read the book.
    pub fn new() -> (r: Self)
        ensures
            r.doing() == EditPhase::Load,
    {
        BookEdit { phase: EditPhase::Load }
    }

    /// The step that is being taken.
    pub fn phase(&self) -> (r: EditPhase)
        ensures
            r == self.doing(),
    {
        self.phase
    }

    /// Takes the outcome of the step, and says what is to be done, in order.
    pub fn step(&mut self, ok: bool) -> (r: Vec<EditAction>)
        ensures
            final(self).doing() == edit_next(old(self).doing(), ok).0,
            r@ == edit_next(old(self).doing(), ok).1,
    {
        let ghost want = edit_next(self.phase, ok).1;
        let mut todo: Vec<EditAction> = Vec::new();
        match (self.phase, ok) {
            (EditPhase::Done, _) | (EditPhase::Failed, _) => {},
            (_, false) => {
                self.phase = EditPhase::Failed;
                todo.push(EditAction::Fail);
            },
            (EditPhase::Load, true) => {
                self.phase = EditPhase::Change;
            },
            (EditPhase::Change, true) => {
                self.phase = EditPhase::Save;
            },
            (EditPhase::Save, true) => {
                self.phase = EditPhase::Done;
                todo.push(EditAction::Tell);
            },
        }
        assert(todo@ =~= want);
        todo
    }
}

/// The step that is being taken after the outcomes `oks`.
pub open spec fn edit_phase(oks: Seq<bool>) -> EditPhase
    decreases oks.len(),
{
    if oks.len() == 0 {
        EditPhase::Load
    } else {
        edit_next(edit_phase(oks.drop_last()), oks.last()).0
    }
}

/// Everything that was to be done for the outcomes `oks`.
pub open spec fn edit_record(oks: Seq<bool>) -> Seq<EditAction>
    decreases oks.len(),
{
    if oks.len() == 0 {
        Seq::empty()
    } else {
        edit_record(oks.drop_last()) + edit_next(edit_phase(oks.drop_last()), oks.last()).1
    }
}

/// A contact that is not found leaves the stored book alone: the book is stored only
/// after the contact was found and changed in it.
pub proof fn law_stored_after_change(oks: Seq<bool>)
    ensures
        edit_phase(oks) == EditPhase::Load ==> oks.len() == 0,
        edit_phase(oks) == EditPhase::Change ==> oks == seq![true],
        edit_phase(oks) == EditPhase::Save ==> oks == seq![true, true],
        oks.len() >= 2 && !oks[1] ==> edit_phase(oks) == EditPhase::Failed,
    decreases oks.len(),
{
    if oks.len() > 0 {
        law_stored_after_change(oks.drop_last());
        if oks.len() == 2 {
            reveal_with_fuel(edit_phase, 3);
        }
    }
}

/// The user is told of the change once, and exactly where the book was stored; they
/// are told of a failure exactly where there was one.
pub proof fn law_told_after_stored(oks: Seq<bool>)
    ensures
        edit_phase(oks) == EditPhase::Done ==> oks.len() >= 3 && oks.take(3) == seq![
            true,
            true,
            true,
        ],
        traces::times(edit_record(oks), EditAction::Tell) == traces::one(
            edit_phase(oks) == EditPhase::Done,
        ),
        traces::times(edit_record(oks), EditAction::Fail) == traces::one(
            edit_phase(oks) == EditPhase::Failed,
        ),
    decreases oks.len(),
{
    if oks.len() > 0 {
        let before = oks.drop_last();
        let added = edit_next(edit_phase(before), oks.last()).1;
        law_told_after_stored(before);
        law_stored_after_change(before);
        traces::lemma_times_concat(edit_record(before), added, EditAction::Tell);
        traces::lemma_times_concat(edit_record(before), added, EditAction::Fail);
        traces::lemma_times_short(added, EditAction::Tell);
        traces::lemma_times_short(added, EditAction::Fail);
        if edit_phase(oks) == EditPhase::Done {
            if edit_phase(before) == EditPhase::Done {
                assert(oks.take(3) =~= before.take(3));
            } else {
                assert(oks =~= before.push(true));
                assert(oks.take(3) =~= seq![true, true, true]);
            }
        }
    }
}

/// What the user is told of a contact that was removed.
pub fn removed_line(id: &str, name: &str) -> (r: String)
    ensures
        r@ == "👋  removed contact "@ + id@ + " ("@ + name@ + ")"@,
{
    let mut out = "👋  removed contact ".to_owned();
    out.append(id);
    out.append(" (");
    out.append(name);
    out.append(")");
    out
}

/// A change goes step by step: the book is read, changed and stored, each once the step
/// before it went well; the change is made exactly where all three did.
pub proof fn law_changed_step_by_step(oks: Seq<bool>)
    ensures
        edit_phase(oks) == EditPhase::Load <==> oks.len() == 0,
        edit_phase(oks) == EditPhase::Change <==> oks.len() == 1 && traces::well(oks, 1),
        edit_phase(oks) == EditPhase::Save <==> oks.len() == 2 && traces::well(oks, 2),
        edit_phase(oks) == EditPhase::Done <==> traces::well(oks, 3),
    decreases oks.len(),
{
    if oks.len() > 0 {
        law_changed_step_by_step(oks.drop_last());
        traces::lemma_well_more(oks, 1);
        traces::lemma_well_more(oks, 2);
        traces::lemma_well_more(oks, 3);
    }
}

} // verus!
