//! Offering a file to a paired contact, step by step.
//!
//! Each step is outside work that succeeds or fails. The sender says what is to be
//! done after it, in order, and which step comes next.

use vstd::prelude::*;

use crate::front::Front;
use crate::traces;

verus! {

/// The step that is being taken.
#[derive(Debug, Clone, Copy, PartialEq, Eq, Structural)]
pub enum SendPhase {
    /// Is there such a file or folder?
    CheckPath,
    /// Read the contact book.
    LoadBook,
    /// Find the contact, and read its endpoint id.
    FindContact,
    /// Import the file or folder, and begin to serve it.
    Prepare,
    /// Read the name of this machine.
    LoadConfig,
    /// Offer it to the contact, until they have it.
    Offer,
    /// Read the contact book again, to note that the contact was seen.
    Record,
    /// It has been delivered.
    Done,
    /// It has not been delivered, or could not be noted.
    Failed,
}

/// What is to be done after a step.
#[derive(Debug, Clone, Copy, PartialEq, Eq, Structural)]
pub enum SendAction {
    /// Tell the user that the file is being prepared.
    SayPreparing,
    /// Tell the user that the file is being offered.
    SayOffering,
    /// Tell the user that the contact has it.
    SayDelivered,
    /// Note in the contact book that the contact was seen.
    TouchContact,
    /// Store the contact book.
    SaveBook,
    /// Stop serving.
    Shutdown,
    /// Remove the scratch directory.
    RemoveStore,
    /// End with the error of the step.
    Fail,
}

/// What follows from a step that went well or not: the next step, and what is to
/// be done. A contact book that cannot be read after the delivery is an error at a
/// terminal, and is passed over on the desktop.
pub open spec fn send_next(front: Front, phase: SendPhase, ok: bool) -> (
    SendPhase,
    Seq<SendAction>,
) {
    let failed = (SendPhase::Failed, seq![SendAction::Fail]);
    match phase {
        SendPhase::CheckPath => if ok {
            (SendPhase::LoadBook, seq![])
        } else {
            failed
        },
        SendPhase::LoadBook => if ok {
            (SendPhase::FindContact, seq![])
        } else {
            failed
        },
        SendPhase::FindContact => if ok {
            (SendPhase::Prepare, seq![SendAction::SayPreparing])
        } else {
            failed
        },
        SendPhase::Prepare => if ok {
            (SendPhase::LoadConfig, seq![])
        } else {
            failed
        },
        SendPhase::LoadConfig => if ok {
            (SendPhase::Offer, seq![SendAction::SayOffering])
        } else {
            failed
        },
        SendPhase::Offer => if !ok {
            (
                SendPhase::Failed,
                seq![SendAction::Shutdown, SendAction::RemoveStore, SendAction::Fail],
            )
        } else if front == Front::Terminal {
            (SendPhase::Record, seq![SendAction::SayDelivered])
        } else {
            (SendPhase::Record, seq![])
        },
        SendPhase::Record => match (front, ok) {
            (Front::Terminal, true) => (
                SendPhase::Done,
                seq![
                    SendAction::TouchContact,
                    SendAction::SaveBook,
                    SendAction::Shutdown,
                    SendAction::RemoveStore,
                ],
            ),
            (Front::Terminal, false) => failed,
            (Front::Desktop, true) => (
                SendPhase::Done,
                seq![
                    SendAction::TouchContact,
                    SendAction::SaveBook,
                    SendAction::Shutdown,
                    SendAction::RemoveStore,
                    SendAction::SayDelivered,
                ],
            ),
            (Front::Desktop, false) => (
                SendPhase::Done,
                seq![SendAction::Shutdown, SendAction::RemoveStore, SendAction::SayDelivered],
            ),
        },
        _ => (phase, seq![]),
    }
}

/// A file or folder on its way to a contact.
#[derive(Debug)]
pub struct ContactSend {
    front: Front,
    phase: SendPhase,
}

impl ContactSend {
    /// Where the user sits.
    pub closed spec fn at(&self) -> Front {
        self.front
    }

    /// The step that is being taken.
    pub closed spec fn doing(&self) -> SendPhase {
        self.phase
    }

    /// The first step is to look for the file or folder.
    pub fn new(front: Front) -> (r: Self)
        ensures
            r.at() == front,
            r.doing() == SendPhase::CheckPath,
    {
        ContactSend { front, phase: SendPhase::CheckPath }
    }

    /// The step that is being taken.
    pub fn phase(&self) -> (r: SendPhase)
        ensures
            r == self.doing(),
    {
        self.phase
    }

    /// Takes the outcome of the step, and says what is to be done, in order.
    pub fn step(&mut self, ok: bool) -> (r: Vec<SendAction>)
        ensures
            final(self).at() == old(self).at(),
            final(self).doing() == send_next(old(self).at(), old(self).doing(), ok).0,
            r@ == send_next(old(self).at(), old(self).doing(), ok).1,
    {
        let ghost want = send_next(self.front, self.phase, ok).1;
        let terminal = match self.front {
            Front::Terminal => true,
            Front::Desktop => false,
        };
        let mut todo: Vec<SendAction> = Vec::new();
        match (self.phase, ok) {
            (SendPhase::CheckPath, true) => {
                self.phase = SendPhase::LoadBook;
            },
            (SendPhase::LoadBook, true) => {
                self.phase = SendPhase::FindContact;
            },
            (SendPhase::FindContact, true) => {
                self.phase = SendPhase::Prepare;
                todo.push(SendAction::SayPreparing);
            },
            (SendPhase::Prepare, true) => {
                self.phase = SendPhase::LoadConfig;
            },
            (SendPhase::LoadConfig, true) => {
                self.phase = SendPhase::Offer;
                todo.push(SendAction::SayOffering);
            },
            (SendPhase::Offer, true) => {
                self.phase = SendPhase::Record;
                if terminal {
                    todo.push(SendAction::SayDelivered);
                }
            },
            (SendPhase::Offer, false) => {
                self.phase = SendPhase::Failed;
                todo.push(SendAction::Shutdown);
                todo.push(SendAction::RemoveStore);
                todo.push(SendAction::Fail);
            },
            (SendPhase::Record, _) => {
                if ok {
                    todo.push(SendAction::TouchContact);
                    todo.push(SendAction::SaveBook);
                }
                if ok || !terminal {
                    self.phase = SendPhase::Done;
                    todo.push(SendAction::Shutdown);
                    todo.push(SendAction::RemoveStore);
                    if !terminal {
                        todo.push(SendAction::SayDelivered);
                    }
                } else {
                    self.phase = SendPhase::Failed;
                    todo.push(SendAction::Fail);
                }
            },
            (SendPhase::Done, _) | (SendPhase::Failed, _) => {},
            (_, false) => {
                self.phase = SendPhase::Failed;
                todo.push(SendAction::Fail);
            },
        }
        assert(todo@ =~= want);
        todo
    }
}

/// The step that is being taken after the outcomes `oks`.
pub open spec fn send_phase(front: Front, oks: Seq<bool>) -> SendPhase
    decreases oks.len(),
{
    if oks.len() == 0 {
        SendPhase::CheckPath
    } else {
        send_next(front, send_phase(front, oks.drop_last()), oks.last()).0
    }
}

/// Everything that was to be done for the outcomes `oks`.
pub open spec fn send_record(front: Front, oks: Seq<bool>) -> Seq<SendAction>
    decreases oks.len(),
{
    if oks.len() == 0 {
        Seq::empty()
    } else {
        send_record(front, oks.drop_last()) + send_next(
            front,
            send_phase(front, oks.drop_last()),
            oks.last(),
        ).1
    }
}

/// How often `a` was to be done for the outcomes `oks`.
pub open spec fn send_times(front: Front, oks: Seq<bool>, a: SendAction) -> nat {
    traces::times(send_record(front, oks), a)
}

/// The place of a step in the order of the steps.
pub open spec fn rank(phase: SendPhase) -> nat {
    match phase {
        SendPhase::CheckPath => 0,
        SendPhase::LoadBook => 1,
        SendPhase::FindContact => 2,
        SendPhase::Prepare => 3,
        SendPhase::LoadConfig => 4,
        SendPhase::Offer => 5,
        SendPhase::Record => 6,
        SendPhase::Done => 7,
        SendPhase::Failed => 7,
    }
}

/// A step is taken only after all the steps before it, in order, each with success.
pub proof fn law_steps_in_order(front: Front, oks: Seq<bool>)
    requires
        send_phase(front, oks) != SendPhase::Done,
        send_phase(front, oks) != SendPhase::Failed,
    ensures
        rank(send_phase(front, oks)) == oks.len(),
        forall|i: int| 0 <= i < oks.len() ==> oks[i],
    decreases oks.len(),
{
    if oks.len() > 0 {
        law_steps_in_order(front, oks.drop_last());
        assert forall|i: int| 0 <= i < oks.len() implies oks[i] by {
            if i < oks.len() - 1 {
                assert(oks.drop_last()[i]);
            }
        }
    }
}

/// It is over after no more than seven steps.
pub proof fn law_sending_ends(front: Front, oks: Seq<bool>)
    requires
        oks.len() >= 7,
    ensures
        send_phase(front, oks) == SendPhase::Done || send_phase(front, oks) == SendPhase::Failed,
{
    if send_phase(front, oks) != SendPhase::Done && send_phase(front, oks) != SendPhase::Failed {
        law_steps_in_order(front, oks);
    }
}

/// One more step adds what follows from it.
proof fn lemma_send_times(front: Front, oks: Seq<bool>, a: SendAction)
    requires
        oks.len() > 0,
    ensures
        ({
            let before = oks.drop_last();
            let added = send_next(front, send_phase(front, before), oks.last()).1;
            &&& send_times(front, oks, a) == send_times(front, before, a) + traces::times(added, a)
            &&& traces::times(added, a) == traces::one(traces::is_at(added, 0, a)) + traces::one(
                traces::is_at(added, 1, a),
            ) + traces::one(traces::is_at(added, 2, a)) + traces::one(traces::is_at(added, 3, a))
                + traces::one(traces::is_at(added, 4, a))
        }),
{
    let before = oks.drop_last();
    let added = send_next(front, send_phase(front, before), oks.last()).1;
    traces::lemma_times_concat(send_record(front, before), added, a);
    traces::lemma_times_short(added, a);
}

/// What was prepared is cleaned up no more than once, all of it together: where the
/// offer failed, and where it was delivered and that was noted. While the file is
/// offered it is still served.
pub proof fn law_cleaned_up_once(front: Front, oks: Seq<bool>)
    ensures
        ({
            let stopped = send_times(front, oks, SendAction::Shutdown);
            let phase = send_phase(front, oks);
            &&& stopped == send_times(front, oks, SendAction::RemoveStore)
            &&& stopped <= 1
            &&& phase == SendPhase::Done ==> stopped == 1
            &&& phase != SendPhase::Done && phase != SendPhase::Failed ==> stopped == 0
            &&& oks.len() >= 6 && (forall|i: int| 0 <= i < 5 ==> oks[i]) && !oks[5] ==> stopped == 1
        }),
    decreases oks.len(),
{
    if oks.len() > 0 {
        let before = oks.drop_last();
        law_cleaned_up_once(front, before);
        lemma_send_times(front, oks, SendAction::Shutdown);
        lemma_send_times(front, oks, SendAction::RemoveStore);
        if oks.len() >= 6 && (forall|i: int| 0 <= i < 5 ==> oks[i]) && !oks[5] {
            if oks.len() == 6 {
                lemma_all_well(front, before);
            } else {
                assert(forall|i: int| 0 <= i < 5 ==> before[i] == oks[i]);
            }
        }
    }
}

/// Where all went well so far, the step is the next one.
proof fn lemma_all_well(front: Front, oks: Seq<bool>)
    requires
        oks.len() <= 6,
        forall|i: int| 0 <= i < oks.len() ==> oks[i],
    ensures
        rank(send_phase(front, oks)) == oks.len(),
    decreases oks.len(),
{
    if oks.len() > 0 {
        lemma_all_well(front, oks.drop_last());
    }
}

/// The contact counts as seen only where the offer was delivered, and the contact
/// book is stored whenever that changes it.
pub proof fn law_seen_after_delivery(front: Front, oks: Seq<bool>)
    ensures
        ({
            let touched = send_times(front, oks, SendAction::TouchContact);
            &&& touched == send_times(front, oks, SendAction::SaveBook)
            &&& touched <= 1
            &&& touched == 1 ==> send_phase(front, oks) == SendPhase::Done
        }),
    decreases oks.len(),
{
    if oks.len() > 0 {
        law_seen_after_delivery(front, oks.drop_last());
        lemma_send_times(front, oks, SendAction::TouchContact);
        lemma_send_times(front, oks, SendAction::SaveBook);
    }
}

/// The user is told of a failure once where the sending has failed, and never
/// where it has not; on the desktop they are told of the delivery once exactly
/// where it is done.
pub proof fn law_told_how_it_ended(front: Front, oks: Seq<bool>)
    ensures
        send_times(front, oks, SendAction::Fail) == traces::one(
            send_phase(front, oks) == SendPhase::Failed,
        ),
        front == Front::Desktop ==> send_times(front, oks, SendAction::SayDelivered)
            == traces::one(send_phase(front, oks) == SendPhase::Done),
    decreases oks.len(),
{
    if oks.len() > 0 {
        law_told_how_it_ended(front, oks.drop_last());
        lemma_send_times(front, oks, SendAction::Fail);
        lemma_send_times(front, oks, SendAction::SayDelivered);
    }
}

/// On the desktop, sending is done exactly where the first six steps went well:
/// the contact book that cannot be read after the delivery changes nothing.
pub proof fn law_desktop_done(oks: Seq<bool>)
    requires
        oks.len() == 7,
    ensures
        send_phase(Front::Desktop, oks) == SendPhase::Done <==> forall|i: int|
            0 <= i < 6 ==> oks[i],
{
    let front = Front::Desktop;
    let before = oks.drop_last();
    if forall|i: int| 0 <= i < 6 ==> oks[i] {
        assert forall|i: int| 0 <= i < before.len() implies before[i] by {
            assert(oks[i]);
        }
        lemma_all_well(front, before);
    }
    if send_phase(front, oks) == SendPhase::Done {
        if send_phase(front, before) == SendPhase::Done {
            lemma_not_done_early(front, before);
        }
        law_steps_in_order(front, before);
        assert forall|i: int| 0 <= i < 6 implies oks[i] by {
            assert(before[i]);
        }
    }
}

/// It is not done before the seventh step.
proof fn lemma_not_done_early(front: Front, oks: Seq<bool>)
    requires
        oks.len() <= 6,
    ensures
        send_phase(front, oks) != SendPhase::Done,
    decreases oks.len(),
{
    if oks.len() > 0 {
        let before = oks.drop_last();
        lemma_not_done_early(front, before);
        if send_phase(front, before) != SendPhase::Failed {
            law_steps_in_order(front, before);
        }
    }
}

/// Where it is not over, the outcomes so far are as many as steps were taken, and good.
proof fn lemma_place(front: Front, oks: Seq<bool>)
    ensures
        ({
            let phase = send_phase(front, oks);
            let over = phase == SendPhase::Done || phase == SendPhase::Failed;
            &&& !over ==> rank(phase) == oks.len() && traces::well(oks, oks.len())
            &&& traces::well(oks, oks.len()) && oks.len() <= 6 ==> rank(phase) == oks.len()
            &&& over && oks.len() <= 6 ==> !traces::well(oks, oks.len())
        }),
{
    let phase = send_phase(front, oks);
    if phase != SendPhase::Done && phase != SendPhase::Failed {
        law_steps_in_order(front, oks);
    }
    if traces::well(oks, oks.len()) && oks.len() <= 6 {
        lemma_all_well(front, oks);
    }
}

/// What one step adds to the counts.
#[verifier::rlimit(40)]
proof fn lemma_step_says(front: Front, phase: SendPhase, ok: bool)
    ensures
        ({
            let todo = send_next(front, phase, ok).1;
            let desk = front == Front::Desktop;
            &&& traces::times(todo, SendAction::SayPreparing) == traces::one(
                phase == SendPhase::FindContact && ok,
            )
            &&& traces::times(todo, SendAction::SayOffering) == traces::one(
                phase == SendPhase::LoadConfig && ok,
            )
            &&& traces::times(todo, SendAction::SayDelivered) == if desk {
                traces::one(phase == SendPhase::Record)
            } else {
                traces::one(phase == SendPhase::Offer && ok)
            }
            &&& traces::times(todo, SendAction::TouchContact) == traces::one(
                phase == SendPhase::Record && ok,
            )
        }),
{
    let todo = send_next(front, phase, ok).1;
    traces::lemma_times_short(todo, SendAction::SayPreparing);
    traces::lemma_times_short(todo, SendAction::SayOffering);
    traces::lemma_times_short(todo, SendAction::SayDelivered);
    traces::lemma_times_short(todo, SendAction::TouchContact);
}

/// One more step adds what follows from it.
proof fn lemma_send_adds(front: Front, oks: Seq<bool>, a: SendAction)
    requires
        oks.len() > 0,
    ensures
        send_times(front, oks, a) == send_times(front, oks.drop_last(), a) + traces::times(
            send_next(front, send_phase(front, oks.drop_last()), oks.last()).1,
            a,
        ),
{
    lemma_send_times(front, oks, a);
}

/// Outcomes that are all good are good up to any place.
proof fn lemma_well_shorter(oks: Seq<bool>, n: nat)
    ensures
        oks.len() >= n && traces::well(oks, oks.len()) ==> traces::well(oks, n),
        oks.len() + 1 == n ==> (traces::well(oks, (n - 1) as nat) <==> traces::well(oks, oks.len())),
{
}

/// What the user is told goes with how far it came: that the file is prepared, once the
/// contact was found; that it is offered, once it is prepared; that it was delivered,
/// once the contact has it. The contact counts as seen exactly where every step, the
/// reading of the contact book too, went well.
#[verifier::rlimit(40)]
pub proof fn law_told_how_far_it_came(front: Front, oks: Seq<bool>)
    ensures
        send_times(front, oks, SendAction::SayPreparing) == traces::one(traces::well(oks, 3)),
        send_times(front, oks, SendAction::SayOffering) == traces::one(traces::well(oks, 5)),
        send_times(front, oks, SendAction::SayDelivered) == if front == Front::Terminal {
            traces::one(traces::well(oks, 6))
        } else {
            traces::one(traces::well(oks, 6) && oks.len() >= 7)
        },
        send_times(front, oks, SendAction::TouchContact) == traces::one(traces::well(oks, 7)),
    decreases oks.len(),
{
    if oks.len() > 0 {
        let before = oks.drop_last();
        law_told_how_far_it_came(front, before);
        lemma_place(front, before);
        lemma_step_says(front, send_phase(front, before), oks.last());
        lemma_send_adds(front, oks, SendAction::SayPreparing);
        lemma_send_adds(front, oks, SendAction::SayOffering);
        lemma_send_adds(front, oks, SendAction::SayDelivered);
        lemma_send_adds(front, oks, SendAction::TouchContact);
        traces::lemma_well_more(oks, 3);
        traces::lemma_well_more(oks, 5);
        traces::lemma_well_more(oks, 6);
        traces::lemma_well_more(oks, 7);
        lemma_well_shorter(before, 3);
        lemma_well_shorter(before, 5);
        lemma_well_shorter(before, 6);
        lemma_well_shorter(before, 7);
    }
}

/// What belongs together is done together, and in this order: the contact is noted and
/// then the book stored; serving is stopped and then the scratch directory removed.
pub proof fn law_done_in_order(front: Front, phase: SendPhase, ok: bool)
    ensures
        ({
            let todo = send_next(front, phase, ok).1;
            &&& todo.contains(SendAction::TouchContact) || todo.contains(SendAction::SaveBook)
                ==> todo.len() >= 4 && todo[0] == SendAction::TouchContact && todo[1]
                == SendAction::SaveBook && todo[2] == SendAction::Shutdown
            &&& todo.contains(SendAction::Shutdown) || todo.contains(SendAction::RemoveStore)
                ==> exists|k: int|
                0 <= k < todo.len() - 1 && #[trigger] todo[k] == SendAction::Shutdown && todo[k + 1]
                    == SendAction::RemoveStore
            &&& todo.contains(SendAction::Fail) ==> todo.last() == SendAction::Fail
        }),
{
    let todo = send_next(front, phase, ok).1;
    if todo.len() >= 2 && todo[0] == SendAction::Shutdown {
        assert(todo[0int + 1] == SendAction::RemoveStore);
    }
    if todo.len() >= 4 {
        assert(todo[2] == SendAction::Shutdown);
        assert(todo[2int + 1] == SendAction::RemoveStore);
    }
}

} // verus!
