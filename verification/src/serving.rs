//! Serving a file to whoever has the ticket or the code, and the one send that the
//! desktop keeps open.

use vstd::prelude::*;

use crate::names;
use crate::traces;

verus! {

/// The step that is being taken.
#[derive(Debug, Clone, Copy, PartialEq, Eq, Structural)]
pub enum ServePhase {
    /// Is there such a file or folder?
    CheckPath,
    /// Import the file or folder, and begin to serve it.
    Prepare,
    /// Wait until the code is redeemed.
    Rendezvous,
    /// Serve until the transfer is done, which the user tells by interrupting.
    Serve,
    /// Stop serving.
    Stop,
    /// All is over.
    Done,
    /// A step failed.
    Failed,
}

/// What is to be done after a step.
#[derive(Debug, Clone, Copy, PartialEq, Eq, Structural)]
pub enum ServeAction {
    /// Tell the user that the ticket holds no direct addresses.
    SayRelayOnly,
    /// Show the ticket.
    ShowTicket,
    /// Tell the user that the code was redeemed.
    SayRedeemed,
    /// Tell the user that serving ends.
    SayDone,
    /// Stop serving.
    Shutdown,
    /// Remove the scratch directory.
    RemoveStore,
    /// End with the error of the step.
    Fail,
}

/// What a user asked for.
#[derive(Debug, Clone, Copy, PartialEq, Eq, Structural)]
pub struct ServeRequest {
    /// Whether a short code is handed out in place of the ticket.
    pub by_code: bool,
    /// Whether the ticket names relays only.
    pub relay_only: bool,
}

/// What follows from a step that went well or not: the next step, and what is to
/// be done.
pub open spec fn serve_next(asked: ServeRequest, phase: ServePhase, ok: bool) -> (
    ServePhase,
    Seq<ServeAction>,
) {
    let failed = (ServePhase::Failed, seq![ServeAction::Fail]);
    match phase {
        ServePhase::CheckPath => if ok {
            (ServePhase::Prepare, seq![])
        } else {
            failed
        },
        ServePhase::Prepare => match (ok, asked.by_code, asked.relay_only) {
            (false, _, _) => failed,
            (true, true, true) => (ServePhase::Rendezvous, seq![ServeAction::SayRelayOnly]),
            (true, true, false) => (ServePhase::Rendezvous, seq![]),
            (true, false, true) => (
                ServePhase::Serve,
                seq![ServeAction::SayRelayOnly, ServeAction::ShowTicket],
            ),
            (true, false, false) => (ServePhase::Serve, seq![ServeAction::ShowTicket]),
        },
        ServePhase::Rendezvous => if ok {
            (ServePhase::Serve, seq![ServeAction::SayRedeemed])
        } else {
            (
                ServePhase::Failed,
                seq![ServeAction::Shutdown, ServeAction::RemoveStore, ServeAction::Fail],
            )
        },
        ServePhase::Serve => if ok {
            (ServePhase::Stop, seq![ServeAction::SayDone, ServeAction::Shutdown])
        } else {
            failed
        },
        ServePhase::Stop => if ok {
            (ServePhase::Done, seq![ServeAction::RemoveStore])
        } else {
            failed
        },
        _ => (phase, seq![]),
    }
}

/// A file or folder that is served at a terminal.
#[derive(Debug)]
pub struct Serving {
    asked: ServeRequest,
    phase: ServePhase,
}

impl Serving {
    /// What the user asked for.
    pub closed spec fn request(&self) -> ServeRequest {
        self.asked
    }

    /// The step that is being taken.
    pub closed spec fn doing(&self) -> ServePhase {
        self.phase
    }

    /// The first step is to look for the file or folder.
    pub fn new(asked: ServeRequest) -> (r: Self)
        ensures
            r.request() == asked,
            r.doing() == ServePhase::CheckPath,
    {
        Serving { asked, phase: ServePhase::CheckPath }
    }

    /// The step that is being taken.
    pub fn phase(&self) -> (r: ServePhase)
        ensures
            r == self.doing(),
    {
        self.phase
    }

    /// Takes the outcome of the step, and says what is to be done, in order.
    pub fn step(&mut self, ok: bool) -> (r: Vec<ServeAction>)
        ensures
            final(self).request() == old(self).request(),
            final(self).doing() == serve_next(old(self).request(), old(self).doing(), ok).0,
            r@ == serve_next(old(self).request(), old(self).doing(), ok).1,
    {
        let ghost want = serve_next(self.asked, self.phase, ok).1;
        let mut todo: Vec<ServeAction> = Vec::new();
        match (self.phase, ok) {
            (ServePhase::CheckPath, true) => {
                self.phase = ServePhase::Prepare;
            },
            (ServePhase::Prepare, true) => {
                if self.asked.relay_only {
                    todo.push(ServeAction::SayRelayOnly);
                }
                if self.asked.by_code {
                    self.phase = ServePhase::Rendezvous;
                } else {
                    self.phase = ServePhase::Serve;
                    todo.push(ServeAction::ShowTicket);
                }
            },
            (ServePhase::Rendezvous, true) => {
                self.phase = ServePhase::Serve;
                todo.push(ServeAction::SayRedeemed);
            },
            (ServePhase::Rendezvous, false) => {
                self.phase = ServePhase::Failed;
                todo.push(ServeAction::Shutdown);
                todo.push(ServeAction::RemoveStore);
                todo.push(ServeAction::Fail);
            },
            (ServePhase::Serve, true) => {
                self.phase = ServePhase::Stop;
                todo.push(ServeAction::SayDone);
                todo.push(ServeAction::Shutdown);
            },
            (ServePhase::Stop, true) => {
                self.phase = ServePhase::Done;
                todo.push(ServeAction::RemoveStore);
            },
            (ServePhase::Done, _) | (ServePhase::Failed, _) => {},
            (_, false) => {
                self.phase = ServePhase::Failed;
                todo.push(ServeAction::Fail);
            },
        }
        assert(todo@ =~= want);
        todo
    }
}

/// The step that is being taken after the outcomes `oks`.
pub open spec fn serve_phase(asked: ServeRequest, oks: Seq<bool>) -> ServePhase
    decreases oks.len(),
{
    if oks.len() == 0 {
        ServePhase::CheckPath
    } else {
        serve_next(asked, serve_phase(asked, oks.drop_last()), oks.last()).0
    }
}

/// Everything that was to be done for the outcomes `oks`.
pub open spec fn serve_record(asked: ServeRequest, oks: Seq<bool>) -> Seq<ServeAction>
    decreases oks.len(),
{
    if oks.len() == 0 {
        Seq::empty()
    } else {
        serve_record(asked, oks.drop_last()) + serve_next(
            asked,
            serve_phase(asked, oks.drop_last()),
            oks.last(),
        ).1
    }
}

/// How often `a` was to be done for the outcomes `oks`.
pub open spec fn serve_times(asked: ServeRequest, oks: Seq<bool>, a: ServeAction) -> nat {
    traces::times(serve_record(asked, oks), a)
}

/// One more step adds what follows from it.
proof fn lemma_serve_times(asked: ServeRequest, oks: Seq<bool>, a: ServeAction)
    requires
        oks.len() > 0,
    ensures
        ({
            let before = oks.drop_last();
            let added = serve_next(asked, serve_phase(asked, before), oks.last()).1;
            &&& serve_times(asked, oks, a) == serve_times(asked, before, a) + traces::times(
                added,
                a,
            )
            &&& traces::times(added, a) == traces::one(traces::is_at(added, 0, a)) + traces::one(
                traces::is_at(added, 1, a),
            ) + traces::one(traces::is_at(added, 2, a)) + traces::one(traces::is_at(added, 3, a))
                + traces::one(traces::is_at(added, 4, a))
        }),
{
    let before = oks.drop_last();
    let added = serve_next(asked, serve_phase(asked, before), oks.last()).1;
    traces::lemma_times_concat(serve_record(asked, before), added, a);
    traces::lemma_times_short(added, a);
}

/// A file that is served was found and prepared, and its code, where one was asked
/// for, was redeemed: every step so far went well.
pub proof fn law_served_after_all(asked: ServeRequest, oks: Seq<bool>)
    requires
        serve_phase(asked, oks) != ServePhase::Done,
        serve_phase(asked, oks) != ServePhase::Failed,
    ensures
        forall|i: int| 0 <= i < oks.len() ==> oks[i],
        serve_phase(asked, oks) == ServePhase::Rendezvous ==> asked.by_code && oks.len() == 2,
        serve_phase(asked, oks) == ServePhase::Serve ==> oks.len() == if asked.by_code {
            3nat
        } else {
            2nat
        },
    decreases oks.len(),
{
    if oks.len() > 0 {
        law_served_after_all(asked, oks.drop_last());
        lemma_early(asked, oks.drop_last());
        assert forall|i: int| 0 <= i < oks.len() implies oks[i] by {
            if i < oks.len() - 1 {
                assert(oks.drop_last()[i]);
            }
        }
    }
}

/// How many steps come before the first two.
proof fn lemma_early(asked: ServeRequest, oks: Seq<bool>)
    ensures
        serve_phase(asked, oks) == ServePhase::CheckPath ==> oks.len() == 0,
        serve_phase(asked, oks) == ServePhase::Prepare ==> oks.len() == 1,
    decreases oks.len(),
{
    if oks.len() > 0 {
        lemma_early(asked, oks.drop_last());
    }
}

/// The scratch directory is removed only after serving was stopped, and no more
/// than once; where all went well, it is removed. The user sees the ticket only
/// where they did not ask for a code.
pub proof fn law_stopped_before_removed(asked: ServeRequest, oks: Seq<bool>)
    ensures
        ({
            let stopped = serve_times(asked, oks, ServeAction::Shutdown);
            let removed = serve_times(asked, oks, ServeAction::RemoveStore);
            let phase = serve_phase(asked, oks);
            &&& removed <= stopped <= 1
            &&& phase == ServePhase::Done ==> removed == 1
            &&& phase == ServePhase::Serve ==> stopped == 0
            &&& asked.by_code ==> serve_times(asked, oks, ServeAction::ShowTicket) == 0
        }),
    decreases oks.len(),
{
    if oks.len() > 0 {
        let before = oks.drop_last();
        law_stopped_before_removed(asked, before);
        lemma_stopped(asked, before);
        lemma_serve_times(asked, oks, ServeAction::Shutdown);
        lemma_serve_times(asked, oks, ServeAction::RemoveStore);
        lemma_serve_times(asked, oks, ServeAction::ShowTicket);
    }
}

/// How often serving was stopped, and the scratch directory removed, by the step.
proof fn lemma_stopped(asked: ServeRequest, oks: Seq<bool>)
    ensures
        ({
            let stopped = serve_times(asked, oks, ServeAction::Shutdown);
            let removed = serve_times(asked, oks, ServeAction::RemoveStore);
            let phase = serve_phase(asked, oks);
            &&& phase != ServePhase::Stop && phase != ServePhase::Done && phase
                != ServePhase::Failed ==> stopped == 0 && removed == 0
            &&& phase == ServePhase::Stop ==> stopped == 1 && removed == 0
        }),
    decreases oks.len(),
{
    if oks.len() > 0 {
        lemma_stopped(asked, oks.drop_last());
        lemma_serve_times(asked, oks, ServeAction::Shutdown);
        lemma_serve_times(asked, oks, ServeAction::RemoveStore);
    }
}

/// A code that nobody redeemed leaves nothing behind: serving is stopped, the
/// scratch directory is removed, and the user is told.
pub proof fn law_failed_rendezvous_cleans_up(asked: ServeRequest, oks: Seq<bool>)
    requires
        serve_phase(asked, oks) == ServePhase::Rendezvous,
    ensures
        serve_phase(asked, oks.push(false)) == ServePhase::Failed,
        serve_times(asked, oks.push(false), ServeAction::Shutdown) == 1,
        serve_times(asked, oks.push(false), ServeAction::RemoveStore) == 1,
        serve_times(asked, oks.push(false), ServeAction::Fail) == 1,
{
    let all = oks.push(false);
    assert(all.drop_last() == oks);
    lemma_stopped(asked, oks);
    lemma_told(asked, oks);
    lemma_serve_times(asked, all, ServeAction::Shutdown);
    lemma_serve_times(asked, all, ServeAction::RemoveStore);
    lemma_serve_times(asked, all, ServeAction::Fail);
}

/// The user is told of a failure exactly where there was one.
proof fn lemma_told(asked: ServeRequest, oks: Seq<bool>)
    ensures
        serve_times(asked, oks, ServeAction::Fail) == traces::one(
            serve_phase(asked, oks) == ServePhase::Failed,
        ),
    decreases oks.len(),
{
    if oks.len() > 0 {
        lemma_told(asked, oks.drop_last());
        lemma_serve_times(asked, oks, ServeAction::Fail);
    }
}

/// What happens to the open send.
pub enum SlotEvent<T> {
    /// A new send is begun; the flag says whether there is such a file or folder.
    Begin(bool),
    /// What was begun is ready, and kept open.
    Keep(T),
    /// The user stops it.
    Stop,
}

/// The open send after the event, and what was handed out to be shut down.
pub open spec fn slot_next<T>(current: Option<T>, e: SlotEvent<T>) -> (Option<T>, Option<T>) {
    match e {
        SlotEvent::Begin(exists) => if exists {
            (None, current)
        } else {
            (current, None)
        },
        SlotEvent::Keep(t) => (Some(t), None),
        SlotEvent::Stop => (None, current),
    }
}

/// The send that the desktop keeps open: none, or one.
#[derive(Debug)]
pub struct SendState<T> {
    active: Option<T>,
}

impl<T> SendState<T> {
    /// The send that is open.
    pub closed spec fn current(&self) -> Option<T> {
        self.active
    }

    /// No send is open.
    pub fn new() -> (r: Self)
        ensures
            r.current() is None,
    {
        SendState { active: None }
    }

    /// Ends the open send, and hands it out to be shut down.
    pub fn stop(&mut self) -> (r: Option<T>)
        ensures
            (final(self).current(), r) == slot_next(old(self).current(), SlotEvent::Stop),
    {
        self.active.take()
    }

    /// Begins a new send of what is shown as `shown`. Where there is no such file
    /// or folder, this fails, and an open send goes on; else the open send ends,
    /// and is handed out to be shut down.
    pub fn begin(&mut self, exists: bool, shown: &str) -> (r: Result<Option<T>, String>)
        ensures
            match r {
                Ok(previous) => {
                    &&& exists
                    &&& (final(self).current(), previous) == slot_next(
                        old(self).current(),
                        SlotEvent::Begin(exists),
                    )
                },
                Err(e) => {
                    &&& !exists
                    &&& e@ == "no such file or folder: "@ + shown@
                    &&& final(self).current() == slot_next(
                        old(self).current(),
                        SlotEvent::Begin(exists),
                    ).0
                },
            },
    {
        match names::check_path(exists, shown) {
            Ok(_) => Ok(self.stop()),
            Err(e) => Err(e),
        }
    }

    /// Keeps the send `t` open.
    pub fn keep(&mut self, t: T)
        ensures
            final(self).current() == slot_next(old(self).current(), SlotEvent::Keep(t)).0,
    {
        self.active = Some(t);
    }
}

/// The open send after the events `es`.
pub open spec fn open_after<T>(es: Seq<SlotEvent<T>>) -> Option<T>
    decreases es.len(),
{
    if es.len() == 0 {
        None
    } else {
        slot_next(open_after(es.drop_last()), es.last()).0
    }
}

/// What there is, as a list.
pub open spec fn listed<T>(o: Option<T>) -> Seq<T> {
    match o {
        None => Seq::empty(),
        Some(t) => seq![t],
    }
}

/// Everything that was handed out to be shut down during the events `es`.
pub open spec fn shut_down<T>(es: Seq<SlotEvent<T>>) -> Seq<T>
    decreases es.len(),
{
    if es.len() == 0 {
        Seq::empty()
    } else {
        shut_down(es.drop_last()) + listed(slot_next(open_after(es.drop_last()), es.last()).1)
    }
}

/// Everything that was kept open during the events `es`.
pub open spec fn kept<T>(es: Seq<SlotEvent<T>>) -> Seq<T>
    decreases es.len(),
{
    if es.len() == 0 {
        Seq::empty()
    } else {
        kept(es.drop_last()) + match es.last() {
            SlotEvent::Keep(t) => seq![t],
            _ => Seq::empty(),
        }
    }
}

/// Whether nothing was kept while another send was open.
pub open spec fn one_by_one<T>(es: Seq<SlotEvent<T>>) -> bool {
    forall|i: int|
        0 <= i < es.len() && (#[trigger] es[i]) is Keep ==> open_after(es.take(i)) is None
}

/// Where sends are begun one after the other, none is forgotten: each that was
/// kept open has been handed out to be shut down, in order, except for the one that
/// is still open.
pub proof fn law_no_send_forgotten<T>(es: Seq<SlotEvent<T>>)
    requires
        one_by_one(es),
    ensures
        kept(es) == shut_down(es) + listed(open_after(es)),
    decreases es.len(),
{
    if es.len() > 0 {
        let before = es.drop_last();
        assert forall|i: int|
            0 <= i < before.len() && (#[trigger] before[i]) is Keep implies open_after(
            before.take(i),
        ) is None by {
            assert(es[i] == before[i]);
            assert(es.take(i) =~= before.take(i));
        }
        law_no_send_forgotten(before);
        assert(es.take(es.len() - 1) =~= before);
        assert(es[es.len() - 1] == es.last());
        assert(kept(es) =~= shut_down(es) + listed(open_after(es)));
    }
}

/// How many steps come before serving.
pub open spec fn steps_before_serving(asked: ServeRequest) -> nat {
    if asked.by_code {
        3
    } else {
        2
    }
}

/// The place of a step in the order of the steps.
spec fn place(asked: ServeRequest, phase: ServePhase) -> nat {
    match phase {
        ServePhase::CheckPath => 0,
        ServePhase::Prepare => 1,
        ServePhase::Rendezvous => 2,
        ServePhase::Serve => steps_before_serving(asked),
        ServePhase::Stop => steps_before_serving(asked) + 1,
        _ => steps_before_serving(asked) + 2,
    }
}

/// Where it is not over, the outcomes so far are as many as steps were taken, and good.
proof fn lemma_place(asked: ServeRequest, oks: Seq<bool>)
    ensures
        ({
            let phase = serve_phase(asked, oks);
            let over = phase == ServePhase::Done || phase == ServePhase::Failed;
            let all = steps_before_serving(asked) + 2;
            &&& !over ==> place(asked, phase) == oks.len() && traces::well(oks, oks.len())
            &&& phase == ServePhase::Rendezvous ==> asked.by_code
            &&& over && oks.len() < all ==> !traces::well(oks, oks.len())
            &&& phase == ServePhase::Done <==> traces::well(oks, all)
        }),
    decreases oks.len(),
{
    if oks.len() > 0 {
        let before = oks.drop_last();
        let all = steps_before_serving(asked) + 2;
        lemma_place(asked, before);
        traces::lemma_well_more(oks, oks.len());
        traces::lemma_well_more(oks, all);
    }
}

/// All is over without an error exactly where every step went well.
pub proof fn law_served_to_the_end(asked: ServeRequest, oks: Seq<bool>)
    ensures
        serve_phase(asked, oks) == ServePhase::Done <==> traces::well(
            oks,
            steps_before_serving(asked) + 2,
        ),
        serve_times(asked, oks, ServeAction::Fail) == traces::one(
            serve_phase(asked, oks) == ServePhase::Failed,
        ),
{
    lemma_place(asked, oks);
    lemma_told(asked, oks);
}

/// What one step adds to the counts.
#[verifier::rlimit(40)]
proof fn lemma_step_says(asked: ServeRequest, phase: ServePhase, ok: bool)
    ensures
        ({
            let todo = serve_next(asked, phase, ok).1;
            let prepared = phase == ServePhase::Prepare && ok;
            let missed = traces::one(phase == ServePhase::Rendezvous && !ok);
            &&& traces::times(todo, ServeAction::SayRelayOnly) == traces::one(
                prepared && asked.relay_only,
            )
            &&& traces::times(todo, ServeAction::ShowTicket) == traces::one(
                prepared && !asked.by_code,
            )
            &&& traces::times(todo, ServeAction::SayRedeemed) == traces::one(
                phase == ServePhase::Rendezvous && ok,
            )
            &&& traces::times(todo, ServeAction::SayDone) == traces::one(
                phase == ServePhase::Serve && ok,
            )
            &&& traces::times(todo, ServeAction::Shutdown) == traces::one(
                phase == ServePhase::Serve && ok,
            ) + missed
            &&& traces::times(todo, ServeAction::RemoveStore) == traces::one(
                phase == ServePhase::Stop && ok,
            ) + missed
        }),
{
    let todo = serve_next(asked, phase, ok).1;
    traces::lemma_times_short(todo, ServeAction::SayRelayOnly);
    traces::lemma_times_short(todo, ServeAction::ShowTicket);
    traces::lemma_times_short(todo, ServeAction::SayRedeemed);
    traces::lemma_times_short(todo, ServeAction::SayDone);
    traces::lemma_times_short(todo, ServeAction::Shutdown);
    traces::lemma_times_short(todo, ServeAction::RemoveStore);
}

/// One more step adds what follows from it.
proof fn lemma_serve_adds(asked: ServeRequest, oks: Seq<bool>, a: ServeAction)
    requires
        oks.len() > 0,
    ensures
        serve_times(asked, oks, a) == serve_times(asked, oks.drop_last(), a) + traces::times(
            serve_next(asked, serve_phase(asked, oks.drop_last()), oks.last()).1,
            a,
        ),
{
    lemma_serve_times(asked, oks, a);
}

/// What the user is told goes with how far it came: the ticket, unless they asked for a
/// code, and that it is relay-only, if they asked for that, once the file is prepared;
/// that the code was redeemed, once it was; that serving ends, once they interrupted.
#[verifier::rlimit(40)]
pub proof fn law_told_how_far_it_came(asked: ServeRequest, oks: Seq<bool>)
    ensures
        ({
            let n = steps_before_serving(asked);
            let missed = traces::one(
                asked.by_code && traces::well(oks, 2) && oks.len() >= 3 && !oks[2],
            );
            &&& serve_times(asked, oks, ServeAction::SayRelayOnly) == traces::one(
                asked.relay_only && traces::well(oks, 2),
            )
            &&& serve_times(asked, oks, ServeAction::ShowTicket) == traces::one(
                !asked.by_code && traces::well(oks, 2),
            )
            &&& serve_times(asked, oks, ServeAction::SayRedeemed) == traces::one(
                asked.by_code && traces::well(oks, 3),
            )
            &&& serve_times(asked, oks, ServeAction::SayDone) == traces::one(
                traces::well(oks, n + 1),
            )
            &&& serve_times(asked, oks, ServeAction::Shutdown) == traces::one(
                traces::well(oks, n + 1),
            ) + missed
            &&& serve_times(asked, oks, ServeAction::RemoveStore) == traces::one(
                traces::well(oks, n + 2),
            ) + missed
        }),
    decreases oks.len(),
{
    let n = steps_before_serving(asked);
    if oks.len() > 0 {
        let before = oks.drop_last();
        law_told_how_far_it_came(asked, before);
        lemma_place(asked, before);
        lemma_step_says(asked, serve_phase(asked, before), oks.last());
        lemma_serve_adds(asked, oks, ServeAction::SayRelayOnly);
        lemma_serve_adds(asked, oks, ServeAction::ShowTicket);
        lemma_serve_adds(asked, oks, ServeAction::SayRedeemed);
        lemma_serve_adds(asked, oks, ServeAction::SayDone);
        lemma_serve_adds(asked, oks, ServeAction::Shutdown);
        lemma_serve_adds(asked, oks, ServeAction::RemoveStore);
        traces::lemma_well_more(oks, 2);
        traces::lemma_well_more(oks, 3);
        traces::lemma_well_more(oks, n + 1);
        traces::lemma_well_more(oks, n + 2);
        if before.len() >= 3 {
            assert(before[2] == oks[2]);
        }
    }
}

/// Serving is stopped before the scratch directory is removed, and the user is told of
/// an error last.
pub proof fn law_done_in_order(asked: ServeRequest, phase: ServePhase, ok: bool)
    ensures
        ({
            let todo = serve_next(asked, phase, ok).1;
            &&& todo.contains(ServeAction::Shutdown) && todo.contains(ServeAction::RemoveStore)
                ==> todo[0] == ServeAction::Shutdown && todo[1] == ServeAction::RemoveStore
            &&& todo.contains(ServeAction::Fail) ==> todo.last() == ServeAction::Fail
            &&& todo.contains(ServeAction::ShowTicket) ==> todo.last() == ServeAction::ShowTicket
            &&& todo.contains(ServeAction::SayDone) ==> todo == seq![
                ServeAction::SayDone,
                ServeAction::Shutdown,
            ]
        }),
{
}

/// A send that cannot begin leaves the open one alone; one that begins, and a stop, hand
/// it out; what is kept is what is open, and keeping it hands out nothing.
pub proof fn law_open_send_changes_hands<T>(current: Option<T>, t: T)
    ensures
        slot_next(current, SlotEvent::Begin(false)) == (current, None::<T>),
        slot_next(current, SlotEvent::Begin(true)) == (None::<T>, current),
        slot_next(current, SlotEvent::Stop) == (None::<T>, current),
        slot_next(current, SlotEvent::Keep(t)) == (Some(t), None::<T>),
{
}

} // verus!
