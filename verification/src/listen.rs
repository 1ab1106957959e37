//! Listening for offers: the loop that waits for contacts, answers what they
//! offer, and ends.
//!
//! The loop is driven by events. After each one it says what is to be done, in
//! order. Waiting for connections, talking to the other side and showing things to
//! the user happen elsewhere.

use vstd::prelude::*;

use crate::front::Front;
use crate::numbers;
use crate::text;
use crate::traces;

verus! {

/// How an offer is answered.
#[derive(Debug, Clone, Copy, PartialEq, Eq, Structural)]
pub enum OfferAnswer {
    /// It is accepted.
    Accept,
    /// The user is asked first.
    Ask,
    /// It is declined.
    Decline,
}

/// How an offer is answered, where `known` says whether it comes from a contact,
/// `auto_yes` whether the user asked not to be asked, and `confirmed` what the user
/// said, if they were asked. What comes from an unknown machine is declined. The
/// desktop accepts what comes from a contact; at a terminal the user confirms it.
pub open spec fn answer_of(
    front: Front,
    known: bool,
    auto_yes: bool,
    confirmed: Option<bool>,
) -> OfferAnswer {
    if !known {
        OfferAnswer::Decline
    } else if front == Front::Desktop || auto_yes {
        OfferAnswer::Accept
    } else if confirmed is None {
        OfferAnswer::Ask
    } else if confirmed->0 {
        OfferAnswer::Accept
    } else {
        OfferAnswer::Decline
    }
}

/// How an offer is answered.
pub fn answer_offer(front: Front, known: bool, auto_yes: bool, confirmed: Option<bool>) -> (r:
    OfferAnswer)
    ensures
        r == answer_of(front, known, auto_yes, confirmed),
{
    if !known {
        return OfferAnswer::Decline;
    }
    let unasked = match front {
        Front::Desktop => true,
        Front::Terminal => auto_yes,
    };
    if unasked {
        return OfferAnswer::Accept;
    }
    match confirmed {
        None => OfferAnswer::Ask,
        Some(yes) => if yes {
            OfferAnswer::Accept
        } else {
            OfferAnswer::Decline
        },
    }
}

/// An offer from an unknown machine is never accepted, nor is the user asked about
/// it.
pub proof fn law_unknown_is_declined(front: Front, auto_yes: bool, confirmed: Option<bool>)
    ensures
        answer_of(front, false, auto_yes, confirmed) == OfferAnswer::Decline,
{
}

/// At a terminal an offer is accepted only where the user confirmed it, or asked
/// beforehand not to be asked.
pub proof fn law_terminal_accepts_what_was_confirmed(
    known: bool,
    auto_yes: bool,
    confirmed: Option<bool>,
)
    requires
        answer_of(Front::Terminal, known, auto_yes, confirmed) == OfferAnswer::Accept,
    ensures
        known,
        auto_yes || confirmed == Some(true),
{
}

/// What the loop is doing.
#[derive(Debug, Clone, Copy, PartialEq, Eq, Structural)]
pub enum ListenPhase {
    /// Waiting for a connection, or for the end.
    Waiting,
    /// Talking to a machine that has connected.
    Handling,
    /// Asking the user whether the offer is accepted.
    Asking,
    /// Downloading what was offered and accepted.
    Downloading,
    /// Telling the other machine that its offer is declined.
    Declining,
    /// Nothing any more.
    Ended,
}

/// What happens to the loop.
#[derive(Debug, Clone, Copy, PartialEq, Eq, Structural)]
pub enum ListenEvent {
    /// The user asks to stop, or, where the flag is not set, only touched the
    /// switch.
    StopSignal(bool),
    /// There will be no more connections.
    EndpointClosed,
    /// A connection was tried, and failed.
    AcceptFailed,
    /// A machine has connected; the flag says whether the contact book could be
    /// read.
    Connected(bool),
    /// The machine offers something; the flag says whether it is in the contact
    /// book that was read for this connection.
    Offered(bool),
    /// The user was asked, and says whether they accept.
    Confirmed(bool),
    /// What it offered has arrived; the flag says whether the contact book could
    /// be read again.
    Received(bool),
    /// The offer was declined.
    Declined,
    /// The offer failed.
    OfferFailed,
}

/// What is to be done.
#[derive(Debug, Clone, Copy, PartialEq, Eq, Structural)]
pub enum ListenAction {
    /// Tell the user that the loop ends.
    SayStopped,
    /// Close the endpoint.
    CloseEndpoint,
    /// End with the error that the endpoint was closed.
    FailClosed,
    /// End with the error of the contact book.
    FailBook,
    /// Report the connection that failed.
    ReportAccept,
    /// Report the contact book that could not be read.
    ReportBook,
    /// Hear what the machine that has connected offers.
    HearOffer,
    /// Ask the user whether the offer is accepted.
    AskUser,
    /// Accept the offer.
    AcceptOffer,
    /// Decline the offer.
    DeclineOffer,
    /// Note in the contact book that the contact was seen.
    TouchContact,
    /// Store the contact book.
    SaveBook,
    /// Report what was received.
    ReportReceived,
    /// Report the offer that was declined.
    ReportDeclined,
    /// Report the offer that failed.
    ReportFailed,
    /// Remove the scratch directory of the offer.
    RemoveStore,
    /// Note that nobody listens any more.
    ClearRunning,
}

/// Whether the loop is busy with a machine that has connected.
pub open spec fn is_busy(phase: ListenPhase) -> bool {
    ||| phase == ListenPhase::Handling
    ||| phase == ListenPhase::Asking
    ||| phase == ListenPhase::Downloading
    ||| phase == ListenPhase::Declining
}

/// What follows from the answer to an offer.
pub open spec fn after_answer(answer: OfferAnswer) -> (ListenPhase, Seq<ListenAction>) {
    match answer {
        OfferAnswer::Accept => (ListenPhase::Downloading, seq![ListenAction::AcceptOffer]),
        OfferAnswer::Ask => (ListenPhase::Asking, seq![ListenAction::AskUser]),
        OfferAnswer::Decline => (ListenPhase::Declining, seq![ListenAction::DeclineOffer]),
    }
}

/// What follows from the event `e` where the loop waits for a connection.
pub open spec fn waiting_next(front: Front, e: ListenEvent) -> (ListenPhase, Seq<ListenAction>) {
    let over = seq![
        ListenAction::CloseEndpoint,
        ListenAction::ClearRunning,
        ListenAction::SayStopped,
    ];
    match e {
        ListenEvent::StopSignal(stop) => if !stop {
            (ListenPhase::Waiting, seq![])
        } else if front == Front::Terminal {
            (ListenPhase::Ended, seq![ListenAction::SayStopped, ListenAction::CloseEndpoint])
        } else {
            (ListenPhase::Ended, over)
        },
        ListenEvent::EndpointClosed => if front == Front::Terminal {
            (ListenPhase::Ended, seq![ListenAction::FailClosed])
        } else {
            (ListenPhase::Ended, over)
        },
        ListenEvent::AcceptFailed => (ListenPhase::Waiting, seq![ListenAction::ReportAccept]),
        ListenEvent::Connected(book) => if book {
            (ListenPhase::Handling, seq![ListenAction::HearOffer])
        } else if front == Front::Terminal {
            (ListenPhase::Ended, seq![ListenAction::FailBook])
        } else {
            (ListenPhase::Waiting, seq![ListenAction::ReportBook])
        },
        _ => (ListenPhase::Waiting, seq![]),
    }
}

/// What follows from the event `e` where the loop is busy in `phase`. What arrives
/// without having been accepted counts as failed.
pub open spec fn busy_next(front: Front, auto_yes: bool, phase: ListenPhase, e: ListenEvent) -> (
    ListenPhase,
    Seq<ListenAction>,
) {
    let failed = (
        ListenPhase::Waiting,
        seq![ListenAction::ReportFailed, ListenAction::RemoveStore],
    );
    match e {
        ListenEvent::Offered(known) => if phase == ListenPhase::Handling {
            after_answer(answer_of(front, known, auto_yes, None))
        } else {
            (phase, seq![])
        },
        ListenEvent::Confirmed(yes) => if phase == ListenPhase::Asking {
            after_answer(answer_of(front, true, auto_yes, Some(yes)))
        } else {
            (phase, seq![])
        },
        ListenEvent::Received(book) => if phase != ListenPhase::Downloading {
            failed
        } else if book {
            (
                ListenPhase::Waiting,
                seq![
                    ListenAction::TouchContact,
                    ListenAction::SaveBook,
                    ListenAction::ReportReceived,
                    ListenAction::RemoveStore,
                ],
            )
        } else if front == Front::Terminal {
            (ListenPhase::Ended, seq![ListenAction::FailBook])
        } else {
            (ListenPhase::Waiting, seq![ListenAction::ReportReceived, ListenAction::RemoveStore])
        },
        ListenEvent::Declined => (ListenPhase::Waiting, seq![ListenAction::ReportDeclined]),
        ListenEvent::OfferFailed => failed,
        _ => (phase, seq![]),
    }
}

/// What follows from the event `e`: the next phase, and what is to be done. At a
/// terminal a contact book that cannot be read ends the loop; on the desktop it is
/// reported, and the loop goes on. An event that does not belong to the phase
/// changes nothing.
pub open spec fn listen_next(front: Front, auto_yes: bool, phase: ListenPhase, e: ListenEvent) -> (
    ListenPhase,
    Seq<ListenAction>,
) {
    if phase == ListenPhase::Ended {
        (phase, seq![])
    } else if phase == ListenPhase::Waiting {
        waiting_next(front, e)
    } else {
        busy_next(front, auto_yes, phase, e)
    }
}

/// The loop that listens for offers.
#[derive(Debug)]
pub struct Listener {
    front: Front,
    auto_yes: bool,
    phase: ListenPhase,
}

impl Listener {
    /// Where the user sits.
    pub closed spec fn at(&self) -> Front {
        self.front
    }

    /// Whether the user asked not to be asked.
    pub closed spec fn unasked(&self) -> bool {
        self.auto_yes
    }

    /// What the loop is doing.
    pub closed spec fn doing(&self) -> ListenPhase {
        self.phase
    }

    /// A loop that waits for the first connection.
    pub fn new(front: Front, auto_yes: bool) -> (r: Self)
        ensures
            r.at() == front,
            r.unasked() == auto_yes,
            r.doing() == ListenPhase::Waiting,
    {
        Listener { front, auto_yes, phase: ListenPhase::Waiting }
    }

    /// Whether the loop has ended.
    pub fn ended(&self) -> (r: bool)
        ensures
            r == (self.doing() == ListenPhase::Ended),
    {
        match self.phase {
            ListenPhase::Ended => true,
            _ => false,
        }
    }

    /// Goes on after the answer to an offer.
    fn answered(&mut self, answer: OfferAnswer) -> (r: Vec<ListenAction>)
        ensures
            final(self).at() == old(self).at(),
            final(self).unasked() == old(self).unasked(),
            final(self).doing() == after_answer(answer).0,
            r@ == after_answer(answer).1,
    {
        let mut todo: Vec<ListenAction> = Vec::new();
        match answer {
            OfferAnswer::Accept => {
                self.phase = ListenPhase::Downloading;
                todo.push(ListenAction::AcceptOffer);
            },
            OfferAnswer::Ask => {
                self.phase = ListenPhase::Asking;
                todo.push(ListenAction::AskUser);
            },
            OfferAnswer::Decline => {
                self.phase = ListenPhase::Declining;
                todo.push(ListenAction::DeclineOffer);
            },
        }
        assert(todo@ =~= after_answer(answer).1);
        todo
    }

    /// Takes an event while the loop waits for a connection.
    fn step_waiting(&mut self, e: ListenEvent) -> (r: Vec<ListenAction>)
        requires
            old(self).doing() == ListenPhase::Waiting,
        ensures
            final(self).at() == old(self).at(),
            final(self).unasked() == old(self).unasked(),
            final(self).doing() == waiting_next(old(self).at(), e).0,
            r@ == waiting_next(old(self).at(), e).1,
    {
        let terminal = match self.front {
            Front::Terminal => true,
            Front::Desktop => false,
        };
        let ghost want = waiting_next(self.front, e).1;
        let mut todo: Vec<ListenAction> = Vec::new();
        let over = match e {
            ListenEvent::StopSignal(stop) => stop,
            ListenEvent::EndpointClosed => true,
            _ => false,
        };
        if over && !terminal {
            self.phase = ListenPhase::Ended;
            todo.push(ListenAction::CloseEndpoint);
            todo.push(ListenAction::ClearRunning);
            todo.push(ListenAction::SayStopped);
        } else {
            match e {
                ListenEvent::StopSignal(stop) => {
                    if stop {
                        self.phase = ListenPhase::Ended;
                        todo.push(ListenAction::SayStopped);
                        todo.push(ListenAction::CloseEndpoint);
                    }
                },
                ListenEvent::EndpointClosed => {
                    self.phase = ListenPhase::Ended;
                    todo.push(ListenAction::FailClosed);
                },
                ListenEvent::AcceptFailed => {
                    todo.push(ListenAction::ReportAccept);
                },
                ListenEvent::Connected(book) => {
                    if book {
                        self.phase = ListenPhase::Handling;
                        todo.push(ListenAction::HearOffer);
                    } else if terminal {
                        self.phase = ListenPhase::Ended;
                        todo.push(ListenAction::FailBook);
                    } else {
                        todo.push(ListenAction::ReportBook);
                    }
                },
                _ => {},
            }
        }
        assert(todo@ =~= want);
        todo
    }

    /// Takes an event while the loop is busy with a machine that has connected.
    fn step_busy(&mut self, e: ListenEvent) -> (r: Vec<ListenAction>)
        requires
            is_busy(old(self).doing()),
        ensures
            final(self).at() == old(self).at(),
            final(self).unasked() == old(self).unasked(),
            final(self).doing() == busy_next(
                old(self).at(),
                old(self).unasked(),
                old(self).doing(),
                e,
            ).0,
            r@ == busy_next(old(self).at(), old(self).unasked(), old(self).doing(), e).1,
    {
        let terminal = match self.front {
            Front::Terminal => true,
            Front::Desktop => false,
        };
        let ghost want = busy_next(self.front, self.auto_yes, self.phase, e).1;
        let mut todo: Vec<ListenAction> = Vec::new();
        match (self.phase, e) {
            (ListenPhase::Handling, ListenEvent::Offered(known)) => {
                let answer = answer_offer(self.front, known, self.auto_yes, None);
                todo = self.answered(answer);
            },
            (ListenPhase::Asking, ListenEvent::Confirmed(yes)) => {
                let answer = answer_offer(self.front, true, self.auto_yes, Some(yes));
                todo = self.answered(answer);
            },
            (ListenPhase::Downloading, ListenEvent::Received(book)) => {
                if !book && terminal {
                    self.phase = ListenPhase::Ended;
                    todo.push(ListenAction::FailBook);
                } else {
                    self.phase = ListenPhase::Waiting;
                    if book {
                        todo.push(ListenAction::TouchContact);
                        todo.push(ListenAction::SaveBook);
                    }
                    todo.push(ListenAction::ReportReceived);
                    todo.push(ListenAction::RemoveStore);
                }
            },
            (_, ListenEvent::Declined) => {
                self.phase = ListenPhase::Waiting;
                todo.push(ListenAction::ReportDeclined);
            },
            (_, ListenEvent::OfferFailed) | (_, ListenEvent::Received(_)) => {
                self.phase = ListenPhase::Waiting;
                todo.push(ListenAction::ReportFailed);
                todo.push(ListenAction::RemoveStore);
            },
            _ => {},
        }
        assert(todo@ =~= want);
        todo
    }

    /// Takes an event, and says what is to be done, in order.
    pub fn step(&mut self, e: ListenEvent) -> (r: Vec<ListenAction>)
        ensures
            final(self).at() == old(self).at(),
            final(self).unasked() == old(self).unasked(),
            final(self).doing() == listen_next(
                old(self).at(),
                old(self).unasked(),
                old(self).doing(),
                e,
            ).0,
            r@ == listen_next(old(self).at(), old(self).unasked(), old(self).doing(), e).1,
    {
        match self.phase {
            ListenPhase::Ended => Vec::new(),
            ListenPhase::Waiting => self.step_waiting(e),
            _ => self.step_busy(e),
        }
    }
}

/// What the loop is doing after the events `es`.
pub open spec fn phase_after(front: Front, auto_yes: bool, es: Seq<ListenEvent>) -> ListenPhase
    decreases es.len(),
{
    if es.len() == 0 {
        ListenPhase::Waiting
    } else {
        listen_next(front, auto_yes, phase_after(front, auto_yes, es.drop_last()), es.last()).0
    }
}

/// What follows from the last of the events `es`.
pub open spec fn done_last(front: Front, auto_yes: bool, es: Seq<ListenEvent>) -> Seq<ListenAction>
{
    listen_next(front, auto_yes, phase_after(front, auto_yes, es.drop_last()), es.last()).1
}

/// Everything that was to be done during the events `es`.
pub open spec fn done_during(front: Front, auto_yes: bool, es: Seq<ListenEvent>) -> Seq<
    ListenAction,
>
    decreases es.len(),
{
    if es.len() == 0 {
        Seq::empty()
    } else {
        done_during(front, auto_yes, es.drop_last()) + done_last(front, auto_yes, es)
    }
}

/// How often `a` was to be done during the events `es`.
pub open spec fn listen_times(
    front: Front,
    auto_yes: bool,
    es: Seq<ListenEvent>,
    a: ListenAction,
) -> nat {
    traces::times(done_during(front, auto_yes, es), a)
}

/// Whether the machine that has connected was found in the contact book that was
/// read for its connection, as the events `es` tell it.
pub open spec fn found_in_book(front: Front, auto_yes: bool, es: Seq<ListenEvent>) -> bool
    decreases es.len(),
{
    if es.len() == 0 {
        false
    } else {
        let before = es.drop_last();
        match (phase_after(front, auto_yes, before), es.last()) {
            (ListenPhase::Waiting, _) => false,
            (ListenPhase::Handling, ListenEvent::Offered(known)) => known,
            _ => found_in_book(front, auto_yes, before),
        }
    }
}

/// Whether the user confirmed the offer of the machine that has connected, as the
/// events `es` tell it.
pub open spec fn user_confirmed(front: Front, auto_yes: bool, es: Seq<ListenEvent>) -> bool
    decreases es.len(),
{
    if es.len() == 0 {
        false
    } else {
        let before = es.drop_last();
        match (phase_after(front, auto_yes, before), es.last()) {
            (ListenPhase::Waiting, _) => false,
            (ListenPhase::Asking, ListenEvent::Confirmed(yes)) => yes,
            _ => user_confirmed(front, auto_yes, before),
        }
    }
}

/// Nothing is downloaded, and the user is asked about nothing, that does not come
/// from a machine in the contact book as it was read for that connection, whatever
/// the book held before. At a terminal nothing is downloaded that the user has not
/// confirmed, unless they asked beforehand not to be asked.
pub proof fn law_downloads_are_wanted(front: Front, auto_yes: bool, es: Seq<ListenEvent>)
    ensures
        ({
            let phase = phase_after(front, auto_yes, es);
            let downloading = phase == ListenPhase::Downloading;
            &&& downloading || phase == ListenPhase::Asking ==> found_in_book(front, auto_yes, es)
            &&& downloading && front == Front::Terminal && !auto_yes ==> user_confirmed(
                front,
                auto_yes,
                es,
            )
        }),
    decreases es.len(),
{
    if es.len() > 0 {
        law_downloads_are_wanted(front, auto_yes, es.drop_last());
    }
}

/// An offer is accepted exactly where a download begins, and reported as received
/// only where there was one.
pub proof fn law_received_was_accepted(
    front: Front,
    auto_yes: bool,
    phase: ListenPhase,
    e: ListenEvent,
)
    ensures
        ({
            let (after, todo) = listen_next(front, auto_yes, phase, e);
            &&& todo.contains(ListenAction::AcceptOffer) <==> {
                &&& phase != ListenPhase::Downloading
                &&& after == ListenPhase::Downloading
            }
            &&& todo.contains(ListenAction::ReportReceived) || todo.contains(
                ListenAction::TouchContact,
            ) ==> phase == ListenPhase::Downloading
        }),
{
    let (after, todo) = listen_next(front, auto_yes, phase, e);
    if phase != ListenPhase::Downloading && after == ListenPhase::Downloading {
        assert(todo[0] == ListenAction::AcceptOffer);
    }
}

/// One more event adds what follows from it.
proof fn lemma_listen_times(front: Front, auto_yes: bool, es: Seq<ListenEvent>, a: ListenAction)
    requires
        es.len() > 0,
    ensures
        listen_times(front, auto_yes, es, a) == listen_times(front, auto_yes, es.drop_last(), a)
            + traces::times(done_last(front, auto_yes, es), a),
{
    traces::lemma_times_concat(
        done_during(front, auto_yes, es.drop_last()),
        done_last(front, auto_yes, es),
        a,
    );
}

/// What one event adds to the counts.
proof fn lemma_step_times(front: Front, auto_yes: bool, phase: ListenPhase, e: ListenEvent)
    ensures
        ({
            let (after, s) = listen_next(front, auto_yes, phase, e);
            let begun = traces::one(!is_busy(phase) && is_busy(after));
            let over = traces::one(is_busy(phase) && !is_busy(after));
            let ended = traces::one(phase != ListenPhase::Ended && after == ListenPhase::Ended);
            let removed = traces::times(s, ListenAction::RemoveStore);
            let declined = traces::times(s, ListenAction::ReportDeclined);
            let failed = traces::times(s, ListenAction::FailBook);
            let touched = traces::times(s, ListenAction::TouchContact);
            &&& traces::times(s, ListenAction::HearOffer) == begun
            &&& removed + declined <= over <= removed + declined + failed
            &&& front == Front::Desktop ==> {
                &&& failed == 0
                &&& traces::times(s, ListenAction::CloseEndpoint) == ended
                &&& traces::times(s, ListenAction::ClearRunning) == ended
            }
            &&& touched <= traces::times(s, ListenAction::ReportReceived)
            &&& touched == traces::times(s, ListenAction::SaveBook)
        }),
{
    let s = listen_next(front, auto_yes, phase, e).1;
    traces::lemma_times_short(s, ListenAction::HearOffer);
    traces::lemma_times_short(s, ListenAction::RemoveStore);
    traces::lemma_times_short(s, ListenAction::ReportDeclined);
    traces::lemma_times_short(s, ListenAction::FailBook);
    traces::lemma_times_short(s, ListenAction::CloseEndpoint);
    traces::lemma_times_short(s, ListenAction::ClearRunning);
    traces::lemma_times_short(s, ListenAction::TouchContact);
    traces::lemma_times_short(s, ListenAction::SaveBook);
    traces::lemma_times_short(s, ListenAction::ReportReceived);
}

/// Every connection that is heard is settled once. On the desktop what it offered
/// is received or fails, and its scratch directory is removed, or it is declined. At
/// a terminal the loop can also end over it, where the contact book cannot be read.
pub proof fn law_offers_are_settled(front: Front, auto_yes: bool, es: Seq<ListenEvent>)
    ensures
        ({
            let heard = listen_times(front, auto_yes, es, ListenAction::HearOffer);
            let removed = listen_times(front, auto_yes, es, ListenAction::RemoveStore);
            let declined = listen_times(front, auto_yes, es, ListenAction::ReportDeclined);
            let failed = listen_times(front, auto_yes, es, ListenAction::FailBook);
            let open = traces::one(is_busy(phase_after(front, auto_yes, es)));
            &&& removed + declined + open <= heard
            &&& heard <= removed + declined + open + failed
            &&& front == Front::Desktop ==> heard == removed + declined + open
        }),
    decreases es.len(),
{
    if es.len() > 0 {
        let before = es.drop_last();
        law_offers_are_settled(front, auto_yes, before);
        lemma_listen_times(front, auto_yes, es, ListenAction::HearOffer);
        lemma_listen_times(front, auto_yes, es, ListenAction::RemoveStore);
        lemma_listen_times(front, auto_yes, es, ListenAction::ReportDeclined);
        lemma_listen_times(front, auto_yes, es, ListenAction::FailBook);
        lemma_step_times(front, auto_yes, phase_after(front, auto_yes, before), es.last());
    }
}

/// A loop that has ended stays so, and does nothing any more.
pub proof fn law_end_is_final(
    front: Front,
    auto_yes: bool,
    es: Seq<ListenEvent>,
    more: Seq<ListenEvent>,
)
    requires
        phase_after(front, auto_yes, es) == ListenPhase::Ended,
    ensures
        phase_after(front, auto_yes, es + more) == ListenPhase::Ended,
        done_during(front, auto_yes, es + more) == done_during(front, auto_yes, es),
    decreases more.len(),
{
    if more.len() == 0 {
        assert(es + more == es);
    } else {
        law_end_is_final(front, auto_yes, es, more.drop_last());
        assert((es + more).drop_last() == es + more.drop_last());
        assert(done_during(front, auto_yes, es + more) =~= done_during(front, auto_yes, es));
    }
}

/// On the desktop, listening ends only where the user asks for it or there can be
/// no more connections: not over a connection that fails, nor over an offer, nor
/// over a contact book that cannot be read. A connection that fails and such a book
/// are reported.
pub proof fn law_desktop_keeps_listening(auto_yes: bool, phase: ListenPhase, e: ListenEvent)
    requires
        phase != ListenPhase::Ended,
    ensures
        listen_next(Front::Desktop, auto_yes, phase, e).0 == ListenPhase::Ended <==> {
            &&& phase == ListenPhase::Waiting
            &&& e == ListenEvent::EndpointClosed || e == ListenEvent::StopSignal(true)
        },
        phase == ListenPhase::Waiting && e == ListenEvent::AcceptFailed ==> listen_next(
            Front::Desktop,
            auto_yes,
            phase,
            e,
        ).1 == seq![ListenAction::ReportAccept],
        phase == ListenPhase::Waiting && e == ListenEvent::Connected(false) ==> listen_next(
            Front::Desktop,
            auto_yes,
            phase,
            e,
        ).1 == seq![ListenAction::ReportBook],
{
}

/// On the desktop the endpoint is closed, and the mark that somebody listens is
/// taken away, once and exactly when the loop ends.
pub proof fn law_desktop_closes_once(auto_yes: bool, es: Seq<ListenEvent>)
    ensures
        ({
            let front = Front::Desktop;
            let ended = traces::one(phase_after(front, auto_yes, es) == ListenPhase::Ended);
            &&& listen_times(front, auto_yes, es, ListenAction::CloseEndpoint) == ended
            &&& listen_times(front, auto_yes, es, ListenAction::ClearRunning) == ended
        }),
    decreases es.len(),
{
    let front = Front::Desktop;
    if es.len() > 0 {
        let before = es.drop_last();
        law_desktop_closes_once(auto_yes, before);
        lemma_listen_times(front, auto_yes, es, ListenAction::CloseEndpoint);
        lemma_listen_times(front, auto_yes, es, ListenAction::ClearRunning);
        lemma_step_times(front, auto_yes, phase_after(front, auto_yes, before), es.last());
    }
}

/// A contact counts as seen only after something of it was received, and the
/// contact book is stored whenever that changes it.
pub proof fn law_seen_after_received(front: Front, auto_yes: bool, es: Seq<ListenEvent>)
    ensures
        ({
            let touched = listen_times(front, auto_yes, es, ListenAction::TouchContact);
            &&& touched <= listen_times(front, auto_yes, es, ListenAction::ReportReceived)
            &&& touched == listen_times(front, auto_yes, es, ListenAction::SaveBook)
        }),
    decreases es.len(),
{
    if es.len() > 0 {
        let before = es.drop_last();
        law_seen_after_received(front, auto_yes, before);
        lemma_listen_times(front, auto_yes, es, ListenAction::TouchContact);
        lemma_listen_times(front, auto_yes, es, ListenAction::SaveBook);
        lemma_listen_times(front, auto_yes, es, ListenAction::ReportReceived);
        lemma_step_times(front, auto_yes, phase_after(front, auto_yes, before), es.last());
    }
}

/// Why listening could not begin.
#[derive(Debug)]
pub enum StartFailure {
    /// There is no folder to save into.
    Downloads(String),
    /// The folder could not be made.
    Folder(String),
    /// The secret key could not be read, or the endpoint not be bound.
    Endpoint(String),
}

/// What the user is told where listening could not begin.
pub open spec fn start_failure_text(f: StartFailure) -> Seq<char> {
    match f {
        StartFailure::Downloads(e) => "couldn't resolve Downloads: "@ + e@,
        StartFailure::Folder(e) => "create dir: "@ + e@,
        StartFailure::Endpoint(e) => e@,
    }
}

/// What the desktop keeps of listening: whether somebody listens, and the handle by
/// which the loop is told to stop.
pub struct Running<T> {
    pub listening: bool,
    pub handle: Option<T>,
}

/// What happens to it.
pub enum RunEvent<T> {
    /// Somebody asks to listen.
    Begin,
    /// Listening could not begin.
    GiveUp,
    /// The loop runs, and can be told to stop by this handle.
    Keep(T),
    /// The user stops it.
    Stop,
    /// The loop has ended.
    Ended,
}

/// What is kept after the event, and the handle that is handed out to be told to
/// stop. A handle of a loop that has ended by itself stays until the next one takes
/// its place, or the user stops.
pub open spec fn run_next<T>(at: Running<T>, e: RunEvent<T>) -> (Running<T>, Option<T>) {
    match e {
        RunEvent::Begin => ((Running { listening: true, handle: at.handle }), None),
        RunEvent::GiveUp => ((Running { listening: false, handle: at.handle }), None),
        RunEvent::Keep(t) => ((Running { listening: at.listening, handle: Some(t) }), None),
        RunEvent::Stop => ((Running { listening: false, handle: None }), at.handle),
        RunEvent::Ended => ((Running { listening: false, handle: at.handle }), None),
    }
}

/// Whether somebody listens on the desktop, and the handle by which the loop is told
/// to stop.
#[derive(Debug)]
pub struct ListenState<T> {
    running: bool,
    stop: Option<T>,
}

impl<T> ListenState<T> {
    /// What is kept of listening.
    pub closed spec fn at(&self) -> Running<T> {
        Running { listening: self.running, handle: self.stop }
    }

    /// Nobody listens, and there is no handle.
    pub fn new() -> (r: Self)
        ensures
            !r.at().listening,
            r.at().handle is None,
    {
        ListenState { running: false, stop: None }
    }

    /// Whether somebody listens.
    pub fn is_listening(&self) -> (r: bool)
        ensures
            r == self.at().listening,
    {
        self.running
    }

    /// Begins to listen. Where somebody listens already, that goes on, and this
    /// fails.
    pub fn begin(&mut self) -> (r: Result<(), String>)
        ensures
            r is Ok <==> !old(self).at().listening,
            r matches Err(e) ==> e@ == "already listening"@,
            final(self).at() == run_next(old(self).at(), RunEvent::Begin).0,
    {
        if self.running {
            return Err("already listening".to_owned());
        }
        self.running = true;
        Ok(())
    }

    /// Gives up beginning to listen; says what the user is told.
    pub fn give_up(&mut self, f: StartFailure) -> (r: String)
        ensures
            r@ == start_failure_text(f),
            final(self).at() == run_next(old(self).at(), RunEvent::GiveUp).0,
    {
        self.running = false;
        match f {
            StartFailure::Downloads(e) => {
                let mut out = "couldn't resolve Downloads: ".to_owned();
                out.append(e.as_str());
                out
            },
            StartFailure::Folder(e) => {
                let mut out = "create dir: ".to_owned();
                out.append(e.as_str());
                out
            },
            StartFailure::Endpoint(e) => e,
        }
    }

    /// Keeps the handle by which the loop is told to stop.
    pub fn keep(&mut self, t: T)
        ensures
            final(self).at() == run_next(old(self).at(), RunEvent::Keep(t)).0,
    {
        self.stop = Some(t);
    }

    /// Stops listening: nobody listens any more, and the handle, where there is one,
    /// is handed out to be told to stop.
    pub fn stop(&mut self) -> (r: Option<T>)
        ensures
            (final(self).at(), r) == run_next(old(self).at(), RunEvent::Stop),
    {
        self.running = false;
        self.stop.take()
    }

    /// The loop has ended: nobody listens any more.
    pub fn ended(&mut self)
        ensures
            final(self).at() == run_next(old(self).at(), RunEvent::Ended).0,
    {
        self.running = false;
    }
}

/// Stopping works from any state: nobody listens afterwards, no handle is left, and
/// the one that there was is handed out. Stopping again changes nothing more.
pub proof fn law_stopping_takes_the_handle<T>(at: Running<T>)
    ensures
        ({
            let (after, taken) = run_next(at, RunEvent::Stop);
            &&& !after.listening
            &&& after.handle is None
            &&& taken == at.handle
            &&& run_next(after, RunEvent::Stop) == (after, None::<T>)
        }),
{
}

/// A start that fails leaves everything as it was where nobody listened: no handle
/// is left behind that was not there before.
pub proof fn law_failed_start_leaves_nothing<T>(at: Running<T>)
    requires
        !at.listening,
    ensures
        run_next(run_next(at, RunEvent::Begin).0, RunEvent::GiveUp).0 == at,
{
}

/// What is kept after the events `es`.
pub open spec fn running_after<T>(es: Seq<RunEvent<T>>) -> Running<T>
    decreases es.len(),
{
    if es.len() == 0 {
        Running { listening: false, handle: None }
    } else {
        run_next(running_after(es.drop_last()), es.last()).0
    }
}

/// A handle that was kept is handed out by the next stop, however often somebody
/// asked to listen, or a loop ended, in between.
pub proof fn law_kept_handle_is_told<T>(es: Seq<RunEvent<T>>, t: T, more: Seq<RunEvent<T>>)
    requires
        forall|i: int| 0 <= i < more.len() ==> !(#[trigger] more[i] is Keep) && !(more[i] is Stop),
    ensures
        run_next(running_after(es.push(RunEvent::Keep(t)) + more), RunEvent::Stop).1 == Some(t),
    decreases more.len(),
{
    let kept = es.push(RunEvent::Keep(t));
    if more.len() == 0 {
        assert(kept + more =~= kept);
        assert(kept.drop_last() =~= es);
    } else {
        let before = more.drop_last();
        assert forall|i: int| 0 <= i < before.len() implies !(#[trigger] before[i] is Keep) && !(
        before[i] is Stop) by {
            assert(before[i] == more[i]);
        }
        law_kept_handle_is_told(es, t, before);
        assert((kept + more).drop_last() =~= kept + before);
        assert(more[more.len() - 1] == more.last());
    }
}

/// What a terminal shows before the first connection, where the contact book holds
/// `contacts` contacts.
pub open spec fn notices(contacts: nat, auto_yes: bool) -> Seq<Seq<char>> {
    let first = if contacts == 0 {
        "    ⚠  contact book is empty — pair with someone first (`hato pair`)"@
    } else {
        "    "@ + numbers::decimal_text(contacts) + " contact(s); offers from unknowns are rejected"@
    };
    if auto_yes {
        seq![first, "    auto-accept: on"@, "    (Ctrl+C to stop)\n"@]
    } else {
        seq![first, "    (Ctrl+C to stop)\n"@]
    }
}

/// What a terminal shows before the first connection.
pub fn listen_notices(contacts: usize, auto_yes: bool) -> (r: Vec<String>)
    ensures
        text::texts(r@) == notices(contacts as nat, auto_yes),
{
    let mut out: Vec<String> = Vec::new();
    if contacts == 0 {
        out.push("    ⚠  contact book is empty — pair with someone first (`hato pair`)".to_owned());
    } else {
        let mut first = "    ".to_owned();
        first.append(numbers::decimal(contacts as u128).as_str());
        first.append(" contact(s); offers from unknowns are rejected");
        out.push(first);
    }
    if auto_yes {
        out.push("    auto-accept: on".to_owned());
    }
    out.push("    (Ctrl+C to stop)\n".to_owned());
    assert(text::texts(out@) =~= notices(contacts as nat, auto_yes));
    out
}

/// The name and the id of a contact.
#[derive(Debug)]
pub struct KnownContact {
    pub name: String,
    pub id: String,
}

/// How the machine that offers something is named: by its contact, else by the
/// short form of its endpoint id.
pub open spec fn peer_text(front: Front, known: Option<KnownContact>, short: Seq<char>) -> Seq<
    char,
> {
    match (known, front) {
        (None, _) => short,
        (Some(c), Front::Terminal) => c.name@ + " ("@ + c.id@ + ")"@,
        (Some(c), Front::Desktop) => c.name@,
    }
}

/// How the machine that offers something is named.
pub fn peer_label(front: Front, known: Option<KnownContact>, short: &str) -> (r: String)
    ensures
        r@ == peer_text(front, known, short@),
{
    match known {
        None => short.to_owned(),
        Some(c) => match front {
            Front::Terminal => {
                let mut out = c.name;
                out.append(" (");
                out.append(c.id.as_str());
                out.append(")");
                out
            },
            Front::Desktop => c.name,
        },
    }
}

/// Whether the reply `reply` of a user who was asked is a yes: `y` or `yes`, in
/// either case, with white space around it or not.
pub open spec fn is_yes(reply: Seq<char>) -> bool {
    let said = text::lowered(text::trimmed(reply));
    said == "y"@ || said == "yes"@
}

/// Whether a user who was asked said yes. Everything else is a no.
pub fn says_yes(reply: &str) -> (r: bool)
    ensures
        r == is_yes(reply@),
{
    let trimmed = text::trim(reply);
    let said = text::to_ascii_lowercase(trimmed.as_str());
    text::same(said.as_str(), "y") || text::same(said.as_str(), "yes")
}

/// What goes wrong without ending the loop.
#[derive(Debug, Clone, Copy, PartialEq, Eq, Structural)]
pub enum Trouble {
    /// A connection failed.
    Accept,
    /// The contact book could not be read.
    Book,
    /// An offer was declined.
    Declined,
    /// An offer failed.
    Offer,
}

/// What the user is told of it, where the message is `why`.
pub open spec fn trouble_text(front: Front, t: Trouble, why: Seq<char>) -> Seq<char> {
    match (front, t) {
        (Front::Terminal, Trouble::Accept) => "⚠  failed to accept connection: "@ + why,
        (Front::Terminal, Trouble::Book) => why,
        (Front::Terminal, Trouble::Declined) => "    declined."@,
        (Front::Terminal, Trouble::Offer) => "⚠  offer failed: "@ + why,
        (Front::Desktop, Trouble::Accept) => "accept failed: "@ + why,
        (Front::Desktop, Trouble::Book) => "contact book: "@ + why,
        (Front::Desktop, Trouble::Declined) => "offer declined"@,
        (Front::Desktop, Trouble::Offer) => why,
    }
}

/// What the user is told of something that went wrong, where the message is `why`.
pub fn trouble_line(front: Front, t: Trouble, why: &str) -> (r: String)
    ensures
        r@ == trouble_text(front, t, why@),
{
    let start = match (front, t) {
        (Front::Terminal, Trouble::Accept) => "⚠  failed to accept connection: ",
        (Front::Terminal, Trouble::Offer) => "⚠  offer failed: ",
        (Front::Terminal, Trouble::Declined) => return "    declined.".to_owned(),
        (Front::Desktop, Trouble::Accept) => "accept failed: ",
        (Front::Desktop, Trouble::Book) => "contact book: ",
        (Front::Desktop, Trouble::Declined) => return "offer declined".to_owned(),
        _ => return why.to_owned(),
    };
    let mut out = start.to_owned();
    out.append(why);
    out
}

/// At a terminal, as on the desktop, listening goes on after an offer that is over and
/// after a connection that failed. It ends only where the user asks for it, there can be
/// no more connections, or the contact book cannot be read.
pub proof fn law_terminal_keeps_listening(auto_yes: bool, phase: ListenPhase, e: ListenEvent)
    requires
        phase != ListenPhase::Ended,
    ensures
        listen_next(Front::Terminal, auto_yes, phase, e).0 == ListenPhase::Ended <==> {
            ||| phase == ListenPhase::Waiting && (e == ListenEvent::StopSignal(true) || e
                == ListenEvent::EndpointClosed || e == ListenEvent::Connected(false))
            ||| phase == ListenPhase::Downloading && e == ListenEvent::Received(false)
        },
{
}

/// However an offer ended, with success or not, the loop waits again, and hears the next
/// machine that connects.
pub proof fn law_next_machine_is_heard(
    front: Front,
    auto_yes: bool,
    phase: ListenPhase,
    e: ListenEvent,
)
    requires
        is_busy(phase) && (e == ListenEvent::OfferFailed || e == ListenEvent::Declined || e
            == ListenEvent::Received(true)) || phase == ListenPhase::Waiting && e
            == ListenEvent::AcceptFailed,
    ensures
        ({
            let after = listen_next(front, auto_yes, phase, e).0;
            &&& after == ListenPhase::Waiting
            &&& listen_next(front, auto_yes, after, ListenEvent::Connected(true)) == (
                ListenPhase::Handling,
                seq![ListenAction::HearOffer],
            )
        }),
{
}

/// The two fronts part only where the contact book cannot be read, where a new offer is
/// answered, and in how they end: in all else they do the same.
pub proof fn law_fronts_do_the_same(
    auto_yes: bool,
    phase: ListenPhase,
    e: ListenEvent,
)
    requires
        !(phase == ListenPhase::Handling && e == ListenEvent::Offered(true) && !auto_yes),
        !(phase == ListenPhase::Asking && e is Confirmed),
        e != ListenEvent::Received(false),
        !(phase == ListenPhase::Waiting && (e == ListenEvent::StopSignal(true) || e
            == ListenEvent::EndpointClosed || e == ListenEvent::Connected(false))),
    ensures
        listen_next(Front::Terminal, auto_yes, phase, e) == listen_next(
            Front::Desktop,
            auto_yes,
            phase,
            e,
        ),
{
}

/// While the loop is busy with a machine, nothing else is heard: neither another machine
/// nor the wish to stop changes anything.
pub proof fn law_busy_hears_nothing_else(
    front: Front,
    auto_yes: bool,
    phase: ListenPhase,
    e: ListenEvent,
)
    requires
        is_busy(phase),
        e is StopSignal || e is EndpointClosed || e is AcceptFailed || e is Connected,
    ensures
        listen_next(front, auto_yes, phase, e) == (phase, Seq::<ListenAction>::empty()),
{
}

/// How an offer ended is reported, and its scratch directory removed unless it was
/// declined. What was received is noted in the contact book where that can be read.
pub proof fn law_end_of_an_offer_is_reported(front: Front, auto_yes: bool, phase: ListenPhase)
    requires
        is_busy(phase),
    ensures
        listen_next(front, auto_yes, phase, ListenEvent::OfferFailed).1 == seq![
            ListenAction::ReportFailed,
            ListenAction::RemoveStore,
        ],
        listen_next(front, auto_yes, phase, ListenEvent::Declined).1 == seq![
            ListenAction::ReportDeclined,
        ],
        phase == ListenPhase::Downloading ==> listen_next(
            front,
            auto_yes,
            phase,
            ListenEvent::Received(true),
        ).1 == seq![
            ListenAction::TouchContact,
            ListenAction::SaveBook,
            ListenAction::ReportReceived,
            ListenAction::RemoveStore,
        ],
        phase == ListenPhase::Downloading && front == Front::Desktop ==> listen_next(
            front,
            auto_yes,
            phase,
            ListenEvent::Received(false),
        ).1 == seq![ListenAction::ReportReceived, ListenAction::RemoveStore],
{
}

/// An offer is answered as it should be: one of a contact is downloaded at once on the
/// desktop, and where the user asked not to be asked; else the user is asked, and their
/// word decides. One of an unknown machine is declined.
pub proof fn law_offer_is_answered(front: Front, auto_yes: bool, known: bool, yes: bool)
    ensures
        ({
            let (first, todo) = listen_next(
                front,
                auto_yes,
                ListenPhase::Handling,
                ListenEvent::Offered(known),
            );
            let at_once = front == Front::Desktop || auto_yes;
            &&& !known ==> first == ListenPhase::Declining && todo == seq![
                ListenAction::DeclineOffer,
            ]
            &&& known && at_once ==> first == ListenPhase::Downloading && todo == seq![
                ListenAction::AcceptOffer,
            ]
            &&& known && !at_once ==> first == ListenPhase::Asking && todo == seq![
                ListenAction::AskUser,
            ]
        }),
        ({
            let (then, todo) = listen_next(
                Front::Terminal,
                false,
                ListenPhase::Asking,
                ListenEvent::Confirmed(yes),
            );
            &&& yes ==> then == ListenPhase::Downloading && todo == seq![ListenAction::AcceptOffer]
            &&& !yes ==> then == ListenPhase::Declining && todo == seq![ListenAction::DeclineOffer]
        }),
        known && (front == Front::Desktop || auto_yes) ==> answer_of(front, known, auto_yes, None)
            == OfferAnswer::Accept,
        answer_of(Front::Terminal, true, false, None) == OfferAnswer::Ask,
        answer_of(Front::Terminal, true, false, Some(yes)) == if yes {
            OfferAnswer::Accept
        } else {
            OfferAnswer::Decline
        },
{
}

/// Whoever ends the loop is told: at a terminal the user, or the caller by an error; on
/// the desktop the window, once the endpoint is closed.
pub proof fn law_end_is_told(auto_yes: bool)
    ensures
        listen_next(
            Front::Terminal,
            auto_yes,
            ListenPhase::Waiting,
            ListenEvent::StopSignal(true),
        ).1 == seq![ListenAction::SayStopped, ListenAction::CloseEndpoint],
        listen_next(
            Front::Terminal,
            auto_yes,
            ListenPhase::Waiting,
            ListenEvent::EndpointClosed,
        ).1 == seq![ListenAction::FailClosed],
        listen_next(
            Front::Terminal,
            auto_yes,
            ListenPhase::Waiting,
            ListenEvent::Connected(false),
        ).1 == seq![ListenAction::FailBook],
        listen_next(
            Front::Terminal,
            auto_yes,
            ListenPhase::Downloading,
            ListenEvent::Received(false),
        ).1 == seq![ListenAction::FailBook],
        listen_next(
            Front::Desktop,
            auto_yes,
            ListenPhase::Waiting,
            ListenEvent::StopSignal(true),
        ).1 == seq![
            ListenAction::CloseEndpoint,
            ListenAction::ClearRunning,
            ListenAction::SayStopped,
        ],
{
}

/// Who asks to listen listens, until they give up, stop or the loop ends; keeping a
/// handle changes nothing in that. Only keeping and stopping change the handle.
pub proof fn law_listening_follows<T>(at: Running<T>, t: T)
    ensures
        run_next(at, RunEvent::Begin).0.listening,
        !run_next(at, RunEvent::GiveUp).0.listening,
        !run_next(at, RunEvent::Ended).0.listening,
        run_next(at, RunEvent::Keep(t)).0.listening == at.listening,
        run_next(at, RunEvent::Keep(t)).0.handle == Some(t),
        run_next(at, RunEvent::Begin).0.handle == at.handle,
        run_next(at, RunEvent::GiveUp).0.handle == at.handle,
        run_next(at, RunEvent::Ended).0.handle == at.handle,
{
}

/// What the user is told of something that went wrong holds the message, whole, at its
/// end; only an offer that was declined has none.
pub proof fn law_message_is_whole(front: Front, t: Trouble, why: Seq<char>)
    ensures
        t != Trouble::Declined ==> text::has_end(trouble_text(front, t, why), why),
{
    let none = Seq::<char>::empty();
    text::law_has_its_parts(none, why, none);
    assert(none + why =~= why);
    text::law_has_its_parts("⚠  failed to accept connection: "@, why, none);
    text::law_has_its_parts("⚠  offer failed: "@, why, none);
    text::law_has_its_parts("accept failed: "@, why, none);
    text::law_has_its_parts("contact book: "@, why, none);
}

/// What the user is told where listening could not begin holds the message, whole, at its
/// end.
pub proof fn law_start_failure_is_whole(why: String)
    ensures
        text::has_end(start_failure_text(StartFailure::Downloads(why)), why@),
        text::has_end(start_failure_text(StartFailure::Folder(why)), why@),
        start_failure_text(StartFailure::Endpoint(why)) == why@,
{
    let none = Seq::<char>::empty();
    text::law_has_its_parts("couldn't resolve Downloads: "@, why@, none);
    text::law_has_its_parts("create dir: "@, why@, none);
}

/// A machine is named by the name of its contact, whole, and at a terminal by its id
/// too; one that is not in the book by the short form of its id, whole.
pub proof fn law_machine_is_named(front: Front, c: KnownContact, short: Seq<char>)
    ensures
        peer_text(front, None, short) == short,
        peer_text(Front::Desktop, Some(c), short) == c.name@,
        text::has_part(peer_text(front, Some(c), short), c.name@),
        text::has_part(peer_text(Front::Terminal, Some(c), short), c.id@),
{
    let none = Seq::<char>::empty();
    let t = peer_text(Front::Terminal, Some(c), short);
    text::law_has_its_parts(none, c.name@, none);
    assert(none + c.name@ + none =~= c.name@);
    text::law_has_its_parts(none, c.name@, " ("@ + c.id@ + ")"@);
    assert(none + c.name@ + (" ("@ + c.id@ + ")"@) =~= t);
    text::law_has_its_parts(c.name@ + " ("@, c.id@, ")"@);
}

/// A user says yes with `y` or `yes`, whatever the case and the white space around it,
/// and with nothing else.
pub proof fn law_yes_is_said(w: Seq<char>, said: Seq<char>, x: Seq<char>)
    requires
        forall|i: int| 0 <= i < w.len() ==> text::is_white_space(#[trigger] w[i]),
        forall|i: int| 0 <= i < x.len() ==> text::is_white_space(#[trigger] x[i]),
        said.len() > 0 ==> !text::is_white_space(said[0]) && !text::is_white_space(said.last()),
    ensures
        is_yes(w + said + x) <==> text::lowered(said) == "y"@ || text::lowered(said) == "yes"@,
{
    text::law_trimmed_is_what_stands_between(w, said, x);
}

/// Before the first connection the user sees how many contacts there are, or that there
/// are none, whether offers are accepted unasked, and how to stop.
pub proof fn law_notices_tell(contacts: nat, auto_yes: bool)
    ensures
        notices(contacts, auto_yes).len() == if auto_yes {
            3nat
        } else {
            2nat
        },
        contacts > 0 ==> text::has_part(
            notices(contacts, auto_yes)[0],
            numbers::decimal_text(contacts),
        ),
        notices(contacts, auto_yes).last() == "    (Ctrl+C to stop)\n"@,
{
    if contacts > 0 {
        text::law_has_its_parts(
            "    "@,
            numbers::decimal_text(contacts),
            " contact(s); offers from unknowns are rejected"@,
        );
    }
}

/// What comes out of turn changes nothing: an offer that nobody waits to hear, an answer
/// that nobody asked for, the end of an offer while none is handled, a stop signal that
/// does not stop, and anything at all once listening has ended.
pub proof fn law_out_of_turn_changes_nothing(
    front: Front,
    auto_yes: bool,
    phase: ListenPhase,
    e: ListenEvent,
)
    requires
        ({
            ||| phase == ListenPhase::Ended
            ||| phase != ListenPhase::Handling && e is Offered
            ||| phase != ListenPhase::Asking && e is Confirmed
            ||| phase == ListenPhase::Waiting && (e is Received || e is Declined || e is OfferFailed)
            ||| e == ListenEvent::StopSignal(false)
        }),
    ensures
        listen_next(front, auto_yes, phase, e) == (phase, Seq::<ListenAction>::empty()),
{
}

} // verus!
