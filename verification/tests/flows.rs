//! Listening, sending, serving and receiving, step by step; and what is said of
//! them.

use hato::editing::{removed_line, BookEdit, EditAction, EditPhase};
use hato::errors::{friendly_transfer_err, map_code_err, CodeFailure, CodeUse};
use hato::front::Front;
use hato::listen::{
    answer_offer, listen_notices, peer_label, says_yes, trouble_line, KnownContact, ListenAction, ListenEvent,
    ListenState, Listener, OfferAnswer, StartFailure, Trouble,
};
use hato::receiving::{ReceiveAction, ReceivePhase, Receiving};
use hato::report::{offer_received_line, offer_size, received_report, received_report_of, ticket_report};
use hato::scratch::{listen_store_dir, send_store_dir, store_dir};
use hato::sending::{ContactSend, SendAction, SendPhase};
use hato::serving::{SendState, ServeAction, ServePhase, ServeRequest, Serving};

/// A listener that was offered something by a contact, and accepted it.
fn downloading(front: Front, auto_yes: bool) -> Listener {
    let mut l = Listener::new(front, auto_yes);
    accept(&mut l);
    l
}

fn accept(l: &mut Listener) {
    assert_eq!(l.step(ListenEvent::Connected(true)), vec![ListenAction::HearOffer]);
    let todo = l.step(ListenEvent::Offered(true));
    if todo == vec![ListenAction::AskUser] {
        assert_eq!(l.step(ListenEvent::Confirmed(true)), vec![ListenAction::AcceptOffer]);
    } else {
        assert_eq!(todo, vec![ListenAction::AcceptOffer]);
    }
}

#[test]
fn terminal_listens_until_interrupted() {
    let mut l = Listener::new(Front::Terminal, false);
    assert_eq!(l.step(ListenEvent::AcceptFailed), vec![ListenAction::ReportAccept]);
    accept(&mut l);
    assert_eq!(
        l.step(ListenEvent::Received(true)),
        vec![
            ListenAction::TouchContact,
            ListenAction::SaveBook,
            ListenAction::ReportReceived,
            ListenAction::RemoveStore
        ]
    );
    assert!(!l.ended());
    assert_eq!(
        l.step(ListenEvent::StopSignal(true)),
        vec![ListenAction::SayStopped, ListenAction::CloseEndpoint]
    );
    assert!(l.ended());
}

#[test]
fn terminal_ends_over_the_contact_book() {
    let mut l = Listener::new(Front::Terminal, true);
    assert_eq!(l.step(ListenEvent::Connected(false)), vec![ListenAction::FailBook]);
    assert!(l.ended());
    let mut l = downloading(Front::Terminal, true);
    assert_eq!(l.step(ListenEvent::Received(false)), vec![ListenAction::FailBook]);
    assert!(l.ended());
    let mut l = Listener::new(Front::Terminal, true);
    assert_eq!(l.step(ListenEvent::EndpointClosed), vec![ListenAction::FailClosed]);
    assert!(l.ended());
}

#[test]
fn desktop_keeps_listening() {
    let mut l = Listener::new(Front::Desktop, false);
    assert_eq!(l.step(ListenEvent::StopSignal(false)), vec![]);
    assert_eq!(l.step(ListenEvent::Connected(false)), vec![ListenAction::ReportBook]);
    accept(&mut l);
    assert_eq!(
        l.step(ListenEvent::Received(false)),
        vec![ListenAction::ReportReceived, ListenAction::RemoveStore]
    );
    l.step(ListenEvent::Connected(true));
    assert_eq!(l.step(ListenEvent::Declined), vec![ListenAction::ReportDeclined]);
    l.step(ListenEvent::Connected(true));
    assert_eq!(l.step(ListenEvent::OfferFailed), vec![ListenAction::ReportFailed, ListenAction::RemoveStore]);
    assert!(!l.ended());
    let over = vec![ListenAction::CloseEndpoint, ListenAction::ClearRunning, ListenAction::SayStopped];
    assert_eq!(l.step(ListenEvent::EndpointClosed), over);
    assert!(l.ended());
    let mut l = Listener::new(Front::Desktop, false);
    assert_eq!(l.step(ListenEvent::StopSignal(true)), over);
}

#[test]
fn the_end_of_listening_is_final() {
    for front in [Front::Terminal, Front::Desktop] {
        let mut l = Listener::new(front, false);
        l.step(ListenEvent::StopSignal(true));
        for e in [
            ListenEvent::StopSignal(true),
            ListenEvent::EndpointClosed,
            ListenEvent::Connected(true),
            ListenEvent::Offered(true),
            ListenEvent::Confirmed(true),
            ListenEvent::Received(true),
            ListenEvent::OfferFailed,
        ] {
            assert_eq!(l.step(e), vec![]);
            assert!(l.ended());
        }
    }
}

#[test]
fn every_offer_that_is_heard_is_settled() {
    let mut l = Listener::new(Front::Desktop, false);
    let mut done = Vec::new();
    for e in [
        ListenEvent::Connected(true),
        ListenEvent::Offered(true),
        ListenEvent::Received(true),
        ListenEvent::Connected(true),
        ListenEvent::Offered(false),
        ListenEvent::Declined,
        ListenEvent::Connected(true),
        ListenEvent::Offered(true),
        ListenEvent::OfferFailed,
        ListenEvent::StopSignal(true),
    ] {
        done.extend(l.step(e));
    }
    let times = |a: ListenAction| done.iter().filter(|x| **x == a).count();
    assert_eq!(times(ListenAction::HearOffer), 3);
    assert_eq!(times(ListenAction::AcceptOffer), 2);
    assert_eq!(times(ListenAction::DeclineOffer), 1);
    assert_eq!(times(ListenAction::RemoveStore), 2);
    assert_eq!(times(ListenAction::ReportDeclined), 1);
    assert_eq!(times(ListenAction::CloseEndpoint), 1);
    assert_eq!(times(ListenAction::TouchContact), 1);
}

#[test]
fn unknown_machines_are_declined() {
    for (front, yes) in [(Front::Terminal, false), (Front::Terminal, true), (Front::Desktop, false)] {
        let mut l = Listener::new(front, yes);
        l.step(ListenEvent::Connected(true));
        assert_eq!(l.step(ListenEvent::Offered(false)), vec![ListenAction::DeclineOffer]);
        assert_eq!(l.step(ListenEvent::Confirmed(true)), vec![]);
        assert_eq!(l.step(ListenEvent::Declined), vec![ListenAction::ReportDeclined]);
    }
}

#[test]
fn a_terminal_asks_before_it_downloads() {
    let mut l = Listener::new(Front::Terminal, false);
    l.step(ListenEvent::Connected(true));
    assert_eq!(l.step(ListenEvent::Offered(true)), vec![ListenAction::AskUser]);
    assert_eq!(l.step(ListenEvent::Confirmed(false)), vec![ListenAction::DeclineOffer]);
    assert_eq!(l.step(ListenEvent::Declined), vec![ListenAction::ReportDeclined]);
    l.step(ListenEvent::Connected(true));
    l.step(ListenEvent::Offered(true));
    assert_eq!(l.step(ListenEvent::Confirmed(true)), vec![ListenAction::AcceptOffer]);
    let mut l = Listener::new(Front::Terminal, true);
    l.step(ListenEvent::Connected(true));
    assert_eq!(l.step(ListenEvent::Offered(true)), vec![ListenAction::AcceptOffer]);
}

#[test]
fn what_was_not_accepted_is_not_received() {
    let mut l = Listener::new(Front::Terminal, false);
    l.step(ListenEvent::Connected(true));
    l.step(ListenEvent::Offered(true));
    assert_eq!(l.step(ListenEvent::Received(true)), vec![ListenAction::ReportFailed, ListenAction::RemoveStore]);
    assert!(!l.ended());
}

#[test]
fn one_listener_on_the_desktop() {
    let mut s: ListenState<u8> = ListenState::new();
    assert!(!s.is_listening());
    assert_eq!(s.begin(), Ok(()));
    assert_eq!(s.begin(), Err("already listening".to_string()));
    assert!(s.is_listening());
    s.ended();
    assert!(!s.is_listening());
    for (f, said) in [
        (StartFailure::Downloads("x".to_string()), "couldn't resolve Downloads: x"),
        (StartFailure::Folder("x".to_string()), "create dir: x"),
        (StartFailure::Endpoint("x".to_string()), "x"),
    ] {
        assert_eq!(s.begin(), Ok(()));
        assert_eq!(s.give_up(f), said);
        assert!(!s.is_listening());
        assert_eq!(s.stop(), None);
    }
}

#[test]
fn stopping_hands_the_handle_out() {
    let mut s: ListenState<u8> = ListenState::new();
    assert_eq!(s.begin(), Ok(()));
    s.keep(7);
    assert!(s.begin().is_err());
    assert_eq!(s.stop(), Some(7));
    assert!(!s.is_listening());
    assert_eq!(s.stop(), None);
    assert!(!s.is_listening());
    assert_eq!(s.begin(), Ok(()));
    s.keep(8);
    s.ended();
    assert!(!s.is_listening());
    assert_eq!(s.stop(), Some(8));
}

#[test]
fn the_book_is_stored_before_a_change_is_told() {
    let run = |oks: &[bool]| {
        let mut e = BookEdit::new();
        let mut done = Vec::new();
        for ok in oks {
            done.extend(e.step(*ok));
        }
        (e.phase(), done)
    };
    assert_eq!(run(&[]), (EditPhase::Load, vec![]));
    assert_eq!(run(&[true]), (EditPhase::Change, vec![]));
    assert_eq!(run(&[true, true]), (EditPhase::Save, vec![]));
    assert_eq!(run(&[true, true, true]), (EditPhase::Done, vec![EditAction::Tell]));
    for oks in [vec![false], vec![true, false], vec![true, true, false], vec![true, false, true]] {
        assert_eq!(run(&oks), (EditPhase::Failed, vec![EditAction::Fail]));
    }
    assert_eq!(removed_line("ann", "Ann B"), "👋  removed contact ann (Ann B)");
}

#[test]
fn what_a_listening_terminal_says() {
    assert_eq!(
        listen_notices(0, false),
        vec!["    ⚠  contact book is empty — pair with someone first (`hato pair`)", "    (Ctrl+C to stop)\n"]
    );
    assert_eq!(
        listen_notices(3, true),
        vec!["    3 contact(s); offers from unknowns are rejected", "    auto-accept: on", "    (Ctrl+C to stop)\n"]
    );
    assert_eq!(trouble_line(Front::Terminal, Trouble::Accept, "e"), "⚠  failed to accept connection: e");
    assert_eq!(trouble_line(Front::Terminal, Trouble::Book, "e"), "e");
    assert_eq!(trouble_line(Front::Terminal, Trouble::Declined, "e"), "    declined.");
    assert_eq!(trouble_line(Front::Terminal, Trouble::Offer, "e"), "⚠  offer failed: e");
    assert_eq!(trouble_line(Front::Desktop, Trouble::Accept, "e"), "accept failed: e");
    assert_eq!(trouble_line(Front::Desktop, Trouble::Book, "e"), "contact book: e");
    assert_eq!(trouble_line(Front::Desktop, Trouble::Declined, "e"), "offer declined");
    assert_eq!(trouble_line(Front::Desktop, Trouble::Offer, "e"), "e");
}

#[test]
fn how_offers_are_answered() {
    let known = || Some(KnownContact { name: "Ann".to_string(), id: "ann".to_string() });
    assert_eq!(peer_label(Front::Terminal, known(), "d75a"), "Ann (ann)");
    assert_eq!(peer_label(Front::Desktop, known(), "d75a"), "Ann");
    assert_eq!(peer_label(Front::Terminal, None, "d75a"), "d75a");
    assert_eq!(peer_label(Front::Desktop, None, "d75a"), "d75a");
    for confirmed in [None, Some(false), Some(true)] {
        for yes in [false, true] {
            assert_eq!(answer_offer(Front::Terminal, false, yes, confirmed), OfferAnswer::Decline);
            assert_eq!(answer_offer(Front::Desktop, false, yes, confirmed), OfferAnswer::Decline);
            assert_eq!(answer_offer(Front::Desktop, true, yes, confirmed), OfferAnswer::Accept);
        }
        assert_eq!(answer_offer(Front::Terminal, true, true, confirmed), OfferAnswer::Accept);
    }
    assert_eq!(answer_offer(Front::Terminal, true, false, None), OfferAnswer::Ask);
    assert_eq!(answer_offer(Front::Terminal, true, false, Some(true)), OfferAnswer::Accept);
    assert_eq!(answer_offer(Front::Terminal, true, false, Some(false)), OfferAnswer::Decline);
    for s in ["y", "Y\n", " yes ", "YES\r\n"] {
        assert!(says_yes(s));
    }
    for s in ["", "\n", "n", "no", "yess", "y e s"] {
        assert!(!says_yes(s));
    }
}

fn send(front: Front, oks: &[bool]) -> (SendPhase, Vec<SendAction>) {
    let mut s = ContactSend::new(front);
    let mut done = Vec::new();
    for ok in oks {
        done.extend(s.step(*ok));
    }
    (s.phase(), done)
}

#[test]
fn a_file_is_delivered_to_a_contact() {
    assert_eq!(
        send(Front::Terminal, &[true; 7]),
        (
            SendPhase::Done,
            vec![
                SendAction::SayPreparing,
                SendAction::SayOffering,
                SendAction::SayDelivered,
                SendAction::TouchContact,
                SendAction::SaveBook,
                SendAction::Shutdown,
                SendAction::RemoveStore
            ]
        )
    );
    assert_eq!(
        send(Front::Desktop, &[true; 7]),
        (
            SendPhase::Done,
            vec![
                SendAction::SayPreparing,
                SendAction::SayOffering,
                SendAction::TouchContact,
                SendAction::SaveBook,
                SendAction::Shutdown,
                SendAction::RemoveStore,
                SendAction::SayDelivered
            ]
        )
    );
}

#[test]
fn a_failed_step_ends_the_sending() {
    for front in [Front::Terminal, Front::Desktop] {
        for n in 0..5 {
            let mut oks = vec![true; n];
            oks.push(false);
            let (phase, done) = send(front, &oks);
            assert_eq!(phase, SendPhase::Failed);
            assert_eq!(done.last(), Some(&SendAction::Fail));
            assert!(!done.contains(&SendAction::Shutdown));
            oks.push(true);
            assert_eq!(send(front, &oks), (phase, done));
        }
        let (phase, done) = send(front, &[true, true, true, true, true, false]);
        assert_eq!(phase, SendPhase::Failed);
        assert_eq!(
            done,
            vec![
                SendAction::SayPreparing,
                SendAction::SayOffering,
                SendAction::Shutdown,
                SendAction::RemoveStore,
                SendAction::Fail
            ]
        );
    }
}

#[test]
fn the_book_after_the_delivery() {
    let oks = [true, true, true, true, true, true, false];
    let (phase, done) = send(Front::Terminal, &oks);
    assert_eq!(phase, SendPhase::Failed);
    assert_eq!(
        done,
        vec![SendAction::SayPreparing, SendAction::SayOffering, SendAction::SayDelivered, SendAction::Fail]
    );
    let (phase, done) = send(Front::Desktop, &oks);
    assert_eq!(phase, SendPhase::Done);
    assert!(!done.contains(&SendAction::TouchContact));
    assert_eq!(done.last(), Some(&SendAction::SayDelivered));
}

fn serve(by_code: bool, relay_only: bool, oks: &[bool]) -> (ServePhase, Vec<ServeAction>) {
    let mut s = Serving::new(ServeRequest { by_code, relay_only });
    let mut done = Vec::new();
    for ok in oks {
        done.extend(s.step(*ok));
    }
    (s.phase(), done)
}

#[test]
fn a_ticket_is_served() {
    assert_eq!(serve(false, false, &[true, true]), (ServePhase::Serve, vec![ServeAction::ShowTicket]));
    assert_eq!(
        serve(false, true, &[true; 4]),
        (
            ServePhase::Done,
            vec![
                ServeAction::SayRelayOnly,
                ServeAction::ShowTicket,
                ServeAction::SayDone,
                ServeAction::Shutdown,
                ServeAction::RemoveStore
            ]
        )
    );
    assert_eq!(serve(false, false, &[false]), (ServePhase::Failed, vec![ServeAction::Fail]));
    assert_eq!(serve(false, false, &[true, false]), (ServePhase::Failed, vec![ServeAction::Fail]));
    assert_eq!(
        serve(false, false, &[true, true, true, false]),
        (
            ServePhase::Failed,
            vec![ServeAction::ShowTicket, ServeAction::SayDone, ServeAction::Shutdown, ServeAction::Fail]
        )
    );
}

#[test]
fn a_code_is_served() {
    assert_eq!(serve(true, false, &[true, true]), (ServePhase::Rendezvous, vec![]));
    assert_eq!(
        serve(true, true, &[true; 5]),
        (
            ServePhase::Done,
            vec![
                ServeAction::SayRelayOnly,
                ServeAction::SayRedeemed,
                ServeAction::SayDone,
                ServeAction::Shutdown,
                ServeAction::RemoveStore
            ]
        )
    );
}

#[test]
fn a_failed_rendezvous_leaves_nothing_behind() {
    assert_eq!(
        serve(true, false, &[true, true, false]),
        (ServePhase::Failed, vec![ServeAction::Shutdown, ServeAction::RemoveStore, ServeAction::Fail])
    );
}

#[test]
fn no_send_is_forgotten() {
    let mut s: SendState<u32> = SendState::new();
    assert_eq!(s.begin(true, "/a"), Ok(None));
    s.keep(1);
    assert_eq!(s.begin(false, "/b"), Err("no such file or folder: /b".to_string()));
    assert_eq!(s.begin(true, "/c"), Ok(Some(1)));
    s.keep(2);
    assert_eq!(s.stop(), Some(2));
    assert_eq!(s.stop(), None);
}

#[test]
fn a_failed_download_is_kept() {
    for n in 0..5 {
        let mut r = Receiving::new();
        for _ in 0..n {
            assert!(!r.step(true).contains(&ReceiveAction::RemoveStore));
        }
        assert_eq!(r.step(false), vec![ReceiveAction::Fail]);
        assert_eq!(r.phase(), ReceivePhase::Failed);
        assert_eq!(r.step(true), vec![]);
    }
    let mut r = Receiving::new();
    let mut done = Vec::new();
    for _ in 0..5 {
        done.extend(r.step(true));
    }
    assert_eq!(done, vec![ReceiveAction::CloseEndpoint, ReceiveAction::Report, ReceiveAction::RemoveStore]);
    assert_eq!(r.phase(), ReceivePhase::Done);
}

#[test]
fn failures_in_words() {
    assert_eq!(
        friendly_transfer_err("read: Stream Reset by peer".to_string()),
        "connection dropped mid-transfer (sender closed or network glitch).\n\
         Ask the sender to keep Hato open on the Serving screen and try again \
         — interrupted downloads resume automatically.\n\
         (read: Stream Reset by peer)"
    );
    assert!(friendly_transfer_err("Connection Reset; timed out".to_string()).starts_with("connection dropped"));
    for e in ["connection refused", "it TIMED OUT", "Timeout", "Failed to connect to x"] {
        assert_eq!(
            friendly_transfer_err(e.to_string()),
            format!(
                "couldn't reach the sender. Make sure they still have Hato open and \
                 Serving, and that both sides are online.\n({e})"
            )
        );
    }
    assert_eq!(friendly_transfer_err("disk full".to_string()), "disk full");
}

#[test]
fn codes_that_fail() {
    assert_eq!(
        map_code_err(CodeUse::TerminalPair, CodeFailure::VerifierMismatch),
        "wrong code (or a man-in-the-middle): the code did not match. \
         Double-check the words; nothing was saved."
    );
    assert_eq!(
        map_code_err(CodeUse::DesktopPair, CodeFailure::VerifierMismatch),
        "wrong code (or a man-in-the-middle): the code did not match. Nothing was saved."
    );
    assert_eq!(
        map_code_err(CodeUse::TerminalGet, CodeFailure::VerifierMismatch),
        "wrong code (or a man-in-the-middle): the code did not match. \
         Double-check the words; nothing was transferred."
    );
    assert_eq!(map_code_err(CodeUse::TerminalGet, CodeFailure::Other("gone".to_string())), "gone");
}

#[test]
fn sizes_are_shown_for_people() {
    assert_eq!(offer_size(Some(1500)), "1.46 KiB");
    assert_eq!(offer_size(None), "?");
    assert_eq!(received_report(0, 2048, "/d"), vec!["✅  received 2.00 KiB into /d"]);
    assert_eq!(
        received_report(1024, 2048, "/d"),
        vec!["↻  resumed — 1.00 KiB were already downloaded", "✅  received 2.00 KiB into /d"]
    );
    assert_eq!(received_report_of(false, "a", "b", "c"), vec!["✅  received b into c"]);
    assert_eq!(offer_received_line("f.bin", 1500, "/d"), "✅  received f.bin (1.46 KiB) into /d");
}

#[test]
fn tickets_without_direct_addresses_go_through_the_relay() {
    assert_eq!(ticket_report(1, 2), vec!["🔗  ticket offers 1 relay(s), 2 direct address(es)"]);
    assert_eq!(
        ticket_report(1, 0),
        vec![
            "🔗  ticket offers 1 relay(s), 0 direct address(es)",
            "    → no direct address: this transfer must go through the relay."
        ]
    );
}

#[test]
fn scratch_directories_have_names() {
    assert_eq!(store_dir("send", 42), "hato-send-42");
    assert_eq!(send_store_dir(42, 1000), "hato-gui-send-42-1000");
    assert_eq!(listen_store_dir("d75a980182", 42), "d75a980182-42");
    assert_ne!(store_dir("send", 4), store_dir("send", 5));
    assert_ne!(send_store_dir(1, 23), send_store_dir(12, 3));
}
