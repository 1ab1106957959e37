//! What the terminal reports of a transfer.

use vstd::prelude::*;

use crate::numbers;
use crate::text;

verus! {

/// A number of bytes as `indicatif::HumanBytes` displays it.
pub uninterp spec fn human_bytes_of(n: u64) -> Seq<char>;

/// Displays a number of bytes with `indicatif::HumanBytes`. The contract claims
/// that the text depends on the number alone.
#[verifier::external_body]
fn human_bytes(n: u64) -> (r: String)
    ensures
        r@ == human_bytes_of(n),
{
    indicatif::HumanBytes(n).to_string()
}

/// The size of an offer as the terminal shows it: a question mark where the
/// sender did not say.
pub fn offer_size(bytes: Option<u64>) -> (r: String)
    ensures
        r@ == match bytes {
            Some(n) => human_bytes_of(n),
            None => "?"@,
        },
{
    match bytes {
        Some(n) => human_bytes(n),
        None => "?".to_owned(),
    }
}

/// The lines about a ticket that offers `relays` relays, written as `relays`, and
/// `ips` direct addresses.
pub open spec fn ticket_lines(relays: Seq<char>, ips: Seq<char>, direct: bool) -> Seq<Seq<char>> {
    let first = "🔗  ticket offers "@ + relays + " relay(s), "@ + ips + " direct address(es)"@;
    if direct {
        seq![first]
    } else {
        seq![first, "    → no direct address: this transfer must go through the relay."@]
    }
}

/// The lines about a ticket that offers this many relays and direct addresses.
pub open spec fn ticket_report_lines(relays: nat, ips: nat) -> Seq<Seq<char>> {
    ticket_lines(numbers::decimal_text(relays), numbers::decimal_text(ips), ips > 0)
}

/// What the terminal says of a ticket before the download. Without a direct
/// address the transfer must go through a relay.
pub fn ticket_report(relays: usize, ips: usize) -> (r: Vec<String>)
    ensures
        text::texts(r@) == ticket_report_lines(relays as nat, ips as nat),
{
    let mut first = "🔗  ticket offers ".to_owned();
    first.append(numbers::decimal(relays as u128).as_str());
    first.append(" relay(s), ");
    first.append(numbers::decimal(ips as u128).as_str());
    first.append(" direct address(es)");
    let mut out: Vec<String> = Vec::new();
    out.push(first);
    if ips == 0 {
        out.push("    → no direct address: this transfer must go through the relay.".to_owned());
    }
    assert(text::texts(out@) =~= ticket_lines(
        numbers::decimal_text(relays as nat),
        numbers::decimal_text(ips as nat),
        ips > 0,
    ));
    out
}

/// The lines about a finished download: `had` and `total` as displayed, and
/// whether it was resumed.
pub open spec fn received_lines(
    resumed: bool,
    had: Seq<char>,
    total: Seq<char>,
    dir: Seq<char>,
) -> Seq<Seq<char>> {
    let last = "✅  received "@ + total + " into "@ + dir;
    if resumed {
        seq!["↻  resumed — "@ + had + " were already downloaded"@, last]
    } else {
        seq![last]
    }
}

/// The lines about a finished download, for the displayed numbers `had` and
/// `total`.
pub fn received_report_of(resumed: bool, had: &str, total: &str, dir: &str) -> (r: Vec<String>)
    ensures
        text::texts(r@) == received_lines(resumed, had@, total@, dir@),
{
    let mut out: Vec<String> = Vec::new();
    if resumed {
        let mut line = "↻  resumed — ".to_owned();
        line.append(had);
        line.append(" were already downloaded");
        out.push(line);
    }
    let mut last = "✅  received ".to_owned();
    last.append(total);
    last.append(" into ");
    last.append(dir);
    out.push(last);
    assert(text::texts(out@) =~= received_lines(resumed, had@, total@, dir@));
    out
}

/// The lines about a finished download of `total` bytes into `dir`, of which
/// `already_had` bytes were there before it began.
pub open spec fn download_lines(already_had: u64, total: u64, dir: Seq<char>) -> Seq<Seq<char>> {
    received_lines(already_had > 0, human_bytes_of(already_had), human_bytes_of(total), dir)
}

/// What the terminal says of a finished download of `total` bytes into `dir`, of
/// which `already_had` bytes were there before it began.
pub fn received_report(already_had: u64, total: u64, dir: &str) -> (r: Vec<String>)
    ensures
        text::texts(r@) == download_lines(already_had, total, dir@),
{
    let had = human_bytes(already_had);
    let all = human_bytes(total);
    received_report_of(already_had > 0, had.as_str(), all.as_str(), dir)
}

/// What the terminal says of a received offer with the label `label`.
pub fn offer_received_line(label: &str, total: u64, dir: &str) -> (r: String)
    ensures
        r@ == "✅  received "@ + label@ + " ("@ + human_bytes_of(total) + ") into "@ + dir@,
{
    let mut out = "✅  received ".to_owned();
    out.append(label);
    out.append(" (");
    out.append(human_bytes(total).as_str());
    out.append(") into ");
    out.append(dir);
    out
}

/// The user is told how many relays and direct addresses a ticket offers, and that the
/// transfer goes through a relay exactly where there is no direct address.
pub proof fn law_ticket_is_reported(relays: nat, ips: nat)
    ensures
        ticket_report_lines(relays, ips).len() == if ips == 0 {
            2nat
        } else {
            1nat
        },
        text::has_part(ticket_report_lines(relays, ips)[0], numbers::decimal_text(relays)),
        text::has_part(ticket_report_lines(relays, ips)[0], numbers::decimal_text(ips)),
{
    let r = numbers::decimal_text(relays);
    let i = numbers::decimal_text(ips);
    let head = "🔗  ticket offers "@;
    let mid = " relay(s), "@;
    let tail = " direct address(es)"@;
    text::law_has_its_parts(head, r, mid + i + tail);
    assert(head + r + (mid + i + tail) =~= head + r + mid + i + tail);
    text::law_has_its_parts(head + r + mid, i, tail);
}

/// The user is told how much was received and where it is, and that the download was
/// resumed exactly where something was there before, and how much that was.
pub proof fn law_download_is_reported(already_had: u64, total: u64, dir: Seq<char>)
    ensures
        ({
            let lines = download_lines(already_had, total, dir);
            &&& lines.len() == if already_had == 0 {
                1nat
            } else {
                2nat
            }
            &&& text::has_end(lines.last(), dir)
            &&& text::has_part(lines.last(), human_bytes_of(total))
            &&& already_had > 0 ==> text::has_part(lines[0], human_bytes_of(already_had))
        }),
{
    let none = Seq::<char>::empty();
    let t = human_bytes_of(total);
    let h = human_bytes_of(already_had);
    text::law_has_its_parts("✅  received "@, t, " into "@ + dir);
    assert("✅  received "@ + t + (" into "@ + dir) =~= "✅  received "@ + t + " into "@ + dir);
    text::law_has_its_parts("✅  received "@ + t + " into "@, dir, none);
    text::law_has_its_parts("↻  resumed — "@, h, " were already downloaded"@);
}

} // verus!
