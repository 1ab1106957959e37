//! Failures in words that a user can act on.

use vstd::prelude::*;

use crate::text;

verus! {

/// Whether the message `full` tells of a connection that broke.
pub open spec fn tells_dropped(full: Seq<char>) -> bool {
    let lower = text::lowered(full);
    ||| text::has_part(lower, "stream reset"@)
    ||| text::has_part(lower, "connection reset"@)
}

/// Whether the message `full` tells of a sender that could not be reached.
pub open spec fn tells_unreachable(full: Seq<char>) -> bool {
    let lower = text::lowered(full);
    ||| text::has_part(lower, "connection refused"@)
    ||| text::has_part(lower, "timed out"@)
    ||| text::has_part(lower, "timeout"@)
    ||| text::has_part(lower, "failed to connect"@)
}

/// What the user is told where the connection broke, up to the message itself.
pub const DROPPED: &'static str = "connection dropped mid-transfer (sender closed or network glitch).\nAsk the sender to keep Hato open on the Serving screen and try again — interrupted downloads resume automatically.\n(";

/// What the user is told where the sender could not be reached, up to the message
/// itself.
pub const UNREACHABLE: &'static str = "couldn't reach the sender. Make sure they still have Hato open and Serving, and that both sides are online.\n(";

/// What the user is told of a failed transfer with the message `full`.
pub open spec fn friendly_text(full: Seq<char>) -> Seq<char> {
    if tells_dropped(full) {
        DROPPED@ + full + ")"@
    } else if tells_unreachable(full) {
        UNREACHABLE@ + full + ")"@
    } else {
        full
    }
}

/// What the user is told of a failed transfer with the message `full`.
pub fn friendly_transfer_err(full: String) -> (r: String)
    ensures
        r@ == friendly_text(full@),
{
    let lower = text::to_ascii_lowercase(full.as_str());
    let l = lower.as_str();
    if text::contains(l, "stream reset") || text::contains(l, "connection reset") {
        let mut out = DROPPED.to_owned();
        out.append(full.as_str());
        out.append(")");
        return out;
    }
    if text::contains(l, "connection refused") || text::contains(l, "timed out") || text::contains(
        l,
        "timeout",
    ) || text::contains(l, "failed to connect") {
        let mut out = UNREACHABLE.to_owned();
        out.append(full.as_str());
        out.append(")");
        return out;
    }
    full
}

/// Whatever advice is given, the message itself is not lost.
pub proof fn law_friendly_keeps_message(full: Seq<char>)
    ensures
        text::has_part(friendly_text(full), full),
{
    let r = friendly_text(full);
    if tells_dropped(full) {
        let at = DROPPED@.len() as int;
        assert(r.subrange(at, at + full.len()) =~= full);
        assert(text::occurs_at(r, full, at));
    } else if tells_unreachable(full) {
        let at = UNREACHABLE@.len() as int;
        assert(r.subrange(at, at + full.len()) =~= full);
        assert(text::occurs_at(r, full, at));
    } else {
        assert(r.subrange(0, full.len() as int) =~= full);
        assert(text::occurs_at(r, full, 0));
    }
}

/// Why a short code did not lead to the other side.
#[derive(Debug)]
pub enum CodeFailure {
    /// The two sides did not use the same code.
    VerifierMismatch,
    /// Something else, with this message.
    Other(String),
}

/// What a short code was used for, and where.
#[derive(Debug, Clone, Copy, PartialEq, Eq, Structural)]
pub enum CodeUse {
    /// Pairing at a terminal.
    TerminalPair,
    /// Pairing on the desktop.
    DesktopPair,
    /// Fetching a file at a terminal.
    TerminalGet,
}

/// What the user is told where the two sides did not use the same code.
pub open spec fn wrong_code_text(used: CodeUse) -> Seq<char> {
    match used {
        CodeUse::TerminalPair => "wrong code (or a man-in-the-middle): the code did not match. Double-check the words; nothing was saved."@,
        CodeUse::DesktopPair => "wrong code (or a man-in-the-middle): the code did not match. Nothing was saved."@,
        CodeUse::TerminalGet => "wrong code (or a man-in-the-middle): the code did not match. Double-check the words; nothing was transferred."@,
    }
}

/// What the user is told of a short code that failed.
pub fn map_code_err(used: CodeUse, e: CodeFailure) -> (r: String)
    ensures
        r@ == match e {
            CodeFailure::VerifierMismatch => wrong_code_text(used),
            CodeFailure::Other(why) => why@,
        },
{
    match e {
        CodeFailure::Other(why) => why,
        CodeFailure::VerifierMismatch => match used {
            CodeUse::TerminalPair => "wrong code (or a man-in-the-middle): the code did not match. Double-check the words; nothing was saved.".to_owned(),
            CodeUse::DesktopPair => "wrong code (or a man-in-the-middle): the code did not match. Nothing was saved.".to_owned(),
            CodeUse::TerminalGet => "wrong code (or a man-in-the-middle): the code did not match. Double-check the words; nothing was transferred.".to_owned(),
        },
    }
}

/// A broken connection is recognised by its message wherever it tells of it, in either
/// case, and the user is given the advice for it, with the message whole.
pub proof fn law_dropped_is_recognised(a: Seq<char>, said: Seq<char>, b: Seq<char>)
    requires
        text::lowered(said) == "stream reset"@ || text::lowered(said) == "connection reset"@,
    ensures
        tells_dropped(a + said + b),
        friendly_text(a + said + b) == DROPPED@ + (a + said + b) + ")"@,
{
    lemma_lowered_part(a, said, b);
}

/// A sender who cannot be reached is recognised in the same way, unless the message tells
/// of a broken connection.
pub proof fn law_unreachable_is_recognised(a: Seq<char>, said: Seq<char>, b: Seq<char>)
    requires
        text::lowered(said) == "connection refused"@ || text::lowered(said) == "timed out"@
            || text::lowered(said) == "timeout"@ || text::lowered(said) == "failed to connect"@,
        !tells_dropped(a + said + b),
    ensures
        tells_unreachable(a + said + b),
        friendly_text(a + said + b) == UNREACHABLE@ + (a + said + b) + ")"@,
{
    lemma_lowered_part(a, said, b);
}

/// Every other message is shown as it is.
pub proof fn law_other_messages_stay(full: Seq<char>)
    requires
        ({
            let lower = text::lowered(full);
            &&& !text::has_part(lower, "stream reset"@)
            &&& !text::has_part(lower, "connection reset"@)
            &&& !text::has_part(lower, "connection refused"@)
            &&& !text::has_part(lower, "timed out"@)
            &&& !text::has_part(lower, "timeout"@)
            &&& !text::has_part(lower, "failed to connect"@)
        }),
    ensures
        friendly_text(full) == full,
{
}

/// A part of a text is a part of it in lower case too.
proof fn lemma_lowered_part(a: Seq<char>, said: Seq<char>, b: Seq<char>)
    ensures
        text::has_part(text::lowered(a + said + b), text::lowered(said)),
{
    text::law_lowered_of_both(a + said, b);
    text::law_lowered_of_both(a, said);
    text::law_has_its_parts(text::lowered(a), text::lowered(said), text::lowered(b));
}

/// The user is told of a wrong code alike wherever they used it: that it did not match,
/// and that nothing came of it.
pub proof fn law_wrong_code_is_told(used: CodeUse)
    ensures
        text::has_part(wrong_code_text(used), "the code did not match."@),
        used == CodeUse::TerminalGet <==> text::has_end(
            wrong_code_text(used),
            "nothing was transferred."@,
        ),
{
    reveal_strlit("the code did not match.");
    reveal_strlit("nothing was transferred.");
    reveal_strlit("wrong code (or a man-in-the-middle): the code did not match. Double-check the words; nothing was saved.");
    reveal_strlit("wrong code (or a man-in-the-middle): the code did not match. Nothing was saved.");
    reveal_strlit("wrong code (or a man-in-the-middle): the code did not match. Double-check the words; nothing was transferred.");
    let p = "the code did not match."@;
    let q = "nothing was transferred."@;
    let t = wrong_code_text(used);
    assert(p.len() == 23 && q.len() == 24);
    assert(t.subrange(37, 60) =~= p);
    assert(text::occurs_at(t, p, 37));
    if used == CodeUse::TerminalGet {
        assert(t.subrange(t.len() - 24, t.len() as int) =~= q);
    } else if text::has_end(t, q) {
        assert(t.subrange(t.len() - 24, t.len() as int)[22] == t[t.len() - 2]);
        assert(t.subrange(t.len() - 24, t.len() as int)[12] == t[t.len() - 12]);
    }
}

} // verus!
