//! Tickets: the texts by which a receiver finds a sender and a transfer.

use vstd::prelude::*;

use crate::endpoint;
use crate::numbers;
use crate::text;

verus! {

/// `s` without any white space.
pub open spec fn sanitized(s: Seq<char>) -> Seq<char> {
    s.filter(|c: char| !text::is_white_space(c))
}

/// Normalizes a pasted ticket: takes all white space out. Text fields and chat
/// programs put line breaks and blanks into long texts.
pub fn sanitize_ticket(s: &str) -> (r: String)
    ensures
        r@ == sanitized(s@),
        (forall|i: int| 0 <= i < s@.len() ==> !text::is_white_space(#[trigger] s@[i])) ==> r@ == s@,
{
    let cs = text::to_chars(s);
    let mut out = String::new();
    let mut i: usize = 0;
    proof {
        reveal(Seq::filter);
    }
    assert(cs@.take(0) == Seq::<char>::empty());
    while i < cs.len()
        invariant
            i <= cs@.len(),
            out@ == sanitized(cs@.take(i as int)),
        decreases cs@.len() - i,
    {
        let c = cs[i];
        proof {
            reveal(Seq::filter);
        }
        assert(cs@.take(i + 1).drop_last() == cs@.take(i as int));
        if !text::white_space(c) {
            out.push(c);
        }
        i += 1;
    }
    assert(cs@.take(i as int) == s@);
    proof {
        if forall|i: int| 0 <= i < s@.len() ==> !text::is_white_space(#[trigger] s@[i]) {
            law_only_white_space_is_taken(s@);
        }
    }
    out
}

/// The hash of the transfer that a ticket leads to, or the message for a text
/// that is no ticket, as `iroh_blobs::ticket::BlobTicket` reads it.
pub uninterp spec fn ticket_hash_of(text: Seq<char>) -> Result<Seq<u8>, Seq<char>>;

/// Reads a ticket with `BlobTicket::from_str`, and hands out the hash in it. The
/// contract claims that hash and message depend on the text alone, and that a
/// text that does not begin with `blob` is refused with a message that says so.
#[verifier::external_body]
fn ticket_hash(text: &str) -> (r: Result<[u8; 32], String>)
    ensures
        endpoint::key_result(r) == ticket_hash_of(text@),
        !(text@.len() >= 4 && text@.take(4) == "blob"@) ==> r is Err && r->Err_0@
            == "wrong prefix, expected blob"@,
{
    match <iroh_blobs::ticket::BlobTicket as std::str::FromStr>::from_str(text) {
        Ok(t) => Ok(*t.hash().as_bytes()),
        Err(e) => Err(e.to_string()),
    }
}

/// A ticket that was pasted: its text without white space, and the hash of the
/// transfer that it leads to.
#[derive(Debug)]
pub struct PastedTicket {
    pub text: String,
    pub hash: [u8; 32],
}

/// Judges a pasted ticket, whose text without white space is `text` and was read
/// as `read`.
pub fn accept_ticket(text: String, read: Result<[u8; 32], String>) -> (r: Result<
    PastedTicket,
    String,
>)
    ensures
        r is Ok <==> read is Ok,
        r matches Ok(t) ==> t.text@ == text@ && read->Ok_0 == t.hash,
        r matches Err(e) ==> e@ == "that doesn't look like a valid ticket: "@ + read->Err_0@,
{
    match read {
        Ok(hash) => Ok(PastedTicket { text, hash }),
        Err(why) => {
            let mut e = "that doesn't look like a valid ticket: ".to_owned();
            e.append(why.as_str());
            Err(e)
        },
    }
}

/// Whether a text that was pasted can be a ticket: it begins with `blob` once the
/// white space is out.
pub open spec fn looks_like_ticket(pasted: Seq<char>) -> bool {
    let s = sanitized(pasted);
    s.len() >= 4 && s.take(4) == "blob"@
}

/// Reads a pasted ticket.
pub fn read_ticket(pasted: &str) -> (r: Result<PastedTicket, String>)
    ensures
        r is Ok <==> ticket_hash_of(sanitized(pasted@)) is Ok,
        r is Ok ==> looks_like_ticket(pasted@),
        r matches Ok(t) ==> {
            &&& t.text@ == sanitized(pasted@)
            &&& t.hash@ == ticket_hash_of(sanitized(pasted@))->Ok_0
        },
        r matches Err(e) ==> e@ == "that doesn't look like a valid ticket: "@ + ticket_hash_of(
            sanitized(pasted@),
        )->Err_0,
        !looks_like_ticket(pasted@) ==> r is Err && r->Err_0@
            == "that doesn't look like a valid ticket: "@ + "wrong prefix, expected blob"@,
{
    let text = sanitize_ticket(pasted);
    let read = ticket_hash(text.as_str());
    accept_ticket(text, read)
}

/// The name of the scratch directory for the transfer with the hash `hash`: the
/// first sixteen digits of the hash.
pub open spec fn store_key(hash: Seq<u8>) -> Seq<char> {
    text::at_most(numbers::hex_text(hash), 16)
}

/// The name of the scratch directory for the transfer with the hash `hash`. It
/// depends on nothing else, so that an interrupted download is taken up again by
/// the next one with the same ticket.
pub fn recv_store_key(hash: &[u8; 32]) -> (r: String)
    ensures
        r@ == store_key(hash@),
{
    let hex = numbers::to_hex(hash.as_slice());
    text::take_chars(hex.as_str(), 16)
}

/// The name of a scratch directory always has sixteen characters.
pub proof fn law_store_key_len(hash: Seq<u8>)
    requires
        hash.len() == 32,
    ensures
        store_key(hash).len() == 16,
{
    numbers::lemma_hex_len(hash);
}

/// No white space is left in a sanitized text, and sanitizing it again changes
/// nothing.
pub proof fn law_sanitized_is_clean(s: Seq<char>)
    ensures
        forall|i: int|
            0 <= i < sanitized(s).len() ==> !text::is_white_space(#[trigger] sanitized(s)[i]),
        sanitized(sanitized(s)) == sanitized(s),
    decreases s.len(),
{
    reveal(Seq::filter);
    if s.len() > 0 {
        let front = s.drop_last();
        law_sanitized_is_clean(front);
        if !text::is_white_space(s.last()) {
            let long = sanitized(s);
            assert(long == sanitized(front).push(s.last()));
            assert(long.drop_last() == sanitized(front));
        }
    }
}

/// White space that gets into a ticket on its way does not change which ticket
/// it is.
pub proof fn law_white_space_is_harmless(a: Seq<char>, w: Seq<char>, b: Seq<char>)
    requires
        forall|i: int| 0 <= i < w.len() ==> text::is_white_space(#[trigger] w[i]),
    ensures
        sanitized(a + w + b) == sanitized(a + b),
    decreases b.len(), w.len(),
{
    reveal(Seq::filter);
    if b.len() > 0 {
        law_white_space_is_harmless(a, w, b.drop_last());
        assert((a + w + b).drop_last() == a + w + b.drop_last());
        assert((a + b).drop_last() == a + b.drop_last());
        assert((a + w + b).last() == b.last());
        assert((a + b).last() == b.last());
    } else if w.len() > 0 {
        let shorter = w.drop_last();
        assert forall|i: int| 0 <= i < shorter.len() implies text::is_white_space(
            #[trigger] shorter[i],
        ) by {
            assert(shorter[i] == w[i]);
        }
        law_white_space_is_harmless(a, shorter, b);
        assert((a + w + b).drop_last() == a + shorter + b);
        assert((a + w + b).last() == w[w.len() - 1]);
    } else {
        assert(a + w + b == a + b);
    }
}

/// An interrupted download is taken up again by the next one with the same ticket,
/// however the ticket was pasted: white space in it changes neither whether it is
/// accepted nor which scratch directory it leads to.
pub proof fn law_same_ticket_same_store(a: Seq<char>, w: Seq<char>, b: Seq<char>)
    requires
        forall|i: int| 0 <= i < w.len() ==> text::is_white_space(#[trigger] w[i]),
    ensures
        ticket_hash_of(sanitized(a + w + b)) == ticket_hash_of(sanitized(a + b)),
        ticket_hash_of(sanitized(a + b)) matches Ok(hash) ==> store_key(
            ticket_hash_of(sanitized(a + w + b))->Ok_0,
        ) == store_key(hash),
{
    law_white_space_is_harmless(a, w, b);
}

/// Sanitizing takes out nothing but white space: a text without any stays as it is, so
/// that a ticket is read as the sender prints it.
pub proof fn law_only_white_space_is_taken(s: Seq<char>)
    requires
        forall|i: int| 0 <= i < s.len() ==> !text::is_white_space(#[trigger] s[i]),
    ensures
        sanitized(s) == s,
        ticket_hash_of(sanitized(s)) == ticket_hash_of(s),
    decreases s.len(),
{
    reveal(Seq::filter);
    if s.len() > 0 {
        let front = s.drop_last();
        assert forall|i: int| 0 <= i < front.len() implies !text::is_white_space(
            #[trigger] front[i],
        ) by {
            assert(front[i] == s[i]);
        }
        law_only_white_space_is_taken(front);
        assert(s[s.len() - 1] == s.last());
        assert(front.push(s.last()) =~= s);
    } else {
        assert(sanitized(s) =~= s);
    }
}

/// Sanitizing goes character by character: what is left of two texts is what is left
/// of the first and then what is left of the second.
pub proof fn law_sanitized_of_both(a: Seq<char>, b: Seq<char>)
    ensures
        sanitized(a + b) == sanitized(a) + sanitized(b),
    decreases b.len(),
{
    reveal(Seq::filter);
    if b.len() == 0 {
        assert(a + b =~= a);
        assert(sanitized(b) =~= Seq::<char>::empty());
        assert(sanitized(a) + sanitized(b) =~= sanitized(a));
    } else {
        law_sanitized_of_both(a, b.drop_last());
        assert((a + b).drop_last() =~= a + b.drop_last());
        assert((a + b).last() == b.last());
        assert(sanitized(a + b) =~= sanitized(a) + sanitized(b));
    }
}

/// A ticket is found in what was pasted, whatever white space was put into it and
/// wherever: what is read is the ticket, whole.
pub proof fn law_ticket_is_found(a: Seq<char>, w: Seq<char>, b: Seq<char>)
    requires
        forall|i: int| 0 <= i < a.len() ==> !text::is_white_space(#[trigger] a[i]),
        forall|i: int| 0 <= i < w.len() ==> text::is_white_space(#[trigger] w[i]),
        forall|i: int| 0 <= i < b.len() ==> !text::is_white_space(#[trigger] b[i]),
    ensures
        sanitized(a + w + b) == a + b,
{
    law_white_space_is_harmless(a, w, b);
    law_sanitized_of_both(a, b);
    law_only_white_space_is_taken(a);
    law_only_white_space_is_taken(b);
}

/// The name of a scratch directory is the beginning of the hash, digit by digit.
pub proof fn law_store_key_begins_the_hash(hash: Seq<u8>)
    requires
        hash.len() == 32,
    ensures
        store_key(hash) == numbers::hex_text(hash).take(16),
{
    numbers::lemma_hex_len(hash);
}

/// What begins with `blob` can be a ticket, whatever white space stands before it, and
/// nothing else can.
pub proof fn law_tickets_begin_alike(w: Seq<char>, rest: Seq<char>, pasted: Seq<char>)
    requires
        forall|i: int| 0 <= i < w.len() ==> text::is_white_space(#[trigger] w[i]),
    ensures
        looks_like_ticket(w + "blob"@ + rest),
        looks_like_ticket(pasted) == looks_like_ticket(sanitized(pasted)),
        looks_like_ticket(pasted) ==> sanitized(pasted).take(4) == "blob"@,
{
    let none = Seq::<char>::empty();
    reveal_strlit("blob");
    law_sanitized_is_clean(pasted);
    law_white_space_is_harmless(none, w, "blob"@ + rest);
    assert(none + w + ("blob"@ + rest) =~= w + "blob"@ + rest);
    assert(none + ("blob"@ + rest) =~= "blob"@ + rest);
    law_sanitized_of_both("blob"@, rest);
    law_only_white_space_is_taken("blob"@);
    assert(("blob"@ + sanitized(rest)).take(4) =~= "blob"@);
}

} // verus!
