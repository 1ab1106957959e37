//! Endpoint ids: the public keys by which machines know each other.
//!
//! An endpoint id is a public key of 32 bytes. It is shown in hexadecimal, and
//! where space is short, by its first five bytes.

use vstd::prelude::*;

use crate::numbers;
use crate::text;

verus! {

/// The key that a text names as an endpoint id, or the message for a text that
/// names none, as `iroh::EndpointId` reads it.
pub uninterp spec fn endpoint_key_of(text: Seq<char>) -> Result<Seq<u8>, Seq<char>>;

/// Whether the hexadecimal text of `key` is an endpoint id: that key.
pub open spec fn is_endpoint_key(key: Seq<u8>) -> bool {
    endpoint_key_of(numbers::hex_text(key)) == Result::<Seq<u8>, Seq<char>>::Ok(key)
}

/// What a key or an error message holds.
pub open spec fn key_result(r: Result<[u8; 32], String>) -> Result<Seq<u8>, Seq<char>> {
    match r {
        Ok(k) => Ok(k@),
        Err(e) => Err(e@),
    }
}

/// Reads an endpoint id with `iroh::EndpointId::from_str`. The contract claims
/// that key and message depend on the text alone, and that the hexadecimal text
/// of a key that was read is read as the same key again.
#[verifier::external_body]
fn parse_endpoint(text: &str) -> (r: Result<[u8; 32], String>)
    ensures
        key_result(r) == endpoint_key_of(text@),
        r matches Ok(k) ==> is_endpoint_key(k@),
{
    match <iroh::EndpointId as std::str::FromStr>::from_str(text) {
        Ok(id) => Ok(*id.as_bytes()),
        Err(e) => Err(e.to_string()),
    }
}

/// The public key that belongs to a secret key.
pub uninterp spec fn public_key_of(secret: Seq<u8>) -> Seq<u8>;

/// The public key of a secret key, by `iroh::SecretKey::public`. The contract
/// claims that it depends on the secret key alone, and that its hexadecimal text
/// is an endpoint id: that key.
#[verifier::external_body]
fn public_key(secret: &[u8; 32]) -> (r: [u8; 32])
    ensures
        r@ == public_key_of(secret@),
        is_endpoint_key(r@),
{
    *iroh::SecretKey::from_bytes(secret).public().as_bytes()
}

/// The endpoint id of the key `key`, in hexadecimal.
pub fn id_text(key: &[u8; 32]) -> (r: String)
    ensures
        r@ == numbers::hex_text(key@),
{
    numbers::to_hex(key.as_slice())
}

/// The short form of the endpoint id of `key`: its first five bytes in
/// hexadecimal.
pub open spec fn short_text(key: Seq<u8>) -> Seq<char> {
    numbers::hex_text(key.take(5))
}

/// The short form of the endpoint id of `key`.
pub fn short_id(key: &[u8; 32]) -> (r: String)
    ensures
        r@ == short_text(key@),
{
    let head = vstd::slice::slice_subrange(key.as_slice(), 0, 5);
    assert(head@ == key@.take(5));
    numbers::to_hex(head)
}

/// The identity of this machine: its endpoint id, in full and short.
#[derive(Debug)]
pub struct Identity {
    pub id: String,
    pub short: String,
}

/// The identity of the machine with the secret key `secret`.
pub fn identity_of(secret: &[u8; 32]) -> (r: Identity)
    ensures
        r.id@ == numbers::hex_text(public_key_of(secret@)),
        r.short@ == short_text(public_key_of(secret@)),
        is_endpoint_key(public_key_of(secret@)),
{
    let key = public_key(secret);
    Identity { id: id_text(&key), short: short_id(&key) }
}

/// Reads an endpoint id.
pub fn read_endpoint(text: &str) -> (r: Result<[u8; 32], String>)
    ensures
        key_result(r) == endpoint_key_of(text@),
        r matches Ok(k) ==> is_endpoint_key(k@),
{
    parse_endpoint(text)
}

/// What is shown for an endpoint id that was read as `read`: its short form, or
/// the first ten characters of what was written where that is no endpoint id.
pub open spec fn shown_short(read: Result<Seq<u8>, Seq<char>>, written: Seq<char>) -> Seq<char> {
    match read {
        Ok(key) => short_text(key),
        Err(_) => text::at_most(written, 10),
    }
}

/// What is shown for an endpoint id that was written as `written` and read as
/// `read`.
pub fn short_of(read: &Result<[u8; 32], String>, written: &str) -> (r: String)
    ensures
        r@ == shown_short(key_result(*read), written@),
{
    match read {
        Ok(key) => short_id(key),
        Err(_) => text::take_chars(written, 10),
    }
}

/// What is shown for an endpoint id that was written as `written`.
pub fn endpoint_short(written: &str) -> (r: String)
    ensures
        r@ == shown_short(endpoint_key_of(written@), written@),
        r@.len() <= 10,
{
    let read = parse_endpoint(written);
    proof {
        law_short_fits(key_result(read), written@);
    }
    short_of(&read, written)
}

/// What is shown for an endpoint id always fits in ten characters.
pub proof fn law_short_fits(read: Result<Seq<u8>, Seq<char>>, written: Seq<char>)
    requires
        read matches Ok(key) ==> key.len() == 32,
    ensures
        shown_short(read, written).len() <= 10,
{
    if let Ok(key) = read {
        numbers::lemma_hex_len(key.take(5));
    }
}

/// The short form of an endpoint id is the beginning of its full form.
pub proof fn law_short_is_prefix(key: Seq<u8>)
    requires
        key.len() == 32,
    ensures
        numbers::hex_text(key).take(10) == short_text(key),
{
    lemma_hex_prefix(key, 5);
    numbers::lemma_hex_len(key.take(5));
}

/// The hexadecimal text of the first bytes is the beginning of the whole text.
proof fn lemma_hex_prefix(bytes: Seq<u8>, n: nat)
    requires
        n <= bytes.len(),
    ensures
        numbers::hex_text(bytes).len() >= 2 * n,
        numbers::hex_text(bytes).take((2 * n) as int) == numbers::hex_text(bytes.take(n as int)),
    decreases bytes.len(),
{
    numbers::lemma_hex_len(bytes);
    numbers::lemma_hex_len(bytes.take(n as int));
    if n == bytes.len() {
        assert(bytes.take(n as int) == bytes);
        assert(numbers::hex_text(bytes).take((2 * n) as int) == numbers::hex_text(bytes));
    } else {
        let front = bytes.drop_last();
        lemma_hex_prefix(front, n);
        numbers::lemma_hex_len(front);
        assert(front.take(n as int) == bytes.take(n as int));
        assert(numbers::hex_text(bytes).take((2 * n) as int) =~= numbers::hex_text(front).take(
            (2 * n) as int,
        ));
    }
}

/// What is no endpoint id is shown as it was written, up to its tenth character.
pub proof fn law_other_ids_are_shown_as_written(why: Seq<char>, written: Seq<char>)
    ensures
        ({
            let shown = shown_short(Err(why), written);
            &&& shown.len() == if written.len() < 10 {
                written.len()
            } else {
                10
            }
            &&& forall|i: int| 0 <= i < shown.len() ==> #[trigger] shown[i] == written[i]
        }),
{
    text::law_at_most_is_a_beginning(written, 10);
}

/// An endpoint id is shown by its first ten digits.
pub proof fn law_ids_are_shown_by_their_digits(key: Seq<u8>, written: Seq<char>)
    requires
        key.len() == 32,
    ensures
        shown_short(Ok(key), written) == numbers::hex_text(key).take(10),
{
    law_short_is_prefix(key);
}

} // verus!
