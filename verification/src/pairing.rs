//! Pairing: what two machines tell each other, and what is accepted of it.

use vstd::prelude::*;

use crate::endpoint;
use crate::numbers;
use crate::text;

verus! {

/// What a machine tells the other one when they pair.
#[derive(Debug)]
pub struct PairPayload {
    pub v: u32,
    pub kind: String,
    pub display_name: String,
    pub endpoint_id: String,
    pub endpoint_addr: Option<String>,
}

impl PairPayload {
    /// What a machine with this name, endpoint id and address tells.
    pub fn new(
        display_name: String,
        endpoint_id: String,
        endpoint_addr: Option<String>,
    ) -> (r: Self)
        ensures
            is_pair_payload(r),
            r.display_name == display_name,
            r.endpoint_id == endpoint_id,
            r.endpoint_addr == endpoint_addr,
    {
        PairPayload { v: 1, kind: "pair".to_owned(), display_name, endpoint_id, endpoint_addr }
    }
}

/// Whether a payload is one for pairing, of the version that is spoken here.
pub open spec fn is_pair_payload(p: PairPayload) -> bool {
    p.v == 1 && p.kind@ == "pair"@
}

/// A machine to pair with: what it calls itself, its key, and where it can be
/// reached.
#[derive(Debug)]
pub struct PairedPeer {
    pub display_name: String,
    pub key: [u8; 32],
    pub endpoint_id: String,
    pub endpoint_addr: Option<String>,
}

/// Whether `r` is the judgement on what the other machine told, whose endpoint id
/// was read as `read`: it must be a payload for pairing, and name an endpoint.
pub open spec fn judged(
    peer: PairPayload,
    read: Result<Seq<u8>, Seq<char>>,
    r: Result<PairedPeer, String>,
) -> bool {
    if !is_pair_payload(peer) {
        r is Err && r->Err_0@ == "peer sent an unexpected pair payload"@
    } else {
        match read {
            Err(why) => r is Err && r->Err_0@ == "peer endpoint id: "@ + why,
            Ok(key) => {
                &&& r is Ok
                &&& r->Ok_0.display_name == peer.display_name
                &&& r->Ok_0.key@ == key
                &&& r->Ok_0.endpoint_id@ == numbers::hex_text(key)
                &&& r->Ok_0.endpoint_addr == peer.endpoint_addr
            },
        }
    }
}

/// Judges what the other machine told, whose endpoint id was read as `read`.
pub fn accept_peer(peer: PairPayload, read: Result<[u8; 32], String>) -> (r: Result<
    PairedPeer,
    String,
>)
    ensures
        judged(peer, endpoint::key_result(read), r),
{
    if peer.v != 1 || !text::same(peer.kind.as_str(), "pair") {
        return Err("peer sent an unexpected pair payload".to_owned());
    }
    match read {
        Err(why) => {
            let mut e = "peer endpoint id: ".to_owned();
            e.append(why.as_str());
            Err(e)
        },
        Ok(key) => Ok(
            PairedPeer {
                display_name: peer.display_name,
                key,
                endpoint_id: endpoint::id_text(&key),
                endpoint_addr: peer.endpoint_addr,
            },
        ),
    }
}

/// Judges what the other machine told: it must be a payload for pairing, and name
/// an endpoint.
pub fn finish_pair(peer: PairPayload) -> (r: Result<PairedPeer, String>)
    ensures
        judged(peer, endpoint::endpoint_key_of(peer.endpoint_id@), r),
{
    let read = endpoint::read_endpoint(peer.endpoint_id.as_str());
    accept_peer(peer, read)
}

/// Pairing works: where a machine tells the id of its key, the other one accepts
/// it, and knows it from then on by that key, under the name, the id and the address
/// that it told.
pub proof fn law_pairing_succeeds(key: Seq<u8>, told: PairPayload, r: Result<PairedPeer, String>)
    requires
        endpoint::is_endpoint_key(key),
        is_pair_payload(told),
        told.endpoint_id@ == numbers::hex_text(key),
        judged(told, endpoint::endpoint_key_of(told.endpoint_id@), r),
    ensures
        r is Ok,
        r->Ok_0.key@ == key,
        r->Ok_0.endpoint_id@ == told.endpoint_id@,
        r->Ok_0.display_name == told.display_name,
        r->Ok_0.endpoint_addr == told.endpoint_addr,
{
}

/// What is no payload for pairing, or of another version, is refused, and so is one that
/// names no endpoint; the message tells why, whole.
pub proof fn law_other_payloads_are_refused(
    told: PairPayload,
    read: Result<Seq<u8>, Seq<char>>,
    r: Result<PairedPeer, String>,
)
    requires
        judged(told, read, r),
        told.v != 1 || told.kind@ != "pair"@ || read is Err,
    ensures
        r is Err,
        told.v == 1 && told.kind@ == "pair"@ ==> text::has_end(r->Err_0@, read->Err_0),
{
    if told.v == 1 && told.kind@ == "pair"@ {
        text::law_has_its_parts("peer endpoint id: "@, read->Err_0, Seq::empty());
    }
}

/// A machine is paired with exactly where it sent a payload for pairing, of version 1,
/// that names an endpoint; what it told of itself is taken over, whole.
pub proof fn law_payload_decides(
    told: PairPayload,
    read: Result<Seq<u8>, Seq<char>>,
    r: Result<PairedPeer, String>,
)
    requires
        judged(told, read, r),
    ensures
        r is Ok <==> told.v == 1 && told.kind@ == "pair"@ && read is Ok,
        r is Ok ==> r->Ok_0.key@ == read->Ok_0 && r->Ok_0.display_name == told.display_name
            && r->Ok_0.endpoint_addr == told.endpoint_addr,
        r is Ok ==> r->Ok_0.endpoint_id@ == numbers::hex_text(read->Ok_0),
{
}

} // verus!
