//! Endpoint ids, tickets, pairing, contacts and names.

use hato::contacts::{contact_dto, contact_row, contacts_table, list_contacts, me_info, me_report, Contact};
use hato::endpoint::{endpoint_short, id_text, identity_of, read_endpoint, short_id, short_of};
use hato::front::Front;
use hato::names::{
    blank, check_name, check_path, choose_dir, display_name_or, label, prefer, resolve_mailbox, truncate, DirChoice,
    NameChoice, DEFAULT_MAILBOX,
};
use hato::pairing::{accept_peer, finish_pair, PairPayload};
use hato::ticket::{accept_ticket, read_ticket, recv_store_key, sanitize_ticket};

const SECRET: [u8; 32] = [
    0x9d, 0x61, 0xb1, 0x9d, 0xef, 0xfd, 0x5a, 0x60, 0xba, 0x84, 0x4a, 0xf4, 0x92, 0xec, 0x2c, 0xc4, 0x44, 0x49, 0xc5,
    0x69, 0x7b, 0x32, 0x69, 0x19, 0x70, 0x3b, 0xac, 0x03, 0x1c, 0xae, 0x7f, 0x60,
];
const ID: &str = "d75a980182b10ab7d54bfed3c964073a0ee172f3daa62325af021a68f707511a";

fn key() -> [u8; 32] {
    read_endpoint(ID).unwrap()
}

fn contact(id: &str, name: &str, endpoint_id: &str, last_seen: Option<u64>) -> Contact {
    Contact {
        id: id.to_string(),
        name: name.to_string(),
        endpoint_id: endpoint_id.to_string(),
        last_seen,
        paired_at: 5,
    }
}

#[test]
fn identity_of_a_secret_key() {
    let me = identity_of(&SECRET);
    assert_eq!(me.id, ID);
    assert_eq!(me.short, "d75a980182");
    assert!(me.id.starts_with(&me.short));
    assert_eq!(me.short, iroh::SecretKey::from_bytes(&SECRET).public().fmt_short().to_string());
}

#[test]
fn endpoint_ids_are_read_and_written() {
    assert_eq!(id_text(&key()), ID);
    assert_eq!(short_id(&key()), "d75a980182");
    assert!(read_endpoint("").is_err());
    assert!(read_endpoint("nobody").is_err());
    let said = "nobody".parse::<iroh::EndpointId>().unwrap_err().to_string();
    assert_eq!(read_endpoint("nobody"), Err(said));
}

#[test]
fn what_is_no_endpoint_id_is_shown_cut() {
    assert_eq!(endpoint_short(ID), "d75a980182");
    assert_eq!(endpoint_short("somebody unknown"), "somebody u");
    assert_eq!(endpoint_short(""), "");
    assert_eq!(short_of(&Err("no".to_string()), "écrit en toutes lettres"), "écrit en t");
    assert_eq!(short_of(&Ok(key()), "x"), "d75a980182");
}

fn ticket() -> (String, [u8; 32]) {
    let id: iroh::EndpointId = ID.parse().unwrap();
    let hash = [0xabu8; 32];
    let t = iroh_blobs::ticket::BlobTicket::new(
        iroh::EndpointAddr::new(id),
        iroh_blobs::Hash::from_bytes(hash),
        iroh_blobs::BlobFormat::HashSeq,
    );
    (t.to_string(), hash)
}

#[test]
fn tickets_are_read() {
    let (text, hash) = ticket();
    let read = read_ticket(&text).unwrap();
    assert_eq!(read.text, text);
    assert_eq!(read.hash, hash);
}

#[test]
fn white_space_in_a_ticket_does_no_harm() {
    let (text, hash) = ticket();
    let broken = format!(" {}\r\n  {}\u{a0}\t{} ", &text[..3], &text[3..40], &text[40..]);
    let read = read_ticket(&broken).unwrap();
    assert_eq!(read.text, text);
    assert_eq!(read.hash, hash);
    assert_eq!(sanitize_ticket(" a\tb\n c\u{2003}"), "abc");
    assert_eq!(sanitize_ticket(&sanitize_ticket(&broken)), text);
}

#[test]
fn other_texts_are_no_tickets() {
    for s in ["", "bl", "hello", "endpointabc", "BLOBabc"] {
        assert_eq!(
            read_ticket(s).err().unwrap(),
            "that doesn't look like a valid ticket: wrong prefix, expected blob"
        );
    }
    let e = read_ticket("blob").err().unwrap();
    assert!(e.starts_with("that doesn't look like a valid ticket: "));
    let said = "blob!!".parse::<iroh_blobs::ticket::BlobTicket>().unwrap_err().to_string();
    assert_eq!(read_ticket("blob!!").err().unwrap(), format!("that doesn't look like a valid ticket: {said}"));
}

#[test]
fn tickets_are_judged_by_how_they_were_read() {
    let t = accept_ticket("blobx".to_string(), Ok([3; 32])).unwrap();
    assert_eq!((t.text.as_str(), t.hash), ("blobx", [3; 32]));
    assert_eq!(
        accept_ticket("blobx".to_string(), Err("why".to_string())).err().unwrap(),
        "that doesn't look like a valid ticket: why"
    );
}

#[test]
fn scratch_directories_are_keyed_by_the_hash() {
    let (text, hash) = ticket();
    assert_eq!(recv_store_key(&hash), "abababababababab");
    let shown = iroh_blobs::Hash::from_bytes(hash).to_string();
    assert_eq!(recv_store_key(&hash), shown[..16].to_string());
    assert_eq!(recv_store_key(&read_ticket(&format!("{text}\n")).unwrap().hash), recv_store_key(&hash));
}

#[test]
fn pairing_succeeds() {
    let me = identity_of(&SECRET);
    let sent = PairPayload::new("Ann".to_string(), me.id, Some("addr".to_string()));
    assert_eq!((sent.v, sent.kind.as_str()), (1, "pair"));
    let peer = finish_pair(sent).unwrap();
    assert_eq!(peer.display_name, "Ann");
    assert_eq!(peer.endpoint_id, ID);
    assert_eq!(peer.key, key());
    assert_eq!(peer.endpoint_addr.as_deref(), Some("addr"));
}

#[test]
fn other_payloads_are_refused() {
    let mut p = PairPayload::new("Ann".to_string(), ID.to_string(), None);
    p.v = 2;
    assert_eq!(finish_pair(p).err().unwrap(), "peer sent an unexpected pair payload");
    let mut p = PairPayload::new("Ann".to_string(), ID.to_string(), None);
    p.kind = "pairs".to_string();
    assert_eq!(finish_pair(p).err().unwrap(), "peer sent an unexpected pair payload");
    let p = PairPayload::new("Ann".to_string(), "nobody".to_string(), None);
    let said = "nobody".parse::<iroh::EndpointId>().unwrap_err().to_string();
    assert_eq!(finish_pair(p).err().unwrap(), format!("peer endpoint id: {said}"));
    let p = PairPayload::new("Ann".to_string(), ID.to_string(), None);
    assert_eq!(accept_peer(p, Err("odd".to_string())).err().unwrap(), "peer endpoint id: odd");
}

#[test]
fn contacts_are_shown() {
    let c = contact("ann", "Ann", ID, Some(17));
    let d = contact_dto(&c);
    assert_eq!((d.id.as_str(), d.name.as_str()), ("ann", "Ann"));
    assert_eq!(d.endpoint_short, "d75a980182");
    assert_eq!(d.endpoint_id, ID);
    assert_eq!((d.last_seen, d.paired_at), (Some(17), 5));
    let all = list_contacts(&vec![c, contact("bob", "Bob", "not an id at all", None)]);
    assert_eq!(all.len(), 2);
    assert_eq!(all[1].endpoint_short, "not an id ");
    assert_eq!(all[1].last_seen, None);
}

#[test]
fn contact_table_has_columns() {
    assert_eq!(contacts_table(&Vec::new()), vec!["(no contacts yet — run `hato pair` with a friend)"]);
    let book = vec![
        contact("ann", "Ann", ID, Some(17)),
        contact("bob", "A very long name that does not fit", "x", None),
    ];
    assert_eq!(
        contacts_table(&book),
        vec![
            format!("{:<16} {:<24} {:<12} LAST SEEN", "ID", "NAME", "ENDPOINT"),
            format!("{:<16} {:<24} {:<12} 17", "ann", "Ann", "d75a980182"),
            format!("{:<16} {:<24} {:<12} -", "bob", "A very long name that d…", "x"),
        ]
    );
    let line: Vec<char> = contact_row(&book[0]).chars().collect();
    assert_eq!(line[42..52].iter().collect::<String>(), "d75a980182");
}

#[test]
fn this_machine_is_shown() {
    let me = me_info("Ann".to_string(), &SECRET, None);
    assert_eq!(me.display_name, "Ann");
    assert_eq!(me.endpoint_id, ID);
    assert_eq!(me.endpoint_short, "d75a980182");
    assert_eq!(me.config_dir, "");
    assert_eq!(me_info("Ann".to_string(), &SECRET, Some("/c".to_string())).config_dir, "/c");
    let mut want = vec![
        "🐦  you are:".to_string(),
        "    name:         Ann".to_string(),
        format!("    endpoint id:  {ID}"),
        "    short:        d75a980182".to_string(),
    ];
    assert_eq!(me_report("Ann", &SECRET, None), want);
    want.push("    config dir:   /c".to_string());
    assert_eq!(me_report("Ann", &SECRET, Some("/c".to_string())), want);
}

#[test]
fn names_are_trimmed() {
    assert_eq!(check_name("  Ann B \n"), Ok("Ann B".to_string()));
    assert_eq!(check_name(&check_name("  Ann B \n").unwrap()), Ok("Ann B".to_string()));
    assert_eq!(check_name(" \t"), Err("name must not be empty".to_string()));
    assert!(matches!(display_name_or(None), Ok(NameChoice::Stored)));
    assert_eq!(display_name_or(Some("".to_string())).unwrap_err(), "name must not be empty");
    match display_name_or(Some(" x ".to_string())) {
        Ok(NameChoice::Store(n)) => assert_eq!(n, "x"),
        r => panic!("{r:?}"),
    }
    assert!(blank("\u{3000}"));
    assert!(!blank(" x"));
}

#[test]
fn long_names_are_cut() {
    assert_eq!(truncate("abc", 3), "abc");
    assert_eq!(truncate("abcd", 3), "ab…");
    assert_eq!(truncate("éàüö", 3), "éà…");
    assert_eq!(truncate("abcd", 1), "…");
    assert_eq!(truncate("abcd", 0), "…");
    assert_eq!(truncate("", 0), "");
}

#[test]
fn mailboxes_are_chosen() {
    let some = |s: &str| Some(s.to_string());
    assert_eq!(resolve_mailbox(Front::Terminal, some("a"), some("b")), "a");
    assert_eq!(resolve_mailbox(Front::Terminal, None, some("b")), "b");
    assert_eq!(resolve_mailbox(Front::Terminal, None, None), "ws://127.0.0.1:8080/v1/ws");
    assert_eq!(DEFAULT_MAILBOX, "ws://127.0.0.1:8080/v1/ws");
    assert_eq!(resolve_mailbox(Front::Terminal, some(" "), some("b")), " ");
    assert_eq!(resolve_mailbox(Front::Desktop, some(" "), some("b")), "b");
    assert_eq!(resolve_mailbox(Front::Desktop, some(" "), None), DEFAULT_MAILBOX);
    assert_eq!(resolve_mailbox(Front::Desktop, some(" a "), some("b")), " a ");
    assert_eq!(resolve_mailbox(Front::Desktop, None, some("")), "");
}

#[test]
fn other_choices() {
    assert!(matches!(choose_dir(None), DirChoice::Downloads));
    assert!(matches!(choose_dir(Some(" ".to_string())), DirChoice::Downloads));
    match choose_dir(Some(" d ".to_string())) {
        DirChoice::Given(d) => assert_eq!(d, " d "),
        r => panic!("{r:?}"),
    }
    assert_eq!(label(Some("f".to_string()), "/d/f".to_string()), "f");
    assert_eq!(label(None, "/".to_string()), "/");
    assert_eq!(check_path(true, "/x"), Ok(()));
    assert_eq!(check_path(false, "/x"), Err("no such file or folder: /x".to_string()));
    assert_eq!(prefer(Some("a".to_string()), Some("b".to_string())).as_deref(), Some("a"));
    assert_eq!(prefer(None, Some("b".to_string())).as_deref(), Some("b"));
    assert_eq!(prefer(None, None), None);
}
