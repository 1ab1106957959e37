//! What is sent under which name, and where a received file goes.

use hato::transfer::{
    add_step, blob_name, export_plan, export_step, finish_import, import_root, AddEvent, Download, ExportEvent,
    GetEvent, GetStep, ImportedFile, Root, StreamStep,
};

fn file(name: &str, n: u8) -> ImportedFile<u8> {
    ImportedFile { name: name.to_string(), hash: [n; 32], tag: n }
}

#[test]
fn names_are_relative_to_the_root() {
    assert_eq!(import_root(true, true), Ok(Root::Itself));
    assert_eq!(import_root(true, false), Ok(Root::Itself));
    assert_eq!(import_root(false, true), Ok(Root::Parent));
    assert_eq!(import_root(false, false), Err("path has no parent".to_string()));
}

#[test]
fn names_travel_with_slashes() {
    assert_eq!(blob_name(Some("a\\b\\c.txt"), "C:\\root\\a\\b\\c.txt"), "a/b/c.txt");
    assert_eq!(blob_name(Some("a/b.txt"), "/root/a/b.txt"), "a/b.txt");
    assert_eq!(blob_name(None, "\\x\\y"), "/x/y");
}

#[test]
fn collections_are_ordered_by_name() {
    let files = vec![file("b/x", 1), file("a", 2), file("b/a", 3), file("", 4)];
    let (collection, tags) = finish_import("dir", files).unwrap();
    let got: Vec<(String, [u8; 32])> = collection.iter().map(|(n, h)| (n.clone(), *h.as_bytes())).collect();
    assert_eq!(
        got,
        vec![
            ("".to_string(), [4; 32]),
            ("a".to_string(), [2; 32]),
            ("b/a".to_string(), [3; 32]),
            ("b/x".to_string(), [1; 32])
        ]
    );
    assert_eq!(tags, vec![4, 2, 3, 1]);
}

#[test]
fn files_of_one_name_keep_their_order() {
    let (collection, tags) = finish_import("dir", vec![file("n", 1), file("m", 2), file("n", 3)]).unwrap();
    assert_eq!(collection.len(), 3);
    assert_eq!(tags, vec![2, 1, 3]);
}

#[test]
fn a_single_file_is_a_collection_of_one() {
    let (collection, tags) = finish_import("f", vec![file("f", 7)]).unwrap();
    let got: Vec<(String, [u8; 32])> = collection.iter().map(|(n, h)| (n.clone(), *h.as_bytes())).collect();
    assert_eq!(got, vec![("f".to_string(), [7; 32])]);
    assert_eq!(tags, vec![7]);
}

#[test]
fn nothing_to_send() {
    let e = finish_import::<u8>("/tmp/empty", Vec::new()).err().unwrap();
    assert_eq!(e, "nothing to send: /tmp/empty contained no files");
}

#[test]
fn what_is_sent_is_what_is_written() {
    let name = blob_name(Some("dir\\sub\\f.bin"), "");
    let (collection, _) = finish_import("dir", vec![file(&name, 9), file("a.txt", 1)]).unwrap();
    let plan = export_plan(&collection, true).unwrap();
    assert_eq!(plan.len(), 2);
    assert_eq!(plan[0].name, "a.txt");
    assert_eq!(plan[0].parts, vec!["a.txt"]);
    assert_eq!(plan[0].hash, [1; 32]);
    assert_eq!(plan[1].name, "dir/sub/f.bin");
    assert_eq!(plan[1].parts, vec!["dir", "sub", "f.bin"]);
    assert_eq!(plan[1].hash, [9; 32]);
}

#[test]
fn an_empty_collection_writes_nothing() {
    assert!(export_plan(&Default::default(), true).unwrap().is_empty());
}

#[test]
fn importing_follows_the_stream() {
    assert!(matches!(add_step("f", AddEvent::Done), StreamStep::Finished));
    assert!(matches!(add_step("f", AddEvent::Other), StreamStep::Continue));
    match add_step("f", AddEvent::Ended) {
        StreamStep::Fail(e) => assert_eq!(e, "add stream ended before completing"),
        s => panic!("{s:?}"),
    }
    match add_step("f", AddEvent::Error("disk full".to_string())) {
        StreamStep::Fail(e) => assert_eq!(e, "import failed for f: disk full"),
        s => panic!("{s:?}"),
    }
}

#[test]
fn exporting_follows_the_stream() {
    assert!(matches!(export_step("f", ExportEvent::Ended), StreamStep::Finished));
    assert!(matches!(export_step("f", ExportEvent::Other), StreamStep::Continue));
    match export_step("f", ExportEvent::Error("denied".to_string())) {
        StreamStep::Fail(e) => assert_eq!(e, "export failed for f: denied"),
        s => panic!("{s:?}"),
    }
}

#[test]
fn the_total_is_what_was_told_last() {
    let mut d = Download::new();
    assert_eq!(d.total(), 0);
    assert!(matches!(d.step(GetEvent::Progress(10)), GetStep::Report(10)));
    assert!(matches!(d.step(GetEvent::Progress(25)), GetStep::Report(25)));
    assert!(matches!(d.step(GetEvent::Done), GetStep::Finish));
    assert_eq!(d.total(), 25);
    assert!(matches!(Download::new().step(GetEvent::Ended), GetStep::Finish));
    match d.step(GetEvent::Error("reset".to_string())) {
        GetStep::Fail(e) => assert_eq!(e, "download failed: reset"),
        s => panic!("{s:?}"),
    }
}

#[test]
fn nothing_is_written_outside() {
    let refused = |names: &[&str], windows: bool| {
        let files = names.iter().map(|n| file(n, 1)).collect();
        let (collection, _) = finish_import("dir", files).unwrap();
        export_plan(&collection, windows).err()
    };
    let said = |name: &str| Some(format!("export failed for {name}: the path leaves the output directory"));
    assert_eq!(refused(&["../x"], false), said("../x"));
    assert_eq!(refused(&["../x"], true), said("../x"));
    assert_eq!(refused(&["a/b", "a/../../x", "z/.."], false), said("a/../../x"));
    assert_eq!(refused(&["a/../b", "a/./../c", "a/b/../../c", "a/.."], false), None);
    assert_eq!(refused(&["a/../b", "a\\..\\b", "a\\../b"], true), None);
    assert_eq!(refused(&["./../x"], false), said("./../x"));
    assert_eq!(refused(&["a/../../b/c"], true), said("a/../../b/c"));
    assert_eq!(refused(&["a\\..\\..\\x"], true), said("a\\..\\..\\x"));
    assert_eq!(refused(&["\\x"], true), said("\\x"));
    assert_eq!(refused(&["a/\\x"], true), said("a/\\x"));
    assert_eq!(refused(&["a/c:x"], true), said("a/c:x"));
    assert_eq!(refused(&["ab:c", "1:x", "a/b\\C:"], true), None);
    assert_eq!(refused(&[".."], false), said(".."));
    assert_eq!(refused(&["..\\x"], false), None);
    assert_eq!(refused(&["..\\x"], true), said("..\\x"));
    assert_eq!(refused(&["C:/x"], false), None);
    assert_eq!(refused(&["C:/x"], true), said("C:/x"));
    assert_eq!(refused(&["...", "a..b/c", ".", "/etc/x"], true), None);
}

#[test]
fn the_order_of_the_walk_plays_no_part() {
    let entries = |files: Vec<ImportedFile<u8>>| {
        let (collection, _) = finish_import("dir", files).unwrap();
        collection.iter().map(|(n, h)| (n.clone(), *h.as_bytes())).collect::<Vec<_>>()
    };
    let one = entries(vec![file("c", 3), file("a", 1), file("b/x", 2)]);
    let two = entries(vec![file("b/x", 2), file("c", 3), file("a", 1)]);
    assert_eq!(one, two);
}
