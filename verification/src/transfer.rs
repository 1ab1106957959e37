//! The transfer itself: what is sent under which name, in which order it is
//! listed, and where a received file goes.
//!
//! A transfer is a collection: a list of names, each with the hash of the bytes
//! that belong to it. A single file is a collection with one entry. Names have `/`
//! between their parts on every system.

use vstd::prelude::*;

use crate::order;
use crate::text;

verus! {

/// The hash type of the entries of a collection. The collection type can be indexed,
/// which hands this type out, so it has to be known beside it.
#[verifier::external_type_specification]
#[verifier::external_body]
pub struct ExHash(iroh_blobs::Hash);

/// The collection type that is stored and sent.
#[verifier::external_type_specification]
#[verifier::external_body]
pub struct ExCollection(iroh_blobs::format::collection::Collection);

/// The entries of a collection, in order: each name and the bytes of its hash.
pub uninterp spec fn collection_entries(
    c: iroh_blobs::format::collection::Collection,
) -> Seq<(Seq<char>, Seq<u8>)>;

/// A collection without entries, by `Collection::default`.
#[verifier::external_body]
fn empty_collection() -> (r: iroh_blobs::format::collection::Collection)
    ensures
        collection_entries(r) == Seq::<(Seq<char>, Seq<u8>)>::empty(),
{
    iroh_blobs::format::collection::Collection::default()
}

/// Adds an entry after the others, by `Collection::push`. The contract claims
/// that the other entries stay as they are.
#[verifier::external_body]
fn push_entry(c: &mut iroh_blobs::format::collection::Collection, name: String, hash: [u8; 32])
    ensures
        collection_entries(*final(c)) == collection_entries(*old(c)).push((name@, hash@)),
{
    c.push(name, iroh_blobs::Hash::from_bytes(hash));
}

/// A name and the hash of the bytes that belong to it.
#[derive(Debug)]
pub struct Entry {
    pub name: String,
    pub hash: [u8; 32],
}

/// What entries hold.
pub open spec fn entry_texts(v: Seq<Entry>) -> Seq<(Seq<char>, Seq<u8>)> {
    v.map_values(|e: Entry| (e.name@, e.hash@))
}

/// The entries of a collection, by `Collection::iter`. The contract claims that
/// all of them come out, in order.
#[verifier::external_body]
fn list_entries(c: &iroh_blobs::format::collection::Collection) -> (r: Vec<Entry>)
    ensures
        entry_texts(r@) == collection_entries(*c),
{
    c.iter().map(|(n, h)| Entry { name: n.clone(), hash: *h.as_bytes() }).collect()
}

/// Which directory the names in a transfer are relative to.
#[derive(Debug, Clone, Copy, PartialEq, Eq, Structural)]
pub enum Root {
    /// The path that was asked for: it is a directory.
    Itself,
    /// The directory that holds the file that was asked for.
    Parent,
}

/// Chooses what the names in a transfer are relative to.
pub fn import_root(is_dir: bool, has_parent: bool) -> (r: Result<Root, String>)
    ensures
        r is Err <==> !is_dir && !has_parent,
        r matches Err(e) ==> e@ == "path has no parent"@,
        r matches Ok(root) ==> root == if is_dir {
            Root::Itself
        } else {
            Root::Parent
        },
{
    if is_dir {
        Ok(Root::Itself)
    } else if has_parent {
        Ok(Root::Parent)
    } else {
        Err("path has no parent".to_owned())
    }
}

/// The name that a file travels under: the path `shown` with `/` for each
/// backslash.
pub open spec fn travel_name(shown: Seq<char>) -> Seq<char> {
    text::replaced(shown, '\\', '/')
}

/// The name that a file travels under. It is made of the path relative to the
/// root, or of the whole path where the file is not below the root.
pub fn blob_name(relative: Option<&str>, whole: &str) -> (r: String)
    ensures
        r@ == travel_name(
            match relative {
                Some(rel) => rel@,
                None => whole@,
            },
        ),
{
    match relative {
        Some(rel) => text::replace(rel, '\\', '/'),
        None => text::replace(whole, '\\', '/'),
    }
}

/// A file that was taken into the store: the name it travels under, the hash of
/// its bytes, and the tag that keeps it in the store.
pub struct ImportedFile<T> {
    pub name: String,
    pub hash: [u8; 32],
    pub tag: T,
}

/// The names of the imported files.
pub open spec fn imported_names<T>(files: Seq<ImportedFile<T>>) -> Seq<Seq<char>> {
    files.map_values(|f: ImportedFile<T>| f.name@)
}

/// The entries of the collection for the imported files: one for each file,
/// ordered by name.
pub open spec fn ordered_entries<T>(files: Seq<ImportedFile<T>>) -> Seq<(Seq<char>, Seq<u8>)> {
    let p = order::sorting(imported_names(files));
    Seq::new(p.len(), |k: int| (files[p[k] as int].name@, files[p[k] as int].hash@))
}

/// The tags of the imported files, ordered by name.
pub open spec fn ordered_tags<T>(files: Seq<ImportedFile<T>>) -> Seq<T> {
    let p = order::sorting(imported_names(files));
    Seq::new(p.len(), |k: int| files[p[k] as int].tag)
}

/// The characters of each name.
fn name_keys<T>(files: &Vec<ImportedFile<T>>) -> (r: Vec<Vec<char>>)
    ensures
        order::char_lists(r@) == imported_names(files@),
{
    let mut keys: Vec<Vec<char>> = Vec::new();
    let mut i: usize = 0;
    while i < files.len()
        invariant
            i <= files@.len(),
            keys@.len() == i,
            forall|k: int| 0 <= k < i ==> (#[trigger] keys@[k])@ == files@[k].name@,
        decreases files@.len() - i,
    {
        keys.push(text::to_chars(files[i].name.as_str()));
        i += 1;
    }
    assert(order::char_lists(keys@) =~= imported_names(files@));
    keys
}

/// Makes the collection of the imported files, and lists the tags that keep them
/// in the store; both are ordered by name. With no file there is nothing to send,
/// and that is an error; `shown` is the path that was asked for.
pub fn finish_import<T>(shown: &str, files: Vec<ImportedFile<T>>) -> (r: Result<
    (iroh_blobs::format::collection::Collection, Vec<T>),
    String,
>)
    ensures
        r is Err <==> files@.len() == 0,
        r matches Err(e) ==> e@ == "nothing to send: "@ + shown@ + " contained no files"@,
        r matches Ok(done) ==> collection_entries(done.0) == ordered_entries(files@),
        r matches Ok(done) ==> done.1@ == ordered_tags(files@),
{
    if files.len() == 0 {
        let mut e = "nothing to send: ".to_owned();
        e.append(shown);
        e.append(" contained no files");
        return Err(e);
    }
    let ghost all = files@;
    let ghost names = imported_names(all);
    let keys = name_keys(&files);
    let positions = order::sorted_positions(&keys);
    proof {
        order::lemma_sorting(names, positions@);
    }
    let ghost p = positions@;
    let mut slots: Vec<Option<ImportedFile<T>>> = Vec::new();
    let mut rest = files;
    let mut i: usize = 0;
    let n: usize = positions.len();
    while i < n
        invariant
            i <= n,
            n == all.len(),
            slots@.len() == i,
            rest@.len() == n - i,
            forall|k: int| 0 <= k < n - i ==> #[trigger] rest@[k] == all[k],
            forall|k: int| 0 <= k < i ==> #[trigger] slots@[k] == Some(all[n - 1 - k]),
        decreases n - i,
    {
        let f = rest.pop();
        slots.push(f);
        i += 1;
    }
    let mut collection = empty_collection();
    let mut tags: Vec<T> = Vec::new();
    let mut j: usize = 0;
    while j < n
        invariant
            j <= n,
            n == all.len(),
            p == positions@,
            names == imported_names(all),
            order::sorts(names, p),
            n == p.len(),
            slots@.len() == n,
            forall|k: int|
                j <= k < n ==> slots@[n - 1 - #[trigger] p[k]] == Some(all[p[k] as int]),
            collection_entries(collection) == Seq::new(
                j as nat,
                |k: int| (all[p[k] as int].name@, all[p[k] as int].hash@),
            ),
            tags@ == Seq::new(j as nat, |k: int| all[p[k] as int].tag),
        decreases n - j,
    {
        let at: usize = positions[j];
        assert(at == p[j as int]);
        let back: usize = n - 1 - at;
        assert(slots@[back as int] == Some(all[at as int]));
        let ghost slots_before = slots@;
        let mut taken: Option<ImportedFile<T>> = None;
        std::mem::swap(&mut taken, &mut slots[back]);
        proof {
            assert forall|k: int| j + 1 <= k < n implies slots@[n - 1 - #[trigger] p[k]]
                == Some(all[p[k] as int]) by {
                order::lemma_distinct(names, p, j as int, k);
                assert(slots_before[n - 1 - p[k]] == Some(all[p[k] as int]));
            }
        }
        if let Some(f) = taken {
            push_entry(&mut collection, f.name, f.hash);
            tags.push(f.tag);
        }
        j += 1;
    }
    assert(collection_entries(collection) =~= ordered_entries(all));
    assert(tags@ =~= ordered_tags(all));
    Ok((collection, tags))
}

/// What is written to disk for one entry of a collection: the parts of the path
/// below the directory that receives, and the hash of the bytes.
#[derive(Debug)]
pub struct ExportItem {
    pub name: String,
    pub parts: Vec<String>,
    pub hash: [u8; 32],
}

/// Whether `item` is the entry `e`: its name, cut at each `/`, and its hash.
pub open spec fn exports(item: ExportItem, e: (Seq<char>, Seq<u8>)) -> bool {
    &&& item.name@ == e.0
    &&& text::texts(item.parts@) == text::pieces(e.0, '/')
    &&& item.hash@ == e.1
}

/// Where a path with these parts leads to below the directory that receives, read
/// part by part: empty parts and `.` stay where they are, and `..` leads back up.
/// There is no such place where the path leads above that directory on its way.
pub open spec fn place_below(parts: Seq<Seq<char>>) -> Option<Seq<Seq<char>>>
    decreases parts.len(),
{
    if parts.len() == 0 {
        Some(Seq::empty())
    } else {
        match place_below(parts.drop_last()) {
            None => None,
            Some(at) => if parts.last().len() == 0 || parts.last() == "."@ {
                Some(at)
            } else if parts.last() != ".."@ {
                Some(at.push(parts.last()))
            } else if at.len() > 0 {
                Some(at.drop_last())
            } else {
                None
            },
        }
    }
}

/// Whether, on Windows, a path that begins with `part` is not relative to where it
/// is appended: it begins at the root, or with a drive, which is a letter and a
/// colon.
pub open spec fn names_a_root(part: Seq<char>) -> bool {
    ||| part.len() > 0 && part[0] == '\\'
    ||| part.len() > 1 && part[1] == ':' && (('a' <= part[0] && part[0] <= 'z') || ('A' <= part[0]
        && part[0] <= 'Z'))
}

/// Whether the entry of this name would be written inside the directory that
/// receives: it never leads above it. On Windows a backslash separates parts too,
/// and no part between slashes may begin at a root or with a drive.
pub open spec fn lands_inside(name: Seq<char>, windows: bool) -> bool {
    if windows {
        &&& place_below(text::pieces(travel_name(name), '/')) is Some
        &&& forall|i: int|
            0 <= i < text::pieces(name, '/').len() ==> !names_a_root(
                #[trigger] text::pieces(name, '/')[i],
            )
    } else {
        place_below(text::pieces(name, '/')) is Some
    }
}

/// Whether every entry of a collection would be written inside the directory that
/// receives.
pub open spec fn all_inside(entries: Seq<(Seq<char>, Seq<u8>)>, windows: bool) -> bool {
    forall|i: int| 0 <= i < entries.len() ==> lands_inside(#[trigger] entries[i].0, windows)
}

/// Whether the entry at `k` is the first that would be written elsewhere.
pub open spec fn first_outside(
    entries: Seq<(Seq<char>, Seq<u8>)>,
    windows: bool,
    k: int,
) -> bool {
    &&& 0 <= k < entries.len()
    &&& !lands_inside(entries[k].0, windows)
    &&& forall|i: int| 0 <= i < k ==> lands_inside(#[trigger] entries[i].0, windows)
}

/// The message for an entry that would be written elsewhere.
pub open spec fn outside_text(name: Seq<char>) -> Seq<char> {
    "export failed for "@ + name + ": the path leaves the output directory"@
}

/// A path that has led above the directory stays refused, whatever follows.
proof fn lemma_above_stays(parts: Seq<Seq<char>>, k: int)
    requires
        0 <= k <= parts.len(),
        place_below(parts.take(k)) is None,
    ensures
        place_below(parts) is None,
    decreases parts.len() - k,
{
    if k < parts.len() {
        assert(parts.take(k + 1).drop_last() =~= parts.take(k));
        lemma_above_stays(parts, k + 1);
    } else {
        assert(parts.take(k) =~= parts);
    }
}

/// Whether a path with these parts never leads above where it begins.
fn never_above(parts: &Vec<String>) -> (r: bool)
    ensures
        r == (place_below(text::texts(parts@)) is Some),
{
    let ghost all = text::texts(parts@);
    let mut depth: usize = 0;
    let mut i: usize = 0;
    proof {
        reveal_strlit("");
        assert(all.take(0) =~= Seq::<Seq<char>>::empty());
    }
    while i < parts.len()
        invariant
            i <= parts@.len(),
            all == text::texts(parts@),
            ""@.len() == 0,
            place_below(all.take(i as int)) is Some,
            depth == place_below(all.take(i as int))->0.len(),
            depth <= i,
        decreases parts@.len() - i,
    {
        let part = parts[i].as_str();
        assert(all[i as int] == part@);
        assert(all.take(i + 1).drop_last() =~= all.take(i as int));
        assert(all.take(i + 1).last() == part@);
        assert(part@.len() == 0 <==> part@ =~= ""@);
        if text::same(part, "") || text::same(part, ".") {
        } else if !text::same(part, "..") {
            depth += 1;
        } else if depth > 0 {
            depth -= 1;
        } else {
            proof {
                lemma_above_stays(all, i + 1);
            }
            return false;
        }
        i += 1;
    }
    assert(all.take(i as int) =~= all);
    true
}

/// Whether none of these parts begins at a root or with a drive.
fn no_roots(parts: &Vec<String>) -> (r: bool)
    ensures
        r <==> forall|i: int|
            0 <= i < parts@.len() ==> !names_a_root(#[trigger] text::texts(parts@)[i]),
{
    let mut i: usize = 0;
    while i < parts.len()
        invariant
            i <= parts@.len(),
            forall|k: int| 0 <= k < i ==> !names_a_root(#[trigger] text::texts(parts@)[k]),
        decreases parts@.len() - i,
    {
        let cs = text::to_chars(parts[i].as_str());
        assert(cs@ == text::texts(parts@)[i as int]);
        if cs.len() > 0 && cs[0] == '\\' {
            return false;
        }
        if cs.len() > 1 && cs[1] == ':' && (('a' <= cs[0] && cs[0] <= 'z') || ('A' <= cs[0]
            && cs[0] <= 'Z')) {
            return false;
        }
        i += 1;
    }
    true
}

/// Whether the entry of this name, which has the parts `parts`, would be written
/// inside the directory that receives.
fn inside(name: &str, parts: &Vec<String>, windows: bool) -> (r: bool)
    requires
        text::texts(parts@) == text::pieces(name@, '/'),
    ensures
        r == lands_inside(name@, windows),
{
    if !windows {
        return never_above(parts);
    }
    let slashed = text::replace(name, '\\', '/');
    let names = text::split(slashed.as_str(), '/');
    assert(text::texts(parts@).len() == parts@.len());
    never_above(&names) && no_roots(parts)
}

/// What is written to disk for a collection, in order. The names come from the
/// sender: where one of them would lead out of the directory that receives, nothing
/// is written, and the message tells the first such name.
pub fn export_plan(c: &iroh_blobs::format::collection::Collection, windows: bool) -> (r: Result<
    Vec<ExportItem>,
    String,
>)
    ensures
        r is Ok <==> all_inside(collection_entries(*c), windows),
        r matches Ok(v) ==> {
            &&& v@.len() == collection_entries(*c).len()
            &&& forall|i: int|
                0 <= i < v@.len() ==> exports(#[trigger] v@[i], collection_entries(*c)[i])
        },
        r matches Ok(v) ==> forall|i: int|
            0 <= i < v@.len() ==> {
                &&& text::joined(text::texts((#[trigger] v@[i]).parts@), '/')
                    == collection_entries(*c)[i].0
                &&& v@[i].name@ == collection_entries(*c)[i].0
                &&& v@[i].hash@ == collection_entries(*c)[i].1
            },
        r matches Err(e) ==> exists|k: int|
            #![trigger collection_entries(*c)[k]]
            first_outside(collection_entries(*c), windows, k) && e@ == outside_text(
                collection_entries(*c)[k].0,
            ),
{
    let entries = list_entries(c);
    let ghost es = collection_entries(*c);
    let mut out: Vec<ExportItem> = Vec::new();
    let mut i: usize = 0;
    assert(entry_texts(entries@).len() == entries@.len());
    while i < entries.len()
        invariant
            i <= entries@.len(),
            es == collection_entries(*c),
            entries@.len() == es.len(),
            entry_texts(entries@) == es,
            out@.len() == i,
            forall|k: int| 0 <= k < i ==> exports(#[trigger] out@[k], es[k]),
            forall|k: int| 0 <= k < i ==> lands_inside(#[trigger] es[k].0, windows),
        decreases entries@.len() - i,
    {
        let e = &entries[i];
        assert(entry_texts(entries@)[i as int] == es[i as int]);
        let parts = text::split(e.name.as_str(), '/');
        if !inside(e.name.as_str(), &parts, windows) {
            let mut m = "export failed for ".to_owned();
            m.append(e.name.as_str());
            m.append(": the path leaves the output directory");
            assert(!lands_inside(es[i as int].0, windows));
            assert(first_outside(es, windows, i as int));
            return Err(m);
        }
        out.push(ExportItem { name: e.name.clone(), parts, hash: e.hash });
        i += 1;
    }
    proof {
        assert forall|k: int| 0 <= k < out@.len() implies text::joined(
            text::texts((#[trigger] out@[k]).parts@),
            '/',
        ) == es[k].0 by {
            assert(exports(out@[k], es[k]));
            text::law_join_pieces(es[k].0, '/');
        }
    }
    Ok(out)
}

/// What a stream that takes a file into the store reports.
#[derive(Debug)]
pub enum AddEvent {
    /// The file is in the store.
    Done,
    /// It could not be taken in.
    Error(String),
    /// The work goes on.
    Other,
    /// The stream ended.
    Ended,
}

/// What follows from a report of a stream.
#[derive(Debug)]
pub enum StreamStep {
    /// Wait for the next report.
    Continue,
    /// The work is done.
    Finished,
    /// The work failed, with this message.
    Fail(String),
}

/// What follows from the report `e` on taking in the file `name`. A stream that
/// ends before the file is in the store has failed.
pub fn add_step(name: &str, e: AddEvent) -> (r: StreamStep)
    ensures
        e is Done <==> r is Finished,
        e is Other <==> r is Continue,
        e is Ended ==> r is Fail && r->Fail_0@ == "add stream ended before completing"@,
        e matches AddEvent::Error(why) ==> r is Fail && r->Fail_0@ == "import failed for "@ + name@
            + ": "@ + why@,
{
    match e {
        AddEvent::Done => StreamStep::Finished,
        AddEvent::Other => StreamStep::Continue,
        AddEvent::Ended => StreamStep::Fail("add stream ended before completing".to_owned()),
        AddEvent::Error(why) => {
            let mut m = "import failed for ".to_owned();
            m.append(name);
            m.append(": ");
            m.append(why.as_str());
            StreamStep::Fail(m)
        },
    }
}

/// What a stream that writes a file to disk reports.
#[derive(Debug)]
pub enum ExportEvent {
    /// It could not be written.
    Error(String),
    /// The work goes on, or is done.
    Other,
    /// The stream ended.
    Ended,
}

/// What follows from the report `e` on writing the file `name`. The stream is
/// read to its end.
pub fn export_step(name: &str, e: ExportEvent) -> (r: StreamStep)
    ensures
        e is Ended <==> r is Finished,
        e is Other <==> r is Continue,
        e matches ExportEvent::Error(why) ==> r is Fail && r->Fail_0@ == "export failed for "@
            + name@ + ": "@ + why@,
{
    match e {
        ExportEvent::Ended => StreamStep::Finished,
        ExportEvent::Other => StreamStep::Continue,
        ExportEvent::Error(why) => {
            let mut m = "export failed for ".to_owned();
            m.append(name);
            m.append(": ");
            m.append(why.as_str());
            StreamStep::Fail(m)
        },
    }
}

/// What a download reports.
#[derive(Debug)]
pub enum GetEvent {
    /// So many bytes have arrived.
    Progress(u64),
    /// Everything has arrived.
    Done,
    /// The download failed.
    Error(String),
    /// There are no more reports.
    Ended,
}

/// What follows from a report of a download.
#[derive(Debug)]
pub enum GetStep {
    /// Tell the user how many bytes have arrived, and wait for the next report.
    Report(u64),
    /// Write the files to disk.
    Finish,
    /// The download failed, with this message.
    Fail(String),
}

/// The number of bytes that have arrived after the report `e`, where `total` had
/// arrived before it.
pub open spec fn next_total(total: u64, e: GetEvent) -> u64 {
    match e {
        GetEvent::Progress(n) => n,
        _ => total,
    }
}

/// A download: how many bytes have arrived.
#[derive(Debug)]
pub struct Download {
    received: u64,
}

impl Download {
    /// How many bytes have arrived.
    pub closed spec fn bytes(&self) -> u64 {
        self.received
    }

    /// A download of which nothing has arrived.
    pub fn new() -> (r: Self)
        ensures
            r.bytes() == 0,
    {
        Download { received: 0 }
    }

    /// How many bytes have arrived.
    pub fn total(&self) -> (r: u64)
        ensures
            r == self.bytes(),
    {
        self.received
    }

    /// Takes a report. The download is over when it says so, or when there are no
    /// more reports.
    pub fn step(&mut self, e: GetEvent) -> (r: GetStep)
        ensures
            final(self).bytes() == next_total(old(self).bytes(), e),
            r is Finish <==> e is Done || e is Ended,
            e matches GetEvent::Progress(n) ==> r == GetStep::Report(n),
            e matches GetEvent::Error(why) ==> r is Fail && r->Fail_0@ == "download failed: "@
                + why@,
    {
        match e {
            GetEvent::Progress(n) => {
                self.received = n;
                GetStep::Report(n)
            },
            GetEvent::Done => GetStep::Finish,
            GetEvent::Ended => GetStep::Finish,
            GetEvent::Error(why) => {
                let mut m = "download failed: ".to_owned();
                m.append(why.as_str());
                GetStep::Fail(m)
            },
        }
    }
}

/// How many bytes have arrived after the reports `es`.
pub open spec fn total_after(es: Seq<GetEvent>) -> u64
    decreases es.len(),
{
    if es.len() == 0 {
        0
    } else {
        next_total(total_after(es.drop_last()), es.last())
    }
}

/// The numbers that the user is told during the reports `es`.
pub open spec fn told(es: Seq<GetEvent>) -> Seq<u64>
    decreases es.len(),
{
    if es.len() == 0 {
        Seq::empty()
    } else {
        match es.last() {
            GetEvent::Progress(n) => told(es.drop_last()).push(n),
            _ => told(es.drop_last()),
        }
    }
}

/// The total that a download returns is the last number that the user was told;
/// it is 0 where there was none.
pub proof fn law_total_is_what_was_told(es: Seq<GetEvent>)
    ensures
        total_after(es) == if told(es).len() > 0 {
            told(es).last()
        } else {
            0
        },
    decreases es.len(),
{
    if es.len() > 0 {
        law_total_is_what_was_told(es.drop_last());
    }
}

/// Replacing the backslashes of a path turns either separator into `/`.
proof fn lemma_travel_name_joined(parts: Seq<Seq<char>>, sep: char)
    requires
        sep == '/' || sep == '\\',
        forall|i: int| 0 <= i < parts.len() ==> !(#[trigger] parts[i]).contains('\\'),
    ensures
        travel_name(text::joined(parts, sep)) == text::joined(parts, '/'),
    decreases parts.len(),
{
    if parts.len() > 0 {
        let tail = parts.last();
        assert(!parts[parts.len() - 1].contains('\\'));
        assert forall|i: int| 0 <= i < tail.len() implies tail[i] != '\\' by {
            if tail[i] == '\\' {
                assert(tail.contains('\\'));
            }
        }
        assert(travel_name(tail) =~= tail);
        if parts.len() > 1 {
            lemma_travel_name_joined(parts.drop_last(), sep);
            let head = text::joined(parts.drop_last(), sep);
            assert(travel_name(head.push(sep) + tail) =~= travel_name(head).push('/')
                + travel_name(tail));
        }
    }
}

/// A file arrives under the name it was sent under: where its path below the root
/// has the parts `parts`, whatever separator its system writes between them, the
/// receiver puts it below its own directory at a path with the same parts.
pub proof fn law_names_survive(parts: Seq<Seq<char>>, sep: char)
    requires
        sep == '/' || sep == '\\',
        parts.len() > 0,
        forall|i: int|
            0 <= i < parts.len() ==> !(#[trigger] parts[i]).contains('/') && !parts[i].contains(
                '\\',
            ),
    ensures
        text::pieces(travel_name(text::joined(parts, sep)), '/') == parts,
{
    lemma_travel_name_joined(parts, sep);
    text::law_pieces_of_joined(parts, '/');
}

/// The collection lists each imported file once, ordered by name; files of the
/// same name keep the order in which they were imported.
pub proof fn law_collection_ordered<T>(files: Seq<ImportedFile<T>>)
    requires
        files.len() <= usize::MAX,
    ensures
        ordered_entries(files).len() == files.len(),
        ordered_tags(files).len() == files.len(),
        forall|i: int, j: int|
            0 <= i < j < files.len() ==> order::text_order(
                #[trigger] ordered_entries(files)[i].0,
                #[trigger] ordered_entries(files)[j].0,
            ) <= 0,
        forall|i: int, j: int|
            0 <= i < j < files.len() && (#[trigger] ordered_entries(files)[i]).0 == (
            #[trigger] ordered_entries(files)[j]).0 ==> order::sorting(imported_names(files))[i]
                < order::sorting(imported_names(files))[j],
        forall|k: int|
            0 <= k < files.len() ==> ordered_entries(files).contains(
                ((#[trigger] files[k]).name@, files[k].hash@),
            ),
{
    let names = imported_names(files);
    order::law_sorting_sorts(names);
    let p = order::sorting(names);
    let es = ordered_entries(files);
    assert forall|i: int, j: int| 0 <= i < j < files.len() implies order::text_order(
        #[trigger] es[i].0,
        #[trigger] es[j].0,
    ) <= 0 by {
        assert(order::goes_before(names, p[i] as int, p[j] as int));
        assert(names[p[i] as int] == es[i].0);
        assert(names[p[j] as int] == es[j].0);
        order::law_order_equal(es[i].0, es[j].0);
    }
    assert forall|i: int, j: int|
        0 <= i < j < files.len() && (#[trigger] es[i]).0 == (#[trigger] es[j]).0 implies p[i]
        < p[j] by {
        assert(order::goes_before(names, p[i] as int, p[j] as int));
        assert(names[p[i] as int] == es[i].0);
        assert(names[p[j] as int] == es[j].0);
        order::law_order_equal(es[i].0, es[j].0);
    }
    assert forall|k: int| 0 <= k < files.len() implies es.contains(
        ((#[trigger] files[k]).name@, files[k].hash@),
    ) by {
        assert(p.contains(k as usize));
        let m = choose|m: int| 0 <= m < p.len() && p[m] == k as usize;
        assert(es[m] == (files[k].name@, files[k].hash@));
    }
}

/// A single file is sent as a collection with one entry.
pub proof fn law_single_file<T>(file: ImportedFile<T>)
    ensures
        ordered_entries(seq![file]) == seq![(file.name@, file.hash@)],
        ordered_tags(seq![file]) == seq![file.tag],
{
    let files = seq![file];
    order::law_sorting_sorts(imported_names(files));
    let p = order::sorting(imported_names(files));
    assert(p[0] == 0);
    assert(ordered_entries(files) =~= seq![(file.name@, file.hash@)]);
    assert(ordered_tags(files) =~= seq![file.tag]);
}

/// No backslash is left in a name that travels: each has become a slash, and nothing
/// else has changed.
pub proof fn law_no_backslash_travels(shown: Seq<char>)
    ensures
        !travel_name(shown).contains('\\'),
        travel_name(shown).len() == shown.len(),
        forall|i: int|
            0 <= i < shown.len() && #[trigger] shown[i] == '\\' ==> travel_name(shown)[i] == '/',
        forall|i: int|
            0 <= i < shown.len() && #[trigger] shown[i] != '\\' ==> travel_name(shown)[i]
                == shown[i],
{
}

/// Whether the entries come strictly one after the other by name.
spec fn strictly_by_name(s: Seq<(Seq<char>, Seq<u8>)>) -> bool {
    forall|i: int, j: int|
        0 <= i < j < s.len() ==> order::text_order(#[trigger] s[i].0, #[trigger] s[j].0) < 0
}

/// Entries that come strictly one after the other are the same where they are the
/// same set.
proof fn lemma_same_entries(s: Seq<(Seq<char>, Seq<u8>)>, t: Seq<(Seq<char>, Seq<u8>)>)
    requires
        strictly_by_name(s),
        strictly_by_name(t),
        forall|x: (Seq<char>, Seq<u8>)| s.contains(x) <==> t.contains(x),
    ensures
        s == t,
    decreases s.len(),
{
    if s.len() == 0 {
        if t.len() > 0 {
            assert(t.contains(t[0]));
            assert(s.contains(t[0]));
        }
        assert(s =~= t);
    } else {
        assert(s.contains(s[s.len() - 1]));
        assert(t.contains(s.last()));
        let m = choose|m: int| 0 <= m < t.len() && t[m] == s.last();
        assert(t.contains(t[t.len() - 1]));
        assert(s.contains(t.last()));
        let n = choose|n: int| 0 <= n < s.len() && s[n] == t.last();
        if m < t.len() - 1 {
            assert(order::text_order(t[m].0, t[t.len() - 1].0) < 0);
            if n < s.len() - 1 {
                assert(order::text_order(s[n].0, s[s.len() - 1].0) < 0);
                order::law_order_swap(s.last().0, t.last().0);
            } else {
                order::law_order_equal(s.last().0, t.last().0);
            }
        }
        assert(s.last() == t.last());
        let a = s.drop_last();
        let b = t.drop_last();
        assert forall|x: (Seq<char>, Seq<u8>)| a.contains(x) <==> b.contains(x) by {
            if a.contains(x) {
                lemma_not_the_last(s, t, x);
            }
            if b.contains(x) {
                lemma_not_the_last(t, s, x);
            }
        }
        lemma_same_entries(a, b);
        assert(s =~= a.push(s.last()));
        assert(t =~= b.push(t.last()));
    }
}

/// What stands in `s` before its last entry stands in `t` before its last entry.
proof fn lemma_not_the_last(
    s: Seq<(Seq<char>, Seq<u8>)>,
    t: Seq<(Seq<char>, Seq<u8>)>,
    x: (Seq<char>, Seq<u8>),
)
    requires
        strictly_by_name(s),
        s.len() > 0,
        t.len() > 0,
        s.last() == t.last(),
        forall|y: (Seq<char>, Seq<u8>)| s.contains(y) <==> t.contains(y),
        s.drop_last().contains(x),
    ensures
        t.drop_last().contains(x),
{
    let i = choose|i: int| 0 <= i < s.len() - 1 && s.drop_last()[i] == x;
    assert(s[i] == x);
    assert(order::text_order(s[i].0, s[s.len() - 1].0) < 0);
    order::law_order_equal(x.0, s.last().0);
    assert(s.contains(x));
    let j = choose|j: int| 0 <= j < t.len() && t[j] == x;
    assert(j < t.len() - 1);
    assert(t.drop_last()[j] == x);
}

/// The names and hashes of the imported files, in the order of the walk.
pub open spec fn imported_entries<T>(files: Seq<ImportedFile<T>>) -> Seq<(Seq<char>, Seq<u8>)> {
    files.map_values(|f: ImportedFile<T>| (f.name@, f.hash@))
}

/// Whether no two of the imported files have the same name.
pub open spec fn distinct_names<T>(files: Seq<ImportedFile<T>>) -> bool {
    forall|i: int, j: int|
        0 <= i < j < files.len() ==> (#[trigger] files[i]).name@ != (#[trigger] files[j]).name@
}

/// The collection of files with distinct names is strictly ordered, and holds what
/// was imported.
proof fn lemma_collection_strict<T>(files: Seq<ImportedFile<T>>)
    requires
        files.len() <= usize::MAX,
        distinct_names(files),
    ensures
        strictly_by_name(ordered_entries(files)),
        forall|x: (Seq<char>, Seq<u8>)|
            ordered_entries(files).contains(x) <==> imported_entries(files).contains(x),
{
    let names = imported_names(files);
    let es = ordered_entries(files);
    let all = imported_entries(files);
    order::law_sorting_sorts(names);
    let p = order::sorting(names);
    assert forall|i: int, j: int| 0 <= i < j < es.len() implies order::text_order(
        #[trigger] es[i].0,
        #[trigger] es[j].0,
    ) < 0 by {
        assert(order::goes_before(names, p[i] as int, p[j] as int));
        assert(names[p[i] as int] == es[i].0);
        assert(names[p[j] as int] == es[j].0);
        if es[i].0 == es[j].0 {
            assert(files[p[i] as int].name@ == files[p[j] as int].name@);
        }
    }
    assert forall|x: (Seq<char>, Seq<u8>)| es.contains(x) <==> all.contains(x) by {
        if es.contains(x) {
            let m = choose|m: int| 0 <= m < es.len() && es[m] == x;
            assert(all[p[m] as int] == x);
        }
        if all.contains(x) {
            let k = choose|k: int| 0 <= k < all.len() && all[k] == x;
            assert(p.contains(k as usize));
            let m = choose|m: int| 0 <= m < p.len() && p[m] == k as usize;
            assert(es[m] == x);
        }
    }
}

/// Two sends of the same names and contents make the same collection, in whatever
/// order the files were walked.
pub proof fn law_walk_order_plays_no_part<T, U>(
    files: Seq<ImportedFile<T>>,
    others: Seq<ImportedFile<U>>,
)
    requires
        files.len() <= usize::MAX,
        others.len() <= usize::MAX,
        distinct_names(files),
        distinct_names(others),
        forall|x: (Seq<char>, Seq<u8>)|
            imported_entries(files).contains(x) <==> imported_entries(others).contains(x),
    ensures
        ordered_entries(files) == ordered_entries(others),
{
    lemma_collection_strict(files);
    lemma_collection_strict(others);
    assert forall|x: (Seq<char>, Seq<u8>)|
        ordered_entries(files).contains(x) <==> ordered_entries(others).contains(x) by {
        assert(imported_entries(files).contains(x) <==> imported_entries(others).contains(x));
    }
    lemma_same_entries(ordered_entries(files), ordered_entries(others));
}

/// What is received is what was sent: where the files of a transfer have the
/// parts `paths` below the root, every entry of the collection is written, with
/// its hash, to the path with the parts of the file that it came from.
pub proof fn law_export_of_import<T>(
    files: Seq<ImportedFile<T>>,
    paths: Seq<Seq<Seq<char>>>,
    sep: char,
    k: int,
)
    requires
        sep == '/' || sep == '\\',
        files.len() <= usize::MAX,
        paths.len() == files.len(),
        forall|i: int| 0 <= i < paths.len() ==> (#[trigger] paths[i]).len() > 0,
        forall|i: int, j: int|
            0 <= i < paths.len() && 0 <= j < paths[i].len() ==> !(
            #[trigger] paths[i][j]).contains('/') && !paths[i][j].contains('\\'),
        forall|i: int|
            0 <= i < files.len() ==> (#[trigger] files[i]).name@ == travel_name(
                text::joined(paths[i], sep),
            ),
        0 <= k < files.len(),
    ensures
        ({
            let at = order::sorting(imported_names(files))[k] as int;
            &&& 0 <= at < files.len()
            &&& text::pieces(ordered_entries(files)[k].0, '/') == paths[at]
            &&& ordered_entries(files)[k].1 == files[at].hash@
        }),
{
    order::law_sorting_sorts(imported_names(files));
    let at = order::sorting(imported_names(files))[k] as int;
    assert forall|j: int| 0 <= j < paths[at].len() implies !(#[trigger] paths[at][j]).contains('/')
        && !paths[at][j].contains('\\') by {}
    law_names_survive(paths[at], sep);
    assert(files[at].name@ == travel_name(text::joined(paths[at], sep)));
}

/// A path of names only leads to where it says.
proof fn lemma_names_lead_down(parts: Seq<Seq<char>>)
    requires
        forall|i: int| 0 <= i < parts.len() ==> #[trigger] parts[i] != ".."@,
    ensures
        place_below(parts) is Some,
    decreases parts.len(),
{
    if parts.len() > 0 {
        let front = parts.drop_last();
        assert forall|i: int| 0 <= i < front.len() implies #[trigger] front[i] != ".."@ by {
            assert(front[i] == parts[i]);
        }
        lemma_names_lead_down(front);
        assert(parts[parts.len() - 1] != ".."@);
    }
}

/// What an honest sender makes is never refused: where the files of a transfer have
/// the parts `paths` below the root, and none of these leads upwards, every entry of
/// the collection is written inside the directory that receives. Where that is on
/// Windows, no part begins with a drive.
pub proof fn law_honest_import_is_exported<T>(
    files: Seq<ImportedFile<T>>,
    paths: Seq<Seq<Seq<char>>>,
    sep: char,
    windows: bool,
)
    requires
        sep == '/' || sep == '\\',
        files.len() <= usize::MAX,
        paths.len() == files.len(),
        forall|i: int| 0 <= i < paths.len() ==> (#[trigger] paths[i]).len() > 0,
        forall|i: int, j: int|
            0 <= i < paths.len() && 0 <= j < paths[i].len() ==> !(
            #[trigger] paths[i][j]).contains('/') && !paths[i][j].contains('\\') && paths[i][j]
                != ".."@ && (windows ==> !names_a_root(paths[i][j])),
        forall|i: int|
            0 <= i < files.len() ==> (#[trigger] files[i]).name@ == travel_name(
                text::joined(paths[i], sep),
            ),
    ensures
        all_inside(ordered_entries(files), windows),
{
    order::law_sorting_sorts(imported_names(files));
    assert forall|k: int| 0 <= k < ordered_entries(files).len() implies lands_inside(
        #[trigger] ordered_entries(files)[k].0,
        windows,
    ) by {
        law_export_of_import(files, paths, sep, k);
        let at = order::sorting(imported_names(files))[k] as int;
        let name = ordered_entries(files)[k].0;
        let parts = text::pieces(name, '/');
        assert(name == files[at].name@);
        assert(travel_name(name) =~= name);
        assert forall|j: int| 0 <= j < parts.len() implies #[trigger] parts[j] != ".."@ && (windows
            ==> !names_a_root(parts[j])) by {
            assert(parts[j] == paths[at][j]);
        }
        lemma_names_lead_down(parts);
    }
}

/// A path that is made of names alone leads to those names, one below the other.
pub proof fn law_names_lead_down(parts: Seq<Seq<char>>)
    requires
        forall|i: int|
            0 <= i < parts.len() ==> (#[trigger] parts[i]).len() > 0 && parts[i] != "."@ && parts[i]
                != ".."@,
    ensures
        place_below(parts) == Some(parts),
    decreases parts.len(),
{
    if parts.len() > 0 {
        let front = parts.drop_last();
        assert forall|i: int| 0 <= i < front.len() implies (#[trigger] front[i]).len() > 0
            && front[i] != "."@ && front[i] != ".."@ by {
            assert(front[i] == parts[i]);
        }
        law_names_lead_down(front);
        assert(parts[parts.len() - 1] == parts.last());
        assert(front.push(parts.last()) =~= parts);
    } else {
        assert(parts =~= Seq::<Seq<char>>::empty());
    }
}

/// What is written for an entry lies at a path that, with slashes between its parts, is
/// the name of the entry, character for character, and holds the bytes of its hash.
pub proof fn law_written_under_its_name(item: ExportItem, e: (Seq<char>, Seq<u8>))
    requires
        exports(item, e),
    ensures
        text::joined(text::texts(item.parts@), '/') == e.0,
        forall|i: int|
            0 <= i < item.parts@.len() ==> !(#[trigger] item.parts@[i])@.contains('/'),
        item.name@ == e.0,
        item.hash@ == e.1,
{
    text::law_join_pieces(e.0, '/');
    text::law_pieces_are_free_of_separators(e.0, '/');
    assert forall|i: int| 0 <= i < item.parts@.len() implies !(#[trigger] item.parts@[i])@.contains(
        '/',
    ) by {
        assert(text::texts(item.parts@)[i] == item.parts@[i]@);
        assert(text::pieces(e.0, '/')[i] == item.parts@[i]@);
    }
}

/// Whether `plan` writes the bytes of `hash` to the path with the parts `path`.
pub open spec fn written_to(plan: Seq<ExportItem>, path: Seq<Seq<char>>, hash: Seq<u8>) -> bool {
    exists|k: int|
        0 <= k < plan.len() && text::texts((#[trigger] plan[k]).parts@) == path && plan[k].hash@
            == hash
}

/// What is received is what was sent, path by path: where `plan` is what is written for
/// the collection of files whose paths below the root have the parts `paths`, each item
/// goes to the path of the file that it came from, with the hash of that file, and every
/// file is among them.
pub proof fn law_plan_of_import<T>(
    files: Seq<ImportedFile<T>>,
    paths: Seq<Seq<Seq<char>>>,
    sep: char,
    plan: Seq<ExportItem>,
)
    requires
        sep == '/' || sep == '\\',
        files.len() <= usize::MAX,
        paths.len() == files.len(),
        forall|i: int| 0 <= i < paths.len() ==> (#[trigger] paths[i]).len() > 0,
        forall|i: int, j: int|
            0 <= i < paths.len() && 0 <= j < paths[i].len() ==> !(
            #[trigger] paths[i][j]).contains('/') && !paths[i][j].contains('\\'),
        forall|i: int|
            0 <= i < files.len() ==> (#[trigger] files[i]).name@ == travel_name(
                text::joined(paths[i], sep),
            ),
        plan.len() == ordered_entries(files).len(),
        forall|k: int| 0 <= k < plan.len() ==> exports(#[trigger] plan[k], ordered_entries(files)[k]),
    ensures
        plan.len() == files.len(),
        forall|k: int|
            0 <= k < plan.len() ==> ({
                let at = order::sorting(imported_names(files))[k] as int;
                &&& 0 <= at < files.len()
                &&& text::texts((#[trigger] plan[k]).parts@) == paths[at]
                &&& plan[k].hash@ == files[at].hash@
            }),
        forall|at: int|
            0 <= at < files.len() ==> written_to(plan, #[trigger] paths[at], files[at].hash@),
{
    let names = imported_names(files);
    order::law_sorting_sorts(names);
    let p = order::sorting(names);
    assert forall|k: int| 0 <= k < plan.len() implies ({
        let at = p[k] as int;
        &&& 0 <= at < files.len()
        &&& text::texts((#[trigger] plan[k]).parts@) == paths[at]
        &&& plan[k].hash@ == files[at].hash@
    }) by {
        law_export_of_import(files, paths, sep, k);
        assert(exports(plan[k], ordered_entries(files)[k]));
    }
    assert forall|at: int| 0 <= at < files.len() implies written_to(
        plan,
        #[trigger] paths[at],
        files[at].hash@,
    ) by {
        assert(p.contains(at as usize));
        let k = choose|k: int| 0 <= k < p.len() && p[k] == at as usize;
        assert(text::texts(plan[k].parts@) == paths[at]);
    }
}

/// The tag at each place is that of the file whose entry stands there, so that what is
/// listed is what is kept in the store.
pub proof fn law_tags_go_with_entries<T>(files: Seq<ImportedFile<T>>, k: int)
    requires
        files.len() <= usize::MAX,
        0 <= k < files.len(),
    ensures
        exists|at: int|
            0 <= at < files.len() && ordered_tags(files)[k] == (#[trigger] files[at]).tag
                && ordered_entries(files)[k] == (files[at].name@, files[at].hash@),
{
    order::law_sorting_sorts(imported_names(files));
    let at = order::sorting(imported_names(files))[k] as int;
    assert(ordered_tags(files)[k] == files[at].tag);
}

/// Going down to a name and back up leads to where it began; going up from the
/// directory that receives leads out of it, whatever follows.
pub proof fn law_up_undoes_down(
    parts: Seq<Seq<char>>,
    name: Seq<char>,
    rest: Seq<Seq<char>>,
)
    requires
        name.len() > 0,
        name != "."@,
        name != ".."@,
    ensures
        place_below(parts.push(name).push(".."@)) == place_below(parts),
        place_below(parts.push("."@)) == place_below(parts),
        place_below(parts.push(Seq::empty())) == place_below(parts),
        place_below(parts) == Some(Seq::<Seq<char>>::empty()) ==> place_below(
            parts.push(".."@) + rest,
        ) is None,
        place_below(seq![".."@] + rest) is None,
{
    reveal_strlit("..");
    reveal_strlit(".");
    assert(".."@.len() == 2);
    assert("."@.len() == 1);
    let down = parts.push(name);
    let up = down.push(".."@);
    assert(up.drop_last() =~= down);
    assert(down.drop_last() =~= parts);
    assert(parts.push("."@).drop_last() =~= parts);
    assert(parts.push(Seq::<char>::empty()).drop_last() =~= parts);
    if place_below(parts) is Some {
        let at = place_below(parts)->0;
        assert(at.push(name).drop_last() =~= at);
        assert(place_below(down) == Some(at.push(name)));
    } else {
        assert(place_below(down) is None);
    }
    let above = parts.push(".."@);
    assert(above.drop_last() =~= parts);
    if place_below(parts) == Some(Seq::<Seq<char>>::empty()) {
        let whole = above + rest;
        assert(whole.take(above.len() as int) =~= above);
        lemma_above_stays(whole, above.len() as int);
    }
    lemma_up_first(rest);
}

/// A name that begins with an upward part is refused, and so is one that leads out of a
/// folder and up again, whatever stands after it.
pub proof fn law_upward_names_are_refused(rest: Seq<char>, windows: bool)
    ensures
        !lands_inside(".."@, windows),
        !lands_inside(".."@.push('/') + rest, windows),
        windows ==> !lands_inside(".."@.push('\\') + rest, windows),
        windows ==> !lands_inside(seq!['\\'] + rest, windows),
{
    reveal_strlit("..");
    let up = ".."@;
    assert(up =~= seq!['.', '.']);
    assert(!up.contains('/') && !up.contains('\\'));
    let none = Seq::<Seq<char>>::empty();
    lemma_first_piece(up, rest);
    lemma_first_piece(up, travel_name(rest));
    assert(travel_name(up) =~= up);
    assert(travel_name(up.push('/') + rest) =~= up.push('/') + travel_name(rest));
    assert(travel_name(up.push('\\') + rest) =~= up.push('/') + travel_name(rest));
    lemma_up_first(text::pieces(rest, '/'));
    lemma_up_first(text::pieces(travel_name(rest), '/'));
    lemma_up_first(none);
    assert(seq![up] + none =~= seq![up]);
    text::law_pieces_of_joined(seq![up], '/');
    assert(text::joined(seq![up], '/') == up);
    if windows {
        let rooted = seq!['\\'] + rest;
        lemma_first_piece_begins(rooted);
        assert(rooted[0] == '\\');
    }
}

/// A path that begins with an upward part leads out.
proof fn lemma_up_first(rest: Seq<Seq<char>>)
    ensures
        place_below(seq![".."@] + rest) is None,
{
    reveal_strlit("..");
    assert(".."@.len() == 2);
    let first = seq![".."@];
    assert(first.drop_last() =~= Seq::<Seq<char>>::empty());
    reveal_strlit(".");
    assert("."@.len() == 1);
    assert(place_below(Seq::empty()) == Some(Seq::<Seq<char>>::empty()));
    assert(place_below(first) is None);
    let whole = first + rest;
    assert(whole.take(1) =~= first);
    lemma_above_stays(whole, 1);
}

/// The pieces of a text that begins with a part and a slash are that part and the pieces
/// of the rest.
proof fn lemma_first_piece(a: Seq<char>, rest: Seq<char>)
    requires
        !a.contains('/'),
    ensures
        text::pieces(a.push('/') + rest, '/') == seq![a] + text::pieces(rest, '/'),
    decreases rest.len(),
{
    let s = a.push('/') + rest;
    if rest.len() == 0 {
        assert(s.drop_last() =~= a);
        assert(s.last() == '/');
        text::law_pieces_of_joined(seq![a], '/');
        assert(text::joined(seq![a], '/') == a);
        assert(text::pieces(s, '/') =~= seq![a] + text::pieces(rest, '/'));
    } else {
        lemma_first_piece(a, rest.drop_last());
        text::lemma_pieces_nonempty(rest.drop_last(), '/');
        assert(s.drop_last() =~= a.push('/') + rest.drop_last());
        assert(s.last() == rest.last());
        let before = text::pieces(rest.drop_last(), '/');
        assert((seq![a] + before).last() == before.last());
        assert((seq![a] + before).drop_last() =~= seq![a] + before.drop_last());
        assert(text::pieces(s, '/') =~= seq![a] + text::pieces(rest, '/'));
    }
}

/// The first piece of a text that does not begin with a slash begins as the text does.
proof fn lemma_first_piece_begins(s: Seq<char>)
    requires
        s.len() > 0,
        s[0] != '/',
    ensures
        text::pieces(s, '/').len() > 0,
        text::pieces(s, '/')[0].len() > 0,
        text::pieces(s, '/')[0][0] == s[0],
    decreases s.len(),
{
    let front = s.drop_last();
    text::lemma_pieces_nonempty(front, '/');
    if front.len() > 0 {
        lemma_first_piece_begins(front);
    } else {
        assert(text::pieces(front, '/') =~= seq![Seq::<char>::empty()]);
        assert(s.last() == s[0]);
    }
}

/// On Windows a name without backslashes is accepted where it is elsewhere, unless a part
/// of it begins with a drive.
pub proof fn law_windows_differs_by_drives(name: Seq<char>)
    requires
        !name.contains('\\'),
    ensures
        lands_inside(name, true) <==> lands_inside(name, false) && forall|i: int|
            0 <= i < text::pieces(name, '/').len() ==> !names_a_root(
                #[trigger] text::pieces(name, '/')[i],
            ),
{
    assert forall|i: int| 0 <= i < name.len() implies name[i] != '\\' by {
        if name[i] == '\\' {
            assert(name.contains('\\'));
        }
    }
    assert(travel_name(name) =~= name);
}

/// A part names a root exactly where it begins with a backslash, or with a letter and a
/// colon; everything after that plays no part.
pub proof fn law_roots_are_named_at_the_beginning(c: char, rest: Seq<char>)
    ensures
        names_a_root(seq!['\\'] + rest),
        ('a' <= c && c <= 'z') || ('A' <= c && c <= 'Z') ==> names_a_root(seq![c, ':'] + rest),
        !(('a' <= c && c <= 'z') || ('A' <= c && c <= 'Z')) && c != '\\' ==> !names_a_root(
            seq![c] + rest,
        ),
        c != '\\' && (rest.len() == 0 || rest[0] != ':') ==> !names_a_root(seq![c] + rest),
{
    if rest.len() > 0 {
        assert((seq![c] + rest)[1] == rest[0]);
    }
}

/// A collection is inside where each of its entries is: one by one, and part by part.
pub proof fn law_inside_entry_by_entry(
    a: Seq<(Seq<char>, Seq<u8>)>,
    e: (Seq<char>, Seq<u8>),
    b: Seq<(Seq<char>, Seq<u8>)>,
    windows: bool,
)
    ensures
        all_inside(a + b, windows) == (all_inside(a, windows) && all_inside(b, windows)),
        all_inside(seq![e], windows) == lands_inside(e.0, windows),
        all_inside(Seq::empty(), windows),
{
    let both = a + b;
    let one = seq![e];
    assert(one[0] == e);
    if all_inside(both, windows) {
        assert forall|i: int| 0 <= i < a.len() implies lands_inside(
            #[trigger] a[i].0,
            windows,
        ) by {
            assert(both[i] == a[i]);
        }
        assert forall|i: int| 0 <= i < b.len() implies lands_inside(
            #[trigger] b[i].0,
            windows,
        ) by {
            assert(both[a.len() + i] == b[i]);
        }
    }
}

/// Where a collection is not inside, one entry is the first that is not, and no other is.
pub proof fn law_one_entry_is_the_first_outside(
    entries: Seq<(Seq<char>, Seq<u8>)>,
    windows: bool,
    j: int,
    k: int,
)
    ensures
        first_outside(entries, windows, j) && first_outside(entries, windows, k) ==> j == k,
        first_outside(entries, windows, k) ==> !all_inside(entries, windows) && all_inside(
            entries.take(k),
            windows,
        ),
{
    if first_outside(entries, windows, j) && first_outside(entries, windows, k) {
        if j < k {
            assert(lands_inside(entries[j].0, windows));
        } else if k < j {
            assert(lands_inside(entries[k].0, windows));
        }
    }
    if first_outside(entries, windows, k) {
        assert(!lands_inside(entries[k].0, windows));
        assert forall|i: int| 0 <= i < k implies lands_inside(
            #[trigger] entries.take(k)[i].0,
            windows,
        ) by {
            assert(entries.take(k)[i] == entries[i]);
        }
    }
}

/// The message for an entry that would be written elsewhere holds its name, whole.
pub proof fn law_outside_is_told_whole(name: Seq<char>)
    ensures
        text::has_part(outside_text(name), name),
{
    text::law_has_its_parts(
        "export failed for "@,
        name,
        ": the path leaves the output directory"@,
    );
}

/// The total is the latest number that was reported: each report of progress replaces it,
/// and nothing else changes it.
pub proof fn law_latest_report_counts(es: Seq<GetEvent>, e: GetEvent, n: u64)
    ensures
        total_after(es.push(GetEvent::Progress(n))) == n,
        !(e is Progress) ==> total_after(es.push(e)) == total_after(es),
        total_after(Seq::empty()) == 0,
{
    assert(es.push(GetEvent::Progress(n)).drop_last() =~= es);
    assert(es.push(e).drop_last() =~= es);
}

} // verus!
