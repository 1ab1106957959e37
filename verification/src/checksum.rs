//! Checksum lists, and the check of a download against its checksum.
//!
//! A checksum list has one file on each line: the hexadecimal SHA-256 digest,
//! white space, and the name of the file, which may carry a `*` before it and
//! directories.

use vstd::prelude::*;

use crate::numbers;
use crate::text;

verus! {

/// A line of a checksum list: the digest as written, and the file.
#[derive(Debug)]
pub struct ChecksumLine {
    pub sum: String,
    pub file: String,
}

/// What a checksum line holds: the digest as written, and the file without the
/// stars before it. A line that has not two words holds nothing.
pub open spec fn line_entry(line: Seq<char>) -> Option<(Seq<char>, Seq<char>)> {
    let fields = text::words(line);
    if fields.len() == 2 {
        Some((fields[0], text::without_leading(fields[1], '*')))
    } else {
        None
    }
}

/// The entries of the lines `all`, in order.
pub open spec fn entries_of(all: Seq<Seq<char>>) -> Seq<(Seq<char>, Seq<char>)>
    decreases all.len(),
{
    if all.len() == 0 {
        Seq::empty()
    } else {
        let before = entries_of(all.drop_last());
        match line_entry(all.last()) {
            Some(e) => before.push(e),
            None => before,
        }
    }
}

/// The entries of a checksum list.
pub open spec fn list_entries(list: Seq<char>) -> Seq<(Seq<char>, Seq<char>)> {
    entries_of(text::line_seq(list))
}

/// What checksum lines hold.
pub open spec fn entry_texts(v: Seq<ChecksumLine>) -> Seq<(Seq<char>, Seq<char>)> {
    v.map_values(|l: ChecksumLine| (l.sum@, l.file@))
}

/// Reads the entries of a checksum list.
pub fn read_checksums(list: &str) -> (r: Vec<ChecksumLine>)
    ensures
        entry_texts(r@) == list_entries(list@),
{
    let all = text::lines(list);
    let ghost ls = text::line_seq(list@);
    let mut out: Vec<ChecksumLine> = Vec::new();
    let mut i: usize = 0;
    assert(entry_texts(out@) == entries_of(ls.take(0)));
    while i < all.len()
        invariant
            i <= all@.len(),
            text::texts(all@) == ls,
            entry_texts(out@) == entries_of(ls.take(i as int)),
        decreases all@.len() - i,
    {
        let fields = text::split_whitespace(all[i].as_str());
        assert(all@[i as int]@ == ls[i as int]);
        assert(ls.take(i + 1).drop_last() == ls.take(i as int));
        let ghost words = text::words(ls[i as int]);
        assert(text::texts(fields@) == words);
        if fields.len() == 2 {
            let sum = fields[0].clone();
            assert(sum@ == words[0]);
            let file = text::trim_start_matches(fields[1].as_str(), '*');
            assert(fields@[1]@ == words[1]);
            let ghost was = entry_texts(out@);
            out.push(ChecksumLine { sum, file });
            assert(entry_texts(out@) == was.push((sum@, file@)));
        }
        i += 1;
    }
    assert(ls.take(i as int) == ls);
    out
}

/// The last name among the parts of a path: empty parts and `.` do not count,
/// and a path that ends in `..` has none.
pub open spec fn last_name(parts: Seq<Seq<char>>) -> Option<Seq<char>>
    decreases parts.len(),
{
    if parts.len() == 0 {
        None
    } else if parts.last().len() == 0 || parts.last() == "."@ {
        last_name(parts.drop_last())
    } else if parts.last() == ".."@ {
        None
    } else {
        Some(parts.last())
    }
}

/// The name of the file that a path with `/` between its parts leads to.
pub open spec fn final_name(path: Seq<char>) -> Option<Seq<char>> {
    last_name(text::pieces(path, '/'))
}

/// Whether a path means the same on every system: it has no backslash, no colon
/// and no double slash at its beginning.
pub open spec fn is_portable(path: Seq<char>) -> bool {
    &&& !path.contains('\\')
    &&& !path.contains(':')
    &&& !(path.len() >= 2 && path[0] == '/' && path[1] == '/')
}

/// The final component of a path, by `std::path::Path::file_name`. The contract
/// claims what its documentation says of the components of a path: repeated
/// slashes, slashes at the end and `.` are passed over, and a path that ends in
/// `..` has no file name. Of a path that systems read differently (one with a
/// backslash, a colon or a double slash at its beginning) it claims only that the
/// name is a part of the path.
#[verifier::external_body]
fn path_file_name(path: &str) -> (r: Option<String>)
    ensures
        is_portable(path@) ==> text::opt_text(r) == final_name(path@),
        r matches Some(n) ==> text::has_part(path@, n@),
{
    std::path::Path::new(path).file_name().and_then(|s| s.to_str()).map(|s| s.to_owned())
}

/// A digest as written, and the file name that it belongs to.
#[derive(Debug)]
pub struct NamedSum {
    pub sum: String,
    pub name: Option<String>,
}

/// The digest of the first entry that belongs to the file `name`, in lower case.
pub open spec fn sum_for(
    all: Seq<(Seq<char>, Option<Seq<char>>)>,
    name: Seq<char>,
) -> Option<Seq<char>>
    decreases all.len(),
{
    if all.len() == 0 {
        None
    } else if all[0].1 == Some(name) {
        Some(text::lowered(all[0].0))
    } else {
        sum_for(all.skip(1), name)
    }
}

/// What digests and file names hold.
pub open spec fn named_texts(v: Seq<NamedSum>) -> Seq<(Seq<char>, Option<Seq<char>>)> {
    v.map_values(|e: NamedSum| (e.sum@, text::opt_text(e.name)))
}

/// Picks the digest of the first entry that belongs to the file `name`.
pub fn pick_sum(all: &Vec<NamedSum>, name: &str) -> (r: Option<String>)
    ensures
        text::opt_text(r) == sum_for(named_texts(all@), name@),
{
    let ghost es = named_texts(all@);
    let mut i: usize = 0;
    assert(es.skip(0) == es);
    while i < all.len()
        invariant
            i <= all@.len(),
            es == named_texts(all@),
            sum_for(es.skip(i as int), name@) == sum_for(es, name@),
        decreases all@.len() - i,
    {
        let e = &all[i];
        assert(es.skip(i as int)[0] == es[i as int]);
        assert(es.skip(i as int).skip(1) == es.skip(i + 1));
        if let Some(n) = &e.name {
            if text::same(n.as_str(), name) {
                return Some(text::to_ascii_lowercase(e.sum.as_str()));
            }
        }
        i += 1;
    }
    None
}

/// The entries of a list with the file name that each path leads to.
pub open spec fn named_entries(
    list: Seq<(Seq<char>, Seq<char>)>,
) -> Seq<(Seq<char>, Option<Seq<char>>)> {
    list.map_values(|e: (Seq<char>, Seq<char>)| (e.0, final_name(e.1)))
}

/// The digest that the checksum list `list` gives for the file `name`.
pub open spec fn listed_sum(list: Seq<char>, name: Seq<char>) -> Option<Seq<char>> {
    sum_for(named_entries(list_entries(list)), name)
}

/// Whether every path in the checksum list means the same on every system.
pub open spec fn portable_list(list: Seq<char>) -> bool {
    forall|i: int|
        0 <= i < list_entries(list).len() ==> is_portable(#[trigger] list_entries(list)[i].1)
}

/// Whether the entry at `i` of the checksum list is surely for the file `name`: its
/// path means the same on every system, and leads to that name.
pub open spec fn surely_for(list: Seq<char>, name: Seq<char>, i: int) -> bool {
    let path = list_entries(list)[i].1;
    is_portable(path) && final_name(path) == Some(name)
}

/// Whether the entry at `i` of the checksum list can be the one that counts for the
/// file `name`: the name is a part of its path, which leads to that name or is one
/// that systems read differently, and no entry before it is surely for that file.
pub open spec fn can_count(list: Seq<char>, name: Seq<char>, i: int) -> bool {
    &&& 0 <= i < list_entries(list).len()
    &&& text::has_part(list_entries(list)[i].1, name)
    &&& is_portable(list_entries(list)[i].1) ==> surely_for(list, name, i)
    &&& forall|j: int| 0 <= j < i ==> !#[trigger] surely_for(list, name, j)
}

/// Whether the checksum list gives the digest `sum`, or none, for the file `name`.
/// Paths that systems read differently leave this open; all other paths decide it.
pub open spec fn gives(list: Seq<char>, name: Seq<char>, sum: Option<Seq<char>>) -> bool {
    match sum {
        Some(s) => exists|i: int| #[trigger]
            can_count(list, name, i) && s == text::lowered(list_entries(list)[i].0),
        None => forall|i: int|
            0 <= i < list_entries(list).len() ==> !#[trigger] surely_for(list, name, i),
    }
}

/// The first entry for a file decides where all paths up to it mean the same on
/// every system, whatever stands after it in the list.
pub proof fn law_first_entry_decides(
    list: Seq<char>,
    name: Seq<char>,
    k: int,
    sum: Option<Seq<char>>,
)
    requires
        gives(list, name, sum),
        0 <= k < list_entries(list).len(),
        forall|j: int| 0 <= j <= k ==> is_portable(#[trigger] list_entries(list)[j].1),
        forall|j: int| 0 <= j < k ==> !#[trigger] surely_for(list, name, j),
        surely_for(list, name, k),
    ensures
        sum == Some(text::lowered(list_entries(list)[k].0)),
{
    if let Some(s) = sum {
        let i = choose|i: int| #[trigger]
            can_count(list, name, i) && s == text::lowered(list_entries(list)[i].0);
        if i < k {
            assert(is_portable(list_entries(list)[i].1));
        }
        assert(i == k);
    }
}

/// Where all paths in the checksum list mean the same on every system, it gives one
/// answer.
pub proof fn law_portable_list_decides(
    list: Seq<char>,
    name: Seq<char>,
    sum: Option<Seq<char>>,
)
    requires
        portable_list(list),
        gives(list, name, sum),
    ensures
        sum == listed_sum(list, name),
{
    let es = list_entries(list);
    let ns = named_entries(es);
    match sum {
        Some(s) => {
            let i = choose|i: int| #[trigger]
                can_count(list, name, i) && s == text::lowered(es[i].0);
            assert(is_portable(es[i].1));
            assert forall|j: int| 0 <= j < i implies (#[trigger] ns[j]).1 != Some(name) by {
                assert(is_portable(es[j].1));
                assert(!surely_for(list, name, j));
            }
            lemma_first_counts(ns, name, i);
        },
        None => {
            assert forall|j: int| 0 <= j < ns.len() implies (#[trigger] ns[j]).1 != Some(name) by {
                assert(is_portable(es[j].1));
                assert(!surely_for(list, name, j));
            }
            lemma_none_counts(ns, name);
        },
    }
}

/// The first entry that belongs to the file is the one that is picked.
proof fn lemma_first_counts(all: Seq<(Seq<char>, Option<Seq<char>>)>, name: Seq<char>, i: int)
    requires
        0 <= i < all.len(),
        all[i].1 == Some(name),
        forall|j: int| 0 <= j < i ==> (#[trigger] all[j]).1 != Some(name),
    ensures
        sum_for(all, name) == Some(text::lowered(all[i].0)),
    decreases all.len(),
{
    if i > 0 {
        assert(all[0].1 != Some(name));
        assert forall|j: int| 0 <= j < i - 1 implies (#[trigger] all.skip(1)[j]).1 != Some(
            name,
        ) by {
            assert(all.skip(1)[j] == all[j + 1]);
        }
        lemma_first_counts(all.skip(1), name, i - 1);
    }
}

/// Where no entry belongs to the file, none is picked.
proof fn lemma_none_counts(all: Seq<(Seq<char>, Option<Seq<char>>)>, name: Seq<char>)
    requires
        forall|j: int| 0 <= j < all.len() ==> (#[trigger] all[j]).1 != Some(name),
    ensures
        sum_for(all, name) is None,
    decreases all.len(),
{
    if all.len() > 0 {
        assert(all[0].1 != Some(name));
        assert forall|j: int| 0 <= j < all.len() - 1 implies (#[trigger] all.skip(1)[j]).1 != Some(
            name,
        ) by {
            assert(all.skip(1)[j] == all[j + 1]);
        }
        lemma_none_counts(all.skip(1), name);
    }
}

/// What is picked is the digest of the first entry that belongs to the file.
proof fn lemma_picked_is_first(all: Seq<(Seq<char>, Option<Seq<char>>)>, name: Seq<char>)
    ensures
        sum_for(all, name) matches Some(s) ==> exists|i: int|
            0 <= i < all.len() && (#[trigger] all[i]).1 == Some(name) && s == text::lowered(
                all[i].0,
            ) && forall|j: int| 0 <= j < i ==> (#[trigger] all[j]).1 != Some(name),
        sum_for(all, name) is None ==> forall|j: int|
            0 <= j < all.len() ==> (#[trigger] all[j]).1 != Some(name),
    decreases all.len(),
{
    if all.len() > 0 && all[0].1 != Some(name) {
        let rest = all.skip(1);
        lemma_picked_is_first(rest, name);
        match sum_for(all, name) {
            Some(s) => {
                let i = choose|i: int|
                    0 <= i < rest.len() && (#[trigger] rest[i]).1 == Some(name) && s
                        == text::lowered(rest[i].0) && forall|j: int|
                        0 <= j < i ==> (#[trigger] rest[j]).1 != Some(name);
                assert(all[i + 1] == rest[i]);
                assert forall|j: int| 0 <= j < i + 1 implies (#[trigger] all[j]).1 != Some(
                    name,
                ) by {
                    if j > 0 {
                        assert(rest[j - 1] == all[j]);
                    }
                }
            },
            None => {
                assert forall|j: int| 0 <= j < all.len() implies (#[trigger] all[j]).1 != Some(
                    name,
                ) by {
                    if j > 0 {
                        assert(rest[j - 1] == all[j]);
                    }
                }
            },
        }
    }
}

/// The digest in a result; none where that is an error.
pub open spec fn found_sum(r: Result<String, String>) -> Option<Seq<char>> {
    match r {
        Ok(s) => Some(s@),
        Err(_) => None,
    }
}

/// The digest that the checksum list gives for the file `name`, in lower case; an
/// error where it gives none. The first entry for the file counts. How a path with a
/// backslash, a colon or a double slash at its beginning is read rests on the
/// system, so whether such an entry is for the file is left open.
pub fn fetch_checksum(list: &str, name: &str) -> (r: Result<String, String>)
    ensures
        gives(list@, name@, found_sum(r)),
        portable_list(list@) ==> found_sum(r) == listed_sum(list@, name@),
        r matches Err(e) ==> e@ == "no checksum for "@ + name@,
{
    let found = read_checksums(list);
    let ghost es = list_entries(list@);
    let mut named: Vec<NamedSum> = Vec::new();
    let mut i: usize = 0;
    while i < found.len()
        invariant
            i <= found@.len(),
            es == list_entries(list@),
            entry_texts(found@) == es,
            named@.len() == i,
            forall|k: int| 0 <= k < i ==> (#[trigger] named@[k]).sum@ == es[k].0,
            forall|k: int|
                0 <= k < i && is_portable(es[k].1) ==> text::opt_text(
                    (#[trigger] named@[k]).name,
                ) == final_name(es[k].1),
            forall|k: int|
                0 <= k < i && (#[trigger] named@[k]).name is Some ==> text::has_part(
                    es[k].1,
                    named@[k].name->0@,
                ),
        decreases found@.len() - i,
    {
        assert(entry_texts(found@)[i as int] == es[i as int]);
        let base = path_file_name(found[i].file.as_str());
        named.push(NamedSum { sum: found[i].sum.clone(), name: base });
        i += 1;
    }
    assert(es.len() == named@.len()) by {
        assert(entry_texts(found@).len() == es.len());
    }
    let picked = pick_sum(&named, name);
    proof {
        let ns = named_texts(named@);
        assert forall|k: int| 0 <= k < ns.len() implies {
            &&& (#[trigger] ns[k]).0 == es[k].0
            &&& is_portable(es[k].1) ==> ns[k].1 == final_name(es[k].1)
            &&& ns[k].1 == Some(name@) ==> text::has_part(es[k].1, name@)
        } by {
            assert(ns[k] == (named@[k].sum@, text::opt_text(named@[k].name)));
        }
        lemma_picked_is_first(ns, name@);
        match sum_for(ns, name@) {
            Some(s) => {
                let k = choose|k: int|
                    0 <= k < ns.len() && (#[trigger] ns[k]).1 == Some(name@) && s == text::lowered(
                        ns[k].0,
                    ) && forall|j: int| 0 <= j < k ==> (#[trigger] ns[j]).1 != Some(name@);
                assert forall|j: int| 0 <= j < k implies !#[trigger] surely_for(
                    list@,
                    name@,
                    j,
                ) by {
                    assert(ns[j].1 != Some(name@));
                }
                assert(can_count(list@, name@, k));
            },
            None => {
                assert forall|j: int| 0 <= j < es.len() implies !#[trigger] surely_for(
                    list@,
                    name@,
                    j,
                ) by {
                    assert(ns[j].1 != Some(name@));
                }
            },
        }
        assert(gives(list@, name@, text::opt_text(picked)));
        if portable_list(list@) {
            law_portable_list_decides(list@, name@, text::opt_text(picked));
        }
    }
    match picked {
        Some(s) => Ok(s),
        None => {
            let mut e = "no checksum for ".to_owned();
            e.append(name);
            Err(e)
        },
    }
}

/// The SHA-256 digest of `bytes`.
pub uninterp spec fn sha256_of(bytes: Seq<u8>) -> Seq<u8>;

/// The SHA-256 digest of `bytes`, by `sha2::Sha256`. The contract claims that it
/// has 32 bytes and depends on `bytes` alone.
#[verifier::external_body]
fn sha256(bytes: &[u8]) -> (r: Vec<u8>)
    ensures
        r@ == sha256_of(bytes@),
        r@.len() == 32,
{
    <sha2::Sha256 as sha2::Digest>::digest(bytes).to_vec()
}

/// Whether the digest `digest` is the one that `want` asks for: `want` is its
/// hexadecimal text in either case, or asks for nothing.
pub open spec fn digest_accepted(digest: Seq<u8>, want: Seq<char>) -> bool {
    want.len() == 0 || text::same_but_case(numbers::hex_text(digest), want)
}

/// The message for a download whose digest is not the one asked for.
pub open spec fn mismatch_text(digest: Seq<u8>, want: Seq<char>) -> Seq<char> {
    "update checksum mismatch: got "@ + numbers::hex_text(digest) + ", want "@ + want
}

/// Checks the digest of a download against the checksum `want`. Where no
/// checksum is known, every download passes.
pub fn check_digest(digest: &[u8], want: &str) -> (r: Result<(), String>)
    ensures
        r is Ok <==> digest_accepted(digest@, want@),
        r matches Err(e) ==> e@ == mismatch_text(digest@, want@),
{
    proof {
        reveal_strlit("");
        assert(want@.len() == 0 <==> want@ =~= ""@);
    }
    if text::same(want, "") {
        return Ok(());
    }
    let got = numbers::to_hex(digest);
    if text::eq_ignore_ascii_case(got.as_str(), want) {
        Ok(())
    } else {
        let mut e = "update checksum mismatch: got ".to_owned();
        e.append(got.as_str());
        e.append(", want ");
        e.append(want);
        Err(e)
    }
}

/// Checks a download against the checksum `want`.
pub fn check_download(bytes: &[u8], want: &str) -> (r: Result<(), String>)
    ensures
        r is Ok <==> digest_accepted(sha256_of(bytes@), want@),
        r matches Err(e) ==> e@ == mismatch_text(sha256_of(bytes@), want@),
{
    let digest = sha256(bytes);
    check_digest(digest.as_slice(), want)
}

/// A checksum lets only one digest pass: the one that it was written for.
pub proof fn law_checksum_pins_digest(digest: Seq<u8>, expected: Seq<u8>, want: Seq<char>)
    requires
        expected.len() > 0,
        text::same_but_case(numbers::hex_text(expected), want),
    ensures
        digest_accepted(digest, want) <==> digest == expected,
{
    numbers::lemma_hex_len(expected);
    numbers::lemma_hex_lower(digest);
    numbers::lemma_hex_lower(expected);
    assert(text::lowered(want).len() == want.len());
    if digest_accepted(digest, want) {
        numbers::law_hex_injective(digest, expected);
    }
}

/// Whether there is no white space in `s`, and something else.
pub open spec fn is_word(s: Seq<char>) -> bool {
    &&& s.len() > 0
    &&& forall|i: int| 0 <= i < s.len() ==> !text::is_white_space(#[trigger] s[i])
}

/// Whether there is nothing but white space in `w`.
pub open spec fn is_gap(w: Seq<char>) -> bool {
    forall|i: int| 0 <= i < w.len() ==> text::is_white_space(#[trigger] w[i])
}

/// White space around a text changes nothing in its words.
proof fn lemma_words_inside(lead: Seq<char>, s: Seq<char>, tail: Seq<char>)
    requires
        is_gap(lead),
        is_gap(tail),
    ensures
        text::words(lead + s + tail) == text::words(s),
{
    let none = Seq::<char>::empty();
    assert(text::words(none) =~= Seq::<Seq<char>>::empty());
    let inner = lead + s;
    if lead.len() > 0 {
        text::law_white_space_parts_words(none, lead, s);
        assert(none + lead + s =~= inner);
    } else {
        assert(inner =~= s);
    }
    assert(text::words(inner) =~= text::words(s));
    if tail.len() > 0 {
        text::law_white_space_parts_words(inner, tail, none);
        assert(inner + tail + none =~= lead + s + tail);
    } else {
        assert(lead + s + tail =~= inner);
    }
    assert(text::words(lead + s + tail) =~= text::words(s));
}

/// A line with a digest, white space and a file holds just these, whole: the digest is
/// the first word of the line, and the file the second, without the stars before it.
pub proof fn law_line_holds_what_was_written(
    lead: Seq<char>,
    sum: Seq<char>,
    gap: Seq<char>,
    stars: Seq<char>,
    file: Seq<char>,
    tail: Seq<char>,
)
    requires
        is_gap(lead),
        is_word(sum),
        is_gap(gap) && gap.len() > 0,
        forall|i: int| 0 <= i < stars.len() ==> #[trigger] stars[i] == '*',
        is_word(file) && file[0] != '*',
        is_gap(tail),
    ensures
        line_entry(lead + (sum + gap + (stars + file)) + tail) == Some((sum, file)),
{
    let second = stars + file;
    let inner = sum + gap + second;
    assert forall|i: int| 0 <= i < second.len() implies !text::is_white_space(
        #[trigger] second[i],
    ) by {
        if i < stars.len() {
            assert(second[i] == stars[i]);
        } else {
            assert(second[i] == file[i - stars.len()]);
        }
    }
    lemma_words_inside(lead, inner, tail);
    text::law_white_space_parts_words(sum, gap, second);
    text::law_word_is_whole(sum);
    text::law_word_is_whole(second);
    assert(text::words(inner) =~= seq![sum, second]);
    text::law_without_leading_is_the_rest(stars, file, '*');
}

/// A line that has not two words is passed over.
pub proof fn law_other_lines_are_passed_over(a: Seq<char>, v: Seq<char>, b: Seq<char>, w: Seq<char>, c: Seq<char>)
    requires
        is_word(a),
        is_gap(v) && v.len() > 0,
        is_word(b),
        is_gap(w) && w.len() > 0,
        is_word(c),
    ensures
        line_entry(v) is None,
        line_entry(a) is None,
        line_entry(a + v + b + w + c) is None,
{
    let none = Seq::<char>::empty();
    lemma_words_inside(v, none, none);
    assert(v + none + none =~= v);
    assert(text::words(none) =~= Seq::<Seq<char>>::empty());
    text::law_word_is_whole(a);
    text::law_word_is_whole(b);
    text::law_word_is_whole(c);
    text::law_white_space_parts_words(a, v, b);
    text::law_white_space_parts_words(a + v + b, w, c);
    assert(text::words(a + v + b + w + c).len() == 3);
}

/// The entries of lines are those of the first ones and then those of the others, none
/// left out.
pub proof fn law_entries_line_by_line(a: Seq<Seq<char>>, b: Seq<Seq<char>>)
    ensures
        entries_of(a + b) == entries_of(a) + entries_of(b),
        forall|l: Seq<char>| #[trigger]
            line_entry(l) is Some ==> entries_of(seq![l]) == seq![line_entry(l)->0],
        forall|l: Seq<char>| #[trigger] line_entry(l) is None ==> entries_of(seq![l]).len() == 0,
    decreases b.len(),
{
    assert forall|l: Seq<char>| true implies {
        &&& line_entry(l) is Some ==> entries_of(seq![l]) == seq![(#[trigger] line_entry(l))->0]
        &&& line_entry(l) is None ==> entries_of(seq![l]).len() == 0
    } by {
        assert(seq![l].drop_last() =~= Seq::<Seq<char>>::empty());
        assert(entries_of(seq![l].drop_last()) =~= Seq::<(Seq<char>, Seq<char>)>::empty());
        assert(seq![l].last() == l);
        if line_entry(l) is Some {
            assert(entries_of(seq![l]) =~= seq![line_entry(l)->0]);
        }
    }
    if b.len() == 0 {
        assert(a + b =~= a);
        assert(entries_of(a) + entries_of(b) =~= entries_of(a));
    } else {
        law_entries_line_by_line(a, b.drop_last());
        assert((a + b).drop_last() =~= a + b.drop_last());
        assert((a + b).last() == b.last());
        assert(entries_of(a + b) =~= entries_of(a) + entries_of(b));
    }
}

/// Every entry comes from a line.
proof fn lemma_entry_from_line(all: Seq<Seq<char>>, j: int)
    requires
        0 <= j < entries_of(all).len(),
    ensures
        exists|i: int|
            0 <= i < all.len() && line_entry(#[trigger] all[i]) == Some(entries_of(all)[j]),
    decreases all.len(),
{
    let front = all.drop_last();
    let before = entries_of(front);
    assert(all[all.len() - 1] == all.last());
    if j < before.len() {
        lemma_entry_from_line(front, j);
        let i = choose|i: int|
            0 <= i < front.len() && line_entry(#[trigger] front[i]) == Some(before[j]);
        assert(all[i] == front[i]);
        assert(entries_of(all)[j] == before[j]);
    }
}

/// Whether `name` is a plain file name, which means the same on every system.
pub open spec fn is_file_name(name: Seq<char>) -> bool {
    &&& is_word(name)
    &&& name[0] != '*'
    &&& !name.contains('/')
    &&& is_portable(name)
    &&& name != "."@
    &&& name != ".."@
}

/// A path leads to the name after its last slash, whole.
pub proof fn law_path_leads_to_its_last_name(dir: Seq<char>, name: Seq<char>)
    requires
        name.len() > 0,
        !name.contains('/'),
        name != "."@,
        name != ".."@,
    ensures
        final_name(name) == Some(name),
        final_name(dir.push('/') + name) == Some(name),
        final_name(name.push('/')) == Some(name),
{
    text::law_pieces_of_joined(seq![name], '/');
    assert(text::joined(seq![name], '/') == name);
    let parts = text::pieces(dir, '/').push(name);
    text::law_join_pieces(dir, '/');
    text::law_pieces_are_free_of_separators(dir, '/');
    text::lemma_pieces_nonempty(dir, '/');
    assert(parts.drop_last() =~= text::pieces(dir, '/'));
    assert(text::joined(parts, '/') =~= dir.push('/') + name);
    assert forall|i: int| 0 <= i < parts.len() implies !(#[trigger] parts[i]).contains('/') by {
        if i < parts.len() - 1 {
            assert(parts[i] == text::pieces(dir, '/')[i]);
        }
    }
    text::law_pieces_of_joined(parts, '/');
    let slashed = name.push('/');
    assert(slashed.drop_last() =~= name);
    assert(text::pieces(slashed, '/') =~= seq![name, Seq::<char>::empty()]);
    assert(text::pieces(slashed, '/').drop_last() =~= seq![name]);
}

/// Hexadecimal digits are no white space.
proof fn lemma_hex_is_word(d: Seq<u8>)
    requires
        d.len() > 0,
    ensures
        is_word(numbers::hex_text(d)),
    decreases d.len(),
{
    numbers::lemma_hex_len(d);
    let t = numbers::hex_text(d);
    let h = numbers::hex_text(d.drop_last());
    if d.len() > 1 {
        lemma_hex_is_word(d.drop_last());
    } else {
        numbers::lemma_hex_len(d.drop_last());
    }
    assert forall|i: int| 0 <= i < t.len() implies !text::is_white_space(#[trigger] t[i]) by {
        if i < h.len() {
            assert(t[i] == h[i]);
        }
    }
}

/// Whether a line holds nothing, or is surely for another file than `name`.
pub open spec fn is_for_another(line: Seq<char>, name: Seq<char>) -> bool {
    match line_entry(line) {
        None => true,
        Some(e) => is_portable(e.1) && final_name(e.1) != Some(name),
    }
}

/// A checksum that was written into a list is found there, whole, and lets through the
/// download that it was written for: where a line of the list holds the digest `d` in
/// hexadecimal for the file `name`, and no line before it is for that file, the list
/// gives that digest, and a download with it is accepted.
#[verifier::rlimit(40)]
pub proof fn law_listed_checksum_is_found(
    ls: Seq<Seq<char>>,
    k: int,
    d: Seq<u8>,
    name: Seq<char>,
    sum: Option<Seq<char>>,
)
    requires
        text::bare_lines(ls),
        0 <= k < ls.len(),
        d.len() > 0,
        is_file_name(name),
        ls[k] == numbers::hex_text(d) + "  "@ + name,
        forall|j: int| 0 <= j < k ==> is_for_another(#[trigger] ls[j], name),
        gives(text::joined(ls.push(Seq::empty()), '\n'), name, sum),
    ensures
        sum == Some(numbers::hex_text(d)),
        digest_accepted(d, numbers::hex_text(d)),
{
    let list = text::joined(ls.push(Seq::empty()), '\n');
    let none = Seq::<char>::empty();
    let hex = numbers::hex_text(d);
    reveal_strlit("  ");
    assert("  "@ =~= seq![' ', ' ']);
    text::law_lines_are_what_was_written(ls);
    lemma_hex_is_word(d);
    numbers::lemma_hex_lower(d);
    law_line_holds_what_was_written(none, hex, "  "@, none, name, none);
    assert(none + (hex + "  "@ + (none + name)) + none =~= ls[k]);
    law_path_leads_to_its_last_name(none, name);
    let before = ls.take(k);
    let after = ls.skip(k + 1);
    assert(ls =~= before + seq![ls[k]] + after);
    law_entries_line_by_line(before + seq![ls[k]], after);
    law_entries_line_by_line(before, seq![ls[k]]);
    let es = list_entries(list);
    let m = entries_of(before).len() as int;
    assert(line_entry(ls[k]) is Some);
    assert(entries_of(seq![ls[k]]) == seq![(hex, name)]);
    assert(es[m] == (hex, name));
    assert forall|j: int| 0 <= j < m implies is_portable(#[trigger] es[j].1) && final_name(es[j].1)
        != Some(name) by {
        lemma_entry_from_line(before, j);
        let i = choose|i: int|
            0 <= i < before.len() && line_entry(#[trigger] before[i]) == Some(
                entries_of(before)[j],
            );
        assert(before[i] == ls[i]);
        assert(is_for_another(ls[i], name));
        assert(es[j] == entries_of(before)[j]);
    }
    assert forall|j: int| 0 <= j <= m implies is_portable(#[trigger] list_entries(list)[j].1) by {
        if j < m {
            assert(is_portable(es[j].1));
        }
    }
    assert forall|j: int| 0 <= j < m implies !#[trigger] surely_for(list, name, j) by {
        assert(final_name(es[j].1) != Some(name));
    }
    assert(surely_for(list, name, m));
    law_first_entry_decides(list, name, m, sum);
}

/// Without a checksum every download passes; with one, the case of its letters plays no
/// part.
pub proof fn law_checksum_case_plays_no_part(digest: Seq<u8>, want: Seq<char>)
    ensures
        digest_accepted(digest, Seq::empty()),
        digest_accepted(digest, want) == digest_accepted(digest, text::lowered(want)),
{
    assert(text::lowered(text::lowered(want)) =~= text::lowered(want));
}

/// What the user is told of a download with another digest holds both, whole.
pub proof fn law_mismatch_is_told_whole(digest: Seq<u8>, want: Seq<char>)
    ensures
        text::has_end(mismatch_text(digest, want), want),
        text::has_part(mismatch_text(digest, want), numbers::hex_text(digest)),
{
    let head = "update checksum mismatch: got "@;
    let hex = numbers::hex_text(digest);
    text::law_has_its_parts(head + hex + ", want "@, want, Seq::empty());
    text::law_has_its_parts(head, hex, ", want "@ + want);
    assert(head + hex + (", want "@ + want) =~= mismatch_text(digest, want));
}

/// A relative path with `/` between its parts, and neither backslash nor colon in it,
/// means the same on every system; so does one that begins with a single `/`.
pub proof fn law_plain_paths_are_portable(path: Seq<char>)
    requires
        forall|i: int| 0 <= i < path.len() ==> #[trigger] path[i] != '\\' && path[i] != ':',
        path.len() > 0 && path[0] == '/' ==> path.len() == 1 || path[1] != '/',
    ensures
        is_portable(path),
{
}

/// The first digest for a file counts, in lower case: what stands in a later part of a
/// list counts only where nothing before it is for that file.
pub proof fn law_first_digest_counts(
    a: Seq<(Seq<char>, Option<Seq<char>>)>,
    e: (Seq<char>, Option<Seq<char>>),
    b: Seq<(Seq<char>, Option<Seq<char>>)>,
    name: Seq<char>,
)
    ensures
        sum_for(a + b, name) == if sum_for(a, name) is Some {
            sum_for(a, name)
        } else {
            sum_for(b, name)
        },
        e.1 == Some(name) ==> sum_for(seq![e], name) == Some(text::lowered(e.0)),
        e.1 != Some(name) ==> sum_for(seq![e], name) is None,
    decreases a.len(),
{
    let one = seq![e];
    assert(one[0] == e);
    assert(one.skip(1) =~= Seq::empty());
    assert(sum_for(one.skip(1), name) is None);
    if a.len() == 0 {
        assert(a + b =~= b);
    } else {
        law_first_digest_counts(a.skip(1), e, b, name);
        assert((a + b)[0] == a[0]);
        assert((a + b).skip(1) =~= a.skip(1) + b);
    }
}

} // verus!
