//! Text primitives: what trimming, splitting, matching and comparing mean on
//! sequences of characters, and executable functions that are proved to do it.

use vstd::prelude::*;

verus! {

/// `String::push` appends the given character to the end of the string. The
/// contract claims that, and that nothing before it changes.
pub assume_specification[ String::push ](s: &mut String, c: char)
    ensures
        final(s)@ == old(s)@.push(c),
;

/// The characters with the Unicode property `White_Space`.
pub open spec fn is_white_space(c: char) -> bool {
    ||| '\t' <= c && c <= '\r'
    ||| c == ' '
    ||| c == '\u{85}'
    ||| c == '\u{a0}'
    ||| c == '\u{1680}'
    ||| '\u{2000}' <= c && c <= '\u{200a}'
    ||| c == '\u{2028}'
    ||| c == '\u{2029}'
    ||| c == '\u{202f}'
    ||| c == '\u{205f}'
    ||| c == '\u{3000}'
}

/// Whether `c` is white space.
pub fn white_space(c: char) -> (r: bool)
    ensures
        r == is_white_space(c),
{
    ('\t' <= c && c <= '\r') || c == ' ' || c == '\u{85}' || c == '\u{a0}' || c == '\u{1680}'
        || ('\u{2000}' <= c && c <= '\u{200a}') || c == '\u{2028}' || c == '\u{2029}' || c
        == '\u{202f}' || c == '\u{205f}' || c == '\u{3000}'
}

/// The characters of `s`, in order.
pub fn to_chars(s: &str) -> (r: Vec<char>)
    ensures
        r@ == s@,
{
    let mut out: Vec<char> = Vec::new();
    for c in it: s.chars()
        invariant
            out@ == it.seq().take(it.index() as int),
            it.seq() == s@,
    {
        out.push(c);
    }
    out
}

/// The text made of the characters `lo..hi` of `cs`.
pub fn slice_text(cs: &[char], lo: usize, hi: usize) -> (r: String)
    requires
        lo <= hi <= cs@.len(),
    ensures
        r@ == cs@.subrange(lo as int, hi as int),
{
    let mut out = String::new();
    let mut i: usize = lo;
    while i < hi
        invariant
            lo <= i <= hi <= cs@.len(),
            out@ == cs@.subrange(lo as int, i as int),
        decreases hi - i,
    {
        out.push(cs[i]);
        i += 1;
    }
    out
}

/// The text made of the characters `cs`.
pub fn from_chars(cs: &[char]) -> (r: String)
    ensures
        r@ == cs@,
{
    slice_text(cs, 0, cs.len())
}

/// Whether the two texts are the same.
pub fn same(a: &str, b: &str) -> (r: bool)
    ensures
        r == (a@ == b@),
{
    a.to_owned() == b.to_owned()
}

/// `s` without its leading white space.
pub open spec fn trim_left(s: Seq<char>) -> Seq<char>
    decreases s.len(),
{
    if s.len() > 0 && is_white_space(s[0]) {
        trim_left(s.skip(1))
    } else {
        s
    }
}

/// `s` without its trailing white space.
pub open spec fn trim_right(s: Seq<char>) -> Seq<char>
    decreases s.len(),
{
    if s.len() > 0 && is_white_space(s.last()) {
        trim_right(s.drop_last())
    } else {
        s
    }
}

/// `s` without leading and trailing white space.
pub open spec fn trimmed(s: Seq<char>) -> Seq<char> {
    trim_right(trim_left(s))
}

/// `s` without the characters `c` that it begins with.
pub open spec fn without_leading(s: Seq<char>, c: char) -> Seq<char>
    decreases s.len(),
{
    if s.len() > 0 && s[0] == c {
        without_leading(s.skip(1), c)
    } else {
        s
    }
}

/// Trimming on the left leaves no white space in front, and only drops a front
/// part.
proof fn lemma_trim_left(s: Seq<char>)
    ensures
        trim_left(s).len() <= s.len(),
        trim_left(s) == s.skip(s.len() - trim_left(s).len()),
        trim_left(s).len() > 0 ==> !is_white_space(trim_left(s)[0]),
    decreases s.len(),
{
    if s.len() > 0 && is_white_space(s[0]) {
        lemma_trim_left(s.skip(1));
        let t = trim_left(s.skip(1));
        assert(s.skip(1).skip(s.len() - 1 - t.len()) == s.skip(s.len() - t.len()));
    } else {
        assert(s.skip(0) == s);
    }
}

/// Trimming on the right leaves no white space at the end, and only drops an end
/// part.
proof fn lemma_trim_right(s: Seq<char>)
    ensures
        trim_right(s).len() <= s.len(),
        trim_right(s) == s.take(trim_right(s).len() as int),
        trim_right(s).len() > 0 ==> !is_white_space(trim_right(s).last()),
    decreases s.len(),
{
    if s.len() > 0 && is_white_space(s.last()) {
        lemma_trim_right(s.drop_last());
        let n = trim_right(s).len() as int;
        assert(s.drop_last().take(n) == s.take(n));
    } else {
        assert(s.take(s.len() as int) == s);
    }
}

/// A trimmed text has no white space at either end, so that trimming it again
/// changes nothing.
pub proof fn lemma_trimmed_edges(s: Seq<char>)
    ensures
        trimmed(s).len() > 0 ==> !is_white_space(trimmed(s)[0]) && !is_white_space(
            trimmed(s).last(),
        ),
        trimmed(trimmed(s)) == trimmed(s),
{
    let l = trim_left(s);
    lemma_trim_left(s);
    lemma_trim_right(l);
    let t = trimmed(s);
    if t.len() > 0 {
        assert(t[0] == l[0]);
    }
}

/// The part of `s` between its leading and its trailing white space.
pub fn trim(s: &str) -> (r: String)
    ensures
        r@ == trimmed(s@),
{
    let cs = to_chars(s);
    let mut lo: usize = 0;
    assert(cs@.skip(0) == s@);
    while lo < cs.len() && white_space(cs[lo])
        invariant
            lo <= cs@.len(),
            trim_left(cs@.skip(lo as int)) == trim_left(cs@),
        decreases cs@.len() - lo,
    {
        assert(cs@.skip(lo as int).skip(1) == cs@.skip(lo + 1));
        lo += 1;
    }
    let mut hi: usize = cs.len();
    assert(cs@.subrange(lo as int, hi as int) == cs@.skip(lo as int));
    while lo < hi && white_space(cs[hi - 1])
        invariant
            lo <= hi <= cs@.len(),
            trim_right(cs@.subrange(lo as int, hi as int)) == trim_right(cs@.skip(lo as int)),
        decreases hi,
    {
        assert(cs@.subrange(lo as int, hi as int).drop_last() == cs@.subrange(
            lo as int,
            hi - 1,
        ));
        hi -= 1;
    }
    slice_text(cs.as_slice(), lo, hi)
}

/// `s` without the characters `c` that it begins with.
pub fn trim_start_matches(s: &str, c: char) -> (r: String)
    ensures
        r@ == without_leading(s@, c),
{
    let cs = to_chars(s);
    let mut lo: usize = 0;
    assert(cs@.skip(0) == s@);
    while lo < cs.len() && cs[lo] == c
        invariant
            lo <= cs@.len(),
            without_leading(cs@.skip(lo as int), c) == without_leading(cs@, c),
        decreases cs@.len() - lo,
    {
        assert(cs@.skip(lo as int).skip(1) == cs@.skip(lo + 1));
        lo += 1;
    }
    assert(cs@.subrange(lo as int, cs@.len() as int) == cs@.skip(lo as int));
    slice_text(cs.as_slice(), lo, cs.len())
}

/// The ASCII lower case of `c`: `A` to `Z` become `a` to `z`, the rest stays.
pub open spec fn lower_char(c: char) -> char {
    if 'A' <= c && c <= 'Z' {
        ((c as u8) + 32) as char
    } else {
        c
    }
}

/// `s` in ASCII lower case.
pub open spec fn lowered(s: Seq<char>) -> Seq<char> {
    s.map_values(|c: char| lower_char(c))
}

/// `s` in ASCII lower case.
pub fn to_ascii_lowercase(s: &str) -> (r: String)
    ensures
        r@ == lowered(s@),
{
    let cs = to_chars(s);
    let mut out = String::new();
    let mut i: usize = 0;
    while i < cs.len()
        invariant
            i <= cs@.len(),
            out@ == lowered(cs@.take(i as int)),
        decreases cs@.len() - i,
    {
        let c = cs[i];
        let l = if 'A' <= c && c <= 'Z' {
            ((c as u8) + 32) as char
        } else {
            c
        };
        out.push(l);
        assert(cs@.take(i + 1) == cs@.take(i as int).push(c));
        i += 1;
    }
    assert(cs@.take(i as int) == cs@);
    out
}

/// Whether `a` and `b` differ at most in the case of ASCII letters.
pub open spec fn same_but_case(a: Seq<char>, b: Seq<char>) -> bool {
    lowered(a) == lowered(b)
}

/// Whether `a` and `b` differ at most in the case of ASCII letters.
pub fn eq_ignore_ascii_case(a: &str, b: &str) -> (r: bool)
    ensures
        r == same_but_case(a@, b@),
{
    same(to_ascii_lowercase(a).as_str(), to_ascii_lowercase(b).as_str())
}

/// Whether `p` stands in `s` at position `i`.
pub open spec fn occurs_at(s: Seq<char>, p: Seq<char>, i: int) -> bool {
    &&& 0 <= i
    &&& i + p.len() <= s.len()
    &&& s.subrange(i, i + p.len()) == p
}

/// Whether `p` is a part of `s`.
pub open spec fn has_part(s: Seq<char>, p: Seq<char>) -> bool {
    exists|i: int| occurs_at(s, p, i)
}

/// Whether `s` ends with `p`.
pub open spec fn has_end(s: Seq<char>, p: Seq<char>) -> bool {
    occurs_at(s, p, s.len() - p.len())
}

/// Whether `p` stands in `s` at position `i`.
fn matches_at(s: &[char], p: &[char], i: usize) -> (r: bool)
    requires
        i + p@.len() <= s@.len(),
    ensures
        r == occurs_at(s@, p@, i as int),
{
    let n: usize = s.len();
    let mut k: usize = 0;
    while k < p.len()
        invariant
            k <= p@.len(),
            n == s@.len(),
            i + p@.len() <= n,
            forall|j: int| 0 <= j < k ==> s@[i + j] == p@[j],
        decreases p@.len() - k,
    {
        if s[i + k] != p[k] {
            assert(s@.subrange(i as int, i + p@.len())[k as int] != p@[k as int]);
            return false;
        }
        k += 1;
    }
    assert(s@.subrange(i as int, i + p@.len()) =~= p@);
    true
}

/// Whether `p` is a part of `s`.
pub fn contains(s: &str, p: &str) -> (r: bool)
    ensures
        r == has_part(s@, p@),
{
    let cs = to_chars(s);
    let ps = to_chars(p);
    if ps.len() > cs.len() {
        return false;
    }
    let last: usize = cs.len() - ps.len();
    let mut i: usize = 0;
    while i <= last
        invariant
            cs@ == s@,
            ps@ == p@,
            last == cs@.len() - ps@.len(),
            i <= last + 1,
            forall|j: int| 0 <= j < i ==> !occurs_at(s@, p@, j),
        decreases last + 1 - i,
    {
        if matches_at(cs.as_slice(), ps.as_slice(), i) {
            return true;
        }
        if i == last {
            assert(forall|j: int| !occurs_at(s@, p@, j));
            return false;
        }
        i += 1;
    }
    assert(forall|j: int| !occurs_at(s@, p@, j));
    false
}

/// Whether `s` ends with `p`.
pub fn ends_with(s: &str, p: &str) -> (r: bool)
    ensures
        r == has_end(s@, p@),
{
    let cs = to_chars(s);
    let ps = to_chars(p);
    ps.len() <= cs.len() && matches_at(cs.as_slice(), ps.as_slice(), cs.len() - ps.len())
}

/// The pieces of `s` between the characters `sep`; one more than there are
/// separators.
pub open spec fn pieces(s: Seq<char>, sep: char) -> Seq<Seq<char>>
    decreases s.len(),
{
    if s.len() == 0 {
        seq![Seq::<char>::empty()]
    } else {
        let before = pieces(s.drop_last(), sep);
        if s.last() == sep {
            before.push(Seq::empty())
        } else {
            before.drop_last().push(before.last().push(s.last()))
        }
    }
}

/// The texts `parts` with `sep` between each two of them.
pub open spec fn joined(parts: Seq<Seq<char>>, sep: char) -> Seq<char>
    decreases parts.len(),
{
    if parts.len() == 0 {
        Seq::empty()
    } else if parts.len() == 1 {
        parts[0]
    } else {
        joined(parts.drop_last(), sep).push(sep) + parts.last()
    }
}

/// What the strings of `v` hold.
pub open spec fn texts(v: Seq<String>) -> Seq<Seq<char>> {
    v.map_values(|t: String| t@)
}

/// There is always a piece.
pub proof fn lemma_pieces_nonempty(s: Seq<char>, sep: char)
    ensures
        pieces(s, sep).len() > 0,
    decreases s.len(),
{
    if s.len() > 0 {
        lemma_pieces_nonempty(s.drop_last(), sep);
    }
}

/// The pieces of `s` between the characters `sep`.
pub fn split(s: &str, sep: char) -> (r: Vec<String>)
    ensures
        texts(r@) == pieces(s@, sep),
        r@.len() > 0,
{
    let cs = to_chars(s);
    let mut out: Vec<String> = Vec::new();
    let mut piece = String::new();
    let mut i: usize = 0;
    assert(texts(out@).push(piece@) == pieces(cs@.take(0), sep));
    while i < cs.len()
        invariant
            i <= cs@.len(),
            texts(out@).push(piece@) == pieces(cs@.take(i as int), sep),
        decreases cs@.len() - i,
    {
        let c = cs[i];
        let ghost was = pieces(cs@.take(i as int), sep);
        assert(cs@.take(i + 1).drop_last() == cs@.take(i as int));
        assert(was.drop_last() == texts(out@));
        if c == sep {
            let ghost done = texts(out@).push(piece@);
            out.push(piece);
            assert(texts(out@) == done);
            piece = String::new();
        } else {
            piece.push(c);
        }
        i += 1;
    }
    assert(cs@.take(i as int) == s@);
    let ghost done = texts(out@).push(piece@);
    out.push(piece);
    assert(texts(out@) == done);
    out
}

/// Putting the separators back between the pieces gives the text again.
pub proof fn law_join_pieces(s: Seq<char>, sep: char)
    ensures
        joined(pieces(s, sep), sep) == s,
    decreases s.len(),
{
    if s.len() == 0 {
        assert(pieces(s, sep)[0] == s);
    } else {
        let before = pieces(s.drop_last(), sep);
        lemma_pieces_nonempty(s.drop_last(), sep);
        law_join_pieces(s.drop_last(), sep);
        let all = pieces(s, sep);
        if s.last() == sep {
            assert(all.drop_last() == before);
            assert(joined(all, sep) == s);
        } else {
            assert(all.drop_last() == before.drop_last());
            assert(s == s.drop_last().push(s.last()));
            assert(joined(all, sep) == joined(before, sep).push(s.last()));
        }
    }
}

/// Splitting a text that was joined from parts without the separator gives
/// those parts again.
pub proof fn law_pieces_of_joined(parts: Seq<Seq<char>>, sep: char)
    requires
        parts.len() > 0,
        forall|i: int| 0 <= i < parts.len() ==> !(#[trigger] parts[i]).contains(sep),
    ensures
        pieces(joined(parts, sep), sep) == parts,
    decreases parts.len(), parts.last().len(),
{
    let s = joined(parts, sep);
    let tail = parts.last();
    if tail.len() == 0 {
        assert(tail == Seq::<char>::empty());
        if parts.len() == 1 {
            assert(parts =~= seq![Seq::<char>::empty()]);
        } else {
            law_pieces_of_joined(parts.drop_last(), sep);
            assert(s.drop_last() == joined(parts.drop_last(), sep));
            assert(parts == parts.drop_last().push(Seq::empty()));
        }
    } else {
        let shorter = parts.drop_last().push(tail.drop_last());
        assert forall|i: int| 0 <= i < shorter.len() implies !(#[trigger] shorter[i]).contains(
            sep,
        ) by {
            if i < parts.len() - 1 {
                assert(shorter[i] == parts[i]);
            } else if shorter[i].contains(sep) {
                let k = choose|k: int| 0 <= k < shorter[i].len() && shorter[i][k] == sep;
                assert(tail[k] == sep);
                assert(parts[i].contains(sep));
            }
        }
        assert(shorter.drop_last() == parts.drop_last());
        law_pieces_of_joined(shorter, sep);
        assert(s.drop_last() == joined(shorter, sep));
        assert(s.last() == tail.last());
        assert(tail[tail.len() - 1] != sep) by {
            assert(!parts[parts.len() - 1].contains(sep));
        }
        assert(shorter.last().push(tail.last()) == tail);
        assert(pieces(s, sep) == parts);
    }
}

/// How many characters of `s` stand before the first `sep`: all of them where
/// there is none.
pub open spec fn prefix_len(s: Seq<char>, sep: char) -> nat
    decreases s.len(),
{
    if s.len() == 0 || s[0] == sep {
        0
    } else {
        1 + prefix_len(s.skip(1), sep)
    }
}

/// The part of `s` before the first `sep`, or all of `s`.
pub open spec fn before_first(s: Seq<char>, sep: char) -> Seq<char> {
    s.take(prefix_len(s, sep) as int)
}

/// The part of `s` after the first `sep`; nothing where there is none.
pub open spec fn after_first(s: Seq<char>, sep: char) -> Seq<char> {
    if prefix_len(s, sep) < s.len() {
        s.skip(prefix_len(s, sep) as int + 1)
    } else {
        Seq::empty()
    }
}

/// The prefix before the first separator is free of it, and the next character
/// is the separator.
pub proof fn lemma_prefix_len(s: Seq<char>, sep: char)
    ensures
        prefix_len(s, sep) <= s.len(),
        forall|i: int| 0 <= i < prefix_len(s, sep) ==> s[i] != sep,
        prefix_len(s, sep) < s.len() ==> s[prefix_len(s, sep) as int] == sep,
    decreases s.len(),
{
    if s.len() > 0 && s[0] != sep {
        lemma_prefix_len(s.skip(1), sep);
        assert forall|i: int| 0 <= i < prefix_len(s, sep) implies s[i] != sep by {
            if i > 0 {
                assert(s.skip(1)[i - 1] == s[i]);
            }
        }
    }
}

/// The first position of `sep` in `cs`, or its length.
fn position(cs: &[char], sep: char) -> (r: usize)
    ensures
        r == prefix_len(cs@, sep),
        r <= cs@.len(),
{
    let mut i: usize = 0;
    assert(cs@.skip(0) == cs@);
    while i < cs.len() && cs[i] != sep
        invariant
            i <= cs@.len(),
            i + prefix_len(cs@.skip(i as int), sep) == prefix_len(cs@, sep),
        decreases cs@.len() - i,
    {
        assert(cs@.skip(i as int).skip(1) == cs@.skip(i + 1));
        i += 1;
    }
    i
}

/// `s` cut at the first `sep`: what stands before it, and what stands after it.
pub fn cut(s: &str, sep: char) -> (r: (String, String))
    ensures
        r.0@ == before_first(s@, sep),
        r.1@ == after_first(s@, sep),
{
    let cs = to_chars(s);
    let n: usize = cs.len();
    let i = position(cs.as_slice(), sep);
    assert(cs@.subrange(0, i as int) == s@.take(i as int));
    let head = slice_text(cs.as_slice(), 0, i);
    if i < n {
        assert(cs@.subrange(i + 1, n as int) == s@.skip(i + 1));
        (head, slice_text(cs.as_slice(), i + 1, n))
    } else {
        (head, String::new())
    }
}

/// `line` without one carriage return at its end.
pub open spec fn without_return(line: Seq<char>) -> Seq<char> {
    if line.len() > 0 && line.last() == '\r' {
        line.drop_last()
    } else {
        line
    }
}

/// The lines of `s`. A line ends with a line feed, or a carriage return and a
/// line feed; the last one need not end.
pub open spec fn line_seq(s: Seq<char>) -> Seq<Seq<char>> {
    let all = pieces(s, '\n');
    let ended = all.drop_last().map_values(|l: Seq<char>| without_return(l));
    if all.last().len() == 0 {
        ended
    } else {
        ended.push(all.last())
    }
}

/// The lines of `s`.
pub fn lines(s: &str) -> (r: Vec<String>)
    ensures
        texts(r@) == line_seq(s@),
{
    let parts = split(s, '\n');
    let ghost all = pieces(s@, '\n');
    let n: usize = parts.len();
    let mut out: Vec<String> = Vec::new();
    let mut i: usize = 0;
    while i + 1 < n
        invariant
            n == parts@.len(),
            0 < n,
            i < n,
            texts(parts@) == all,
            texts(out@) == all.take(i as int).map_values(|l: Seq<char>| without_return(l)),
        decreases n - i,
    {
        let cs = to_chars(parts[i].as_str());
        assert(cs@ == all[i as int]);
        let m: usize = cs.len();
        let line = if m > 0 && cs[m - 1] == '\r' {
            slice_text(cs.as_slice(), 0, m - 1)
        } else {
            from_chars(cs.as_slice())
        };
        assert(line@ == without_return(cs@));
        let ghost was = texts(out@);
        out.push(line);
        assert(texts(out@) == was.push(line@));
        assert(all.take(i + 1) == all.take(i as int).push(all[i as int]));
        assert(texts(out@) == all.take(i + 1).map_values(|l: Seq<char>| without_return(l)));
        i += 1;
    }
    assert(all.take(i as int) == all.drop_last());
    let cs = to_chars(parts[i].as_str());
    assert(cs@ == all.last());
    if cs.len() > 0 {
        let ghost was = texts(out@);
        out.push(from_chars(cs.as_slice()));
        assert(texts(out@) == was.push(cs@));
    }
    out
}

/// The longest parts of `s` without white space, in order.
pub open spec fn words(s: Seq<char>) -> Seq<Seq<char>>
    decreases s.len(),
{
    if s.len() == 0 {
        Seq::empty()
    } else {
        let before = words(s.drop_last());
        let c = s.last();
        if is_white_space(c) {
            before
        } else if s.len() == 1 || is_white_space(s[s.len() - 2]) {
            before.push(seq![c])
        } else {
            before.drop_last().push(before.last().push(c))
        }
    }
}

/// The longest parts of `s` without white space, in order.
pub fn split_whitespace(s: &str) -> (r: Vec<String>)
    ensures
        texts(r@) == words(s@),
{
    let cs = to_chars(s);
    let mut out: Vec<String> = Vec::new();
    let mut word = String::new();
    let mut inside = false;
    let mut i: usize = 0;
    assert(cs@.take(0) == Seq::<char>::empty());
    assert(texts(out@) == Seq::<Seq<char>>::empty());
    while i < cs.len()
        invariant
            i <= cs@.len(),
            inside == (i > 0 && !is_white_space(cs@[i - 1])),
            inside ==> texts(out@).push(word@) == words(cs@.take(i as int)),
            !inside ==> texts(out@) == words(cs@.take(i as int)) && word@.len() == 0,
        decreases cs@.len() - i,
    {
        let c = cs[i];
        let ghost now = cs@.take(i + 1);
        assert(now.drop_last() == cs@.take(i as int));
        let ghost was = words(cs@.take(i as int));
        if white_space(c) {
            if inside {
                let ghost done = texts(out@).push(word@);
                out.push(word);
                assert(texts(out@) == done);
                word = String::new();
            }
            inside = false;
        } else {
            proof {
                if inside {
                    assert(was.drop_last() == texts(out@));
                    assert(now[now.len() - 2] == cs@[i - 1]);
                } else {
                    assert(word@.push(c) == seq![c]);
                    if i > 0 {
                        assert(now[now.len() - 2] == cs@[i - 1]);
                    }
                }
            }
            word.push(c);
            inside = true;
            assert(texts(out@).push(word@) == words(now));
        }
        i += 1;
    }
    assert(cs@.take(i as int) == s@);
    if inside {
        let ghost done = texts(out@).push(word@);
        out.push(word);
        assert(texts(out@) == done);
    }
    out
}

/// `s` with each `from` replaced by `to`.
pub open spec fn replaced(s: Seq<char>, from: char, to: char) -> Seq<char> {
    s.map_values(|c: char| if c == from { to } else { c })
}

/// `s` with each `from` replaced by `to`.
pub fn replace(s: &str, from: char, to: char) -> (r: String)
    ensures
        r@ == replaced(s@, from, to),
{
    let cs = to_chars(s);
    let mut out = String::new();
    let mut i: usize = 0;
    while i < cs.len()
        invariant
            i <= cs@.len(),
            out@ == replaced(cs@.take(i as int), from, to),
        decreases cs@.len() - i,
    {
        let c = cs[i];
        out.push(if c == from { to } else { c });
        assert(cs@.take(i + 1) == cs@.take(i as int).push(c));
        i += 1;
    }
    assert(cs@.take(i as int) == cs@);
    out
}

/// The first `n` characters of `s`, or all of them where there are fewer.
pub open spec fn at_most(s: Seq<char>, n: nat) -> Seq<char> {
    if s.len() <= n {
        s
    } else {
        s.take(n as int)
    }
}

/// The first `n` characters of `s`, or all of them where there are fewer.
pub fn take_chars(s: &str, n: usize) -> (r: String)
    ensures
        r@ == at_most(s@, n as nat),
{
    let cs = to_chars(s);
    if cs.len() <= n {
        from_chars(cs.as_slice())
    } else {
        assert(cs@.subrange(0, n as int) == cs@.take(n as int));
        slice_text(cs.as_slice(), 0, n)
    }
}

/// `s` with blanks after it up to a width of `n` characters.
pub open spec fn padded(s: Seq<char>, n: nat) -> Seq<char> {
    if s.len() >= n {
        s
    } else {
        s + Seq::new((n - s.len()) as nat, |i: int| ' ')
    }
}

/// `s` with blanks after it up to a width of `n` characters.
pub fn pad(s: &str, n: usize) -> (r: String)
    ensures
        r@ == padded(s@, n as nat),
{
    let cs = to_chars(s);
    let mut out = from_chars(cs.as_slice());
    let mut k: usize = cs.len();
    while k < n
        invariant
            cs@ == s@,
            k >= cs@.len(),
            k <= n || k == cs@.len(),
            out@ == s@ + Seq::new((k - s@.len()) as nat, |i: int| ' '),
        decreases n - k,
    {
        out.push(' ');
        k += 1;
    }
    out
}

/// What an optional string holds.
pub open spec fn opt_text(o: Option<String>) -> Option<Seq<char>> {
    match o {
        Some(t) => Some(t@),
        None => None,
    }
}

/// Trimming takes away white space in front, and nothing else there.
proof fn lemma_trim_left_of(w: Seq<char>, s: Seq<char>)
    requires
        forall|i: int| 0 <= i < w.len() ==> is_white_space(#[trigger] w[i]),
    ensures
        trim_left(w + s) == trim_left(s),
    decreases w.len(),
{
    if w.len() == 0 {
        assert(w + s =~= s);
    } else {
        let rest = w.skip(1);
        assert forall|i: int| 0 <= i < rest.len() implies is_white_space(#[trigger] rest[i]) by {
            assert(rest[i] == w[i + 1]);
        }
        lemma_trim_left_of(rest, s);
        assert((w + s)[0] == w[0]);
        assert((w + s).skip(1) =~= rest + s);
    }
}

/// Trimming takes away white space at the end, and nothing else there.
proof fn lemma_trim_right_of(s: Seq<char>, w: Seq<char>)
    requires
        forall|i: int| 0 <= i < w.len() ==> is_white_space(#[trigger] w[i]),
    ensures
        trim_right(s + w) == trim_right(s),
    decreases w.len(),
{
    if w.len() == 0 {
        assert(s + w =~= s);
    } else {
        let front = w.drop_last();
        assert forall|i: int| 0 <= i < front.len() implies is_white_space(#[trigger] front[i]) by {
            assert(front[i] == w[i]);
        }
        lemma_trim_right_of(s, front);
        assert((s + w).last() == w[w.len() - 1]);
        assert((s + w).drop_last() =~= s + front);
    }
}

/// Trimming gives back what stands between white space on both sides, whole.
pub proof fn law_trimmed_is_what_stands_between(w: Seq<char>, s: Seq<char>, x: Seq<char>)
    requires
        forall|i: int| 0 <= i < w.len() ==> is_white_space(#[trigger] w[i]),
        forall|i: int| 0 <= i < x.len() ==> is_white_space(#[trigger] x[i]),
        s.len() > 0 ==> !is_white_space(s[0]) && !is_white_space(s.last()),
    ensures
        trimmed(w + s + x) == s,
{
    assert(w + s + x =~= w + (s + x));
    lemma_trim_left_of(w, s + x);
    if s.len() > 0 {
        assert((s + x)[0] == s[0]);
        lemma_trim_right_of(s, x);
    } else {
        assert(s + x =~= x);
        assert(x + s =~= x);
        lemma_trim_left_of(x, s);
    }
}

/// Taking the characters `c` off the front leaves what stands after them, whole.
pub proof fn law_without_leading_is_the_rest(p: Seq<char>, s: Seq<char>, c: char)
    requires
        forall|i: int| 0 <= i < p.len() ==> #[trigger] p[i] == c,
        s.len() > 0 ==> s[0] != c,
    ensures
        without_leading(p + s, c) == s,
    decreases p.len(),
{
    if p.len() == 0 {
        assert(p + s =~= s);
    } else {
        let rest = p.skip(1);
        assert forall|i: int| 0 <= i < rest.len() implies #[trigger] rest[i] == c by {
            assert(rest[i] == p[i + 1]);
        }
        law_without_leading_is_the_rest(rest, s, c);
        assert((p + s)[0] == p[0]);
        assert((p + s).skip(1) =~= rest + s);
    }
}

/// Lower case changes the letters `A` to `Z` into those 32 places further on, and
/// nothing else.
pub proof fn law_lowered_letters(s: Seq<char>)
    ensures
        lowered(s).len() == s.len(),
        forall|i: int|
            0 <= i < s.len() && 'A' <= #[trigger] s[i] && s[i] <= 'Z' ==> lowered(s)[i] as int
                == s[i] as int + 32,
        forall|i: int|
            0 <= i < s.len() && !('A' <= #[trigger] s[i] && s[i] <= 'Z') ==> lowered(s)[i] == s[i],
{
}

/// Lower case goes character by character.
pub proof fn law_lowered_of_both(a: Seq<char>, b: Seq<char>)
    ensures
        lowered(a + b) == lowered(a) + lowered(b),
{
    assert(lowered(a + b) =~= lowered(a) + lowered(b));
}

/// A text has every part that it is put together from, and ends with the last.
pub proof fn law_has_its_parts(a: Seq<char>, p: Seq<char>, b: Seq<char>)
    ensures
        has_part(a + p + b, p),
        has_end(a + p, p),
{
    let s = a + p + b;
    assert(s.subrange(a.len() as int, a.len() as int + p.len()) =~= p);
    assert(occurs_at(s, p, a.len() as int));
    let t = a + p;
    assert(t.subrange(a.len() as int, a.len() as int + p.len()) =~= p);
}

/// Where a text has a part, it is put together from what stands before it, the part,
/// and what stands after it.
pub proof fn law_part_of_a_whole(s: Seq<char>, p: Seq<char>)
    ensures
        has_part(s, p) ==> exists|a: Seq<char>, b: Seq<char>| s == #[trigger] (a + p + b),
        has_end(s, p) ==> exists|a: Seq<char>| s == #[trigger] (a + p),
{
    if has_part(s, p) {
        let i = choose|i: int| occurs_at(s, p, i);
        let a = s.take(i);
        let b = s.skip(i + p.len());
        assert(s =~= a + s.subrange(i, i + p.len()) + b);
        assert(s == a + p + b);
    }
    if has_end(s, p) {
        let a = s.take(s.len() - p.len());
        assert(s =~= a + s.subrange(s.len() - p.len(), s.len() as int));
        assert(s == a + p);
    }
}

/// No piece holds the separator.
pub proof fn law_pieces_are_free_of_separators(s: Seq<char>, sep: char)
    ensures
        forall|i: int| 0 <= i < pieces(s, sep).len() ==> !(#[trigger] pieces(s, sep)[i]).contains(sep),
    decreases s.len(),
{
    if s.len() > 0 {
        let before = pieces(s.drop_last(), sep);
        lemma_pieces_nonempty(s.drop_last(), sep);
        law_pieces_are_free_of_separators(s.drop_last(), sep);
        let all = pieces(s, sep);
        assert forall|i: int| 0 <= i < all.len() implies !(#[trigger] all[i]).contains(sep) by {
            if s.last() == sep {
                if i < before.len() {
                    assert(all[i] == before[i]);
                }
            } else if i < before.len() - 1 {
                assert(all[i] == before[i]);
            } else if all[i].contains(sep) {
                let k = choose|k: int| 0 <= k < all[i].len() && all[i][k] == sep;
                assert(all[i] == before.last().push(s.last()));
                assert(before[before.len() - 1][k] == sep);
                assert(before[before.len() - 1].contains(sep));
            }
        }
    }
}

/// Cutting at the first separator gives what stands before it and what stands after
/// it, whole; a text without the separator stays whole.
pub proof fn law_cut_at_the_first(a: Seq<char>, sep: char, b: Seq<char>)
    requires
        !a.contains(sep),
    ensures
        before_first(a.push(sep) + b, sep) == a,
        after_first(a.push(sep) + b, sep) == b,
        before_first(a, sep) == a,
        after_first(a, sep) == Seq::<char>::empty(),
{
    let s = a.push(sep) + b;
    lemma_prefix_len(s, sep);
    lemma_prefix_len(a, sep);
    let n = prefix_len(s, sep);
    if n < a.len() {
        assert(s[n as int] == a[n as int]);
        assert(a.contains(sep));
    }
    if n > a.len() {
        assert(s[a.len() as int] == sep);
    }
    if prefix_len(a, sep) < a.len() {
        assert(a.contains(sep));
    }
    assert(before_first(s, sep) =~= a);
    assert(after_first(s, sep) =~= b);
    assert(before_first(a, sep) =~= a);
}

/// Whether none of these is ended by a line feed or a carriage return, nor holds a
/// line feed.
pub open spec fn bare_lines(ls: Seq<Seq<char>>) -> bool {
    forall|i: int|
        0 <= i < ls.len() ==> !(#[trigger] ls[i]).contains('\n') && !(ls[i].len() > 0
            && ls[i].last() == '\r')
}

/// The lines of a text are what was written on them, whole, whether they end with a
/// line feed or with a carriage return and a line feed.
pub proof fn law_lines_are_what_was_written(ls: Seq<Seq<char>>)
    requires
        bare_lines(ls),
    ensures
        line_seq(joined(ls.push(Seq::empty()), '\n')) == ls,
        line_seq(joined(ls.map_values(|l: Seq<char>| l.push('\r')).push(Seq::empty()), '\n')) == ls,
        ls.len() > 0 && ls.last().len() > 0 ==> line_seq(joined(ls, '\n')) == ls,
{
    let empty = Seq::<char>::empty();
    let feeds = ls.push(empty);
    let returned = ls.map_values(|l: Seq<char>| l.push('\r'));
    let both = returned.push(empty);
    assert forall|i: int| 0 <= i < feeds.len() implies !(#[trigger] feeds[i]).contains('\n') by {
        if i < ls.len() {
            assert(feeds[i] == ls[i]);
        }
    }
    assert forall|i: int| 0 <= i < both.len() implies !(#[trigger] both[i]).contains('\n') by {
        if i < ls.len() {
            assert(both[i] == ls[i].push('\r'));
            if both[i].contains('\n') {
                let k = choose|k: int| 0 <= k < both[i].len() && both[i][k] == '\n';
                assert(ls[i][k] == '\n');
                assert(ls[i].contains('\n'));
            }
        }
    }
    law_pieces_of_joined(feeds, '\n');
    law_pieces_of_joined(both, '\n');
    assert(feeds.drop_last() =~= ls);
    assert(both.drop_last() =~= returned);
    assert(ls.map_values(|l: Seq<char>| without_return(l)) =~= ls);
    assert forall|i: int| 0 <= i < ls.len() implies without_return(#[trigger] returned[i]) == ls[i] by {
        assert(returned[i].drop_last() =~= ls[i]);
    }
    assert(returned.map_values(|l: Seq<char>| without_return(l)) =~= ls);
    if ls.len() > 0 && ls.last().len() > 0 {
        law_pieces_of_joined(ls, '\n');
        let front = ls.drop_last();
        assert forall|i: int| 0 <= i < front.len() implies without_return(#[trigger] front[i])
            == ls[i] by {
            assert(front[i] == ls[i]);
        }
        assert(front.map_values(|l: Seq<char>| without_return(l)).push(ls.last()) =~= ls);
    }
}

/// A text that ends without white space has a word at its end.
proof fn lemma_word_at_the_end(s: Seq<char>)
    requires
        s.len() > 0,
        !is_white_space(s.last()),
    ensures
        words(s).len() > 0,
{
}

/// A text without white space is one word, whole.
pub proof fn law_word_is_whole(w: Seq<char>)
    requires
        w.len() > 0,
        forall|i: int| 0 <= i < w.len() ==> !is_white_space(#[trigger] w[i]),
    ensures
        words(w) == seq![w],
    decreases w.len(),
{
    assert(w[w.len() - 1] == w.last());
    if w.len() == 1 {
        assert(w.drop_last() =~= Seq::<char>::empty());
        assert(words(w.drop_last()) =~= Seq::<Seq<char>>::empty());
        assert(words(w) =~= seq![seq![w.last()]]);
        assert(seq![w.last()] =~= w);
    } else {
        let front = w.drop_last();
        assert forall|i: int| 0 <= i < front.len() implies !is_white_space(#[trigger] front[i]) by {
            assert(front[i] == w[i]);
        }
        law_word_is_whole(front);
        assert(!is_white_space(w[w.len() - 2]));
        assert(front.push(w.last()) =~= w);
        assert(words(w) =~= seq![w]);
    }
}

/// White space parts a text: its words are those before the white space and then
/// those after it.
pub proof fn law_white_space_parts_words(a: Seq<char>, w: Seq<char>, b: Seq<char>)
    requires
        w.len() > 0,
        forall|i: int| 0 <= i < w.len() ==> is_white_space(#[trigger] w[i]),
    ensures
        words(a + w + b) == words(a) + words(b),
    decreases b.len(), w.len(),
{
    let s = a + w + b;
    assert(w[w.len() - 1] == w.last());
    if b.len() > 0 {
        let front = b.drop_last();
        law_white_space_parts_words(a, w, front);
        assert(s.drop_last() =~= a + w + front);
        assert(s.last() == b.last());
        let c = b.last();
        if !is_white_space(c) {
            if b.len() == 1 {
                assert(s[s.len() - 2] == w.last());
                assert(front =~= Seq::<char>::empty());
                assert(words(front) =~= Seq::<Seq<char>>::empty());
                assert(words(s) =~= words(a) + words(b));
            } else {
                assert(s[s.len() - 2] == b[b.len() - 2]);
                if is_white_space(b[b.len() - 2]) {
                    assert(words(s) =~= words(a) + words(b));
                } else {
                    assert(front.last() == b[b.len() - 2]);
                    lemma_word_at_the_end(front);
                    let all = words(a) + words(front);
                    assert(all.last() == words(front).last());
                    assert(words(s) =~= words(a) + words(b));
                }
            }
        }
    } else {
        assert(words(b) =~= Seq::<Seq<char>>::empty());
        assert(s =~= a + w);
        assert(s.last() == w.last());
        assert(words(a) + words(b) =~= words(a));
        if w.len() == 1 {
            assert(s.drop_last() =~= a);
        } else {
            let shorter = w.drop_last();
            assert forall|i: int| 0 <= i < shorter.len() implies is_white_space(
                #[trigger] shorter[i],
            ) by {
                assert(shorter[i] == w[i]);
            }
            law_white_space_parts_words(a, shorter, b);
            assert(s.drop_last() =~= a + shorter + b);
        }
    }
}

/// Replacing a character changes it wherever it stands, and nothing else.
pub proof fn law_replaced_character_by_character(s: Seq<char>, from: char, to: char)
    ensures
        replaced(s, from, to).len() == s.len(),
        forall|i: int|
            0 <= i < s.len() && #[trigger] s[i] == from ==> replaced(s, from, to)[i] == to,
        forall|i: int|
            0 <= i < s.len() && #[trigger] s[i] != from ==> replaced(s, from, to)[i] == s[i],
{
}

/// What is kept of a text is its beginning, as long as it may be.
pub proof fn law_at_most_is_a_beginning(s: Seq<char>, n: nat)
    ensures
        at_most(s, n).len() == if s.len() < n {
            s.len()
        } else {
            n
        },
        forall|i: int| 0 <= i < at_most(s, n).len() ==> #[trigger] at_most(s, n)[i] == s[i],
{
}

/// A padded text begins with the text, whole, and goes on with blanks up to its width.
pub proof fn law_padded_goes_on_with_blanks(s: Seq<char>, n: nat)
    ensures
        padded(s, n).len() == if s.len() < n {
            n
        } else {
            s.len()
        },
        padded(s, n).take(s.len() as int) == s,
        forall|i: int| s.len() <= i < padded(s, n).len() ==> #[trigger] padded(s, n)[i] == ' ',
{
    assert(padded(s, n).take(s.len() as int) =~= s);
}

/// A text that begins with something else than white space is not trimmed away.
proof fn lemma_not_trimmed_away(s: Seq<char>)
    requires
        s.len() > 0,
        !is_white_space(s[0]),
    ensures
        trim_right(s).len() > 0,
    decreases s.len(),
{
    if s.len() > 1 && is_white_space(s.last()) {
        assert(s.drop_last()[0] == s[0]);
        lemma_not_trimmed_away(s.drop_last());
    }
}

/// Nothing is left of a trimmed text exactly where it is white space throughout.
pub proof fn law_white_space_is_trimmed_away(s: Seq<char>)
    ensures
        trimmed(s).len() == 0 <==> forall|i: int|
            0 <= i < s.len() ==> is_white_space(#[trigger] s[i]),
    decreases s.len(),
{
    if s.len() > 0 {
        let rest = s.skip(1);
        if is_white_space(s[0]) {
            law_white_space_is_trimmed_away(rest);
            if forall|i: int| 0 <= i < rest.len() ==> is_white_space(#[trigger] rest[i]) {
                assert forall|i: int| 0 <= i < s.len() implies is_white_space(#[trigger] s[i]) by {
                    if i > 0 {
                        assert(rest[i - 1] == s[i]);
                    }
                }
            } else {
                let i = choose|i: int| 0 <= i < rest.len() && !is_white_space(#[trigger] rest[i]);
                assert(s[i + 1] == rest[i]);
            }
        } else {
            lemma_not_trimmed_away(s);
        }
    }
}

/// The characters of white space, one by one, by their numbers.
pub open spec fn white_space_numbers() -> Seq<int> {
    seq![
        0x9,
        0xa,
        0xb,
        0xc,
        0xd,
        0x20,
        0x85,
        0xa0,
        0x1680,
        0x2000,
        0x2001,
        0x2002,
        0x2003,
        0x2004,
        0x2005,
        0x2006,
        0x2007,
        0x2008,
        0x2009,
        0x200a,
        0x2028,
        0x2029,
        0x202f,
        0x205f,
        0x3000,
    ]
}

/// Exactly these twenty-five characters are white space.
pub proof fn law_white_space_one_by_one(c: char)
    ensures
        is_white_space(c) <==> white_space_numbers().contains(c as int),
{
    let all = white_space_numbers();
    let n = c as int;
    assert(all.len() == 25);
    if is_white_space(c) {
        if 9 <= n <= 13 {
            assert(all[n - 9] == n);
        } else if 0x2000 <= n <= 0x200a {
            assert(all[n - 0x2000 + 9] == n);
        } else {
            assert(all[5] == 0x20 && all[6] == 0x85 && all[7] == 0xa0 && all[8] == 0x1680);
            assert(all[20] == 0x2028 && all[21] == 0x2029 && all[22] == 0x202f);
            assert(all[23] == 0x205f && all[24] == 0x3000);
        }
    } else if all.contains(n) {
        let i = choose|i: int| 0 <= i < all.len() && all[i] == n;
        assert(all[i] == n);
    }
}

/// A line ends with a line feed, or with a carriage return and a line feed: one carriage
/// return before the line feed is no part of the line, and any other is. A last line
/// without a line feed is whole as it stands.
pub proof fn law_one_return_ends_a_line(l: Seq<char>)
    requires
        !l.contains('\n'),
    ensures
        line_seq(l.push('\r').push('\n')) == seq![l],
        l.len() > 0 && l.last() != '\r' ==> line_seq(l.push('\n')) == seq![l],
        line_seq(l.push('\r')) == seq![l.push('\r')],
        l.len() > 0 ==> line_seq(l) == seq![l],
{
    lemma_line_and_rest(l);
    let long = l.push('\r');
    assert forall|i: int| 0 <= i < long.len() implies #[trigger] long[i] != '\n' by {
        if i < l.len() {
            assert(l[i] == long[i]);
        }
    }
    lemma_line_and_rest(long);
    assert(long.drop_last() =~= l);
    assert(line_seq(long.push('\n')) =~= seq![l]);
    assert(line_seq(long) =~= seq![long]);
    if l.len() > 0 {
        assert(line_seq(l) =~= seq![l]);
        if l.last() != '\r' {
            assert(line_seq(l.push('\n')) =~= seq![l]);
        }
    }
}

/// The pieces of a text of one line, with a line feed after it and without.
proof fn lemma_line_and_rest(l: Seq<char>)
    requires
        !l.contains('\n'),
    ensures
        pieces(l, '\n') == seq![l],
        pieces(l.push('\n'), '\n') == seq![l, Seq::<char>::empty()],
{
    let none = Seq::<char>::empty();
    let one = seq![l];
    let two = seq![l, none];
    assert(joined(one, '\n') == l);
    assert(two.drop_last() =~= one);
    assert(joined(two, '\n') =~= l.push('\n'));
    law_pieces_of_joined(one, '\n');
    law_pieces_of_joined(two, '\n');
}

} // verus!
