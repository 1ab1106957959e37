//! Version tags and their order.
//!
//! A version is read as `major.minor.patch`, then an optional prerelease after a
//! hyphen, then optional build metadata after a plus sign. Reading never fails: a
//! number that is missing or is no numeral counts as zero.

use vstd::prelude::*;

use crate::numbers;
use crate::order;
use crate::text;

verus! {

/// `v` without its build metadata.
pub open spec fn without_build(v: Seq<char>) -> Seq<char> {
    text::before_first(v, '+')
}

/// The dotted numbers of `v`, as written.
pub open spec fn number_part(v: Seq<char>) -> Seq<char> {
    text::before_first(without_build(v), '-')
}

/// The prerelease of `v`; nothing for a final version.
pub open spec fn prerelease(v: Seq<char>) -> Seq<char> {
    text::after_first(without_build(v), '-')
}

/// The number at place `i` of `v`: 0 for the major one, 1 for the minor one, 2
/// for the patch.
pub open spec fn number_at(v: Seq<char>, i: int) -> u32 {
    let parts = text::pieces(number_part(v), '.');
    if i < parts.len() {
        match numbers::u32_value(text::trimmed(parts[i])) {
            Some(n) => n,
            None => 0,
        }
    } else {
        0
    }
}

/// Reads a version: its three numbers and its prerelease.
pub fn parse_ver(v: &str) -> (r: ([u32; 3], String))
    ensures
        forall|i: int| 0 <= i < 3 ==> #[trigger] r.0@[i] == number_at(v@, i),
        r.1@ == prerelease(v@),
{
    let (core, _build) = text::cut(v, '+');
    let (num, pre) = text::cut(core.as_str(), '-');
    let parts = text::split(num.as_str(), '.');
    let ghost pieces = text::pieces(number_part(v@), '.');
    assert(text::texts(parts@) == pieces);
    let mut out: [u32; 3] = [0, 0, 0];
    let mut i: usize = 0;
    while i < 3
        invariant
            i <= 3,
            pieces == text::pieces(number_part(v@), '.'),
            text::texts(parts@) == pieces,
            forall|k: int| 0 <= k < i ==> #[trigger] out@[k] == number_at(v@, k),
            forall|k: int| i <= k < 3 ==> #[trigger] out@[k] == 0,
        decreases 3 - i,
    {
        if i < parts.len() {
            let field = text::trim(parts[i].as_str());
            assert(parts@[i as int]@ == pieces[i as int]);
            let n: u32 = match numbers::parse_u32(field.as_str()) {
                Some(n) => n,
                None => 0,
            };
            out[i] = n;
        }
        i += 1;
    }
    (out, pre)
}

/// -1, 0 or 1 where the number `x` is less than, equal to or greater than `y`.
pub open spec fn number_order(x: u32, y: u32) -> int {
    if x < y {
        -1
    } else if x > y {
        1
    } else {
        0
    }
}

/// The order of two prereleases. A final version, which has none, comes after
/// every prerelease.
pub open spec fn prerelease_order(p: Seq<char>, q: Seq<char>) -> int {
    if p.len() == 0 && q.len() == 0 {
        0
    } else if p.len() == 0 {
        1
    } else if q.len() == 0 {
        -1
    } else {
        order::text_order(p, q)
    }
}

/// -1, 0 or 1 where version `a` is older than `b`, as old, or newer: by the
/// first number that differs and, where none does, by the prereleases.
pub open spec fn version_order(a: Seq<char>, b: Seq<char>) -> int {
    if number_at(a, 0) != number_at(b, 0) {
        number_order(number_at(a, 0), number_at(b, 0))
    } else if number_at(a, 1) != number_at(b, 1) {
        number_order(number_at(a, 1), number_at(b, 1))
    } else if number_at(a, 2) != number_at(b, 2) {
        number_order(number_at(a, 2), number_at(b, 2))
    } else {
        prerelease_order(prerelease(a), prerelease(b))
    }
}

/// Compares two versions: -1, 0 or 1.
pub fn cmp_semver(a: &str, b: &str) -> (r: i32)
    ensures
        r == version_order(a@, b@),
{
    let (na, prea) = parse_ver(a);
    let (nb, preb) = parse_ver(b);
    let mut i: usize = 0;
    while i < 3
        invariant
            i <= 3,
            forall|k: int| 0 <= k < 3 ==> #[trigger] na@[k] == number_at(a@, k),
            forall|k: int| 0 <= k < 3 ==> #[trigger] nb@[k] == number_at(b@, k),
            0 < i ==> number_at(a@, 0) == number_at(b@, 0),
            1 < i ==> number_at(a@, 1) == number_at(b@, 1),
            2 < i ==> number_at(a@, 2) == number_at(b@, 2),
        decreases 3 - i,
    {
        if na[i] != nb[i] {
            return if na[i] > nb[i] {
                1
            } else {
                -1
            };
        }
        i += 1;
    }
    let final_a = text::same(prea.as_str(), "");
    let final_b = text::same(preb.as_str(), "");
    proof {
        reveal_strlit("");
        assert(prea@.len() == 0 <==> prea@ =~= ""@);
        assert(preb@.len() == 0 <==> preb@ =~= ""@);
    }
    if final_a && final_b {
        0
    } else if final_a {
        1
    } else if final_b {
        -1
    } else {
        order::order_texts(prea.as_str(), preb.as_str())
    }
}

/// The version of a build that was not released.
pub open spec fn is_unreleased(current: Seq<char>) -> bool {
    current.len() == 0 || current == "dev"@
}

/// Whether a program of version `current` is a build that was not released.
pub fn unreleased(current: &str) -> (r: bool)
    ensures
        r == is_unreleased(current@),
{
    proof {
        reveal_strlit("");
        assert(current@.len() == 0 <==> current@ =~= ""@);
    }
    text::same(current, "") || text::same(current, "dev")
}

/// Whether the release `tag` is newer than the program of version `current`. A
/// `v` before either of them does not count. An unreleased build is never out of
/// date.
pub open spec fn newer(tag: Seq<char>, current: Seq<char>) -> bool {
    &&& !is_unreleased(current)
    &&& version_order(text::without_leading(tag, 'v'), text::without_leading(current, 'v')) > 0
}

/// Whether the release `tag` is newer than the program of version `current`.
pub fn is_newer(tag: &str, current: &str) -> (r: bool)
    ensures
        r == newer(tag@, current@),
{
    if unreleased(current) {
        return false;
    }
    let t = text::trim_start_matches(tag, 'v');
    let c = text::trim_start_matches(current, 'v');
    cmp_semver(t.as_str(), c.as_str()) > 0
}

/// The running version: `dev` in a debug build, which never updates itself, and
/// the version of the package in a release build.
pub fn current_version(debug_build: bool, package_version: &str) -> (r: String)
    ensures
        r@ == if debug_build {
            "dev"@
        } else {
            package_version@
        },
{
    if debug_build {
        "dev".to_owned()
    } else {
        package_version.to_owned()
    }
}

/// Swapping the versions turns their order round.
pub proof fn law_version_order_swap(a: Seq<char>, b: Seq<char>)
    ensures
        version_order(a, b) == -version_order(b, a),
        version_order(a, a) == 0,
        -1 <= version_order(a, b) <= 1,
{
    order::law_order_swap(prerelease(a), prerelease(b));
    order::law_order_swap(prerelease(a), prerelease(a));
    lemma_order_range(prerelease(a), prerelease(b));
}

/// The order of texts is -1, 0 or 1.
proof fn lemma_order_range(a: Seq<char>, b: Seq<char>)
    ensures
        -1 <= order::text_order(a, b) <= 1,
    decreases a.len(),
{
    if a.len() > 0 && b.len() > 0 {
        lemma_order_range(a.skip(1), b.skip(1));
    }
}

/// The order of versions is transitive.
pub proof fn law_version_order_transitive(a: Seq<char>, b: Seq<char>, c: Seq<char>)
    requires
        version_order(a, b) <= 0,
        version_order(b, c) <= 0,
    ensures
        version_order(a, c) <= 0,
        version_order(a, b) < 0 || version_order(b, c) < 0 ==> version_order(a, c) < 0,
{
    let p = prerelease(a);
    let q = prerelease(b);
    let r = prerelease(c);
    if order::text_order(p, q) <= 0 && order::text_order(q, r) <= 0 {
        order::law_order_transitive(p, q, r);
    }
}

/// No version is newer than itself, whatever `v` stands before either.
pub proof fn law_not_newer_than_itself(tag: Seq<char>, current: Seq<char>)
    requires
        text::without_leading(tag, 'v') == text::without_leading(current, 'v'),
    ensures
        !newer(tag, current),
{
    law_version_order_swap(
        text::without_leading(tag, 'v'),
        text::without_leading(current, 'v'),
    );
}

/// Of two versions at most one is newer than the other.
pub proof fn law_newer_one_way(a: Seq<char>, b: Seq<char>)
    requires
        newer(a, b),
    ensures
        !newer(b, a),
{
    law_version_order_swap(text::without_leading(a, 'v'), text::without_leading(b, 'v'));
}

/// What is newer than a newer version is newer: no chain of updates comes back
/// to a version that it left.
pub proof fn law_newer_transitive(a: Seq<char>, b: Seq<char>, c: Seq<char>)
    requires
        newer(a, b),
        newer(b, c),
    ensures
        newer(a, c),
{
    let x = text::without_leading(a, 'v');
    let y = text::without_leading(b, 'v');
    let z = text::without_leading(c, 'v');
    law_version_order_swap(x, y);
    law_version_order_swap(y, z);
    law_version_order_swap(x, z);
    law_version_order_transitive(z, y, x);
}

/// A build that was not released never updates itself.
pub proof fn law_unreleased_stays(tag: Seq<char>, current: Seq<char>)
    requires
        is_unreleased(current),
    ensures
        !newer(tag, current),
{
}

/// Build metadata plays no part: not in what is read of a version, not in the order,
/// and not in whether it is an update.
pub proof fn law_build_metadata_ignored(v: Seq<char>, meta: Seq<char>, w: Seq<char>)
    ensures
        ({
            let long = v.push('+') + meta;
            &&& without_build(long) == without_build(v)
            &&& forall|i: int| number_at(long, i) == #[trigger] number_at(v, i)
            &&& prerelease(long) == prerelease(v)
            &&& version_order(long, w) == version_order(v, w)
            &&& version_order(w, long) == version_order(w, v)
            &&& newer(long, w) == newer(v, w)
            &&& !is_unreleased(v) ==> newer(w, long) == newer(w, v)
        }),
{
    let long = v.push('+') + meta;
    lemma_same_without_build(v, meta);
    lemma_leading_of_long(v, meta);
    lemma_same_without_build(text::without_leading(v, 'v'), meta);
    if is_unreleased(long) {
        reveal_strlit("dev");
        assert(long[v.len() as int] == '+');
    }
}

/// Build metadata is not part of what stands before it.
proof fn lemma_same_without_build(v: Seq<char>, meta: Seq<char>)
    ensures
        without_build(v.push('+') + meta) == without_build(v),
{
    let long = v.push('+') + meta;
    text::lemma_prefix_len(long, '+');
    text::lemma_prefix_len(v, '+');
    let n = text::prefix_len(long, '+');
    let m = text::prefix_len(v, '+');
    if n < v.len() {
        assert(long[n as int] == v[n as int]);
    }
    if n > v.len() {
        assert(long[v.len() as int] == '+');
    }
    if m < v.len() {
        assert(long[m as int] == v[m as int]);
    }
    assert(n == m);
    assert(without_build(long) =~= without_build(v));
}

/// A `v` at the beginning comes off the same with build metadata as without.
proof fn lemma_leading_of_long(v: Seq<char>, meta: Seq<char>)
    ensures
        text::without_leading(v.push('+') + meta, 'v') == text::without_leading(v, 'v').push('+')
            + meta,
    decreases v.len(),
{
    let long = v.push('+') + meta;
    if v.len() > 0 {
        assert(long[0] == v[0]);
        if v[0] == 'v' {
            lemma_leading_of_long(v.skip(1), meta);
            assert(long.skip(1) =~= v.skip(1).push('+') + meta);
        }
    } else {
        assert(long[0] == '+');
    }
}

/// A final version is newer than every prerelease with the same numbers.
pub proof fn law_final_after_prerelease(v: Seq<char>, w: Seq<char>)
    requires
        forall|i: int| 0 <= i < 3 ==> #[trigger] number_at(v, i) == number_at(w, i),
        prerelease(v).len() == 0,
        prerelease(w).len() > 0,
    ensures
        version_order(v, w) == 1,
{
    assert(number_at(v, 0) == number_at(w, 0));
    assert(number_at(v, 1) == number_at(w, 1));
    assert(number_at(v, 2) == number_at(w, 2));
}

/// The numbers of a version decide one after the other: the first in which two
/// versions differ decides, whatever the later ones and the prereleases are.
pub proof fn law_first_number_decides(a: Seq<char>, b: Seq<char>, i: int)
    requires
        0 <= i < 3,
        number_at(a, i) > number_at(b, i),
        forall|j: int| 0 <= j < i ==> #[trigger] number_at(a, j) == number_at(b, j),
    ensures
        version_order(a, b) == 1,
        version_order(b, a) == -1,
{
    if i > 0 {
        assert(number_at(a, 0) == number_at(b, 0));
    }
    if i > 1 {
        assert(number_at(a, 1) == number_at(b, 1));
    }
}

/// A release whose numbers are not those of the program is an update exactly where the
/// first number that differs is higher, whatever the later ones are.
pub proof fn law_newer_by_numbers(a: Seq<char>, b: Seq<char>, i: int)
    requires
        !is_unreleased(b),
        0 <= i < 3,
        ({
            let x = text::without_leading(a, 'v');
            let y = text::without_leading(b, 'v');
            &&& number_at(x, i) != number_at(y, i)
            &&& forall|j: int| 0 <= j < i ==> #[trigger] number_at(x, j) == number_at(y, j)
        }),
    ensures
        newer(a, b) <==> number_at(text::without_leading(a, 'v'), i) > number_at(
            text::without_leading(b, 'v'),
            i,
        ),
{
    let x = text::without_leading(a, 'v');
    let y = text::without_leading(b, 'v');
    if number_at(x, i) > number_at(y, i) {
        law_first_number_decides(x, y, i);
    } else {
        assert forall|j: int| 0 <= j < i implies #[trigger] number_at(y, j) == number_at(x, j) by {
            assert(number_at(x, j) == number_at(y, j));
        }
        law_first_number_decides(y, x, i);
    }
}

/// Where the numbers are the same, a prerelease comes before the final version, and
/// two prereleases come in the order of their texts.
pub proof fn law_prerelease_decides_last(a: Seq<char>, b: Seq<char>)
    requires
        forall|i: int| 0 <= i < 3 ==> #[trigger] number_at(a, i) == number_at(b, i),
    ensures
        version_order(a, b) == 0 <==> prerelease(a) == prerelease(b),
        prerelease(a).len() == 0 && prerelease(b).len() > 0 ==> version_order(a, b) == 1,
        prerelease(a).len() > 0 && prerelease(b).len() > 0 ==> version_order(a, b)
            == order::text_order(prerelease(a), prerelease(b)),
{
    assert(number_at(a, 0) == number_at(b, 0));
    assert(number_at(a, 1) == number_at(b, 1));
    assert(number_at(a, 2) == number_at(b, 2));
    order::law_order_equal(prerelease(a), prerelease(b));
    if prerelease(a).len() == 0 && prerelease(b).len() == 0 {
        assert(prerelease(a) =~= prerelease(b));
    }
}

/// The text of a version with the numbers `a`, `b` and `c`.
pub open spec fn dotted(a: nat, b: nat, c: nat) -> Seq<char> {
    (numbers::decimal_text(a).push('.') + numbers::decimal_text(b)).push('.')
        + numbers::decimal_text(c)
}

/// A numeral is free of separators and white space, and is read as it stands.
proof fn lemma_field(n: nat)
    requires
        n <= u32::MAX,
    ensures
        forall|i: int|
            0 <= i < numbers::decimal_text(n).len() ==> numbers::is_digit(
                #[trigger] numbers::decimal_text(n)[i],
            ),
        !numbers::decimal_text(n).contains('.'),
        text::trimmed(numbers::decimal_text(n)) == numbers::decimal_text(n),
        numbers::u32_value(text::trimmed(numbers::decimal_text(n))) == Some(n as u32),
{
    let t = numbers::decimal_text(n);
    let none = Seq::<char>::empty();
    numbers::law_decimal_reads_back(n);
    numbers::law_numeral_is_read(n);
    assert(numbers::is_digit(t[0]));
    assert(numbers::is_digit(t[t.len() - 1]));
    text::law_trimmed_is_what_stands_between(none, t, none);
    assert(none + t + none =~= t);
}

/// A version is read as it was written: its three numbers, and its prerelease, whole,
/// whether build metadata follow or not.
#[verifier::rlimit(40)]
pub proof fn law_version_is_read(a: nat, b: nat, c: nat, pre: Seq<char>, meta: Seq<char>)
    requires
        a <= u32::MAX,
        b <= u32::MAX,
        c <= u32::MAX,
        !pre.contains('+'),
    ensures
        ({
            let plain = dotted(a, b, c);
            let early = plain.push('-') + pre;
            &&& number_at(plain, 0) == a && number_at(plain, 1) == b && number_at(plain, 2) == c
            &&& prerelease(plain).len() == 0
            &&& number_at(early, 0) == a && number_at(early, 1) == b && number_at(early, 2) == c
            &&& prerelease(early) == pre
            &&& prerelease(early.push('+') + meta) == pre
            &&& prerelease(plain.push('+') + meta).len() == 0
        }),
{
    let plain = dotted(a, b, c);
    let early = plain.push('-') + pre;
    lemma_field(a);
    lemma_field(b);
    lemma_field(c);
    let x = numbers::decimal_text(a);
    let y = numbers::decimal_text(b);
    let z = numbers::decimal_text(c);
    let parts = seq![x, y, z];
    let two = seq![x, y];
    assert(parts.drop_last() =~= two);
    assert(two.drop_last() =~= seq![x]);
    assert(text::joined(seq![x], '.') == x);
    assert(text::joined(two, '.') =~= x.push('.') + y);
    assert(text::joined(parts, '.') =~= plain);
    text::law_pieces_of_joined(parts, '.');
    assert forall|i: int| 0 <= i < plain.len() implies #[trigger] plain[i] == '.' || numbers::is_digit(
        plain[i],
    ) by {
        let k = x.len() as int;
        let m = y.len() as int;
        if i < k {
            assert(plain[i] == x[i]);
        } else if k < i < k + 1 + m {
            assert(plain[i] == y[i - k - 1]);
        } else if i > k + 1 + m {
            assert(plain[i] == z[i - k - m - 2]);
        }
    }
    assert(!plain.contains('+') && !plain.contains('-'));
    if early.contains('+') {
        let i = choose|i: int| 0 <= i < early.len() && early[i] == '+';
        if i < plain.len() {
            assert(plain[i] == '+');
        } else if i > plain.len() {
            assert(pre[i - plain.len() - 1] == '+');
            assert(pre.contains('+'));
        }
    }
    text::law_cut_at_the_first(plain, '+', meta);
    text::law_cut_at_the_first(early, '+', meta);
    text::law_cut_at_the_first(plain, '-', pre);
}

/// A `v` before a version plays no part in whether it is an update.
pub proof fn law_leading_v_plays_no_part(tag: Seq<char>, current: Seq<char>)
    ensures
        newer(seq!['v'] + tag, current) == newer(tag, current),
        !is_unreleased(current) ==> newer(tag, seq!['v'] + current) == newer(tag, current),
{
    let a = seq!['v'] + tag;
    let b = seq!['v'] + current;
    assert(a.skip(1) =~= tag);
    assert(b.skip(1) =~= current);
    assert(a[0] == 'v' && b[0] == 'v');
    reveal_strlit("dev");
    assert("dev"@[0] == 'd');
}

/// Only a build without a version, or one of the version `dev`, was not released.
pub proof fn law_unreleased_builds(current: Seq<char>)
    ensures
        is_unreleased(current) ==> current == Seq::<char>::empty() || current == "dev"@,
        is_unreleased(Seq::empty()),
        is_unreleased("dev"@),
{
}

} // verus!
