//! The order of texts, and sorting by it.
//!
//! Texts are ordered character by character, by the number of the character; a
//! text comes after every text that it begins with. A list is sorted by working
//! out in which order its positions come: by the text at the position and, where
//! two texts are the same, by the position itself. Sorting is therefore stable.

use vstd::prelude::*;

use crate::text;

verus! {

/// -1, 0 or 1 where `a` comes before `b`, is `b`, or comes after `b`.
pub open spec fn text_order(a: Seq<char>, b: Seq<char>) -> int
    decreases a.len(),
{
    if a.len() == 0 || b.len() == 0 {
        if a.len() < b.len() {
            -1
        } else if a.len() > b.len() {
            1
        } else {
            0
        }
    } else if a[0] < b[0] {
        -1
    } else if a[0] > b[0] {
        1
    } else {
        text_order(a.skip(1), b.skip(1))
    }
}

/// Only a text itself is neither before nor after it.
pub proof fn law_order_equal(a: Seq<char>, b: Seq<char>)
    ensures
        text_order(a, b) == 0 <==> a == b,
    decreases a.len(),
{
    if a.len() == 0 || b.len() == 0 {
        if a.len() == b.len() {
            assert(a =~= b);
        }
    } else {
        law_order_equal(a.skip(1), b.skip(1));
        if text_order(a, b) == 0 {
            assert(a =~= seq![a[0]] + a.skip(1));
            assert(b =~= seq![b[0]] + b.skip(1));
        }
    }
}

/// Swapping the two texts turns the order round.
pub proof fn law_order_swap(a: Seq<char>, b: Seq<char>)
    ensures
        text_order(a, b) == -text_order(b, a),
    decreases a.len(),
{
    if a.len() > 0 && b.len() > 0 {
        law_order_swap(a.skip(1), b.skip(1));
    }
}

/// The order is transitive.
pub proof fn law_order_transitive(a: Seq<char>, b: Seq<char>, c: Seq<char>)
    requires
        text_order(a, b) <= 0,
        text_order(b, c) <= 0,
    ensures
        text_order(a, c) <= 0,
        text_order(a, b) < 0 || text_order(b, c) < 0 ==> text_order(a, c) < 0,
    decreases a.len(),
{
    if a.len() > 0 && b.len() > 0 && c.len() > 0 && a[0] == b[0] && b[0] == c[0] {
        law_order_transitive(a.skip(1), b.skip(1), c.skip(1));
    }
}

/// -1, 0 or 1 where `a` comes before `b`, is `b`, or comes after `b`.
pub fn order_chars(a: &[char], b: &[char]) -> (r: i32)
    ensures
        r == text_order(a@, b@),
{
    let mut i: usize = 0;
    assert(a@.skip(0) == a@ && b@.skip(0) == b@);
    while i < a.len() && i < b.len()
        invariant
            i <= a@.len(),
            i <= b@.len(),
            text_order(a@.skip(i as int), b@.skip(i as int)) == text_order(a@, b@),
        decreases a@.len() - i,
    {
        if a[i] < b[i] {
            return -1;
        }
        if a[i] > b[i] {
            return 1;
        }
        assert(a@.skip(i as int).skip(1) == a@.skip(i + 1));
        assert(b@.skip(i as int).skip(1) == b@.skip(i + 1));
        i += 1;
    }
    if a.len() < b.len() {
        -1
    } else if a.len() > b.len() {
        1
    } else {
        0
    }
}

/// -1, 0 or 1 where `a` comes before `b`, is `b`, or comes after `b`.
pub fn order_texts(a: &str, b: &str) -> (r: i32)
    ensures
        r == text_order(a@, b@),
{
    let x = text::to_chars(a);
    let y = text::to_chars(b);
    order_chars(x.as_slice(), y.as_slice())
}

/// Whether position `i` of `keys` comes before position `j`: by the texts there
/// and, where they are the same, by the positions.
pub open spec fn goes_before(keys: Seq<Seq<char>>, i: int, j: int) -> bool {
    ||| text_order(keys[i], keys[j]) < 0
    ||| keys[i] == keys[j] && i < j
}

/// Whether the positions `r` of `keys` come one before the other.
pub open spec fn ascending(keys: Seq<Seq<char>>, r: Seq<usize>) -> bool {
    forall|i: int, j: int|
        0 <= i < j < r.len() ==> goes_before(keys, #[trigger] r[i] as int, #[trigger] r[j] as int)
}

/// Whether `r` holds the positions from `lo` up to `hi`.
pub open spec fn holds_range(r: Seq<usize>, lo: int, hi: int) -> bool {
    &&& r.len() == hi - lo
    &&& forall|i: int| 0 <= i < r.len() ==> lo <= #[trigger] r[i] < hi
    &&& forall|x: usize| lo <= x < hi ==> #[trigger] r.contains(x)
}

/// Whether `r` holds every position of `keys` once, in order: the position of
/// the first text first.
pub open spec fn sorts(keys: Seq<Seq<char>>, r: Seq<usize>) -> bool {
    &&& holds_range(r, 0, keys.len() as int)
    &&& ascending(keys, r)
}

/// `goes_before` is transitive.
proof fn lemma_goes_before_transitive(keys: Seq<Seq<char>>, i: int, j: int, k: int)
    requires
        goes_before(keys, i, j),
        goes_before(keys, j, k),
    ensures
        goes_before(keys, i, k),
{
    law_order_equal(keys[i], keys[j]);
    law_order_equal(keys[j], keys[k]);
    law_order_transitive(keys[i], keys[j], keys[k]);
}

/// No position comes before itself, and of two positions one comes first.
proof fn lemma_goes_before_total(keys: Seq<Seq<char>>, i: int, j: int)
    ensures
        !goes_before(keys, i, i),
        i != j ==> goes_before(keys, i, j) || goes_before(keys, j, i),
        goes_before(keys, i, j) ==> !goes_before(keys, j, i),
{
    law_order_equal(keys[i], keys[i]);
    law_order_equal(keys[i], keys[j]);
    law_order_equal(keys[j], keys[i]);
    law_order_swap(keys[i], keys[j]);
}

/// Only one list of positions sorts `keys`: sorting leaves nothing open.
pub proof fn law_sorting_unique(keys: Seq<Seq<char>>, a: Seq<usize>, b: Seq<usize>)
    requires
        sorts(keys, a),
        sorts(keys, b),
    ensures
        a == b,
{
    assert forall|n: int| 0 <= n <= a.len() implies a.take(n) == b.take(n) by {
        lemma_same_start(keys, a, b, n as nat);
    }
    assert(a.take(a.len() as int) == a);
    assert(b.take(a.len() as int) == b);
}

/// Two lists that sort the same texts begin with the same `n` positions.
proof fn lemma_same_start(keys: Seq<Seq<char>>, a: Seq<usize>, b: Seq<usize>, n: nat)
    requires
        sorts(keys, a),
        sorts(keys, b),
        n <= a.len(),
    ensures
        a.take(n as int) == b.take(n as int),
    decreases n,
{
    if n > 0 {
        let m = n - 1;
        lemma_same_start(keys, a, b, m as nat);
        let x = a[m];
        let y = b[m];
        if x != y {
            assert(b.contains(x));
            assert(a.contains(y));
            let p = choose|p: int| 0 <= p < b.len() && b[p] == x;
            let q = choose|q: int| 0 <= q < a.len() && a[q] == y;
            if p < m {
                assert(b.take(m)[p] == a.take(m)[p]);
                assert(goes_before(keys, a[p] as int, a[m] as int));
                lemma_goes_before_total(keys, x as int, x as int);
            }
            if q < m {
                assert(b.take(m)[q] == a.take(m)[q]);
                assert(goes_before(keys, b[q] as int, b[m] as int));
                lemma_goes_before_total(keys, y as int, y as int);
            }
            assert(goes_before(keys, y as int, x as int));
            assert(goes_before(keys, x as int, y as int));
            lemma_goes_before_total(keys, x as int, y as int);
        }
        assert(a.take(n as int) == a.take(m).push(x));
        assert(b.take(n as int) == b.take(m).push(y));
    }
}

/// A list that sorts holds no position twice.
pub proof fn lemma_distinct(keys: Seq<Seq<char>>, r: Seq<usize>, i: int, j: int)
    requires
        sorts(keys, r),
        0 <= i < j < r.len(),
    ensures
        r[i] != r[j],
{
    assert(goes_before(keys, r[i] as int, r[j] as int));
    lemma_goes_before_total(keys, r[i] as int, r[j] as int);
}

/// The positions of `keys` in order.
pub open spec fn sorting(keys: Seq<Seq<char>>) -> Seq<usize> {
    choose|r: Seq<usize>| sorts(keys, r)
}

/// A list that sorts `keys` is the one that `sorting` means.
pub proof fn lemma_sorting(keys: Seq<Seq<char>>, r: Seq<usize>)
    requires
        sorts(keys, r),
    ensures
        sorting(keys) == r,
{
    law_sorting_unique(keys, sorting(keys), r);
}

/// How many positions at the beginning of `s` come before position `n`.
spec fn place_of(keys: Seq<Seq<char>>, s: Seq<usize>, n: int) -> nat
    decreases s.len(),
{
    if s.len() == 0 || goes_before(keys, s.last() as int, n) {
        s.len()
    } else {
        place_of(keys, s.drop_last(), n)
    }
}

/// Position `n` belongs at its place among the ascending positions `s`.
proof fn lemma_place_of(keys: Seq<Seq<char>>, s: Seq<usize>, n: int)
    requires
        ascending(keys, s),
        forall|i: int| 0 <= i < s.len() ==> #[trigger] s[i] != n,
    ensures
        place_of(keys, s, n) <= s.len(),
        forall|i: int|
            0 <= i < place_of(keys, s, n) ==> goes_before(keys, #[trigger] s[i] as int, n),
        forall|i: int|
            place_of(keys, s, n) <= i < s.len() ==> goes_before(keys, n, #[trigger] s[i] as int),
    decreases s.len(),
{
    if s.len() == 0 {
    } else if goes_before(keys, s.last() as int, n) {
        assert forall|i: int| 0 <= i < s.len() implies goes_before(
            keys,
            #[trigger] s[i] as int,
            n,
        ) by {
            if i < s.len() - 1 {
                assert(goes_before(keys, s[i] as int, s[s.len() - 1] as int));
                lemma_goes_before_transitive(keys, s[i] as int, s.last() as int, n);
            }
        }
    } else {
        let front = s.drop_last();
        assert(ascending(keys, front)) by {
            assert forall|i: int, j: int| 0 <= i < j < front.len() implies goes_before(
                keys,
                #[trigger] front[i] as int,
                #[trigger] front[j] as int,
            ) by {
                assert(goes_before(keys, s[i] as int, s[j] as int));
            }
        }
        assert forall|i: int| 0 <= i < front.len() implies #[trigger] front[i] != n by {
            assert(s[i] != n);
        }
        lemma_place_of(keys, front, n);
        assert(s[s.len() - 1] != n);
        lemma_goes_before_total(keys, s.last() as int, n);
        let c = place_of(keys, front, n);
        assert forall|i: int| 0 <= i < c implies goes_before(keys, #[trigger] s[i] as int, n) by {
            assert(front[i] == s[i]);
        }
        assert forall|i: int| c <= i < s.len() implies goes_before(
            keys,
            n,
            #[trigger] s[i] as int,
        ) by {
            if i < front.len() {
                assert(front[i] == s[i]);
            }
        }
    }
}

/// A list of positions that sorts `keys`.
proof fn lemma_sorting_exists(keys: Seq<Seq<char>>) -> (r: Seq<usize>)
    requires
        keys.len() <= usize::MAX,
    ensures
        sorts(keys, r),
    decreases keys.len(),
{
    if keys.len() == 0 {
        Seq::empty()
    } else {
        let short = keys.drop_last();
        let s = lemma_sorting_exists(short);
        let n = keys.len() - 1;
        assert forall|i: int, j: int| 0 <= i < j < s.len() implies goes_before(
            keys,
            #[trigger] s[i] as int,
            #[trigger] s[j] as int,
        ) by {
            assert(goes_before(short, s[i] as int, s[j] as int));
            assert(short[s[i] as int] == keys[s[i] as int]);
            assert(short[s[j] as int] == keys[s[j] as int]);
        }
        lemma_place_of(keys, s, n);
        let c = place_of(keys, s, n) as int;
        let r = s.take(c).push(n as usize) + s.skip(c);
        assert(r.len() == keys.len());
        assert forall|i: int| 0 <= i < r.len() implies 0 <= #[trigger] r[i] < keys.len() by {
            if i < c {
                assert(r[i] == s[i]);
            } else if i > c {
                assert(r[i] == s[i - 1]);
            }
        }
        assert forall|x: usize| 0 <= x < keys.len() implies #[trigger] r.contains(x) by {
            if x == n {
                assert(r[c] == x);
            } else {
                assert(s.contains(x));
                let k = choose|k: int| 0 <= k < s.len() && s[k] == x;
                if k < c {
                    assert(r[k] == x);
                } else {
                    assert(r[k + 1] == x);
                }
            }
        }
        assert forall|i: int, j: int| 0 <= i < j < r.len() implies goes_before(
            keys,
            #[trigger] r[i] as int,
            #[trigger] r[j] as int,
        ) by {
            if i < c {
                assert(r[i] == s[i]);
            } else if i > c {
                assert(r[i] == s[i - 1]);
            }
            if j < c {
                assert(r[j] == s[j]);
            } else if j > c {
                assert(r[j] == s[j - 1]);
            }
        }
        r
    }
}

/// Every list of texts can be sorted.
pub proof fn law_sorting_sorts(keys: Seq<Seq<char>>)
    requires
        keys.len() <= usize::MAX,
    ensures
        sorts(keys, sorting(keys)),
{
    let r = lemma_sorting_exists(keys);
    assert(sorts(keys, r));
}

/// What the lists of characters of `v` hold.
pub open spec fn char_lists(v: Seq<Vec<char>>) -> Seq<Seq<char>> {
    v.map_values(|k: Vec<char>| k@)
}

/// Whether position `i` of `keys` comes before position `j`.
fn first_of(keys: &Vec<Vec<char>>, i: usize, j: usize) -> (r: bool)
    requires
        i < keys@.len(),
        j < keys@.len(),
    ensures
        r == goes_before(char_lists(keys@), i as int, j as int),
{
    let o: i32 = order_chars(keys[i].as_slice(), keys[j].as_slice());
    proof {
        law_order_equal(keys@[i as int]@, keys@[j as int]@);
    }
    o < 0 || (o == 0 && i < j)
}

/// Merges two ascending lists of positions, of `lo..mid` and of `mid..hi`.
fn merge(
    keys: &Vec<Vec<char>>,
    a: &Vec<usize>,
    b: &Vec<usize>,
    Ghost(lo): Ghost<int>,
    Ghost(mid): Ghost<int>,
    Ghost(hi): Ghost<int>,
) -> (r: Vec<usize>)
    requires
        0 <= lo <= mid <= hi <= keys@.len(),
        holds_range(a@, lo, mid),
        holds_range(b@, mid, hi),
        ascending(char_lists(keys@), a@),
        ascending(char_lists(keys@), b@),
    ensures
        holds_range(r@, lo, hi),
        ascending(char_lists(keys@), r@),
{
    let ghost ks = char_lists(keys@);
    let mut out: Vec<usize> = Vec::new();
    let mut i: usize = 0;
    let mut j: usize = 0;
    while i < a.len() || j < b.len()
        invariant
            0 <= lo <= mid <= hi <= keys@.len(),
            ks == char_lists(keys@),
            holds_range(a@, lo, mid),
            holds_range(b@, mid, hi),
            ascending(ks, a@),
            ascending(ks, b@),
            i <= a@.len(),
            j <= b@.len(),
            out@.len() == i + j,
            ascending(ks, out@),
            forall|k: int| 0 <= k < out@.len() ==> lo <= #[trigger] out@[k] < hi,
            forall|k: int, m: int|
                0 <= k < out@.len() && i <= m < a@.len() ==> goes_before(
                    ks,
                    #[trigger] out@[k] as int,
                    #[trigger] a@[m] as int,
                ),
            forall|k: int, m: int|
                0 <= k < out@.len() && j <= m < b@.len() ==> goes_before(
                    ks,
                    #[trigger] out@[k] as int,
                    #[trigger] b@[m] as int,
                ),
            forall|m: int| 0 <= m < i ==> out@.contains(#[trigger] a@[m]),
            forall|m: int| 0 <= m < j ==> out@.contains(#[trigger] b@[m]),
        decreases a@.len() - i + b@.len() - j,
    {
        let left = if i == a.len() {
            false
        } else if j == b.len() {
            true
        } else {
            first_of(keys, a[i], b[j])
        };
        let ghost was = out@;
        if left {
            let x: usize = a[i];
            out.push(x);
            proof {
                assert forall|m: int| j <= m < b@.len() implies goes_before(
                    ks,
                    x as int,
                    #[trigger] b@[m] as int,
                ) by {
                    if m > j {
                        lemma_goes_before_transitive(ks, x as int, b@[j as int] as int, b@[m] as int);
                    }
                }
            }
            i += 1;
        } else {
            let x: usize = b[j];
            out.push(x);
            proof {
                assert forall|m: int| i <= m < a@.len() implies goes_before(
                    ks,
                    x as int,
                    #[trigger] a@[m] as int,
                ) by {
                    lemma_goes_before_total(ks, x as int, a@[i as int] as int);
                    if m > i {
                        lemma_goes_before_transitive(ks, x as int, a@[i as int] as int, a@[m] as int);
                    }
                }
            }
            j += 1;
        }
        proof {
            assert forall|y: usize| was.contains(y) implies out@.contains(y) by {
                let k = choose|k: int| 0 <= k < was.len() && was[k] == y;
                assert(out@[k] == y);
            }
            assert(out@.contains(out@[out@.len() - 1]));
        }
    }
    proof {
        assert forall|x: usize| lo <= x < hi implies #[trigger] out@.contains(x) by {
            if x < mid {
                assert(a@.contains(x));
            } else {
                assert(b@.contains(x));
            }
        }
    }
    out
}

/// The positions `lo..hi` of `keys`, in order.
fn sort_range(keys: &Vec<Vec<char>>, lo: usize, hi: usize) -> (r: Vec<usize>)
    requires
        lo <= hi <= keys@.len(),
    ensures
        holds_range(r@, lo as int, hi as int),
        ascending(char_lists(keys@), r@),
    decreases hi - lo,
{
    if hi - lo <= 1 {
        let mut out: Vec<usize> = Vec::new();
        if lo < hi {
            out.push(lo);
            assert(out@[0] == lo);
        }
        out
    } else {
        let mid: usize = lo + (hi - lo) / 2;
        let a = sort_range(keys, lo, mid);
        let b = sort_range(keys, mid, hi);
        merge(keys, &a, &b, Ghost(lo as int), Ghost(mid as int), Ghost(hi as int))
    }
}

/// The positions of `keys` in the order of the texts there; where two texts are
/// the same, in the order of the positions.
pub fn sorted_positions(keys: &Vec<Vec<char>>) -> (r: Vec<usize>)
    ensures
        sorts(char_lists(keys@), r@),
{
    sort_range(keys, 0, keys.len())
}

/// The first character in which two texts differ decides which comes first, whatever
/// follows; a text comes before every longer one that begins with it.
pub proof fn law_first_difference_decides(
    p: Seq<char>,
    c: char,
    a: Seq<char>,
    d: char,
    b: Seq<char>,
)
    ensures
        c < d ==> text_order(p.push(c) + a, p.push(d) + b) == -1,
        c > d ==> text_order(p.push(c) + a, p.push(d) + b) == 1,
        text_order(p, p.push(d) + b) == -1,
        text_order(p.push(c) + a, p) == 1,
    decreases p.len(),
{
    let x = p.push(c) + a;
    let y = p.push(d) + b;
    if p.len() == 0 {
        assert(x[0] == c);
        assert(y[0] == d);
    } else {
        let q = p.skip(1);
        law_first_difference_decides(q, c, a, d, b);
        assert(x[0] == p[0] && y[0] == p[0]);
        assert(x.skip(1) =~= q.push(c) + a);
        assert(y.skip(1) =~= q.push(d) + b);
    }
}

} // verus!
