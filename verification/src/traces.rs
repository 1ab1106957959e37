//! Counting in the records of what was done.

use vstd::prelude::*;

verus! {

/// How often `a` stands in `s`.
pub open spec fn times<A>(s: Seq<A>, a: A) -> nat
    decreases s.len(),
{
    if s.len() == 0 {
        0
    } else {
        times(s.drop_last(), a) + one(s.last() == a)
    }
}

/// 1 where the condition holds, else 0.
pub open spec fn one(b: bool) -> nat {
    if b {
        1
    } else {
        0
    }
}

/// What stands in two records one after the other stands in the one or in the
/// other.
pub proof fn lemma_times_concat<A>(s: Seq<A>, t: Seq<A>, a: A)
    ensures
        times(s + t, a) == times(s, a) + times(t, a),
    decreases t.len(),
{
    if t.len() == 0 {
        assert(s + t == s);
    } else {
        lemma_times_concat(s, t.drop_last(), a);
        assert((s + t).drop_last() == s + t.drop_last());
        assert((s + t).last() == t.last());
    }
}

/// Whether the entry at `i` is `a`.
pub open spec fn is_at<A>(s: Seq<A>, i: int, a: A) -> bool {
    0 <= i < s.len() && s[i] == a
}

/// Counting in a short record.
pub proof fn lemma_times_short<A>(s: Seq<A>, a: A)
    requires
        s.len() <= 5,
    ensures
        times(s, a) == one(is_at(s, 0, a)) + one(is_at(s, 1, a)) + one(is_at(s, 2, a)) + one(
            is_at(s, 3, a),
        ) + one(is_at(s, 4, a)),
    decreases s.len(),
{
    if s.len() > 0 {
        lemma_times_short(s.drop_last(), a);
    }
}

/// Whether the first `n` outcomes are there, and all of them are good.
pub open spec fn well(oks: Seq<bool>, n: nat) -> bool {
    oks.len() >= n && forall|i: int| 0 <= i < n ==> #[trigger] oks[i]
}

/// One more outcome does not change how the first ones went; where it is the last of
/// them, it decides.
pub proof fn lemma_well_more(oks: Seq<bool>, n: nat)
    requires
        oks.len() > 0,
    ensures
        oks.len() > n ==> well(oks, n) == well(oks.drop_last(), n),
        oks.len() == n ==> well(oks, n) == (well(oks.drop_last(), (n - 1) as nat) && oks.last()),
        oks.len() < n ==> !well(oks, n),
{
    let front = oks.drop_last();
    assert forall|i: int| 0 <= i < front.len() implies #[trigger] front[i] == oks[i] by {}
    if oks.len() > n {
        if well(front, n) {
            assert forall|i: int| 0 <= i < n implies #[trigger] oks[i] by {
                assert(front[i]);
            }
        }
        if well(oks, n) {
            assert forall|i: int| 0 <= i < n implies #[trigger] front[i] by {
                assert(oks[i]);
            }
        }
    }
    if oks.len() == n {
        if well(front, (n - 1) as nat) && oks.last() {
            assert forall|i: int| 0 <= i < n implies #[trigger] oks[i] by {
                if i < n - 1 {
                    assert(front[i]);
                }
            }
        }
        if well(oks, n) {
            assert(oks[n - 1]);
            assert forall|i: int| 0 <= i < n - 1 implies #[trigger] front[i] by {
                assert(oks[i]);
            }
        }
    }
}

/// Nothing stands in a record that is counted there as often as never, and the other
/// way round.
pub proof fn law_counted_is_there<A>(s: Seq<A>, a: A)
    ensures
        times(s, a) > 0 <==> s.contains(a),
        times(s, a) <= s.len(),
    decreases s.len(),
{
    if s.len() > 0 {
        law_counted_is_there(s.drop_last(), a);
        if s.contains(a) {
            let i = choose|i: int| 0 <= i < s.len() && s[i] == a;
            if i < s.len() - 1 {
                assert(s.drop_last()[i] == a);
            }
        }
        if times(s.drop_last(), a) > 0 {
            let i = choose|i: int| 0 <= i < s.drop_last().len() && s.drop_last()[i] == a;
            assert(s[i] == a);
        }
        if s.last() == a {
            assert(s[s.len() - 1] == a);
        }
    }
}

} // verus!
