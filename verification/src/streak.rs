//! Streak derivation: the signed length of the run of identical results at
//! the head of a newest-first result sequence.

use vstd::prelude::*;

verus! {

/// Length of the run of values equal to `v` at the head of `s`.
pub open spec fn run_len(s: Seq<bool>, v: bool) -> nat
    decreases s.len(),
{
    if s.len() == 0 || s[0] != v {
        0
    } else {
        1 + run_len(s.drop_first(), v)
    }
}

/// The current streak for a newest-first result sequence (`true` = win):
/// the count of consecutive results at the head that equal the newest one,
/// positive for wins, negative for losses, zero for an empty sequence.
pub open spec fn streak_spec(s: Seq<bool>) -> int {
    if s.len() == 0 {
        0
    } else if s[0] {
        run_len(s, true) as int
    } else {
        -(run_len(s, false) as int)
    }
}

/// A head run is exactly as long as the first position that breaks it.
proof fn lemma_run_len_of_prefix(s: Seq<bool>, v: bool, i: int)
    requires
        0 <= i <= s.len(),
        forall|j: int| 0 <= j < i ==> s[j] == v,
        i == s.len() || s[i] != v,
    ensures
        run_len(s, v) == i,
    decreases i,
{
    if i == 0 {
    } else {
        lemma_run_len_of_prefix(s.drop_first(), v, i - 1);
    }
}

/// The run at the head never extends past the sequence.
pub proof fn lemma_run_len_le(s: Seq<bool>, v: bool)
    ensures
        run_len(s, v) <= s.len(),
    decreases s.len(),
{
    if s.len() != 0 && s[0] == v {
        lemma_run_len_le(s.drop_first(), v);
    }
}

/// A streak's sign always matches the newest result: positive after a win,
/// negative after a loss.
pub proof fn lemma_streak_sign(s: Seq<bool>)
    requires
        s.len() > 0,
    ensures
        s[0] ==> streak_spec(s) > 0,
        !s[0] ==> streak_spec(s) < 0,
{
}

/// Current streak of a newest-first result list: the count of consecutive
/// identical results at the head, negated when they are losses.
pub fn calculate_streak(results: &[bool]) -> (r: i32)
    requires
        results@.len() <= 0x7fff_ffff,
    ensures
        r as int == streak_spec(results@),
{
    let n = results.len();
    if n == 0 {
        return 0;
    }
    let first = results[0];
    let mut i: usize = 1;
    while i < n && results[i] == first
        invariant
            1 <= i <= n,
            n == results@.len() <= 0x7fff_ffff,
            forall|j: int| 0 <= j < i ==> results@[j] == first,
        decreases n - i,
    {
        i = i + 1;
    }
    proof {
        lemma_run_len_of_prefix(results@, first, i as int);
    }
    if first {
        i as i32
    } else {
        -(i as i32)
    }
}

} // verus!
