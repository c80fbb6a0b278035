//! Lexicographic order on character sequences, used for every deterministic
//! identifier tie-break, and substring search, used to classify store errors.

use vstd::prelude::*;

verus! {

/// Strict lexicographic order on character sequences, comparing code points.
pub open spec fn lex_lt(a: Seq<char>, b: Seq<char>) -> bool
    decreases a.len(),
{
    if b.len() == 0 {
        false
    } else if a.len() == 0 {
        true
    } else if a[0] != b[0] {
        a[0] < b[0]
    } else {
        lex_lt(a.drop_first(), b.drop_first())
    }
}

/// Of two distinct sequences, exactly one precedes the other; a sequence
/// never precedes itself.
pub proof fn lemma_lex_lt_trichotomy(a: Seq<char>, b: Seq<char>)
    ensures
        a != b ==> (lex_lt(a, b) <==> !lex_lt(b, a)),
        a == b ==> !lex_lt(a, b),
    decreases a.len(),
{
    if a.len() == 0 && b.len() == 0 {
        assert(a =~= b);
    } else if a.len() != 0 && b.len() != 0 && a[0] == b[0] {
        lemma_lex_lt_trichotomy(a.drop_first(), b.drop_first());
        if a.drop_first() == b.drop_first() {
            assert(a =~= b) by {
                assert forall|i: int| 0 <= i < a.len() implies a[i] == b[i] by {
                    if i > 0 {
                        assert(a[i] == a.drop_first()[i - 1]);
                        assert(b[i] == b.drop_first()[i - 1]);
                    }
                }
            }
        }
    }
}

/// The order is transitive.
pub proof fn lemma_lex_lt_transitive(a: Seq<char>, b: Seq<char>, c: Seq<char>)
    requires
        lex_lt(a, b),
        lex_lt(b, c),
    ensures
        lex_lt(a, c),
    decreases a.len(),
{
    if a.len() != 0 && b.len() != 0 && c.len() != 0 && a[0] == b[0] && b[0] == c[0] {
        lemma_lex_lt_transitive(a.drop_first(), b.drop_first(), c.drop_first());
    }
}

/// While both sides agree on a prefix, the comparison is decided by the rest.
proof fn lemma_lex_lt_skip(a: Seq<char>, b: Seq<char>, i: int)
    requires
        0 <= i <= a.len(),
        i <= b.len(),
        forall|j: int| 0 <= j < i ==> a[j] == b[j],
    ensures
        lex_lt(a, b) == lex_lt(a.skip(i), b.skip(i)),
    decreases i,
{
    if i == 0 {
        assert(a.skip(0) =~= a);
        assert(b.skip(0) =~= b);
    } else {
        assert(a.len() != 0 && b.len() != 0 && a[0] == b[0]);
        lemma_lex_lt_skip(a.drop_first(), b.drop_first(), i - 1);
        assert(a.drop_first().skip(i - 1) =~= a.skip(i));
        assert(b.drop_first().skip(i - 1) =~= b.skip(i));
    }
}

/// Whether `a` precedes `b` in lexicographic order.
pub fn str_lt(a: &str, b: &str) -> (r: bool)
    ensures
        r == lex_lt(a@, b@),
{
    let a_len = a.unicode_len();
    let b_len = b.unicode_len();
    let mut i: usize = 0;
    while i < a_len && i < b_len
        invariant
            0 <= i <= a_len,
            i <= b_len,
            a_len == a@.len(),
            b_len == b@.len(),
            forall|j: int| 0 <= j < i ==> a@[j] == b@[j],
        decreases a_len - i,
    {
        let ca = a.get_char(i);
        let cb = b.get_char(i);
        if ca != cb {
            proof {
                lemma_lex_lt_skip(a@, b@, i as int);
                assert(a@.skip(i as int)[0] == a@[i as int]);
                assert(b@.skip(i as int)[0] == b@[i as int]);
            }
            return ca < cb;
        }
        i = i + 1;
    }
    proof {
        lemma_lex_lt_skip(a@, b@, i as int);
    }
    a_len < b_len
}

/// Whether `needle` occurs in `haystack` starting at position `at`.
pub open spec fn occurs_at(haystack: Seq<char>, needle: Seq<char>, at: int) -> bool {
    &&& 0 <= at
    &&& at + needle.len() <= haystack.len()
    &&& haystack.subrange(at, at + needle.len()) == needle
}

/// Whether `needle` occurs anywhere in `haystack`.
pub open spec fn contains_seq(haystack: Seq<char>, needle: Seq<char>) -> bool {
    exists|at: int| occurs_at(haystack, needle, at)
}

/// Whether `needle` occurs as a contiguous substring of `haystack`.
pub fn contains_substr(haystack: &str, needle: &str) -> (r: bool)
    ensures
        r == contains_seq(haystack@, needle@),
{
    let h_len = haystack.unicode_len();
    let n_len = needle.unicode_len();
    if n_len > h_len {
        assert(forall|at: int| !occurs_at(haystack@, needle@, at));
        return false;
    }
    let mut at: usize = 0;
    while at <= h_len - n_len
        invariant
            0 <= at <= h_len - n_len + 1,
            n_len <= h_len,
            h_len == haystack@.len(),
            n_len == needle@.len(),
            forall|p: int| 0 <= p < at ==> !occurs_at(haystack@, needle@, p),
        decreases h_len - n_len - at + 1,
    {
        let mut j: usize = 0;
        let mut all_match = true;
        while j < n_len
            invariant
                0 <= j <= n_len,
                at + n_len <= h_len,
                h_len == haystack@.len(),
                n_len == needle@.len(),
                all_match == (forall|k: int| 0 <= k < j ==> haystack@[at + k] == needle@[k]),
            decreases n_len - j,
        {
            if haystack.get_char(at + j) != needle.get_char(j) {
                all_match = false;
                assert(haystack@[at + j as int] != needle@[j as int]);
                j = n_len;
            } else {
                j = j + 1;
            }
        }
        if all_match {
            assert(occurs_at(haystack@, needle@, at as int)) by {
                assert(haystack@.subrange(at as int, at + needle@.len()) =~= needle@);
            }
            return true;
        } else {
            assert(!occurs_at(haystack@, needle@, at as int)) by {
                let k = choose|k: int| 0 <= k < n_len && haystack@[at + k] != needle@[k];
                if haystack@.subrange(at as int, at + needle@.len()) == needle@ {
                    assert(haystack@.subrange(at as int, at + needle@.len())[k] == needle@[k]);
                }
            }
        }
        at = at + 1;
    }
    assert(forall|p: int| occurs_at(haystack@, needle@, p) ==> 0 <= p <= h_len - n_len);
    false
}

} // verus!
