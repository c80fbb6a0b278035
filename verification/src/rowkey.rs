//! The ordered log key: a reverse-timestamp prefix, zero-padded to a fixed
//! width, followed by a fresh unique suffix. Ascending lexicographic order of
//! keys equals descending chronological order of the matches they name, so a
//! store that returns keys in ascending order yields the log newest-first.
//!
//! Two matches at the identical instant compare in an unspecified but stable
//! order: the suffix breaks the tie arbitrarily, not by insertion order.

use vstd::arithmetic::div_mod::{
    lemma_div_is_ordered, lemma_fundamental_div_mod, lemma_mod_bound,
};
use vstd::prelude::*;

use crate::text::lex_lt;

verus! {

/// The timestamp ceiling of the reverse encoding: the last millisecond of
/// year 9999.
pub const MAX_TIMESTAMP_MS: i64 = 253_402_300_799_999;

/// Ten to the `w`-th power.
pub open spec fn pow10(w: nat) -> int
    decreases w,
{
    if w == 0 {
        1
    } else {
        10 * pow10((w - 1) as nat)
    }
}

/// The character of one decimal digit.
pub open spec fn digit_char(d: int) -> char {
    if d == 0 {
        '0'
    } else if d == 1 {
        '1'
    } else if d == 2 {
        '2'
    } else if d == 3 {
        '3'
    } else if d == 4 {
        '4'
    } else if d == 5 {
        '5'
    } else if d == 6 {
        '6'
    } else if d == 7 {
        '7'
    } else if d == 8 {
        '8'
    } else {
        '9'
    }
}

/// The decimal encoding of `n`, zero-padded to exactly `w` digits, most
/// significant first.
pub open spec fn dec_digits(n: int, w: nat) -> Seq<char>
    decreases w,
{
    if w == 0 {
        seq![]
    } else {
        seq![digit_char(n / pow10((w - 1) as nat))] + dec_digits(
            n % pow10((w - 1) as nat),
            (w - 1) as nat,
        )
    }
}

/// Powers of ten are positive.
proof fn lemma_pow10_pos(w: nat)
    ensures
        pow10(w) >= 1,
    decreases w,
{
    if w > 0 {
        lemma_pow10_pos((w - 1) as nat);
    }
}

/// A fixed-width encoding has exactly its width.
pub proof fn lemma_dec_digits_len(n: int, w: nat)
    ensures
        dec_digits(n, w).len() == w,
    decreases w,
{
    if w > 0 {
        lemma_dec_digits_len(n % pow10((w - 1) as nat), (w - 1) as nat);
    }
}

/// Zero-padded decimal order equals lexicographic order: a smaller number in
/// range encodes to a lexicographically smaller fixed-width string.
pub proof fn lemma_dec_digits_order(n1: int, n2: int, w: nat)
    requires
        0 <= n1 < n2 < pow10(w),
    ensures
        lex_lt(dec_digits(n1, w), dec_digits(n2, w)),
    decreases w,
{
    let p = pow10((w - 1) as nat);
    lemma_pow10_pos((w - 1) as nat);
    let hi1 = n1 / p;
    let hi2 = n2 / p;
    lemma_div_is_ordered(n1, n2, p);
    lemma_fundamental_div_mod(n1, p);
    lemma_fundamental_div_mod(n2, p);
    lemma_mod_bound(n1, p);
    lemma_mod_bound(n2, p);
    assert(hi2 <= 9) by {
        if hi2 >= 10 {
            assert(n2 >= 10 * p) by (nonlinear_arith)
                requires
                    n2 == p * hi2 + n2 % p,
                    hi2 >= 10,
                    p >= 1,
                    n2 % p >= 0,
            ;
        }
    }
    assert(hi1 >= 0) by {
        if hi1 < 0 {
            assert(n1 < 0) by (nonlinear_arith)
                requires
                    n1 == p * hi1 + n1 % p,
                    hi1 <= -1,
                    p >= 1,
                    n1 % p < p,
            ;
        }
    }
    let d1 = dec_digits(n1, w);
    let d2 = dec_digits(n2, w);
    lemma_dec_digits_len(n1 % p, (w - 1) as nat);
    lemma_dec_digits_len(n2 % p, (w - 1) as nat);
    if hi1 < hi2 {
        assert(d1[0] == digit_char(hi1) && d2[0] == digit_char(hi2));
        assert(digit_char(hi1) < digit_char(hi2));
        assert(lex_lt(d1, d2));
    } else {
        assert(hi1 == hi2);
        assert(n1 % p < n2 % p) by (nonlinear_arith)
            requires
                n1 == p * hi1 + n1 % p,
                n2 == p * hi2 + n2 % p,
                hi1 == hi2,
                n1 < n2,
        ;
        lemma_dec_digits_order(n1 % p, n2 % p, (w - 1) as nat);
        assert(d1[0] == d2[0]);
        assert(d1.drop_first() =~= dec_digits(n1 % p, (w - 1) as nat));
        assert(d2.drop_first() =~= dec_digits(n2 % p, (w - 1) as nat));
        assert(lex_lt(d1, d2));
    }
}

/// A lexicographic comparison settled within two equal-length prefixes is not
/// affected by what follows them.
proof fn lemma_lex_lt_append(a: Seq<char>, b: Seq<char>, x: Seq<char>, y: Seq<char>)
    requires
        a.len() == b.len(),
        lex_lt(a, b),
    ensures
        lex_lt(a + x, b + y),
    decreases a.len(),
{
    assert(a.len() > 0);
    assert((a + x)[0] == a[0]);
    assert((b + y)[0] == b[0]);
    if a[0] == b[0] {
        lemma_lex_lt_append(a.drop_first(), b.drop_first(), x, y);
        assert((a + x).drop_first() =~= a.drop_first() + x);
        assert((b + y).drop_first() =~= b.drop_first() + y);
    }
}

/// The suffix characters a fresh unique token consists of: lowercase
/// hexadecimal digits with hyphens at the four fixed positions.
pub open spec fn is_suffix_char(c: char, i: int) -> bool {
    if i == 8 || i == 13 || i == 18 || i == 23 {
        c == '-'
    } else {
        ('0' <= c && c <= '9') || ('a' <= c && c <= 'f')
    }
}

/// The log key of a match played at `ms`, with tie-break suffix `suffix`:
/// the reverse timestamp, zero-padded to twenty digits, an underscore, and
/// the suffix.
pub open spec fn match_key(ms: int, suffix: Seq<char>) -> Seq<char> {
    dec_digits(MAX_TIMESTAMP_MS - ms, 20) + seq!['_'] + suffix
}

/// Whether `k` is a well-formed log key for a match played at `ms`.
pub open spec fn is_key_for(k: Seq<char>, ms: int) -> bool {
    &&& k.len() == 57
    &&& k == match_key(ms, k.skip(21))
    &&& forall|i: int| 0 <= i < 36 ==> is_suffix_char(#[trigger] k[21 + i], i)
}

/// The ceiling is far enough out that every reverse timestamp in range fits
/// in twenty digits.
proof fn lemma_reverse_in_range(ms: int)
    requires
        0 <= ms <= MAX_TIMESTAMP_MS,
    ensures
        0 <= MAX_TIMESTAMP_MS - ms < pow10(20),
{
    reveal_with_fuel(pow10, 21);
}

/// Keys order the log newest-first: of two matches played at different
/// instants, the later match's key is lexicographically smaller, whatever the
/// suffixes are.
pub proof fn lemma_newer_key_sorts_first(k1: Seq<char>, ms1: int, k2: Seq<char>, ms2: int)
    requires
        is_key_for(k1, ms1),
        is_key_for(k2, ms2),
        0 <= ms1 < ms2 <= MAX_TIMESTAMP_MS,
    ensures
        lex_lt(k2, k1),
{
    lemma_reverse_in_range(ms1);
    lemma_reverse_in_range(ms2);
    lemma_dec_digits_len(MAX_TIMESTAMP_MS - ms1, 20);
    lemma_dec_digits_len(MAX_TIMESTAMP_MS - ms2, 20);
    lemma_dec_digits_order(MAX_TIMESTAMP_MS - ms2, MAX_TIMESTAMP_MS - ms1, 20);
    lemma_lex_lt_append(
        dec_digits(MAX_TIMESTAMP_MS - ms2, 20),
        dec_digits(MAX_TIMESTAMP_MS - ms1, 20),
        seq!['_'] + k2.skip(21),
        seq!['_'] + k1.skip(21),
    );
    assert(dec_digits(MAX_TIMESTAMP_MS - ms2, 20) + (seq!['_'] + k2.skip(21)) =~= match_key(
        ms2,
        k2.skip(21),
    ));
    assert(dec_digits(MAX_TIMESTAMP_MS - ms1, 20) + (seq!['_'] + k1.skip(21)) =~= match_key(
        ms1,
        k1.skip(21),
    ));
}

/// Appends one character.
///
/// Relies on `String::push`, which appends the given character to the end of
/// the string.
#[verifier::external_body]
fn push_char(s: &mut String, c: char)
    ensures
        final(s)@ == old(s)@.push(c),
{
    s.push(c);
}

/// A fresh unique suffix.
///
/// Relies on `uuid::Uuid::new_v4`, which draws a fresh random UUID, and on
/// its display form: 36 characters of lowercase hexadecimal in the hyphenated
/// 8-4-4-4-12 layout. The value is random: nothing relates two calls.
#[verifier::external_body]
fn fresh_suffix() -> (r: String)
    ensures
        r@.len() == 36,
        forall|i: int| 0 <= i < 36 ==> is_suffix_char(#[trigger] r@[i], i),
{
    uuid::Uuid::new_v4().to_string()
}

/// The character of one decimal digit.
fn digit_char_exec(d: u64) -> (c: char)
    requires
        d < 10,
    ensures
        c == digit_char(d as int),
{
    if d == 0 {
        '0'
    } else if d == 1 {
        '1'
    } else if d == 2 {
        '2'
    } else if d == 3 {
        '3'
    } else if d == 4 {
        '4'
    } else if d == 5 {
        '5'
    } else if d == 6 {
        '6'
    } else if d == 7 {
        '7'
    } else if d == 8 {
        '8'
    } else {
        '9'
    }
}

/// Write `n` into `out` as exactly twenty decimal digits, zero-padded, most
/// significant first.
fn push_padded_decimal(out: &mut String, n: u64)
    ensures
        final(out)@ == old(out)@ + dec_digits(n as int, 20),
{
    let mut rem: u64 = n;
    let mut p: u64 = 10_000_000_000_000_000_000u64;
    let mut i: usize = 0;
    proof {
        reveal_with_fuel(pow10, 21);
        assert((n as int) < pow10(20));
    }
    while i < 20
        invariant
            0 <= i <= 20,
            i < 20 ==> p as int == pow10((19 - i) as nat),
            (rem as int) < pow10((20 - i) as nat),
            out@ + dec_digits(rem as int, (20 - i) as nat) == old(out)@ + dec_digits(n as int, 20),
        decreases 20 - i,
    {
        let ghost w = (20 - i) as nat;
        proof {
            lemma_pow10_pos((19 - i) as nat);
            lemma_fundamental_div_mod(rem as int, p as int);
            lemma_mod_bound(rem as int, p as int);
            assert((rem as int / p as int) < 10) by (nonlinear_arith)
                requires
                    rem as int == p as int * (rem as int / p as int) + rem as int % p as int,
                    (rem as int) < 10 * p as int,
                    p as int >= 1,
                    rem as int % p as int >= 0,
            ;
            assert(rem as int / p as int >= 0) by (nonlinear_arith)
                requires
                    rem as int == p as int * (rem as int / p as int) + rem as int % p as int,
                    rem as int >= 0,
                    p as int >= 1,
                    (rem as int % p as int) < p as int,
            ;
        }
        let d = rem / p;
        let ghost pre = out@;
        push_char(out, digit_char_exec(d));
        proof {
            assert(dec_digits(rem as int, w) == seq![digit_char(d as int)] + dec_digits(
                rem as int % p as int,
                (w - 1) as nat,
            ));
            assert(out@ + dec_digits(rem as int % p as int, (w - 1) as nat) =~= pre + dec_digits(
                rem as int,
                w,
            ));
            if i < 19 {
                assert(pow10((19 - i) as nat) == 10 * pow10((18 - i) as nat));
                assert(p as int / 10 == pow10((18 - i) as nat)) by (nonlinear_arith)
                    requires
                        p as int == 10 * pow10((18 - i) as nat),
                        pow10((18 - i) as nat) >= 1,
                ;
            }
        }
        rem = rem % p;
        p = p / 10;
        i = i + 1;
    }
    proof {
        assert(dec_digits(rem as int, 0) =~= Seq::<char>::empty());
        assert(out@ + dec_digits(rem as int, 0) =~= out@);
    }
}

/// A log key for a match played at `played_at_ms`: the zero-padded reverse
/// timestamp, an underscore, and a fresh unique suffix. Ascending
/// lexicographic key order is descending order of `played_at_ms` (see
/// [`lemma_newer_key_sorts_first`]); the suffix keeps keys of same-instant
/// matches distinct with overwhelming probability, in an arbitrary order.
pub fn generate_match_row_key(played_at_ms: i64) -> (r: String)
    requires
        0 <= played_at_ms <= MAX_TIMESTAMP_MS,
    ensures
        is_key_for(r@, played_at_ms as int),
{
    proof {
        lemma_reverse_in_range(played_at_ms as int);
        reveal_with_fuel(pow10, 21);
    }
    let reverse: u64 = (MAX_TIMESTAMP_MS - played_at_ms) as u64;
    let mut key = String::new();
    push_padded_decimal(&mut key, reverse);
    push_char(&mut key, '_');
    let suffix = fresh_suffix();
    let ghost before_suffix = key@;
    key.append(suffix.as_str());
    proof {
        lemma_dec_digits_len(reverse as int, 20);
        assert(key@.skip(21) =~= suffix@);
        assert(key@ =~= dec_digits(MAX_TIMESTAMP_MS - played_at_ms as int, 20) + seq!['_']
            + key@.skip(21));
        assert(key@ == match_key(played_at_ms as int, key@.skip(21)));
    }
    key
}

} // verus!
