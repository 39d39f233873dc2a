//! Mathematical model of the Luhn checksum.
//!
//! Everything here is specification: which characters count as whitespace,
//! which as digits, how a digit sequence is weighted, and when a character
//! sequence is accepted by the Luhn check.

use vstd::prelude::*;

verus! {

/// A character with the Unicode `White_Space` property.
pub open spec fn is_space(c: char) -> bool {
    ||| (0x09 <= c as u32 && c as u32 <= 0x0D)
    ||| c as u32 == 0x20
    ||| c as u32 == 0x85
    ||| c as u32 == 0xA0
    ||| c as u32 == 0x1680
    ||| (0x2000 <= c as u32 && c as u32 <= 0x200A)
    ||| c as u32 == 0x2028
    ||| c as u32 == 0x2029
    ||| c as u32 == 0x202F
    ||| c as u32 == 0x205F
    ||| c as u32 == 0x3000
}

/// A decimal digit character, `'0'` through `'9'`.
pub open spec fn is_digit_char(c: char) -> bool {
    0x30 <= c as u32 && c as u32 <= 0x39
}

/// The numeric value of a decimal digit character.
pub open spec fn digit_val(c: char) -> int {
    c as u32 - 0x30
}

/// The digit character for a value in `0..10`.
pub open spec fn digit_char(d: int) -> char {
    if d == 0 { '0' }
    else if d == 1 { '1' }
    else if d == 2 { '2' }
    else if d == 3 { '3' }
    else if d == 4 { '4' }
    else if d == 5 { '5' }
    else if d == 6 { '6' }
    else if d == 7 { '7' }
    else if d == 8 { '8' }
    else { '9' }
}

/// The Luhn doubling step: double the digit and, when that exceeds nine,
/// subtract nine (equivalently, for `d < 5` use `2d`, otherwise `2d - 9`).
pub open spec fn double_digit(d: int) -> int {
    if d < 5 { 2 * d } else { 2 * d - 9 }
}

/// What a digit contributes to the checksum: doubled in every other
/// position, unchanged elsewhere.
pub open spec fn luhn_contrib(d: int, doubled: bool) -> int {
    if doubled { double_digit(d) } else { d }
}

/// `s` with every whitespace character removed.
pub open spec fn strip_spaces(s: Seq<char>) -> Seq<char>
    decreases s.len(),
{
    if s.len() == 0 {
        Seq::empty()
    } else if is_space(s[0]) {
        strip_spaces(s.drop_first())
    } else {
        seq![s[0]] + strip_spaces(s.drop_first())
    }
}

/// Every character of `s` is a decimal digit.
pub open spec fn all_digit_chars(s: Seq<char>) -> bool {
    forall|i: int| 0 <= i < s.len() ==> is_digit_char(#[trigger] s[i])
}

/// The Luhn checksum of a digit-character sequence, scanned from the right.
/// `doubled` is the weighting of the rightmost character; it alternates
/// towards the left.
pub open spec fn luhn_sum(s: Seq<char>, doubled: bool) -> int
    decreases s.len(),
{
    if s.len() == 0 {
        0
    } else {
        luhn_contrib(digit_val(s.last()), doubled) + luhn_sum(s.drop_last(), !doubled)
    }
}

/// Acceptance by the Luhn check: after removing whitespace at least two
/// characters remain, all of them digits, and the checksum — with the
/// rightmost digit unweighted — is a multiple of ten.
pub open spec fn spec_is_valid(s: Seq<char>) -> bool {
    let t = strip_spaces(s);
    &&& t.len() >= 2
    &&& all_digit_chars(t)
    &&& luhn_sum(t, false) % 10 == 0
}

/// Removing whitespace commutes with prepending one character.
pub proof fn lemma_strip_unfold(c: char, u: Seq<char>)
    ensures
        strip_spaces(seq![c] + u) == if is_space(c) {
            strip_spaces(u)
        } else {
            (seq![c] + strip_spaces(u))
        },
{
    let s = seq![c] + u;
    assert(s[0] == c);
    assert(s.drop_first() =~= u);
}

/// Prepending a character shifts its weight according to the parity of the
/// sequence it is prepended to.
pub proof fn lemma_luhn_sum_prepend(c: char, t: Seq<char>, doubled: bool)
    ensures
        luhn_sum(seq![c] + t, doubled) == luhn_sum(t, doubled) + luhn_contrib(
            digit_val(c),
            if t.len() % 2 == 0 {
                doubled
            } else {
                !doubled
            },
        ),
    decreases t.len(),
{
    let s = seq![c] + t;
    if t.len() == 0 {
        assert(s.last() == c);
        assert(s.drop_last() =~= Seq::<char>::empty());
        assert(luhn_sum(Seq::<char>::empty(), !doubled) == 0);
        assert(luhn_sum(t, doubled) == 0);
    } else {
        assert(s.last() == t.last());
        assert(s.drop_last() =~= seq![c] + t.drop_last());
        lemma_luhn_sum_prepend(c, t.drop_last(), !doubled);
        let flag_inner = if t.drop_last().len() % 2 == 0 {
            !doubled
        } else {
            doubled
        };
        assert(luhn_sum(s, doubled) == luhn_contrib(digit_val(t.last()), doubled) + luhn_sum(
            seq![c] + t.drop_last(),
            !doubled,
        ));
        assert(luhn_sum(seq![c] + t.drop_last(), !doubled) == luhn_sum(t.drop_last(), !doubled)
            + luhn_contrib(digit_val(c), flag_inner));
        assert(t.drop_last().len() == t.len() - 1);
        assert(luhn_sum(t, doubled) == luhn_contrib(digit_val(t.last()), doubled) + luhn_sum(
            t.drop_last(),
            !doubled,
        ));
    }
}

/// A character of `s` that is not whitespace survives the stripping.
pub proof fn lemma_strip_contains(s: Seq<char>, i: int)
    requires
        0 <= i < s.len(),
        !is_space(s[i]),
    ensures
        strip_spaces(s).contains(s[i]),
    decreases s.len(),
{
    if i == 0 {
        assert(strip_spaces(s)[0] == s[0]);
    } else {
        lemma_strip_contains(s.drop_first(), i - 1);
        let c = s.drop_first()[i - 1];
        let j = choose|j: int|
            0 <= j < strip_spaces(s.drop_first()).len() && strip_spaces(s.drop_first())[j] == c;
        if is_space(s[0]) {
            assert(strip_spaces(s)[j] == s[i]);
        } else {
            assert(strip_spaces(s)[j + 1] == s[i]);
        }
    }
}

/// Stripping whitespace is idempotent.
pub proof fn lemma_strip_idempotent(s: Seq<char>)
    ensures
        strip_spaces(strip_spaces(s)) == strip_spaces(s),
    decreases s.len(),
{
    if s.len() == 0 {
    } else if is_space(s[0]) {
        lemma_strip_idempotent(s.drop_first());
    } else {
        lemma_strip_idempotent(s.drop_first());
        lemma_strip_unfold(s[0], strip_spaces(s.drop_first()));
        assert(strip_spaces(s) =~= seq![s[0]] + strip_spaces(s.drop_first()));
    }
}

/// A sequence of digit characters is unchanged by whitespace removal.
pub proof fn lemma_strip_all_digits(s: Seq<char>)
    requires
        all_digit_chars(s),
    ensures
        strip_spaces(s) == s,
    decreases s.len(),
{
    if s.len() == 0 {
        assert(strip_spaces(s) =~= s);
    } else {
        assert(is_digit_char(s[0]));
        assert(all_digit_chars(s.drop_first())) by {
            assert(forall|i: int|
                0 <= i < s.drop_first().len() ==> #[trigger] s.drop_first()[i] == s[i + 1]);
        }
        lemma_strip_all_digits(s.drop_first());
        assert(strip_spaces(s) =~= s);
    }
}

} // verus!
