//! Properties of the Luhn validator, proved once and for all: whitespace
//! does not affect the verdict, foreign characters and short inputs are
//! rejected, and altering a single digit of an accepted string is always
//! detected.

use vstd::prelude::*;
use crate::checksum::{
    digit_val, is_digit_char, is_space, luhn_contrib, luhn_sum, spec_is_valid, strip_spaces,
    lemma_strip_contains, lemma_strip_idempotent,
};

verus! {

/// Whitespace is irrelevant: a string and the same string with all
/// whitespace removed are accepted or rejected together.
pub proof fn lemma_whitespace_irrelevant(s: Seq<char>)
    ensures
        spec_is_valid(s) == spec_is_valid(strip_spaces(s)),
{
    lemma_strip_idempotent(s);
}

/// A string holding any character that is neither whitespace nor a decimal
/// digit is rejected.
pub proof fn lemma_non_digit_rejected(s: Seq<char>, i: int)
    requires
        0 <= i < s.len(),
        !is_space(s[i]),
        !is_digit_char(s[i]),
    ensures
        !spec_is_valid(s),
{
    lemma_strip_contains(s, i);
    let t = strip_spaces(s);
    let j = choose|j: int| 0 <= j < t.len() && t[j] == s[i];
    assert(!is_digit_char(t[j]));
}

/// A string with fewer than two non-whitespace characters is rejected.
pub proof fn lemma_short_rejected(s: Seq<char>)
    requires
        strip_spaces(s).len() < 2,
    ensures
        !spec_is_valid(s),
{
}

/// The weighting of position `j`, counted from the left in a sequence of
/// length `len` whose rightmost position carries the weighting `doubled`.
pub open spec fn weight_at(len: int, j: int, doubled: bool) -> bool {
    if (len - 1 - j) % 2 == 0 {
        doubled
    } else {
        !doubled
    }
}

/// Replacing one character in a non-whitespace position commutes with
/// whitespace removal; the returned index locates that position in the
/// stripped sequence.
pub proof fn lemma_strip_update(s: Seq<char>, i: int, c: char) -> (j: int)
    requires
        0 <= i < s.len(),
        !is_space(s[i]),
        !is_space(c),
    ensures
        0 <= j < strip_spaces(s).len(),
        strip_spaces(s)[j] == s[i],
        strip_spaces(s.update(i, c)) == strip_spaces(s).update(j, c),
    decreases s.len(),
{
    if i == 0 {
        assert(s.update(0, c).drop_first() =~= s.drop_first());
        assert(s.update(0, c)[0] == c);
        assert(strip_spaces(s.update(0, c)) =~= seq![c] + strip_spaces(s.drop_first()));
        assert(strip_spaces(s) =~= seq![s[0]] + strip_spaces(s.drop_first()));
        assert(strip_spaces(s.update(0, c)) =~= strip_spaces(s).update(0, c));
        0
    } else {
        let rest = s.drop_first();
        assert(s.update(i, c).drop_first() =~= rest.update(i - 1, c));
        assert(rest[i - 1] == s[i]);
        let j0 = lemma_strip_update(rest, i - 1, c);
        assert(s.update(i, c)[0] == s[0]);
        if is_space(s[0]) {
            j0
        } else {
            assert(strip_spaces(s) =~= seq![s[0]] + strip_spaces(rest));
            assert(strip_spaces(s.update(i, c)) =~= seq![s[0]] + strip_spaces(rest).update(
                j0,
                c,
            ));
            assert((seq![s[0]] + strip_spaces(rest).update(j0, c)) =~= (seq![s[0]] + strip_spaces(
                rest,
            )).update(j0 + 1, c));
            j0 + 1
        }
    }
}

/// Replacing the character at position `j` moves the checksum by the
/// difference of the two contributions at that position's weighting.
pub proof fn lemma_luhn_sum_update(t: Seq<char>, j: int, c: char, doubled: bool)
    requires
        0 <= j < t.len(),
    ensures
        luhn_sum(t.update(j, c), doubled) == luhn_sum(t, doubled) - luhn_contrib(
            digit_val(t[j]),
            weight_at(t.len() as int, j, doubled),
        ) + luhn_contrib(digit_val(c), weight_at(t.len() as int, j, doubled)),
    decreases t.len(),
{
    let t2 = t.update(j, c);
    if j == t.len() - 1 {
        assert(t2.last() == c);
        assert(t2.drop_last() =~= t.drop_last());
    } else {
        assert(t2.last() == t.last());
        assert(t2.drop_last() =~= t.drop_last().update(j, c));
        lemma_luhn_sum_update(t.drop_last(), j, c, !doubled);
        assert(t.drop_last()[j] == t[j]);
        assert(weight_at(t.len() - 1, j, !doubled) == weight_at(t.len() as int, j, doubled));
    }
}

/// Two distinct digits contribute differently modulo ten, under either
/// weighting: the identity is injective, and so is doubling with the
/// subtract-nine correction.
pub proof fn lemma_contrib_injective_mod(d1: int, d2: int, doubled: bool)
    requires
        0 <= d1 < 10,
        0 <= d2 < 10,
        d1 != d2,
    ensures
        (luhn_contrib(d2, doubled) - luhn_contrib(d1, doubled)) % 10 != 0,
{
    assert(luhn_contrib(d1, doubled) != luhn_contrib(d2, doubled));
    assert(0 <= luhn_contrib(d1, doubled) <= 9);
    assert(0 <= luhn_contrib(d2, doubled) <= 9);
}

/// Altering a single digit of an accepted string always produces a rejected
/// string: the checksum moves by a nonzero amount modulo ten.
pub proof fn lemma_mutation_detected(s: Seq<char>, i: int, c: char)
    requires
        spec_is_valid(s),
        0 <= i < s.len(),
        is_digit_char(s[i]),
        is_digit_char(c),
        c != s[i],
    ensures
        !spec_is_valid(s.update(i, c)),
{
    assert(!is_space(s[i]));
    assert(!is_space(c));
    let t = strip_spaces(s);
    let j = lemma_strip_update(s, i, c);
    let t2 = strip_spaces(s.update(i, c));
    assert(t2 == t.update(j, c));
    lemma_luhn_sum_update(t, j, c, false);
    let f = weight_at(t.len() as int, j, false);
    let d1 = digit_val(s[i]);
    let d2 = digit_val(c);
    assert(0 <= d1 < 10);
    assert(0 <= d2 < 10);
    assert(s[i] as u32 != c as u32) by {
        vstd::utf8::char_is_scalar(s[i]);
        vstd::utf8::char_is_scalar(c);
        vstd::utf8::char_u32_cast(s[i], s[i] as u32);
        vstd::utf8::char_u32_cast(c, c as u32);
    }
    assert(d1 != d2);
    lemma_contrib_injective_mod(d1, d2, f);
    let delta = luhn_contrib(d2, f) - luhn_contrib(d1, f);
    let a = luhn_sum(t, false);
    assert(a % 10 == 0);
    assert(luhn_sum(t2, false) == a + delta);
    assert((a + delta) % 10 != 0) by {
        vstd::arithmetic::div_mod::lemma_add_mod_noop(a, delta, 10);
        vstd::arithmetic::div_mod::lemma_mod_twice(delta, 10);
    }
}

} // verus!

