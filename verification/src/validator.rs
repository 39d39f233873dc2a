//! The Luhn validator: decides whether a string passes the Luhn check.

use vstd::prelude::*;
use vstd::string::StrSliceExecFns;
use vstd::arithmetic::div_mod::lemma_add_mod_noop_right;
use crate::checksum::{
    all_digit_chars, digit_val, is_digit_char, is_space, luhn_contrib, luhn_sum, spec_is_valid,
    strip_spaces, lemma_luhn_sum_prepend, lemma_strip_unfold, lemma_strip_contains,
};

verus! {

/// Whether `c` has the Unicode `White_Space` property.
fn is_space_char(c: char) -> (r: bool)
    ensures
        r == is_space(c),
{
    let u: u32 = c as u32;
    (0x09 <= u && u <= 0x0D) || u == 0x20 || u == 0x85 || u == 0xA0 || u == 0x1680 || (0x2000 <= u
        && u <= 0x200A) || u == 0x2028 || u == 0x2029 || u == 0x202F || u == 0x205F || u == 0x3000
}

/// Whether `c` is a decimal digit character.
fn is_decimal_digit(c: char) -> (r: bool)
    ensures
        r == is_digit_char(c),
{
    let u: u32 = c as u32;
    0x30 <= u && u <= 0x39
}

/// The numeric value of a decimal digit character.
fn digit_value(c: char) -> (r: u32)
    requires
        is_digit_char(c),
    ensures
        r == digit_val(c),
        r < 10,
{
    c as u32 - 0x30
}

/// Whether `number` passes the Luhn check.
///
/// Whitespace is ignored; any other non-digit character makes the string
/// invalid, as does a string of fewer than two non-whitespace characters.
/// Of the remaining digits, every other one — starting with the second from
/// the right — is doubled (minus nine when the double exceeds nine), and the
/// string is accepted exactly when the sum of all contributions is a
/// multiple of ten.
pub fn is_valid(number: &String) -> (r: bool)
    ensures
        r == spec_is_valid(number@),
{
    let s = number.as_str();
    let n = s.unicode_len();
    let ghost whole = s@;
    let mut i: usize = n;
    let mut count: usize = 0;
    let mut doubled: bool = false;
    let mut sum: u32 = 0;
    while i > 0
        invariant
            i <= n,
            n == whole.len(),
            whole == number@,
            s@ == whole,
            count == strip_spaces(whole.subrange(i as int, n as int)).len(),
            count <= n - i,
            all_digit_chars(strip_spaces(whole.subrange(i as int, n as int))),
            doubled == (count % 2 == 1),
            sum < 10,
            sum == luhn_sum(strip_spaces(whole.subrange(i as int, n as int)), false) % 10,
        decreases i,
    {
        i = i - 1;
        let c = s.get_char(i);
        let ghost tail = whole.subrange(i + 1, n as int);
        let ghost t = strip_spaces(tail);
        proof {
            assert(whole.subrange(i as int, n as int) =~= seq![whole[i as int]] + tail);
            lemma_strip_unfold(c, tail);
        }
        if is_space_char(c) {
        } else if is_decimal_digit(c) {
            let d = digit_value(c);
            let term: u32 = if doubled {
                if d < 5 {
                    d * 2
                } else {
                    d * 2 - 9
                }
            } else {
                d
            };
            proof {
                lemma_luhn_sum_prepend(c, t, false);
                assert(term == luhn_contrib(digit_val(c), doubled));
                lemma_add_mod_noop_right(term as int, luhn_sum(t, false), 10);
                assert((term + sum) % 10 == (term + luhn_sum(t, false)) % 10);
            }
            sum = (sum + term) % 10;
            doubled = !doubled;
            count = count + 1;
        } else {
            proof {
                lemma_strip_contains(whole, i as int);
                let u = strip_spaces(whole);
                assert(u.contains(c));
                let j = choose|j: int| 0 <= j < u.len() && u[j] == c;
                assert(!is_digit_char(u[j]));
            }
            return false;
        }
    }
    proof {
        assert(whole.subrange(0, n as int) =~= whole);
    }
    count >= 2 && sum == 0
}

} // verus!

