//! The Luhn generator: produces a random digit string that the validator
//! accepts.
//!
//! A candidate is drawn as a random integer below a fixed bound, written in
//! decimal, and passed through the Luhn weighting (every other digit
//! doubled, minus nine when the double exceeds nine) before being tested.
//! After a bounded number of rejected candidates the generator falls back
//! to deriving a check digit arithmetically, which is proved to satisfy the
//! validator, so the function always returns an accepted string.

use rand::Rng;
use vstd::prelude::*;
use vstd::arithmetic::div_mod::lemma_add_mod_noop_right;
use crate::checksum::{
    all_digit_chars, digit_char, digit_val, is_digit_char, luhn_contrib, luhn_sum, spec_is_valid,
    lemma_strip_all_digits,
};
use crate::validator::is_valid;

verus! {

/// The decimal digits of `n`, most significant first; `0` is written `[0]`.
pub open spec fn decimal_digits(n: nat) -> Seq<int>
    decreases n,
{
    if n < 10 {
        seq![n as int]
    } else {
        decimal_digits(n / 10).push((n % 10) as int)
    }
}

/// The Luhn checksum of a digit sequence, scanned from the right; `doubled`
/// is the weighting of the rightmost digit and alternates towards the left.
pub open spec fn digit_sum(ds: Seq<int>, doubled: bool) -> int
    decreases ds.len(),
{
    if ds.len() == 0 {
        0
    } else {
        luhn_contrib(ds.last(), doubled) + digit_sum(ds.drop_last(), !doubled)
    }
}

/// The Luhn weighting applied to every digit of the sequence: each digit is
/// replaced by its contribution, with `doubled` the weighting of the
/// rightmost digit.
pub open spec fn luhn_weight(ds: Seq<int>, doubled: bool) -> Seq<int>
    decreases ds.len(),
{
    if ds.len() == 0 {
        Seq::empty()
    } else {
        luhn_weight(ds.drop_last(), !doubled).push(luhn_contrib(ds.last(), doubled))
    }
}

/// The digit characters spelling a digit sequence.
pub open spec fn digit_chars(ds: Seq<int>) -> Seq<char> {
    ds.map_values(|d: int| digit_char(d))
}

/// The digits of a least-significant-first vector, read back most
/// significant first.
pub open spec fn rev_digits(v: Seq<u8>) -> Seq<int> {
    Seq::new(v.len(), |k: int| v[v.len() - 1 - k] as int)
}

/// The check digit that makes `n`'s digits followed by it pass the Luhn
/// check.
pub open spec fn check_digit(n: nat) -> int {
    let s = digit_sum(decimal_digits(n), true) % 10;
    if s == 0 {
        0
    } else {
        10 - s
    }
}

/// Every digit of the decimal expansion lies below ten, and there is at
/// least one.
pub proof fn lemma_decimal_digits_bounds(n: nat)
    ensures
        decimal_digits(n).len() >= 1,
        forall|k: int|
            0 <= k < decimal_digits(n).len() ==> 0 <= #[trigger] decimal_digits(n)[k] < 10,
    decreases n,
{
    if n < 10 {
    } else {
        lemma_decimal_digits_bounds(n / 10);
        assert(forall|k: int|
            0 <= k < decimal_digits(n / 10).len() ==> #[trigger] decimal_digits(n)[k]
                == decimal_digits(n / 10)[k]);
    }
}

/// The decimal digits of `n`, as a vector holding the least significant
/// digit first.
fn digits_of(n: u64) -> (ds: Vec<u8>)
    ensures
        ds@.len() >= 1,
        forall|k: int| 0 <= k < ds@.len() ==> #[trigger] ds@[k] < 10,
        rev_digits(ds@) == decimal_digits(n as nat),
{
    let mut ds: Vec<u8> = Vec::new();
    let mut m: u64 = n;
    ds.push((m % 10) as u8);
    m = m / 10;
    proof {
        if n < 10 {
            assert(m == 0);
            assert(rev_digits(ds@) =~= decimal_digits(n as nat));
        } else {
            assert(decimal_digits(n as nat) =~= decimal_digits((n / 10) as nat) + rev_digits(
                ds@,
            ));
        }
    }
    while m > 0
        invariant
            ds@.len() >= 1,
            forall|k: int| 0 <= k < ds@.len() ==> #[trigger] ds@[k] < 10,
            decimal_digits(n as nat) == if m > 0 {
                decimal_digits(m as nat) + rev_digits(ds@)
            } else {
                rev_digits(ds@)
            },
        decreases m,
    {
        let ghost prev = ds@;
        ds.push((m % 10) as u8);
        proof {
            assert(rev_digits(ds@) =~= seq![(m % 10) as int] + rev_digits(prev));
            if m < 10 {
                assert(decimal_digits(m as nat) =~= seq![(m % 10) as int]);
                assert(decimal_digits(m as nat) + rev_digits(prev) =~= rev_digits(ds@));
            } else {
                assert(decimal_digits(m as nat) =~= decimal_digits((m / 10) as nat) + seq![
                    (m % 10) as int,
                ]);
                assert(decimal_digits(m as nat) + rev_digits(prev) =~= decimal_digits(
                    (m / 10) as nat,
                ) + rev_digits(ds@));
            }
        }
        m = m / 10;
    }
    ds
}

/// Prepending a digit shifts its weighting according to the parity of the
/// sequence it is prepended to.
pub proof fn lemma_digit_sum_prepend(d: int, t: Seq<int>, doubled: bool)
    ensures
        digit_sum(seq![d] + t, doubled) == digit_sum(t, doubled) + luhn_contrib(
            d,
            if t.len() % 2 == 0 {
                doubled
            } else {
                !doubled
            },
        ),
    decreases t.len(),
{
    let s = seq![d] + t;
    if t.len() == 0 {
        assert(s.last() == d);
        assert(s.drop_last() =~= Seq::<int>::empty());
        assert(digit_sum(Seq::<int>::empty(), !doubled) == 0);
        assert(digit_sum(t, doubled) == 0);
    } else {
        assert(s.last() == t.last());
        assert(s.drop_last() =~= seq![d] + t.drop_last());
        lemma_digit_sum_prepend(d, t.drop_last(), !doubled);
        assert(digit_sum(t, doubled) == luhn_contrib(t.last(), doubled) + digit_sum(
            t.drop_last(),
            !doubled,
        ));
    }
}

/// The weighted sequence has the same length, and each of its digits is the
/// contribution of the original digit at that position.
pub proof fn lemma_luhn_weight_index(ds: Seq<int>, doubled: bool)
    ensures
        luhn_weight(ds, doubled).len() == ds.len(),
        forall|k: int|
            0 <= k < ds.len() ==> #[trigger] luhn_weight(ds, doubled)[k] == luhn_contrib(
                ds[k],
                if (ds.len() - 1 - k) % 2 == 0 {
                    doubled
                } else {
                    !doubled
                },
            ),
    decreases ds.len(),
{
    if ds.len() == 0 {
    } else {
        lemma_luhn_weight_index(ds.drop_last(), !doubled);
    }
}

/// Reading a digit sequence as characters and summing it with the Luhn
/// weighting gives the sum of the digits themselves.
pub proof fn lemma_luhn_sum_digit_chars(ds: Seq<int>, doubled: bool)
    requires
        forall|k: int| 0 <= k < ds.len() ==> 0 <= #[trigger] ds[k] < 10,
    ensures
        luhn_sum(digit_chars(ds), doubled) == digit_sum(ds, doubled),
    decreases ds.len(),
{
    if ds.len() == 0 {
        assert(digit_chars(ds) =~= Seq::<char>::empty());
    } else {
        let cs = digit_chars(ds);
        assert(cs.last() == digit_char(ds.last()));
        assert(digit_val(digit_char(ds.last())) == ds.last());
        assert(cs.drop_last() =~= digit_chars(ds.drop_last()));
        lemma_luhn_sum_digit_chars(ds.drop_last(), !doubled);
    }
}

/// The characters spelling digits below ten are decimal digit characters.
pub proof fn lemma_digit_chars_are_digits(ds: Seq<int>)
    requires
        forall|k: int| 0 <= k < ds.len() ==> 0 <= #[trigger] ds[k] < 10,
    ensures
        all_digit_chars(digit_chars(ds)),
{
    assert(forall|k: int|
        0 <= k < ds.len() ==> is_digit_char(#[trigger] digit_chars(ds)[k]));
}

/// The single-character string spelling one decimal digit.
fn digit_str(d: u8) -> (r: &'static str)
    requires
        d < 10,
    ensures
        r@ == seq![digit_char(d as int)],
{
    if d == 0 {
        proof {
            reveal_strlit("0");
            assert("0"@ =~= seq!['0']);
        }
        "0"
    } else if d == 1 {
        proof {
            reveal_strlit("1");
            assert("1"@ =~= seq!['1']);
        }
        "1"
    } else if d == 2 {
        proof {
            reveal_strlit("2");
            assert("2"@ =~= seq!['2']);
        }
        "2"
    } else if d == 3 {
        proof {
            reveal_strlit("3");
            assert("3"@ =~= seq!['3']);
        }
        "3"
    } else if d == 4 {
        proof {
            reveal_strlit("4");
            assert("4"@ =~= seq!['4']);
        }
        "4"
    } else if d == 5 {
        proof {
            reveal_strlit("5");
            assert("5"@ =~= seq!['5']);
        }
        "5"
    } else if d == 6 {
        proof {
            reveal_strlit("6");
            assert("6"@ =~= seq!['6']);
        }
        "6"
    } else if d == 7 {
        proof {
            reveal_strlit("7");
            assert("7"@ =~= seq!['7']);
        }
        "7"
    } else if d == 8 {
        proof {
            reveal_strlit("8");
            assert("8"@ =~= seq!['8']);
        }
        "8"
    } else {
        proof {
            reveal_strlit("9");
            assert("9"@ =~= seq!['9']);
        }
        "9"
    }
}

/// Spell a least-significant-first digit vector as a string, most
/// significant digit first.
fn digit_string(v: &Vec<u8>) -> (r: String)
    requires
        forall|k: int| 0 <= k < v@.len() ==> #[trigger] v@[k] < 10,
    ensures
        r@ == digit_chars(rev_digits(v@)),
{
    let ghost target = digit_chars(rev_digits(v@));
    let mut out = String::new();
    let len = v.len();
    let mut j: usize = len;
    while j > 0
        invariant
            j <= len,
            len == v@.len(),
            forall|k: int| 0 <= k < v@.len() ==> #[trigger] v@[k] < 10,
            target == digit_chars(rev_digits(v@)),
            target.len() == len,
            out@ == target.subrange(0, (len - j) as int),
        decreases j,
    {
        j = j - 1;
        let d = v[j];
        proof {
            assert(target[(len - 1 - j) as int] == digit_char(v@[j as int] as int));
            assert(target.subrange(0, (len - j) as int) =~= target.subrange(
                0,
                (len - 1 - j) as int,
            ).push(target[(len - 1 - j) as int]));
        }
        out.append(digit_str(d));
    }
    proof {
        assert(target.subrange(0, len as int) =~= target);
    }
    out
}

/// Apply the Luhn weighting to a least-significant-first digit vector: the
/// digit at even index (counting from the least significant at index zero)
/// stays, the digit at odd index is doubled, minus nine when the double
/// exceeds nine.
fn weight_vec(v: &Vec<u8>) -> (w: Vec<u8>)
    requires
        forall|k: int| 0 <= k < v@.len() ==> #[trigger] v@[k] < 10,
    ensures
        w@.len() == v@.len(),
        forall|k: int| 0 <= k < w@.len() ==> #[trigger] w@[k] < 10,
        rev_digits(w@) == luhn_weight(rev_digits(v@), false),
{
    let len = v.len();
    let mut w: Vec<u8> = Vec::new();
    let mut j: usize = 0;
    while j < len
        invariant
            j <= len,
            len == v@.len(),
            forall|k: int| 0 <= k < v@.len() ==> #[trigger] v@[k] < 10,
            w@.len() == j,
            forall|k: int|
                0 <= k < j ==> #[trigger] w@[k] == luhn_contrib(
                    v@[k] as int,
                    k % 2 == 1,
                ),
            forall|k: int| 0 <= k < j ==> #[trigger] w@[k] < 10,
        decreases len - j,
    {
        let d = v[j];
        let t: u8 = if j % 2 == 1 {
            if d < 5 {
                d * 2
            } else {
                d * 2 - 9
            }
        } else {
            d
        };
        w.push(t);
        j = j + 1;
    }
    proof {
        lemma_luhn_weight_index(rev_digits(v@), false);
        assert(rev_digits(w@) =~= luhn_weight(rev_digits(v@), false)) by {
            let n = len as int;
            assert(forall|k: int|
                0 <= k < n ==> #[trigger] rev_digits(w@)[k] == w@[n - 1 - k]);
            assert(forall|k: int|
                0 <= k < n ==> #[trigger] luhn_weight(rev_digits(v@), false)[k] == luhn_contrib(
                    v@[n - 1 - k] as int,
                    if (n - 1 - k) % 2 == 0 {
                        false
                    } else {
                        true
                    },
                ));
        }
    }
    w
}

/// The Luhn checksum, modulo ten, of a least-significant-first digit
/// vector, weighting the digit at index zero as doubled — the weighting the
/// digits take once a check digit is appended after them.
fn check_sum(v: &Vec<u8>) -> (s: u8)
    requires
        forall|k: int| 0 <= k < v@.len() ==> #[trigger] v@[k] < 10,
    ensures
        s < 10,
        s as int == digit_sum(rev_digits(v@), true) % 10,
{
    let ghost t = rev_digits(v@);
    let len = v.len();
    let mut sum: u8 = 0;
    let mut j: usize = 0;
    while j < len
        invariant
            j <= len,
            len == v@.len(),
            t == rev_digits(v@),
            t.len() == len,
            forall|k: int| 0 <= k < v@.len() ==> #[trigger] v@[k] < 10,
            sum < 10,
            sum as int == digit_sum(t.subrange((len - j) as int, len as int), true) % 10,
        decreases len - j,
    {
        let d = v[j];
        let w: u8 = if j % 2 == 0 {
            if d < 5 {
                d * 2
            } else {
                d * 2 - 9
            }
        } else {
            d
        };
        proof {
            let tail = t.subrange((len - j) as int, len as int);
            assert(t.subrange((len - j - 1) as int, len as int) =~= seq![t[(len - 1 - j) as int]]
                + tail);
            assert(t[(len - 1 - j) as int] == v@[j as int] as int);
            lemma_digit_sum_prepend(d as int, tail, true);
            assert(w as int == luhn_contrib(
                d as int,
                if tail.len() % 2 == 0 {
                    true
                } else {
                    false
                },
            ));
            lemma_add_mod_noop_right(w as int, digit_sum(tail, true), 10);
        }
        sum = (sum + w) % 10;
        j = j + 1;
    }
    proof {
        assert(t.subrange(0, len as int) =~= t);
    }
    sum
}

/// Candidates are drawn below ten to the eighteenth, so a candidate has at
/// most eighteen digits.
pub const SEED_BOUND: u64 = 0xDE0B6B3A7640000;

/// Relies on `rand::Rng::gen_range` over `0..bound`, with the thread-local
/// generator of `rand::thread_rng`: it returns a uniformly drawn value of
/// the range, and panics only when the range is empty.
#[verifier::external_body]
fn random_below(bound: u64) -> (r: u64)
    requires
        bound > 0,
    ensures
        r < bound,
{
    rand::thread_rng().gen_range(0..bound)
}

/// The candidate drawn from `seed`: the decimal digits of `seed` with the
/// Luhn weighting applied — every other digit doubled, starting with the
/// second from the right, minus nine when the double exceeds nine.
pub fn candidate_from(seed: u64) -> (r: String)
    ensures
        r@ == digit_chars(luhn_weight(decimal_digits(seed as nat), false)),
        r@.len() >= 1,
        all_digit_chars(r@),
{
    let ds = digits_of(seed);
    let w = weight_vec(&ds);
    let r = digit_string(&w);
    proof {
        lemma_luhn_weight_index(rev_digits(ds@), false);
        lemma_digit_chars_are_digits(rev_digits(w@));
    }
    r
}

/// A string the validator accepts, built from the digits of `seed` followed
/// by the check digit that brings the checksum to a multiple of ten.
pub fn make_valid_from(seed: u64) -> (r: String)
    ensures
        r@ == digit_chars(decimal_digits(seed as nat).push(check_digit(seed as nat))),
        spec_is_valid(r@),
        all_digit_chars(r@),
        r@.len() >= 2,
{
    let ds = digits_of(seed);
    let s = check_sum(&ds);
    let c: u8 = if s == 0 {
        0
    } else {
        10 - s
    };
    let mut full: Vec<u8> = Vec::new();
    full.push(c);
    let len = ds.len();
    let mut k: usize = 0;
    while k < len
        invariant
            k <= len,
            len == ds@.len(),
            forall|q: int| 0 <= q < ds@.len() ==> #[trigger] ds@[q] < 10,
            c < 10,
            full@ == seq![c] + ds@.subrange(0, k as int),
        decreases len - k,
    {
        let d = ds[k];
        full.push(d);
        proof {
            assert(full@ =~= seq![c] + ds@.subrange(0, k + 1));
        }
        k = k + 1;
    }
    proof {
        assert(full@ =~= seq![c] + ds@);
    }
    let r = digit_string(&full);
    proof {
        let ghost t = decimal_digits(seed as nat);
        lemma_decimal_digits_bounds(seed as nat);
        assert(rev_digits(full@) =~= t.push(c as int));
        lemma_digit_chars_are_digits(t.push(c as int));
        lemma_luhn_sum_digit_chars(t.push(c as int), false);
        assert(digit_sum(t.push(c as int), false) == digit_sum(t, true) + c) by {
            assert((t.push(c as int)).last() == c as int);
            assert((t.push(c as int)).drop_last() =~= t);
        }
        let a = digit_sum(t, true);
        assert((a + c) % 10 == 0) by {
            lemma_add_mod_noop_right(c as int, a, 10);
            assert((c + a % 10) % 10 == (c + a) % 10);
            if s == 0 {
            } else {
                assert(c + a % 10 == 10);
            }
        }
        lemma_strip_all_digits(r@);
        assert(r@.len() == t.len() + 1);
    }
    r
}

/// A randomly generated string that the validator accepts.
///
/// Random candidates — a random integer's digits with the Luhn weighting
/// applied — are tested against the validator; the first accepted one is
/// returned. Should every candidate in a bounded number of draws be
/// rejected, the result is built directly by appending a check digit to a
/// random integer's digits, so the function always returns an accepted
/// digit string with no separators.
pub fn generate() -> (r: String)
    ensures
        spec_is_valid(r@),
        all_digit_chars(r@),
        r@.len() >= 2,
        exists|seed: u64|
            seed < SEED_BOUND && (r@ == digit_chars(
                luhn_weight(#[trigger] decimal_digits(seed as nat), false),
            ) || r@ == digit_chars(
                decimal_digits(seed as nat).push(check_digit(seed as nat)),
            )),
{
    let mut tries: usize = 64;
    while tries > 0
        decreases tries,
    {
        let seed = random_below(SEED_BOUND);
        let cand = candidate_from(seed);
        if is_valid(&cand) {
            proof {
                lemma_strip_all_digits(cand@);
                assert(seed < SEED_BOUND && cand@ == digit_chars(
                    luhn_weight(decimal_digits(seed as nat), false),
                ));
            }
            return cand;
        }
        tries = tries - 1;
    }
    let seed = random_below(SEED_BOUND);
    let r = make_valid_from(seed);
    proof {
        assert(seed < SEED_BOUND && r@ == digit_chars(
            decimal_digits(seed as nat).push(check_digit(seed as nat)),
        ));
    }
    r
}

} // verus!
