//! Numbers as they stand in a field of the input: identifiers and amounts.

use vstd::prelude::*;
use crate::model::Amount;

verus! {

/// The value of byte `b` as a digit in `radix` (10 or 16), if it is one.
pub open spec fn digit_value(b: u8, radix: int) -> Option<int> {
    if 0x30 <= b <= 0x39 {
        Some(b - 0x30)
    } else if radix == 16 && 0x61 <= b <= 0x66 {
        Some(b - 0x61 + 10)
    } else if radix == 16 && 0x41 <= b <= 0x46 {
        Some(b - 0x41 + 10)
    } else {
        None
    }
}

/// Whether every byte of `s` is a digit in `radix`.
pub open spec fn all_digits(s: Seq<u8>, radix: int) -> bool {
    forall|i: int| 0 <= i < s.len() ==> (#[trigger] digit_value(s[i], radix)) is Some
}

/// The number that the digits `s` write in `radix`, most significant first.
pub open spec fn digits_value(s: Seq<u8>, radix: int) -> int
    decreases s.len(),
{
    if s.len() == 0 {
        0
    } else {
        digits_value(s.drop_last(), radix) * radix + digit_value(s.last(), radix).unwrap()
    }
}

/// The number that `s` writes, if `s` is made of digits only and the number
/// is at most `limit`.
pub open spec fn bounded_digits(s: Seq<u8>, radix: int, limit: int) -> Option<int> {
    if all_digits(s, radix) && digits_value(s, radix) <= limit {
        Some(digits_value(s, radix))
    } else {
        None
    }
}

/// A number is at least as large as the number that any prefix of its digits writes.
pub proof fn lemma_digits_value_grows(s: Seq<u8>, radix: int, k: int)
    requires
        radix == 10 || radix == 16,
        all_digits(s, radix),
        0 <= k <= s.len(),
    ensures
        0 <= digits_value(s.take(k), radix) <= digits_value(s, radix),
    decreases s.len() - k,
{
    if k == s.len() {
        assert(s.take(k) =~= s);
        lemma_digits_value_nonnegative(s, radix);
    } else {
        lemma_digits_value_grows(s, radix, k + 1);
        let longer = s.take(k + 1);
        assert(longer.drop_last() =~= s.take(k));
        assert(digit_value(longer.last(), radix) is Some);
        lemma_digits_value_nonnegative(s.take(k), radix);
        let v = digits_value(s.take(k), radix);
        assert(v * radix >= v) by (nonlinear_arith)
            requires
                v >= 0,
                radix >= 1,
        ;
    }
}

/// Digits never write a negative number.
pub proof fn lemma_digits_value_nonnegative(s: Seq<u8>, radix: int)
    requires
        radix == 10 || radix == 16,
        forall|i: int| 0 <= i < s.len() ==> (#[trigger] digit_value(s[i], radix)) is Some,
    ensures
        0 <= digits_value(s, radix),
    decreases s.len(),
{
    if s.len() > 0 {
        lemma_digits_value_nonnegative(s.drop_last(), radix);
        assert(digit_value(s.last(), radix) is Some);
        let v = digits_value(s.drop_last(), radix);
        assert(v * radix >= 0) by (nonlinear_arith)
            requires
                v >= 0,
                radix >= 1,
        ;
    }
}

/// Reads the digit `b` in `radix`.
pub fn read_digit(b: u8, radix: u8) -> (r: Option<u8>)
    requires
        radix == 10 || radix == 16,
    ensures
        r matches Some(d) ==> digit_value(b, radix as int) == Some(d as int) && d < radix,
        r is None ==> digit_value(b, radix as int) is None,
{
    if 0x30 <= b && b <= 0x39 {
        Some(b - 0x30)
    } else if radix == 16 && 0x61 <= b && b <= 0x66 {
        Some(b - 0x61 + 10)
    } else if radix == 16 && 0x41 <= b && b <= 0x46 {
        Some(b - 0x41 + 10)
    } else {
        None
    }
}

/// Reads the bytes of `field` from `start` up to `end` as one number in
/// `radix`, and refuses anything that is not a digit and any number above
/// `limit`.
pub fn read_digits(field: &[u8], start: usize, end: usize, radix: u8, limit: u64) -> (r: Option<
    u64,
>)
    requires
        radix == 10 || radix == 16,
        start <= end <= field.len(),
        limit <= 0x0fff_ffff_ffff_ffff,
    ensures
        r matches Some(v) ==> bounded_digits(
            field@.subrange(start as int, end as int),
            radix as int,
            limit as int,
        ) == Some(v as int),
        r is None ==> bounded_digits(
            field@.subrange(start as int, end as int),
            radix as int,
            limit as int,
        ) is None,
{
    let ghost digits = field@.subrange(start as int, end as int);
    let mut value: u64 = 0;
    let mut i: usize = start;
    while i < end
        invariant
            radix == 10 || radix == 16,
            start <= i <= end <= field.len(),
            limit <= 0x0fff_ffff_ffff_ffff,
            digits == field@.subrange(start as int, end as int),
            all_digits(digits.take(i - start), radix as int),
            value == digits_value(digits.take(i - start), radix as int),
            value <= limit,
        decreases end - i,
    {
        let ghost seen = digits.take(i - start);
        let ghost next = digits.take(i - start + 1);
        assert(next.drop_last() =~= seen);
        assert(next.last() == field@[i as int]);
        match read_digit(field[i], radix) {
            None => {
                assert(digit_value(digits[i - start], radix as int) is None);
                return None;
            },
            Some(d) => {
                assert(value * radix + d <= 0xffff_ffff_ffff_ffff) by (nonlinear_arith)
                    requires
                        value <= 0x0fff_ffff_ffff_ffff,
                        radix <= 16,
                        d < 16,
                ;
                let grown: u64 = value * (radix as u64) + (d as u64);
                assert forall|j: int| 0 <= j < next.len() implies (#[trigger] digit_value(
                    next[j],
                    radix as int,
                )) is Some by {
                    if j < seen.len() {
                        assert(next[j] == seen[j]);
                    }
                }
                if grown > limit {
                    proof {
                        if all_digits(digits, radix as int) {
                            lemma_digits_value_grows(digits, radix as int, i - start + 1);
                        }
                    }
                    return None;
                }
                value = grown;
            },
        }
        i = i + 1;
    }
    assert(digits.take(i - start) =~= digits);
    Some(value)
}

/// The unsigned number that `field` writes, if it writes one of at most `limit`.
pub open spec fn unsigned_of(field: Seq<u8>, limit: int) -> Option<int> {
    let hex = field.len() >= 2 && field[0] == 0x30 && field[1] == 0x78;
    let body = if hex {
        field.skip(2)
    } else {
        field
    };
    let digits = if body.len() > 0 && body[0] == 0x2b {
        body.skip(1)
    } else {
        body
    };
    if digits.len() > 0 {
        bounded_digits(
            digits,
            if hex {
                16
            } else {
                10
            },
            limit,
        )
    } else {
        None
    }
}

/// Reads an unsigned number of at most `limit`: decimal digits, or `0x` and
/// hexadecimal digits, in either case with an optional `+` before the digits.
pub fn read_unsigned(field: &[u8], limit: u32) -> (r: Option<u32>)
    ensures
        r matches Some(v) ==> unsigned_of(field@, limit as int) == Some(v as int),
        r is None ==> unsigned_of(field@, limit as int) is None,
{
    let hex = field.len() >= 2 && field[0] == 0x30 && field[1] == 0x78;
    let after_prefix: usize = if hex {
        2
    } else {
        0
    };
    let signed = after_prefix < field.len() && field[after_prefix] == 0x2b;
    let start: usize = if signed {
        after_prefix + 1
    } else {
        after_prefix
    };
    let radix: u8 = if hex {
        16
    } else {
        10
    };
    proof {
        let body = if hex {
            field@.skip(2)
        } else {
            field@
        };
        assert(body =~= field@.skip(after_prefix as int));
        let digits = if body.len() > 0 && body[0] == 0x2b {
            body.skip(1)
        } else {
            body
        };
        assert(digits =~= field@.subrange(start as int, field.len() as int));
    }
    if start == field.len() {
        return None;
    }
    match read_digits(field, start, field.len(), radix, limit as u64) {
        Some(v) => Some(v as u32),
        None => None,
    }
}

/// Position of the first `.` in `s`, or the length of `s` if it holds none.
pub open spec fn point_position(s: Seq<u8>) -> int
    decreases s.len(),
{
    if s.len() == 0 || s[0] == 0x2e {
        0
    } else {
        1 + point_position(s.skip(1))
    }
}

/// The digit at place `i` behind the point, zero where the digits have ended.
pub open spec fn place(fraction: Seq<u8>, i: int) -> int {
    if i < fraction.len() {
        fraction[i] - 0x30
    } else {
        0
    }
}

/// The digits behind the point in ten-thousandths, rounded half up.
pub open spec fn fraction_value(fraction: Seq<u8>) -> int {
    place(fraction, 0) * 1000 + place(fraction, 1) * 100 + place(fraction, 2) * 10 + place(
        fraction,
        3,
    ) + if place(fraction, 4) >= 5 {
        1int
    } else {
        0int
    }
}

/// The size in ten-thousandths of the unsigned decimal number `body`: digits,
/// a point and digits, with at least one digit on either side of the point.
/// Digits beyond the fourth place are rounded half up.
pub open spec fn magnitude_of(body: Seq<u8>) -> Option<int> {
    let k = point_position(body);
    let whole = body.take(k);
    let fraction = if k < body.len() {
        body.skip(k + 1)
    } else {
        Seq::<u8>::empty()
    };
    if all_digits(whole, 10) && all_digits(fraction, 10) && whole.len() + fraction.len() > 0 {
        Some(digits_value(whole, 10) * 10000 + fraction_value(fraction))
    } else {
        None
    }
}

/// The amount that `field` writes, in ten-thousandths: an optional sign and
/// an unsigned decimal number of at most the largest amount.
pub open spec fn amount_of(field: Seq<u8>) -> Option<int> {
    let signed = field.len() > 0 && (field[0] == 0x2b || field[0] == 0x2d);
    let body = if signed {
        field.skip(1)
    } else {
        field
    };
    match magnitude_of(body) {
        Some(m) => if m > 0x7fff_ffff_ffff_ffff {
            None
        } else if signed && field[0] == 0x2d {
            Some(-m)
        } else {
            Some(m)
        },
        None => None,
    }
}

/// The first `.` stands where no `.` stands before and one stands, or the
/// bytes end.
pub proof fn lemma_point_position(s: Seq<u8>, k: int)
    requires
        0 <= k <= s.len(),
        forall|j: int| 0 <= j < k ==> s[j] != 0x2e,
        k == s.len() || s[k] == 0x2e,
    ensures
        point_position(s) == k,
    decreases k,
{
    if k > 0 {
        let rest = s.skip(1);
        assert forall|j: int| 0 <= j < k - 1 implies rest[j] != 0x2e by {
            assert(rest[j] == s[j + 1]);
        }
        lemma_point_position(rest, k - 1);
    }
}

/// The digits behind the point are worth less than one unit and a rounding step.
pub proof fn lemma_fraction_value_bounds(fraction: Seq<u8>)
    requires
        all_digits(fraction, 10),
    ensures
        0 <= fraction_value(fraction) <= 10000,
{
    assert forall|i: int| 0 <= i < 5 implies 0 <= #[trigger] place(fraction, i) <= 9 by {
        if i < fraction.len() {
            assert(digit_value(fraction[i], 10) is Some);
        }
    }
    assert(0 <= place(fraction, 0) <= 9);
    assert(0 <= place(fraction, 1) <= 9);
    assert(0 <= place(fraction, 2) <= 9);
    assert(0 <= place(fraction, 3) <= 9);
}

/// Whether the bytes of `field` from `start` on are decimal digits.
pub fn decimal_from(field: &[u8], start: usize) -> (r: bool)
    requires
        start <= field.len(),
    ensures
        r == all_digits(field@.skip(start as int), 10),
{
    let ghost digits = field@.skip(start as int);
    let mut i: usize = start;
    while i < field.len()
        invariant
            start <= i <= field.len(),
            digits == field@.skip(start as int),
            forall|j: int| 0 <= j < i - start ==> (#[trigger] digit_value(digits[j], 10)) is Some,
        decreases field.len() - i,
    {
        if read_digit(field[i], 10).is_none() {
            assert(digit_value(digits[i - start], 10) is None);
            return false;
        }
        i = i + 1;
    }
    true
}

/// The digit of `field` at place `i` after `start`, zero where `field` has ended.
fn place_at(field: &[u8], start: usize, i: usize) -> (r: u64)
    requires
        start <= field.len(),
        i < 5,
        all_digits(field@.skip(start as int), 10),
    ensures
        r == place(field@.skip(start as int), i as int),
        r <= 9,
{
    if i < field.len() - start {
        assert(digit_value(field@.skip(start as int)[i as int], 10) is Some);
        (field[start + i] - 0x30) as u64
    } else {
        0
    }
}

/// Reads an amount: an optional sign, digits, and an optional point followed
/// by digits. Returns the amount in ten-thousandths, or `None` where `field`
/// is written otherwise or the amount is out of range.
pub fn read_amount(field: &[u8]) -> (r: Option<Amount>)
    ensures
        r matches Some(v) ==> amount_of(field@) == Some(v as int),
        r is None ==> amount_of(field@) is None,
{
    let signed = field.len() > 0 && (field[0] == 0x2b || field[0] == 0x2d);
    let negative = signed && field[0] == 0x2d;
    let start: usize = if signed {
        1
    } else {
        0
    };
    let ghost body = if signed {
        field@.skip(1)
    } else {
        field@
    };
    assert(body =~= field@.skip(start as int));
    let mut point: usize = start;
    while point < field.len() && field[point] != 0x2e
        invariant
            start <= point <= field.len(),
            forall|j: int| start <= j < point ==> field@[j] != 0x2e,
        decreases field.len() - point,
    {
        point = point + 1;
    }
    let after: usize = if point < field.len() {
        point + 1
    } else {
        point
    };
    let ghost whole = field@.subrange(start as int, point as int);
    let ghost fraction = field@.skip(after as int);
    proof {
        lemma_point_position(body, point - start);
        assert(body.take(point - start) =~= whole);
        if point < field.len() {
            assert(body.skip(point - start + 1) =~= fraction);
        } else {
            assert(Seq::<u8>::empty() =~= fraction);
        }
        assert(magnitude_of(body) == if all_digits(whole, 10) && all_digits(fraction, 10)
            && whole.len() + fraction.len() > 0 {
            Some(digits_value(whole, 10) * 10000 + fraction_value(fraction))
        } else {
            None
        });
    }
    if (point - start) + (field.len() - after) == 0 {
        return None;
    }
    if !decimal_from(field, after) {
        return None;
    }
    proof {
        lemma_fraction_value_bounds(fraction);
    }
    let units = match read_digits(field, start, point, 10, 922_337_203_685_477) {
        Some(units) => units,
        None => {
            return None;
        },
    };
    let rounding: u64 = if place_at(field, after, 4) >= 5 {
        1
    } else {
        0
    };
    let magnitude: u64 = units * 10000 + place_at(field, after, 0) * 1000 + place_at(
        field,
        after,
        1,
    ) * 100 + place_at(field, after, 2) * 10 + place_at(field, after, 3) + rounding;
    if magnitude > 0x7fff_ffff_ffff_ffff {
        return None;
    }
    if negative {
        Some(-(magnitude as i64))
    } else {
        Some(magnitude as i64)
    }
}

} // verus!
