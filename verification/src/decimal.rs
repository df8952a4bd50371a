//! Decimal numbers in fixed point: a number is held as a whole count of
//! millionths, read from and written as decimal text.

use vstd::prelude::*;
use vstd::slice::slice_subrange;
use crate::text::{free_of, lemma_split_joined, lemma_split_single, split, split_fields};

verus! {

/// The number of fixed-point steps in one unit.
pub const SCALE: u64 = 1_000_000;

/// The number of fraction digits that a fixed-point value holds.
pub const PLACES: usize = 6;

/// The decimal point.
pub const POINT: u8 = 0x2e;

/// The minus sign.
pub const MINUS: u8 = 0x2d;

/// The plus sign.
pub const PLUS: u8 = 0x2b;

/// The digit zero; the other digits follow it.
pub const ZERO: u8 = 0x30;

/// The greatest whole part whose millionths can still fit in an `i64`.
pub const WHOLE_LIMIT: u64 = 9_223_372_036_854;

/// Whether `b` is a decimal digit.
pub open spec fn is_digit(b: u8) -> bool {
    0x30 <= b && b <= 0x39
}

/// Whether `s` is made of decimal digits only.
pub open spec fn all_digits(s: Seq<u8>) -> bool {
    forall|i: int| 0 <= i < s.len() ==> is_digit(#[trigger] s[i])
}

/// The number that the digits `s` write, most significant first.
pub open spec fn digits_value(s: Seq<u8>) -> nat
    decreases s.len(),
{
    if s.len() == 0 {
        0
    } else {
        digits_value(s.drop_last()) * 10 + (s.last() - 0x30) as nat
    }
}

/// The first six digits of a fraction, with zeros where it has none.
pub open spec fn six_places(f: Seq<u8>) -> Seq<u8> {
    Seq::new(
        6,
        |k: int|
            if k < f.len() {
                f[k]
            } else {
                0x30u8
            },
    )
}

/// Whether `s` starts with a sign.
pub open spec fn has_sign(s: Seq<u8>) -> bool {
    s.len() > 0 && (s[0] == MINUS || s[0] == PLUS)
}

/// `s` without its sign, if it has one.
pub open spec fn unsigned_part(s: Seq<u8>) -> Seq<u8> {
    if has_sign(s) {
        s.drop_first()
    } else {
        s
    }
}

/// The digits before the decimal point.
pub open spec fn whole_digits(s: Seq<u8>) -> Seq<u8> {
    split(unsigned_part(s), POINT)[0]
}

/// The digits after the decimal point; none where there is no point.
pub open spec fn fraction_digits(s: Seq<u8>) -> Seq<u8> {
    let parts = split(unsigned_part(s), POINT);
    if parts.len() >= 2 {
        parts[1]
    } else {
        Seq::<u8>::empty()
    }
}

/// Whether `s` is a decimal number: an optional sign, then digits with at
/// most one decimal point among them, before them or after them, and at
/// least one digit.
pub open spec fn is_decimal(s: Seq<u8>) -> bool {
    &&& split(unsigned_part(s), POINT).len() <= 2
    &&& all_digits(whole_digits(s))
    &&& all_digits(fraction_digits(s))
    &&& whole_digits(s).len() + fraction_digits(s).len() > 0
}

/// The millionths that the decimal number `s` comes to, without its sign.
/// Fraction digits after the sixth are left out.
pub open spec fn decimal_magnitude(s: Seq<u8>) -> nat {
    digits_value(whole_digits(s)) * 1_000_000 + digits_value(six_places(fraction_digits(s)))
}

/// The millionths that the decimal number `s` comes to.
pub open spec fn decimal_millionths(s: Seq<u8>) -> int {
    if s.len() > 0 && s[0] == MINUS {
        -(decimal_magnitude(s) as int)
    } else {
        decimal_magnitude(s) as int
    }
}

/// The fixed-point value of the text `s`: its millionths where `s` is a
/// decimal number that fits in an `i64`, and nothing otherwise.
pub open spec fn decimal_value(s: Seq<u8>) -> Option<i64> {
    if is_decimal(s) && i64::MIN <= decimal_millionths(s) <= i64::MAX {
        Some(decimal_millionths(s) as i64)
    } else {
        None
    }
}

/// Adding a digit at the end never makes the number smaller.
proof fn lemma_digits_value_grows(s: Seq<u8>, k: int)
    requires
        all_digits(s),
        0 <= k <= s.len(),
    ensures
        digits_value(s.take(k)) <= digits_value(s),
    decreases s.len() - k,
{
    if k < s.len() {
        lemma_digits_value_grows(s, k + 1);
        assert(s.take(k + 1).drop_last() =~= s.take(k));
        assert(is_digit(s[k]));
        assert(s.take(k + 1).last() == s[k]);
    } else {
        assert(s.take(k) =~= s);
    }
}

/// Whether `text` is made of digits only.
fn only_digits(text: &[u8]) -> (r: bool)
    ensures
        r == all_digits(text@),
{
    let mut i: usize = 0;
    while i < text.len()
        invariant
            i <= text.len(),
            forall|j: int| 0 <= j < i ==> is_digit(#[trigger] text@[j]),
        decreases text.len() - i,
    {
        let b = text[i];
        if !(0x30 <= b && b <= 0x39) {
            return false;
        }
        i += 1;
    }
    true
}

/// The number that the digits of `text` write, where it is at most `limit`.
fn digits_up_to(text: &[u8], limit: u64) -> (r: Option<u64>)
    requires
        all_digits(text@),
        limit <= 1_000_000_000_000_000_000,
    ensures
        r == if digits_value(text@) <= limit {
            Some(digits_value(text@) as u64)
        } else {
            None
        },
{
    let mut value: u64 = 0;
    let mut i: usize = 0;
    proof {
        assert(text@.take(0) =~= Seq::<u8>::empty());
    }
    while i < text.len()
        invariant
            i <= text.len(),
            all_digits(text@),
            limit <= 1_000_000_000_000_000_000,
            value == digits_value(text@.take(i as int)),
            value <= limit,
        decreases text.len() - i,
    {
        let digit: u64 = (text[i] - 0x30) as u64;
        proof {
            assert(is_digit(text@[i as int]));
            assert(text@.take(i + 1).drop_last() =~= text@.take(i as int));
            assert(text@.take(i + 1).last() == text@[i as int]);
        }
        let next: u64 = value * 10 + digit;
        if next > limit {
            proof {
                lemma_digits_value_grows(text@, i + 1);
            }
            return None;
        }
        value = next;
        i += 1;
    }
    proof {
        assert(text@.take(text.len() as int) =~= text@);
    }
    Some(value)
}

/// The millionths that the first six digits of the fraction `text` write.
fn fraction_millionths(text: &[u8]) -> (r: u64)
    requires
        all_digits(text@),
    ensures
        r == digits_value(six_places(text@)),
        r < 1_000_000,
{
    let mut value: u64 = 0;
    let mut k: usize = 0;
    let ghost places = six_places(text@);
    proof {
        assert(places.take(0) =~= Seq::<u8>::empty());
    }
    while k < 6
        invariant
            k <= 6,
            all_digits(text@),
            places == six_places(text@),
            value == digits_value(places.take(k as int)),
            k == 0 ==> value == 0,
            k == 1 ==> value < 10,
            k == 2 ==> value < 100,
            k == 3 ==> value < 1_000,
            k == 4 ==> value < 10_000,
            k == 5 ==> value < 100_000,
            k == 6 ==> value < 1_000_000,
        decreases 6 - k,
    {
        let digit: u64 = if k < text.len() {
            (text[k] - 0x30) as u64
        } else {
            0
        };
        proof {
            if k < text.len() {
                assert(is_digit(text@[k as int]));
            }
            assert(places.take(k + 1).drop_last() =~= places.take(k as int));
            assert(places.take(k + 1).last() == places[k as int]);
        }
        value = value * 10 + digit;
        k += 1;
    }
    proof {
        assert(places.take(6) =~= places);
    }
    value
}

/// Reads a decimal number into fixed point.
///
/// The text is an optional sign, then digits with at most one decimal
/// point; there is no exponent and no white space. Fraction digits after
/// the sixth are dropped. Text that is no such number, or whose value does
/// not fit, gives `None`.
pub fn parse_decimal(text: &[u8]) -> (r: Option<i64>)
    ensures
        r == decimal_value(text@),
{
    let n = text.len();
    let negative = n > 0 && text[0] == MINUS;
    let signed = n > 0 && (text[0] == MINUS || text[0] == PLUS);
    let body = if signed {
        slice_subrange(text, 1, n)
    } else {
        text
    };
    proof {
        if signed {
            assert(text@.subrange(1, n as int) =~= text@.drop_first());
        }
        assert(body@ == unsigned_part(text@));
    }
    let parts = split_fields(body, POINT);
    if parts.len() > 2 {
        return None;
    }
    proof {
        crate::text::lemma_split_nonempty(body@, POINT);
    }
    let whole = parts[0];
    let fraction = if parts.len() == 2 {
        parts[1]
    } else {
        slice_subrange(body, 0, 0)
    };
    proof {
        assert(whole@ == whole_digits(text@));
        assert(fraction@ =~= fraction_digits(text@));
    }
    if whole.len() == 0 && fraction.len() == 0 {
        return None;
    }
    if !only_digits(whole) || !only_digits(fraction) {
        return None;
    }
    let millionths = fraction_millionths(fraction);
    match digits_up_to(whole, WHOLE_LIMIT) {
        None => None,
        Some(units) => {
            let magnitude: u64 = units * SCALE + millionths;
            if negative {
                if magnitude > 0x8000_0000_0000_0000 {
                    None
                } else {
                    Some((-(magnitude as i128)) as i64)
                }
            } else {
                if magnitude > 0x7fff_ffff_ffff_ffff {
                    None
                } else {
                    Some(magnitude as i64)
                }
            }
        },
    }
}

/// The byte that writes the digit `d`.
pub open spec fn digit_byte(d: nat) -> u8 {
    (0x30 + d) as u8
}

/// The decimal digits of `n`, most significant first, with zeros in front
/// where there would be fewer than `width` of them. There is always at
/// least one digit.
pub open spec fn zero_padded(n: nat, width: nat) -> Seq<u8>
    decreases n, width,
{
    if n < 10 && width <= 1 {
        seq![digit_byte(n)]
    } else {
        zero_padded(
            n / 10,
            if width > 0 {
                (width - 1) as nat
            } else {
                0
            },
        ).push(digit_byte(n % 10))
    }
}

/// `s` without the zeros at its end.
pub open spec fn without_trailing_zeros(s: Seq<u8>) -> Seq<u8>
    decreases s.len(),
{
    if s.len() > 0 && s.last() == ZERO {
        without_trailing_zeros(s.drop_last())
    } else {
        s
    }
}

/// The magnitude of `v`.
pub open spec fn magnitude(v: int) -> nat {
    if v < 0 {
        (-v) as nat
    } else {
        v as nat
    }
}

/// The decimal text of the fixed-point value `v`: a minus sign where it is
/// negative, the whole part, and, where the fraction is not zero, a point
/// and the fraction's digits up to the last that is not zero.
pub open spec fn decimal_text(v: int) -> Seq<u8> {
    let whole = magnitude(v) / 1_000_000;
    let fraction = magnitude(v) % 1_000_000;
    let sign = if v < 0 {
        seq![MINUS]
    } else {
        Seq::<u8>::empty()
    };
    let tail = if fraction == 0 {
        Seq::<u8>::empty()
    } else {
        seq![POINT] + without_trailing_zeros(zero_padded(fraction, 6))
    };
    sign + zero_padded(whole, 1) + tail
}

/// Writes the digits of `n` at the end of `out`, with zeros in front where
/// there would be fewer than `width` of them.
pub fn push_padded(out: &mut Vec<u8>, n: u128, width: usize)
    ensures
        final(out)@ == old(out)@ + zero_padded(n as nat, width as nat),
{
    let at = out.len();
    let mut rest: u128 = n;
    let mut left: usize = width;
    let ghost mut written = Seq::<u8>::empty();
    loop
        invariant_except_break
            at == old(out)@.len(),
            out@ == old(out)@ + written,
            zero_padded(n as nat, width as nat) == zero_padded(rest as nat, left as nat) + written,
        ensures
            out@ == old(out)@ + zero_padded(n as nat, width as nat),
        decreases rest, left,
    {
        let digit: u8 = (rest % 10) as u8 + 0x30;
        out.insert(at, digit);
        proof {
            assert(out@ =~= old(out)@ + (seq![digit] + written));
        }
        if rest < 10 && left <= 1 {
            proof {
                assert(zero_padded(rest as nat, left as nat) + written =~= seq![digit] + written);
            }
            break ;
        }
        proof {
            let shorter = zero_padded(
                (rest / 10) as nat,
                if left > 0 {
                    (left - 1) as nat
                } else {
                    0
                },
            );
            assert(zero_padded(rest as nat, left as nat) == shorter.push(digit));
            assert(shorter.push(digit) + written =~= shorter + (seq![digit] + written));
            written = seq![digit] + written;
        }
        rest = rest / 10;
        if left > 0 {
            left = left - 1;
        }
    }
}

/// Writes the fixed-point value `v` as decimal text: `5500000` as `5.5`,
/// `21000000` as `21`, `-250000` as `-0.25`.
pub fn format_decimal(v: i64) -> (text: Vec<u8>)
    ensures
        text@ == decimal_text(v as int),
{
    let mut text: Vec<u8> = Vec::new();
    let size: u64 = if v < 0 {
        (-(v as i128)) as u64
    } else {
        v as u64
    };
    if v < 0 {
        text.push(MINUS);
    }
    push_padded(&mut text, (size / SCALE) as u128, 1);
    let fraction: u64 = size % SCALE;
    if fraction != 0 {
        text.push(POINT);
        let mut digits: Vec<u8> = Vec::new();
        push_padded(&mut digits, fraction as u128, PLACES);
        assert(digits@ =~= zero_padded(fraction as nat, 6));
        let mut end: usize = digits.len();
        proof {
            assert(digits@.take(end as int) =~= digits@);
        }
        while end > 0 && digits[end - 1] == ZERO
            invariant
                end <= digits.len(),
                without_trailing_zeros(digits@) == without_trailing_zeros(digits@.take(end as int)),
            decreases end,
        {
            proof {
                assert(digits@.take(end as int).drop_last() =~= digits@.take(end - 1));
            }
            end -= 1;
        }
        let mut k: usize = 0;
        let ghost front = text@;
        while k < end
            invariant
                k <= end <= digits.len(),
                text@ == front + digits@.take(k as int),
            decreases end - k,
        {
            text.push(digits[k]);
            proof {
                assert(digits@.take(k + 1) =~= digits@.take(k as int).push(digits@[k as int]));
            }
            k += 1;
        }
        proof {
            assert(text@ =~= decimal_text(v as int));
        }
    } else {
        proof {
            assert(text@ =~= decimal_text(v as int));
        }
    }
    text
}

/// Zeros alone write the number zero.
proof fn lemma_zeros_value(s: Seq<u8>)
    requires
        forall|i: int| 0 <= i < s.len() ==> s[i] == ZERO,
    ensures
        digits_value(s) == 0,
    decreases s.len(),
{
    if s.len() > 0 {
        lemma_zeros_value(s.drop_last());
    }
}

/// The padded digits of `n` are digits, at least one and at least `width`
/// of them, and they write `n`.
pub proof fn lemma_zero_padded(n: nat, width: nat)
    ensures
        all_digits(zero_padded(n, width)),
        zero_padded(n, width).len() >= 1,
        zero_padded(n, width).len() >= width,
        digits_value(zero_padded(n, width)) == n,
    decreases n, width,
{
    let z = zero_padded(n, width);
    if n < 10 && width <= 1 {
        assert(z.drop_last() =~= Seq::<u8>::empty());
        assert(digits_value(z.drop_last()) == 0);
    } else {
        let narrower = if width > 0 {
            (width - 1) as nat
        } else {
            0
        };
        lemma_zero_padded(n / 10, narrower);
        let front = zero_padded(n / 10, narrower);
        assert(z.drop_last() =~= front);
        assert forall|i: int| 0 <= i < z.len() implies is_digit(#[trigger] z[i]) by {
            if i < front.len() {
                assert(is_digit(front[i]));
            }
        }
    }
}

/// A number below 10^6 has exactly six padded digits.
proof fn lemma_six_digits(n: nat)
    requires
        n < 1_000_000,
    ensures
        zero_padded(n, 6).len() == 6,
{
    reveal_with_fuel(zero_padded, 7);
}

/// What is left of `z` without its trailing zeros is a prefix of `z`, and
/// the rest of `z` is zeros.
proof fn lemma_without_trailing_zeros(z: Seq<u8>)
    ensures
        without_trailing_zeros(z).len() <= z.len(),
        without_trailing_zeros(z) == z.take(without_trailing_zeros(z).len() as int),
        forall|i: int| without_trailing_zeros(z).len() <= i < z.len() ==> z[i] == ZERO,
        without_trailing_zeros(z).len() > 0 ==> without_trailing_zeros(z).last() != ZERO,
    decreases z.len(),
{
    if z.len() > 0 && z.last() == ZERO {
        lemma_without_trailing_zeros(z.drop_last());
        let t = without_trailing_zeros(z);
        assert(z.drop_last().take(t.len() as int) =~= z.take(t.len() as int));
        assert forall|i: int| t.len() <= i < z.len() implies z[i] == ZERO by {
            if i < z.len() - 1 {
                assert(z.drop_last()[i] == z[i]);
            }
        }
    } else {
        assert(z.take(z.len() as int) =~= z);
    }
}

/// The value of a text put together from a sign, whole digits and,
/// behind a point, fraction digits.
proof fn lemma_decimal_parts(
    s: Seq<u8>,
    negative: bool,
    whole: Seq<u8>,
    pointed: bool,
    fraction: Seq<u8>,
)
    requires
        all_digits(whole),
        all_digits(fraction),
        whole.len() + fraction.len() > 0,
        !pointed ==> fraction.len() == 0,
        s == (if negative {
            seq![MINUS]
        } else {
            Seq::<u8>::empty()
        }) + whole + (if pointed {
            seq![POINT] + fraction
        } else {
            Seq::<u8>::empty()
        }),
    ensures
        is_decimal(s),
        decimal_magnitude(s) == digits_value(whole) * 1_000_000 + digits_value(
            six_places(fraction),
        ),
        (s.len() > 0 && s[0] == MINUS) == negative,
{
    let tail = if pointed {
        seq![POINT] + fraction
    } else {
        Seq::<u8>::empty()
    };
    let body = whole + tail;
    assert(body.len() > 0);
    assert(body[0] != MINUS && body[0] != PLUS) by {
        if whole.len() > 0 {
            assert(is_digit(whole[0]));
            assert(body[0] == whole[0]);
        } else {
            assert(body[0] == POINT);
        }
    }
    if negative {
        assert(s[0] == MINUS);
        assert(s.drop_first() =~= body);
    } else {
        assert(s =~= body);
    }
    assert(unsigned_part(s) == body);
    assert(free_of(whole, POINT)) by {
        assert forall|i: int| 0 <= i < whole.len() implies #[trigger] whole[i] != POINT by {
            assert(is_digit(whole[i]));
        }
    }
    assert(free_of(fraction, POINT)) by {
        assert forall|i: int| 0 <= i < fraction.len() implies #[trigger] fraction[i] != POINT by {
            assert(is_digit(fraction[i]));
        }
    }
    lemma_split_single(whole, POINT);
    if pointed {
        lemma_split_joined(whole, fraction, POINT);
        assert(body =~= whole + seq![POINT] + fraction);
        assert(split(body, POINT) =~= seq![whole, fraction]);
    } else {
        assert(body =~= whole);
        assert(fraction =~= Seq::<u8>::empty());
    }
    assert(whole_digits(s) == whole);
    assert(fraction_digits(s) == fraction);
}

/// A run of digits is a decimal number: the number that the digits write,
/// taken as units.
pub proof fn lemma_digits_are_decimal(digits: Seq<u8>)
    requires
        all_digits(digits),
        digits.len() > 0,
    ensures
        is_decimal(digits),
        decimal_millionths(digits) == digits_value(digits) * 1_000_000,
{
    let none = Seq::<u8>::empty();
    assert(none + digits + none =~= digits);
    lemma_decimal_parts(digits, false, digits, false, none);
    lemma_zeros_value(six_places(none));
}

/// Reading what was written gives the value back: the text that
/// `format_decimal` writes for a value is read by `parse_decimal` as that
/// value.
pub proof fn lemma_decimal_round_trip(v: i64)
    ensures
        decimal_value(decimal_text(v as int)) == Some(v),
{
    let size = magnitude(v as int);
    let whole = size / 1_000_000;
    let fraction = size % 1_000_000;
    let w = zero_padded(whole, 1);
    lemma_zero_padded(whole, 1);
    let none = Seq::<u8>::empty();
    if fraction == 0 {
        lemma_decimal_parts(decimal_text(v as int), v < 0, w, false, none);
        lemma_zeros_value(six_places(none));
    } else {
        let z = zero_padded(fraction, 6);
        let f = without_trailing_zeros(z);
        lemma_zero_padded(fraction, 6);
        lemma_six_digits(fraction);
        lemma_without_trailing_zeros(z);
        assert(all_digits(f)) by {
            assert forall|i: int| 0 <= i < f.len() implies is_digit(#[trigger] f[i]) by {
                assert(f[i] == z[i]);
                assert(is_digit(z[i]));
            }
        }
        assert(six_places(f) =~= z) by {
            assert forall|k: int| 0 <= k < 6 implies six_places(f)[k] == z[k] by {
                if k < f.len() {
                    assert(f[k] == z[k]);
                }
            }
        }
        lemma_decimal_parts(decimal_text(v as int), v < 0, w, true, f);
    }
}

/// Whether `b` can stand in the text of a decimal number: a digit, the
/// minus sign or the point.
pub open spec fn is_decimal_byte(b: u8) -> bool {
    is_digit(b) || b == MINUS || b == POINT
}

/// The text of a value is not empty, and is made of digits, the minus sign
/// and the point alone.
pub proof fn lemma_decimal_text_bytes(v: i64)
    ensures
        decimal_text(v as int).len() > 0,
        forall|i: int|
            0 <= i < decimal_text(v as int).len() ==> is_decimal_byte(
                #[trigger] decimal_text(v as int)[i],
            ),
{
    let size = magnitude(v as int);
    let whole = size / 1_000_000;
    let fraction = size % 1_000_000;
    let w = zero_padded(whole, 1);
    let z = zero_padded(fraction, 6);
    let f = without_trailing_zeros(z);
    lemma_zero_padded(whole, 1);
    lemma_zero_padded(fraction, 6);
    lemma_without_trailing_zeros(z);
    let text = decimal_text(v as int);
    let sign = if v < 0 {
        seq![MINUS]
    } else {
        Seq::<u8>::empty()
    };
    assert forall|i: int| 0 <= i < text.len() implies is_decimal_byte(#[trigger] text[i]) by {
        if i < sign.len() {
        } else if i < sign.len() + w.len() {
            assert(text[i] == w[i - sign.len()]);
            assert(is_digit(w[i - sign.len()]));
        } else if i == sign.len() + w.len() {
        } else {
            let k = i - sign.len() - w.len() - 1;
            assert(text[i] == f[k]);
            assert(f[k] == z[k]);
            assert(is_digit(z[k]));
        }
    }
}

} // verus!
