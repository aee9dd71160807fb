//! Why prices are exact: what their digits mean in numbers.

use crate::band::BandView;
use crate::decimal::{
    all_digits, all_zero, complement, counted, digit_numbers, digit_value, digits_value,
    fraction_le, is_digit, leading_digits, lemma_leading_are_digits, lemma_leading_bound,
    numeral_of, price_le,
    price_of_numeral, trimmed, uncounted, zeros, Numeral, PriceView,
};
use vstd::prelude::*;

verus! {

/// Ten to the power of `n`.
pub open spec fn pow10(n: nat) -> int
    decreases n,
{
    if n == 0 {
        1
    } else {
        10 * pow10((n - 1) as nat)
    }
}

/// Every digit is at most nine.
pub open spec fn digits_only(a: Seq<u8>) -> bool {
    forall|i: int| 0 <= i < a.len() ==> #[trigger] a[i] <= 9
}

/// The fraction `0.a` in units of ten to the power of minus `width`: the
/// number that the first `width` digits of `a` write, zeros standing where
/// `a` has no digits.
pub open spec fn fraction_number(a: Seq<u8>, width: nat) -> int
    decreases width,
{
    if width == 0 {
        0
    } else if a.len() == 0 {
        0
    } else {
        a[0] * pow10((width - 1) as nat) + fraction_number(a.skip(1), (width - 1) as nat)
    }
}

/// A price in units of ten to the power of minus `width` price steps.
pub open spec fn scaled(p: PriceView, width: nat) -> int {
    p.steps * pow10(width) + fraction_number(p.beyond, width)
}

/// A power of ten is positive.
pub proof fn lemma_pow10_positive(n: nat)
    ensures
        pow10(n) > 0,
    decreases n,
{
    if n > 0 {
        lemma_pow10_positive((n - 1) as nat);
    }
}

/// A fraction is less than one.
pub proof fn lemma_fraction_below_one(a: Seq<u8>, width: nat)
    requires
        digits_only(a),
    ensures
        0 <= fraction_number(a, width) < pow10(width),
    decreases width,
{
    lemma_pow10_positive(width);
    if width > 0 && a.len() > 0 {
        let rest = a.skip(1);
        assert forall|i: int| 0 <= i < rest.len() implies #[trigger] rest[i] <= 9 by {
            assert(rest[i] == a[i + 1]);
        }
        lemma_fraction_below_one(rest, (width - 1) as nat);
        let unit = pow10((width - 1) as nat);
        let head = a[0] as int;
        assert(0 <= head <= 9);
        assert(0 <= head * unit && head * unit + unit <= 10 * unit) by (nonlinear_arith)
            requires
                0 <= head <= 9,
                unit > 0,
        ;
    }
}

/// A fraction is nothing exactly when all its digits are zeros.
proof fn lemma_fraction_nothing(a: Seq<u8>, width: nat)
    requires
        digits_only(a),
        a.len() <= width,
    ensures
        fraction_number(a, width) == 0 <==> all_zero(a),
    decreases width,
{
    if width > 0 && a.len() > 0 {
        let rest = a.skip(1);
        assert forall|i: int| 0 <= i < rest.len() implies #[trigger] rest[i] <= 9 by {
            assert(rest[i] == a[i + 1]);
        }
        lemma_fraction_nothing(rest, (width - 1) as nat);
        lemma_fraction_below_one(rest, (width - 1) as nat);
        let unit = pow10((width - 1) as nat);
        let head = a[0] as int;
        lemma_pow10_positive((width - 1) as nat);
        assert(head > 0 ==> head * unit > 0) by (nonlinear_arith)
            requires
                unit > 0,
        ;
        assert(head == 0 ==> head * unit == 0) by (nonlinear_arith);
        if all_zero(a) {
            assert(a[0] == 0);
            assert forall|i: int| 0 <= i < rest.len() implies #[trigger] rest[i] == 0 by {
                assert(rest[i] == a[i + 1]);
            }
        }
        if fraction_number(a, width) == 0 {
            assert(head == 0);
            assert forall|i: int| 0 <= i < a.len() implies #[trigger] a[i] == 0 by {
                if i > 0 {
                    assert(rest[i - 1] == a[i]);
                }
            }
        }
    }
}

/// Fractions compare as the numbers do that their digits write.
pub proof fn law_fractions_compare_as_numbers(a: Seq<u8>, b: Seq<u8>, width: nat)
    requires
        digits_only(a),
        digits_only(b),
        a.len() <= width,
        b.len() <= width,
    ensures
        fraction_le(a, b) <==> fraction_number(a, width) <= fraction_number(b, width),
    decreases width,
{
    lemma_fraction_below_one(a, width);
    lemma_fraction_below_one(b, width);
    if a.len() == 0 {
    } else if b.len() == 0 {
        lemma_fraction_nothing(a, width);
    } else {
        let ra = a.skip(1);
        let rb = b.skip(1);
        assert forall|i: int| 0 <= i < ra.len() implies #[trigger] ra[i] <= 9 by {
            assert(ra[i] == a[i + 1]);
        }
        assert forall|i: int| 0 <= i < rb.len() implies #[trigger] rb[i] <= 9 by {
            assert(rb[i] == b[i + 1]);
        }
        let unit = pow10((width - 1) as nat);
        lemma_pow10_positive((width - 1) as nat);
        lemma_fraction_below_one(ra, (width - 1) as nat);
        lemma_fraction_below_one(rb, (width - 1) as nat);
        let x = a[0] as int;
        let y = b[0] as int;
        if x == y {
            law_fractions_compare_as_numbers(ra, rb, (width - 1) as nat);
        } else if x < y {
            assert(x * unit + unit <= y * unit) by (nonlinear_arith)
                requires
                    x + 1 <= y,
                    unit > 0,
            ;
        } else {
            assert(y * unit + unit <= x * unit) by (nonlinear_arith)
                requires
                    y + 1 <= x,
                    unit > 0,
            ;
        }
    }
}

/// Prices compare as the numbers do that they stand for: scaled by the
/// same power of ten, one price is at most another exactly when its number
/// is.
pub proof fn law_prices_compare_as_numbers(a: PriceView, b: PriceView, width: nat)
    requires
        digits_only(a.beyond),
        digits_only(b.beyond),
        a.beyond.len() <= width,
        b.beyond.len() <= width,
    ensures
        price_le(a, b) <==> scaled(a, width) <= scaled(b, width),
{
    law_fractions_compare_as_numbers(a.beyond, b.beyond, width);
    lemma_fraction_below_one(a.beyond, width);
    lemma_fraction_below_one(b.beyond, width);
    lemma_pow10_positive(width);
    let unit = pow10(width);
    let x = a.steps;
    let y = b.steps;
    if x < y {
        assert(x * unit + unit <= y * unit) by (nonlinear_arith)
            requires
                x + 1 <= y,
                unit > 0,
        ;
    } else if y < x {
        assert(y * unit + unit <= x * unit) by (nonlinear_arith)
            requires
                y + 1 <= x,
                unit > 0,
        ;
    }
}

/// A run of digits followed by another writes the number of the first,
/// moved up by the digits of the second, and the number of the second.
proof fn lemma_digits_joined(a: Seq<char>, b: Seq<char>)
    ensures
        digits_value(a + b) == digits_value(a) * pow10(b.len()) + digits_value(b),
    decreases b.len(),
{
    if b.len() == 0 {
        assert(a + b =~= a);
    } else {
        let front = b.drop_last();
        lemma_digits_joined(a, front);
        assert((a + b).drop_last() =~= a + front);
        assert((a + b).last() == b.last());
        let x = digits_value(a);
        let unit = pow10(front.len());
        assert(pow10(b.len()) == 10 * unit);
        assert((x * unit + digits_value(front)) * 10 == x * (10 * unit) + digits_value(front)
            * 10) by (nonlinear_arith);
    }
}

/// Zeros write nothing.
proof fn lemma_zeros_write_nothing(n: nat)
    ensures
        digits_value(zeros(n as int)) == 0,
        all_digits(zeros(n as int)),
    decreases n,
{
    if n > 0 {
        lemma_zeros_write_nothing((n - 1) as nat);
        assert(zeros(n as int).drop_last() =~= zeros(n - 1));
        assert(zeros(n as int).last() == '0');
    }
}

/// What the digits of a run count is at most nine each.
proof fn lemma_numbers_are_digits(u: Seq<char>)
    requires
        all_digits(u),
    ensures
        digits_only(digit_numbers(u)),
{
    assert forall|i: int| 0 <= i < u.len() implies #[trigger] digit_numbers(u)[i] <= 9 by {
        assert(is_digit(u[i]));
    }
}

/// Read as a fraction of as many digits as it has, a run of digits is the
/// number that it writes.
proof fn lemma_fraction_of_digits(u: Seq<char>)
    requires
        all_digits(u),
    ensures
        fraction_number(digit_numbers(u), u.len()) == digits_value(u),
    decreases u.len(),
{
    if u.len() > 0 {
        let rest = u.skip(1);
        let head = u.take(1);
        assert forall|i: int| 0 <= i < rest.len() implies is_digit(#[trigger] rest[i]) by {
            assert(rest[i] == u[i + 1]);
        }
        lemma_fraction_of_digits(rest);
        assert(u =~= head + rest);
        lemma_digits_joined(head, rest);
        assert(head.drop_last() =~= Seq::<char>::empty());
        assert(digits_value(head) == digit_value(u[0])) by {
            reveal_with_fuel(digits_value, 2);
            assert(head.last() == u[0]);
        }
        assert(is_digit(u[0]));
        assert(digit_numbers(u).skip(1) =~= digit_numbers(rest));
        assert(digit_numbers(u)[0] == digit_value(u[0]));
    }
}

/// A zero at the end of a fraction changes nothing.
proof fn lemma_last_zero(x: Seq<u8>, width: nat)
    requires
        x.len() > 0,
        x.last() == 0,
        x.len() <= width,
    ensures
        fraction_number(x.drop_last(), width) == fraction_number(x, width),
    decreases x.len(),
{
    if x.len() == 1 {
        assert(x[0] == 0);
        assert(x.skip(1).len() == 0);
        assert(fraction_number(x.skip(1), (width - 1) as nat) == 0);
        assert(0 * pow10((width - 1) as nat) == 0) by (nonlinear_arith);
    } else {
        lemma_last_zero(x.skip(1), (width - 1) as nat);
        assert(x.drop_last().skip(1) =~= x.skip(1).drop_last());
        assert(x.drop_last()[0] == x[0]);
    }
}

/// Without the zeros at its end a fraction is the same, has no more
/// digits, and ends in no zero.
proof fn lemma_trimmed(x: Seq<u8>, width: nat)
    requires
        digits_only(x),
        x.len() <= width,
    ensures
        fraction_number(trimmed(x), width) == fraction_number(x, width),
        digits_only(trimmed(x)),
        trimmed(x).len() <= x.len(),
        trimmed(x).len() > 0 ==> trimmed(x).last() != 0,
    decreases x.len(),
{
    if x.len() > 0 && x.last() == 0 {
        let front = x.drop_last();
        assert forall|i: int| 0 <= i < front.len() implies #[trigger] front[i] <= 9 by {
            assert(front[i] == x[i]);
        }
        lemma_trimmed(front, width);
        lemma_last_zero(x, width);
    }
}

/// What a fraction lacks to one, in numbers.
proof fn lemma_complement(f: Seq<u8>, width: nat)
    requires
        digits_only(f),
        0 < f.len() <= width,
        f.last() != 0,
    ensures
        fraction_number(complement(f), width) == pow10(width) - fraction_number(f, width),
        digits_only(complement(f)),
        complement(f).len() == f.len(),
        complement(f).last() != 0,
    decreases f.len(),
{
    let c = complement(f);
    assert(c.last() == 10 - f.last()) by {
        assert(f[f.len() - 1] <= 9);
    }
    let unit = pow10((width - 1) as nat);
    let x = f[0] as int;
    assert(pow10(width) == 10 * unit);
    assert forall|i: int| 0 <= i < c.len() implies #[trigger] c[i] <= 9 by {
        assert(f[i] <= 9);
        if i == f.len() - 1 {
            assert(f[i] == f.last());
        }
    }
    if f.len() == 1 {
        assert(f[0] == f.last());
        assert(c[0] == 10 - x);
        assert(c.skip(1).len() == 0);
        assert(f.skip(1).len() == 0);
        assert(fraction_number(c.skip(1), (width - 1) as nat) == 0);
        assert(fraction_number(f.skip(1), (width - 1) as nat) == 0);
        assert((10 - x) * unit == 10 * unit - x * unit) by (nonlinear_arith);
    } else {
        let rest = f.skip(1);
        assert forall|i: int| 0 <= i < rest.len() implies #[trigger] rest[i] <= 9 by {
            assert(rest[i] == f[i + 1]);
        }
        assert(rest.last() == f.last());
        lemma_complement(rest, (width - 1) as nat);
        assert(c.skip(1) =~= complement(rest));
        assert(c[0] == 9 - x);
        assert((9 - x) * unit + unit == 10 * unit - x * unit) by (nonlinear_arith);
    }
}

/// Reading a numeral rounds nothing. Scaled by ten to the number of its
/// digits beyond the hundredths, the price that a numeral is read as is the
/// number that all the digits of the numeral write, with its sign, and with
/// as many zeros behind it as the numeral lacks digits down to the
/// hundredths.
pub proof fn law_reading_is_exact(n: Numeral)
    requires
        all_digits(n.digits),
        price_of_numeral(n) is Some,
    ensures
        ({
            let price = price_of_numeral(n)->0;
            let beyond = uncounted(n).len();
            let lacking = if n.whole + 2 > n.digits.len() {
                (n.whole + 2 - n.digits.len()) as nat
            } else {
                0nat
            };
            let sign: int = if n.negative {
                -1
            } else {
                1
            };
            &&& price.well_formed()
            &&& price.beyond.len() <= beyond
            &&& beyond == 0 || lacking == 0
            &&& scaled(price, beyond) == sign * (digits_value(n.digits) * pow10(lacking))
        }),
{
    let upto = n.whole + 2;
    let c = counted(n);
    let u = uncounted(n);
    let width = u.len();
    let magnitude = digits_value(c);
    let fraction = trimmed(digit_numbers(u));
    let unit = pow10(width);
    // The digits beyond the hundredths are digits, and so are their numbers.
    assert(all_digits(u)) by {
        if upto < 0 {
            lemma_zeros_write_nothing((-upto) as nat);
        }
        assert forall|i: int| 0 <= i < u.len() implies is_digit(#[trigger] u[i]) by {
            if upto >= 0 {
                assert(u[i] == n.digits[i + upto]);
            } else if i >= -upto {
                assert(u[i] == n.digits[i + upto]);
            } else {
                assert(u[i] == zeros(-upto)[i]);
            }
        }
    }
    lemma_numbers_are_digits(u);
    lemma_trimmed(digit_numbers(u), width);
    lemma_fraction_of_digits(u);
    assert(fraction_number(fraction, width) == digits_value(u));
    // All the digits in one run.
    lemma_digits_joined(c, u);
    let written = digits_value(n.digits);
    let lacking: nat = if upto > n.digits.len() {
        (upto - n.digits.len()) as nat
    } else {
        0
    };
    assert(magnitude * unit + digits_value(u) == written * pow10(lacking)) by {
        if upto <= 0 {
            lemma_zeros_write_nothing((-upto) as nat);
            lemma_digits_joined(zeros(-upto), n.digits);
            assert(magnitude == 0);
            assert(0 * unit == 0) by (nonlinear_arith);
            assert(0 * pow10(n.digits.len()) == 0) by (nonlinear_arith);
            if upto == 0 {
                assert(u =~= n.digits);
            }
            assert(digits_value(u) == written);
            assert(pow10(lacking) == 1);
            assert(written * 1 == written) by (nonlinear_arith);
        } else if upto <= n.digits.len() {
            assert(c + u =~= n.digits);
            assert(pow10(lacking) == 1);
            assert(written * 1 == written) by (nonlinear_arith);
        } else {
            lemma_zeros_write_nothing(lacking);
            lemma_digits_joined(n.digits, zeros(upto - n.digits.len()));
            assert(u.len() == 0);
            assert(digits_value(u) == 0);
            assert(unit == 1);
            assert(magnitude * 1 == magnitude) by (nonlinear_arith);
            assert(magnitude == written * pow10(lacking));
        }
    }
    assert(digits_only(fraction));
    if !n.negative {
        assert(1 * (written * pow10(lacking)) == written * pow10(lacking)) by (nonlinear_arith);
    } else if fraction.len() == 0 {
        assert(complement(fraction) =~= fraction);
        assert(fraction_number(fraction, width) == 0);
        assert((-magnitude) * unit == -1 * (magnitude * unit)) by (nonlinear_arith);
    } else {
        lemma_complement(fraction, width);
        let rest = fraction_number(fraction, width);
        assert((-magnitude - 1) * unit + (unit - rest) == -1 * (magnitude * unit + rest))
            by (nonlinear_arith);
    }
}

/// The band in numbers: a strike price is admitted exactly when it lies,
/// as a number, no further than the radius from the reference price, both
/// ends included.
pub proof fn law_band_is_exact(band: BandView, strike: PriceView, width: nat)
    requires
        digits_only(band.reference_price.beyond),
        digits_only(strike.beyond),
        band.reference_price.beyond.len() <= width,
        strike.beyond.len() <= width,
    ensures
        band.admits(Some(strike)) <==> {
            &&& scaled(band.reference_price, width) - band.radius * pow10(width) <= scaled(
                strike,
                width,
            )
            &&& scaled(strike, width) <= scaled(band.reference_price, width) + band.radius
                * pow10(width)
        },
{
    law_prices_compare_as_numbers(band.low(), strike, width);
    law_prices_compare_as_numbers(strike, band.high(), width);
    let unit = pow10(width);
    let steps = band.reference_price.steps;
    let radius = band.radius as int;
    assert((steps - radius) * unit == steps * unit - radius * unit) by (nonlinear_arith);
    assert((steps + radius) * unit == steps * unit + radius * unit) by (nonlinear_arith);
}

/// The digits of a text taken apart as a numeral are digits, so that what
/// `law_reading_is_exact` says holds of every text that has a price.
pub proof fn law_numeral_has_digits(text: Seq<char>)
    requires
        numeral_of(text) is Some,
    ensures
        all_digits(numeral_of(text)->0.digits),
{
    let n = numeral_of(text)->0;
    let negative = text.len() > 0 && text[0] == '-';
    let body = if negative {
        text.skip(1)
    } else {
        text
    };
    let before = leading_digits(body);
    lemma_leading_bound(body);
    let pointed = before < body.len() && body[before] == '.';
    let behind = if pointed {
        leading_digits(body.skip(before + 1))
    } else {
        0
    };
    if pointed {
        lemma_leading_bound(body.skip(before + 1));
    }
    let end = if pointed {
        before + 1 + behind
    } else {
        before
    };
    assert(n.digits == body.take(before) + body.subrange(end - behind, end));
    assert(n.digits.len() == before + behind);
    assert forall|i: int| 0 <= i < n.digits.len() implies is_digit(#[trigger] n.digits[i]) by {
        if i < before {
            lemma_leading_are_digits(body, i);
            assert(n.digits[i] == body[i]);
        } else {
            lemma_leading_are_digits(body.skip(before + 1), i - before);
            assert(body.skip(before + 1)[i - before] == body[end - behind + (i - before)]);
            assert(n.digits[i] == body[end - behind + (i - before)]);
        }
    }
}

} // verus!
