//! Prices, read from decimal numerals without rounding.
//!
//! A price is counted in price steps, a hundredth of a unit each. What a
//! numeral holds beyond the hundredths is kept digit by digit, so that two
//! prices compare as the numerals themselves do.

use vstd::prelude::*;
use vstd::std_specs::iter::IteratorSpec;

verus! {

/// How many price steps make one unit.
pub const STEPS_PER_UNIT: i64 = 100;

/// How many digits the exponent of a numeral may have.
pub const EXPONENT_DIGITS: usize = 4;

/// A price: `steps` whole price steps, and on top of them the fraction of a
/// step that has the decimal digits `beyond` behind the point. The fraction
/// is never taken off: a price below zero has the steps of the next lower
/// whole number. `beyond` does not end in a zero.
#[derive(Debug, PartialEq, Eq)]
pub struct Price {
    pub steps: i64,
    pub beyond: Vec<u8>,
}

/// The mathematical value of a [`Price`]: `steps` and `0.beyond` price
/// steps.
pub struct PriceView {
    pub steps: int,
    pub beyond: Seq<u8>,
}

impl PriceView {
    /// The digits beyond the whole steps are digits, and the last of them
    /// is no zero.
    pub open spec fn well_formed(self) -> bool {
        &&& forall|i: int| 0 <= i < self.beyond.len() ==> #[trigger] self.beyond[i] <= 9
        &&& self.beyond.len() > 0 ==> self.beyond.last() != 0
    }
}

impl View for Price {
    type V = PriceView;

    open spec fn view(&self) -> PriceView {
        PriceView { steps: self.steps as int, beyond: self.beyond@ }
    }
}

/// The ten decimal digits.
pub open spec fn is_digit(c: char) -> bool {
    '0' <= c && c <= '9'
}

/// What a digit counts.
pub open spec fn digit_value(c: char) -> int {
    c as u32 - '0' as u32
}

/// Every character is a digit.
pub open spec fn all_digits(s: Seq<char>) -> bool {
    forall|i: int| 0 <= i < s.len() ==> is_digit(#[trigger] s[i])
}

/// The number that a run of digits writes.
pub open spec fn digits_value(s: Seq<char>) -> int
    decreases s.len(),
{
    if s.len() == 0 {
        0
    } else {
        digits_value(s.drop_last()) * 10 + digit_value(s.last())
    }
}

/// How many digits stand at the head of a text.
pub open spec fn leading_digits(s: Seq<char>) -> int
    decreases s.len(),
{
    if s.len() == 0 || !is_digit(s[0]) {
        0
    } else {
        1 + leading_digits(s.skip(1))
    }
}

/// A run of zeros.
pub open spec fn zeros(n: int) -> Seq<char> {
    Seq::new(n as nat, |i: int| '0')
}

/// What each digit of a run counts.
pub open spec fn digit_numbers(s: Seq<char>) -> Seq<u8> {
    s.map_values(|c: char| digit_value(c) as u8)
}

/// A run of digits without the zeros at its end.
pub open spec fn trimmed(s: Seq<u8>) -> Seq<u8>
    decreases s.len(),
{
    if s.len() > 0 && s.last() == 0 {
        trimmed(s.drop_last())
    } else {
        s
    }
}

/// The digits of what a fraction lacks to one: `1 - 0.f`, for a fraction
/// `0.f` that does not end in a zero.
pub open spec fn complement(f: Seq<u8>) -> Seq<u8> {
    Seq::new(
        f.len(),
        |i: int|
            if i == f.len() - 1 {
                (10 - f[i]) as u8
            } else {
                (9 - f[i]) as u8
            },
    )
}

/// A numeral taken apart: its sign, its digits before and behind the point
/// in one run, and how many of them stand before the point once the
/// exponent has moved it. `whole` may be below zero or beyond the digits.
pub struct Numeral {
    pub negative: bool,
    pub digits: Seq<char>,
    pub whole: int,
}

/// The exponent that the end of a numeral writes: none at all, which is
/// zero, or `e` or `E`, an optional sign and up to `EXPONENT_DIGITS` digits.
/// `None` for any other text.
pub open spec fn exponent_of(tail: Seq<char>) -> Option<int> {
    if tail.len() == 0 {
        Some(0)
    } else if tail[0] != 'e' && tail[0] != 'E' {
        None
    } else {
        let signed = tail.len() > 1 && (tail[1] == '+' || tail[1] == '-');
        let written = tail.skip(
            if signed {
                2
            } else {
                1
            },
        );
        if written.len() == 0 || written.len() > EXPONENT_DIGITS || !all_digits(written) {
            None
        } else if signed && tail[1] == '-' {
            Some(-digits_value(written))
        } else {
            Some(digits_value(written))
        }
    }
}

/// A text taken apart as a numeral: an optional minus sign, digits,
/// optionally a point and more digits, optionally an exponent. `None` for
/// any other text.
pub open spec fn numeral_of(text: Seq<char>) -> Option<Numeral> {
    let negative = text.len() > 0 && text[0] == '-';
    let body = if negative {
        text.skip(1)
    } else {
        text
    };
    let before = leading_digits(body);
    let pointed = before < body.len() && body[before] == '.';
    let behind = if pointed {
        leading_digits(body.skip(before + 1))
    } else {
        0
    };
    let end = if pointed {
        before + 1 + behind
    } else {
        before
    };
    if before == 0 || (pointed && behind == 0) {
        None
    } else {
        match exponent_of(body.skip(end)) {
            Some(exponent) => Some(
                Numeral {
                    negative,
                    digits: body.take(before) + body.subrange(end - behind, end),
                    whole: before + exponent,
                },
            ),
            None => None,
        }
    }
}

/// The digits of a numeral that count whole price steps: those before the
/// point and the two behind it, with zeros where the digits end earlier.
pub open spec fn counted(n: Numeral) -> Seq<char> {
    let upto = n.whole + 2;
    if upto <= 0 {
        Seq::empty()
    } else if upto <= n.digits.len() {
        n.digits.take(upto)
    } else {
        n.digits + zeros(upto - n.digits.len())
    }
}

/// The digits of a numeral beyond the hundredths, with zeros in front where
/// the digits begin later.
pub open spec fn uncounted(n: Numeral) -> Seq<char> {
    let upto = n.whole + 2;
    if upto >= n.digits.len() {
        Seq::empty()
    } else if upto >= 0 {
        n.digits.skip(upto)
    } else {
        zeros(-upto) + n.digits
    }
}

/// The price that a numeral stands for, where its whole steps fit into 64
/// bits. Nothing is rounded.
pub open spec fn price_of_numeral(n: Numeral) -> Option<PriceView> {
    let magnitude = digits_value(counted(n));
    let fraction = trimmed(digit_numbers(uncounted(n)));
    let steps = if !n.negative {
        magnitude
    } else if fraction.len() == 0 {
        -magnitude
    } else {
        -magnitude - 1
    };
    let beyond = if n.negative {
        complement(fraction)
    } else {
        fraction
    };
    if i64::MIN <= steps <= i64::MAX {
        Some(PriceView { steps, beyond })
    } else {
        None
    }
}

/// The price that a text stands for: that of the numeral it writes, and
/// none for a text that writes no numeral. Every number of 64 bits, integer
/// or floating point, is written as a numeral in this sense, its exponent
/// having three digits at most.
pub open spec fn numeral_price(text: Seq<char>) -> Option<PriceView> {
    match numeral_of(text) {
        Some(n) => price_of_numeral(n),
        None => None,
    }
}

/// Whether every digit is a zero.
pub open spec fn all_zero(s: Seq<u8>) -> bool {
    forall|i: int| 0 <= i < s.len() ==> #[trigger] s[i] == 0
}

/// Whether the fraction `0.a` is at most the fraction `0.b`: the first
/// digit in which they differ decides, and digits that are not there count
/// as zeros.
pub open spec fn fraction_le(a: Seq<u8>, b: Seq<u8>) -> bool
    decreases a.len(),
{
    if a.len() == 0 {
        true
    } else if b.len() == 0 {
        all_zero(a)
    } else if a[0] != b[0] {
        a[0] < b[0]
    } else {
        fraction_le(a.skip(1), b.skip(1))
    }
}

/// Whether one price is at most another.
pub open spec fn price_le(a: PriceView, b: PriceView) -> bool {
    a.steps < b.steps || (a.steps == b.steps && fraction_le(a.beyond, b.beyond))
}

/// A run of digits that starts with another run writes no smaller number.
proof fn lemma_digits_grow(s: Seq<char>, k: int)
    requires
        0 <= k <= s.len(),
        all_digits(s),
    ensures
        0 <= digits_value(s.take(k)) <= digits_value(s),
    decreases s.len() - k,
{
    if k == s.len() {
        assert(s.take(k) =~= s);
        lemma_digits_nonnegative(s);
    } else {
        lemma_digits_grow(s, k + 1);
        assert(s.take(k + 1).drop_last() =~= s.take(k));
        assert(is_digit(s[k]));
        assert(s.take(k + 1).last() == s[k]);
        lemma_digits_nonnegative(s.take(k));
    }
}

/// A run of digits writes no negative number.
proof fn lemma_digits_nonnegative(s: Seq<char>)
    requires
        all_digits(s),
    ensures
        0 <= digits_value(s),
    decreases s.len(),
{
    if s.len() > 0 {
        assert forall|i: int| 0 <= i < s.drop_last().len() implies is_digit(
            #[trigger] s.drop_last()[i],
        ) by {
            assert(s.drop_last()[i] == s[i]);
        }
        lemma_digits_nonnegative(s.drop_last());
        assert(is_digit(s.last()));
    }
}

/// Where the digits at the head of a text end.
proof fn lemma_leading_digits(s: Seq<char>, k: int)
    requires
        0 <= k <= s.len(),
        forall|i: int| 0 <= i < k ==> is_digit(#[trigger] s[i]),
        k == s.len() || !is_digit(s[k]),
    ensures
        leading_digits(s) == k,
    decreases k,
{
    if k > 0 {
        let rest = s.skip(1);
        assert forall|i: int| 0 <= i < k - 1 implies is_digit(#[trigger] rest[i]) by {
            assert(rest[i] == s[i + 1]);
        }
        if k < s.len() {
            assert(rest[k - 1] == s[k]);
        }
        lemma_leading_digits(rest, k - 1);
    }
}

/// What stands before the end of the leading digits is a digit.
pub proof fn lemma_leading_are_digits(s: Seq<char>, k: int)
    requires
        0 <= k < leading_digits(s),
    ensures
        k < s.len(),
        is_digit(s[k]),
    decreases s.len(),
{
    if k > 0 {
        lemma_leading_are_digits(s.skip(1), k - 1);
        assert(s.skip(1)[k - 1] == s[k]);
    }
}

/// The characters of a text.
pub fn chars_of(text: &str) -> (chars: Vec<char>)
    ensures
        chars@ == text@,
{
    let mut chars: Vec<char> = Vec::new();
    let mut rest = text.chars();
    loop
        invariant
            rest.obeys_prophetic_iter_laws(),
            chars@.len() <= text@.len(),
            rest.remaining() == text@.skip(chars@.len() as int),
            chars@ == text@.take(chars@.len() as int),
        decreases text@.len() - chars@.len(),
    {
        match rest.next() {
            Some(c) => {
                let ghost before = chars@;
                chars.push(c);
                assert(chars@ =~= text@.take(before.len() as int + 1));
            },
            None => {
                assert(text@.take(chars@.len() as int) =~= text@);
                return chars;
            },
        }
    }
}

/// Decides whether a character is a digit.
fn is_digit_char(c: char) -> (digit: bool)
    ensures
        digit == is_digit(c),
{
    '0' <= c && c <= '9'
}

/// What a digit counts.
fn value_of_digit(c: char) -> (value: u8)
    requires
        is_digit(c),
    ensures
        value == digit_value(c),
        0 <= value <= 9,
{
    (c as u32 - '0' as u32) as u8
}

/// Counts the digits that stand at `from`.
fn count_digits(chars: &Vec<char>, from: usize) -> (count: usize)
    requires
        from <= chars.len(),
    ensures
        from + count <= chars.len(),
        count == leading_digits(chars@.skip(from as int)),
        forall|k: int| from <= k < from + count ==> is_digit(#[trigger] chars@[k]),
{
    let ghost tail = chars@.skip(from as int);
    let mut count: usize = 0;
    while from + count < chars.len() && is_digit_char(chars[from + count])
        invariant
            from + count <= chars.len(),
            tail == chars@.skip(from as int),
            forall|k: int| 0 <= k < count ==> is_digit(#[trigger] tail[k]),
        decreases chars.len() - from - count,
    {
        count = count + 1;
    }
    proof {
        lemma_leading_digits(tail, count as int);
        assert forall|k: int| from <= k < from + count implies is_digit(#[trigger] chars@[k]) by {
            assert(tail[k - from] == chars@[k]);
        }
    }
    count
}

/// The number that the digits from `from` up to `to` write.
fn value_between(chars: &Vec<char>, from: usize, to: usize) -> (value: i64)
    requires
        from <= to <= chars.len(),
        to - from <= EXPONENT_DIGITS,
        forall|k: int| from <= k < to ==> is_digit(#[trigger] chars@[k]),
    ensures
        value == digits_value(chars@.subrange(from as int, to as int)),
        0 <= value <= 9999,
{
    let mut value: i64 = 0;
    let mut bound: i64 = 0;
    let mut at: usize = from;
    assert(chars@.subrange(from as int, from as int) =~= Seq::<char>::empty());
    while at < to
        invariant
            from <= at <= to <= chars.len(),
            to - from <= EXPONENT_DIGITS,
            forall|k: int| from <= k < to ==> is_digit(#[trigger] chars@[k]),
            value == digits_value(chars@.subrange(from as int, at as int)),
            0 <= value <= bound,
            at - from == 0 ==> bound == 0,
            at - from == 1 ==> bound == 9,
            at - from == 2 ==> bound == 99,
            at - from == 3 ==> bound == 999,
            at - from == 4 ==> bound == 9999,
        decreases to - at,
    {
        let digit = value_of_digit(chars[at]);
        proof {
            let next = chars@.subrange(from as int, at + 1);
            assert(next.drop_last() =~= chars@.subrange(from as int, at as int));
            assert(next.last() == chars@[at as int]);
        }
        value = value * 10 + digit as i64;
        bound = bound * 10 + 9;
        at = at + 1;
    }
    value
}

/// A text of digits only is one whose leading digits are all it has.
proof fn lemma_all_digits_lead(s: Seq<char>)
    ensures
        all_digits(s) <==> leading_digits(s) == s.len(),
    decreases s.len(),
{
    if s.len() > 0 {
        let rest = s.skip(1);
        lemma_all_digits_lead(rest);
        if all_digits(s) {
            assert(is_digit(s[0]));
            assert forall|i: int| 0 <= i < rest.len() implies is_digit(#[trigger] rest[i]) by {
                assert(rest[i] == s[i + 1]);
            }
        }
        if leading_digits(s) == s.len() {
            assert forall|i: int| 0 <= i < s.len() implies is_digit(#[trigger] s[i]) by {
                if i > 0 {
                    assert(rest[i - 1] == s[i]);
                }
            }
        }
        lemma_leading_bound(rest);
    }
}

/// The leading digits of a text are no more than its characters.
pub proof fn lemma_leading_bound(s: Seq<char>)
    ensures
        0 <= leading_digits(s) <= s.len(),
    decreases s.len(),
{
    if s.len() > 0 && is_digit(s[0]) {
        lemma_leading_bound(s.skip(1));
    }
}

/// Reads the exponent that stands at `from` and runs to the end.
fn read_exponent(chars: &Vec<char>, from: usize) -> (exponent: Option<i64>)
    requires
        from <= chars.len(),
    ensures
        match exponent_of(chars@.skip(from as int)) {
            Some(written) => exponent == Some(written as i64) && -9999 <= written <= 9999,
            None => exponent is None,
        },
{
    let ghost tail = chars@.skip(from as int);
    if from == chars.len() {
        return Some(0);
    }
    assert(tail[0] == chars@[from as int]);
    if chars[from] != 'e' && chars[from] != 'E' {
        return None;
    }
    let signed = from + 1 < chars.len() && (chars[from + 1] == '+' || chars[from + 1] == '-');
    if signed {
        assert(tail[1] == chars@[from + 1]);
    }
    let first: usize = if signed {
        from + 2
    } else {
        from + 1
    };
    let ghost written = tail.skip(
        if signed {
            2
        } else {
            1
        },
    );
    assert(written =~= chars@.skip(first as int));
    let count = count_digits(chars, first);
    proof {
        lemma_all_digits_lead(written);
    }
    if count == 0 || count > EXPONENT_DIGITS || first + count != chars.len() {
        return None;
    }
    assert(chars@.subrange(first as int, chars.len() as int) =~= written);
    let value = value_between(chars, first, chars.len());
    if signed && chars[from + 1] == '-' {
        Some(-value)
    } else {
        Some(value)
    }
}

/// Copies the characters from `from` up to `to` to the end of `out`.
fn append_range(out: &mut Vec<char>, chars: &Vec<char>, from: usize, to: usize)
    requires
        from <= to <= chars.len(),
    ensures
        final(out)@ == old(out)@ + chars@.subrange(from as int, to as int),
{
    let ghost before = out@;
    let mut at: usize = from;
    assert(out@ =~= before + chars@.subrange(from as int, from as int));
    while at < to
        invariant
            from <= at <= to <= chars.len(),
            out@ == before + chars@.subrange(from as int, at as int),
        decreases to - at,
    {
        out.push(chars[at]);
        at = at + 1;
        assert(out@ =~= before + chars@.subrange(from as int, at as int));
    }
}

/// Puts `count` zeros at the end of `out`.
fn append_zeros(out: &mut Vec<char>, count: usize)
    ensures
        final(out)@ == old(out)@ + zeros(count as int),
{
    let ghost before = out@;
    let mut done: usize = 0;
    assert(out@ =~= before + zeros(0));
    while done < count
        invariant
            done <= count,
            out@ == before + zeros(done as int),
        decreases count - done,
    {
        out.push('0');
        done = done + 1;
        assert(out@ =~= before + zeros(done as int));
    }
}

/// What each of the digits counts.
fn numbers_of(digits: &Vec<char>) -> (numbers: Vec<u8>)
    requires
        all_digits(digits@),
    ensures
        numbers@ == digit_numbers(digits@),
        forall|k: int| 0 <= k < numbers@.len() ==> #[trigger] numbers@[k] <= 9,
{
    let mut numbers: Vec<u8> = Vec::new();
    let mut at: usize = 0;
    while at < digits.len()
        invariant
            at <= digits.len(),
            all_digits(digits@),
            numbers@ == digit_numbers(digits@.take(at as int)),
            forall|k: int| 0 <= k < numbers@.len() ==> #[trigger] numbers@[k] <= 9,
        decreases digits.len() - at,
    {
        let digit = value_of_digit(digits[at]);
        numbers.push(digit);
        at = at + 1;
        assert(numbers@ =~= digit_numbers(digits@.take(at as int)));
    }
    assert(digits@.take(at as int) =~= digits@);
    numbers
}

/// The number that the digits write, unless it is beyond every price.
fn number_of(digits: &Vec<char>) -> (number: Option<i128>)
    requires
        all_digits(digits@),
    ensures
        match number {
            Some(value) => value == digits_value(digits@) && 0 <= value
                <= 10_000_000_000_000_000_000,
            None => digits_value(digits@) > 10_000_000_000_000_000_000,
        },
{
    let mut value: i128 = 0;
    let mut at: usize = 0;
    assert(digits@.take(0) =~= Seq::<char>::empty());
    while at < digits.len()
        invariant
            at <= digits.len(),
            all_digits(digits@),
            value == digits_value(digits@.take(at as int)),
            0 <= value <= 10_000_000_000_000_000_000,
        decreases digits.len() - at,
    {
        let digit = value_of_digit(digits[at]);
        proof {
            assert(digits@.take(at + 1).drop_last() =~= digits@.take(at as int));
            assert(digits@.take(at + 1).last() == digits@[at as int]);
        }
        value = value * 10 + digit as i128;
        at = at + 1;
        if value > 10_000_000_000_000_000_000 {
            proof {
                lemma_digits_grow(digits@, at as int);
            }
            return None;
        }
    }
    assert(digits@.take(at as int) =~= digits@);
    Some(value)
}

/// Takes the zeros off the end.
fn trim_zeros(digits: &mut Vec<u8>)
    ensures
        final(digits)@ == trimmed(old(digits)@),
        forall|k: int|
            0 <= k < final(digits)@.len() ==> #[trigger] final(digits)@[k] == old(digits)@[k],
        final(digits)@.len() <= old(digits)@.len(),
        final(digits)@.len() > 0 ==> final(digits)@.last() != 0,
{
    let ghost given = digits@;
    while digits.len() > 0 && digits[digits.len() - 1] == 0
        invariant
            trimmed(digits@) == trimmed(given),
            digits@.len() <= given.len(),
            forall|k: int| 0 <= k < digits@.len() ==> #[trigger] digits@[k] == given[k],
        decreases digits.len(),
    {
        let ghost before = digits@;
        digits.pop();
        assert(digits@ =~= before.drop_last());
    }
}

/// What a fraction that does not end in a zero lacks to one.
fn complement_of(fraction: &Vec<u8>) -> (lacking: Vec<u8>)
    requires
        forall|k: int| 0 <= k < fraction@.len() ==> #[trigger] fraction@[k] <= 9,
    ensures
        lacking@ == complement(fraction@),
{
    let mut lacking: Vec<u8> = Vec::new();
    let mut at: usize = 0;
    while at < fraction.len()
        invariant
            at <= fraction.len(),
            forall|k: int| 0 <= k < fraction@.len() ==> #[trigger] fraction@[k] <= 9,
            lacking@.len() == at,
            forall|k: int| 0 <= k < at ==> #[trigger] lacking@[k] == complement(fraction@)[k],
        decreases fraction.len() - at,
    {
        let digit: u8 = if at + 1 == fraction.len() {
            10 - fraction[at]
        } else {
            9 - fraction[at]
        };
        lacking.push(digit);
        at = at + 1;
    }
    assert(lacking@ =~= complement(fraction@));
    lacking
}

/// The digits of a numeral that count whole price steps.
fn counted_digits(digits: &Vec<char>, upto: i128) -> (run: Vec<char>)
    requires
        -10_000 <= upto <= digits.len() + 10_001,
    ensures
        run@ == counted(
            Numeral { negative: false, digits: digits@, whole: upto as int - 2 },
        ),
{
    let mut run: Vec<char> = Vec::new();
    if upto <= 0 {
    } else if upto <= digits.len() as i128 {
        append_range(&mut run, digits, 0, upto as usize);
        assert(digits@.subrange(0, upto as int) =~= digits@.take(upto as int));
        assert(run@ =~= digits@.take(upto as int));
    } else {
        append_range(&mut run, digits, 0, digits.len());
        assert(digits@.subrange(0, digits.len() as int) =~= digits@);
        append_zeros(&mut run, (upto - digits.len() as i128) as usize);
        assert(run@ =~= digits@ + zeros(upto - digits.len()));
    }
    run
}

/// The digits of a numeral beyond the hundredths.
fn uncounted_digits(digits: &Vec<char>, upto: i128) -> (run: Vec<char>)
    requires
        -10_000 <= upto,
    ensures
        run@ == uncounted(
            Numeral { negative: false, digits: digits@, whole: upto as int - 2 },
        ),
{
    let mut run: Vec<char> = Vec::new();
    if upto >= digits.len() as i128 {
    } else if upto >= 0 {
        append_range(&mut run, digits, upto as usize, digits.len());
        assert(digits@.subrange(upto as int, digits.len() as int) =~= digits@.skip(upto as int));
        assert(run@ =~= digits@.skip(upto as int));
    } else {
        append_zeros(&mut run, (-upto) as usize);
        append_range(&mut run, digits, 0, digits.len());
        assert(digits@.subrange(0, digits.len() as int) =~= digits@);
        assert(run@ =~= zeros(-upto) + digits@);
    }
    run
}

/// A numeral taken apart, as the program holds it.
struct Parts {
    negative: bool,
    digits: Vec<char>,
    whole: i128,
}

/// Takes a text apart as a numeral.
#[verifier::rlimit(40)]
fn take_apart(chars: &Vec<char>) -> (parts: Option<Parts>)
    ensures
        match numeral_of(chars@) {
            Some(n) => {
                &&& parts matches Some(found)
                &&& found.negative == n.negative
                &&& found.digits@ == n.digits
                &&& found.whole == n.whole
                &&& all_digits(n.digits)
                &&& -9_999 <= n.whole <= n.digits.len() + 9_999
            },
            None => parts is None,
        },
{
    let negative = chars.len() > 0 && chars[0] == '-';
    let start: usize = if negative {
        1
    } else {
        0
    };
    let ghost body = chars@.skip(start as int);
    assert(chars@.skip(0) =~= chars@);
    let before = count_digits(chars, start);
    if before == 0 {
        return None;
    }
    let point: usize = start + before;
    let pointed = point < chars.len() && chars[point] == '.';
    if point < chars.len() {
        assert(body[before as int] == chars@[point as int]);
    }
    if pointed {
        assert(body.skip(before + 1) =~= chars@.skip(point + 1));
    }
    let behind: usize = if pointed {
        count_digits(chars, point + 1)
    } else {
        0
    };
    if pointed && behind == 0 {
        return None;
    }
    let end: usize = if pointed {
        point + 1 + behind
    } else {
        point
    };
    assert(body.skip(end - start) =~= chars@.skip(end as int));
    let exponent = match read_exponent(chars, end) {
        Some(exponent) => exponent,
        None => {
            return None;
        },
    };
    let mut digits: Vec<char> = Vec::new();
    append_range(&mut digits, chars, start, point);
    append_range(&mut digits, chars, end - behind, end);
    proof {
        let written = body.take(before as int) + body.subrange(
            end - start - behind,
            end - start,
        );
        assert(chars@.subrange(start as int, point as int) =~= body.take(before as int));
        assert(chars@.subrange(end - behind, end as int) =~= body.subrange(
            end - start - behind,
            end - start,
        ));
        assert(digits@ =~= written);
        assert forall|k: int| 0 <= k < digits@.len() implies is_digit(#[trigger] digits@[k]) by {
            if k < before {
                assert(digits@[k] == chars@[start + k]);
            } else {
                assert(digits@[k] == chars@[end - behind + (k - before)]);
            }
        }
    }
    Some(Parts { negative, digits, whole: before as i128 + exponent as i128 })
}

/// Reads the price that a numeral taken apart stands for.
fn price_of_parts(negative: bool, digits: &Vec<char>, whole: i128) -> (price: Option<Price>)
    requires
        all_digits(digits@),
        -9_999 <= whole <= digits.len() + 9_999,
    ensures
        match price_of_numeral(Numeral { negative, digits: digits@, whole: whole as int }) {
            Some(read) => price is Some && price->0@ == read,
            None => price is None,
        },
{
    let ghost parts = Numeral { negative, digits: digits@, whole: whole as int };
    let upto: i128 = whole + 2;
    let whole_run = counted_digits(digits, upto);
    let rest_run = uncounted_digits(digits, upto);
    assert(all_digits(whole_run@)) by {
        assert forall|k: int| 0 <= k < whole_run@.len() implies is_digit(
            #[trigger] whole_run@[k],
        ) by {
            if k < digits@.len() {
                assert(whole_run@[k] == digits@[k]);
            }
        }
    }
    assert(all_digits(rest_run@)) by {
        assert forall|k: int| 0 <= k < rest_run@.len() implies is_digit(#[trigger] rest_run@[k]) by {
            if upto >= 0 {
                assert(rest_run@[k] == digits@[k + upto]);
            } else if k >= -upto {
                assert(rest_run@[k] == digits@[k + upto]);
            }
        }
    }
    let magnitude = match number_of(&whole_run) {
        Some(magnitude) => magnitude,
        None => {
            return None;
        },
    };
    let mut fraction = numbers_of(&rest_run);
    trim_zeros(&mut fraction);
    let steps: i128 = if !negative {
        magnitude
    } else if fraction.len() == 0 {
        -magnitude
    } else {
        -magnitude - 1
    };
    if steps < i64::MIN as i128 || steps > i64::MAX as i128 {
        return None;
    }
    let beyond = if negative {
        complement_of(&fraction)
    } else {
        fraction
    };
    Some(Price { steps: steps as i64, beyond })
}

/// Reads the price that a numeral stands for, digit by digit and without
/// rounding. A text that writes no numeral has no price, and neither has a
/// numeral whose whole price steps do not fit into 64 bits.
pub fn price_of_text(numeral: &str) -> (price: Option<Price>)
    ensures
        match numeral_price(numeral@) {
            Some(read) => price is Some && price->0@ == read,
            None => price is None,
        },
{
    let chars = chars_of(numeral);
    match take_apart(&chars) {
        Some(parts) => price_of_parts(parts.negative, &parts.digits, parts.whole),
        None => None,
    }
}

/// Decides whether every digit from `from` on is a zero.
fn zeros_from(digits: &Vec<u8>, from: usize) -> (none: bool)
    requires
        from <= digits.len(),
    ensures
        none == all_zero(digits@.skip(from as int)),
{
    let ghost tail = digits@.skip(from as int);
    let mut at: usize = from;
    while at < digits.len()
        invariant
            from <= at <= digits.len(),
            tail == digits@.skip(from as int),
            forall|k: int| 0 <= k < at - from ==> #[trigger] tail[k] == 0,
        decreases digits.len() - at,
    {
        if digits[at] != 0 {
            assert(tail[at - from] != 0);
            return false;
        }
        at = at + 1;
    }
    true
}

/// Decides whether the fraction `0.a` is at most the fraction `0.b`.
pub fn fraction_at_most(a: &Vec<u8>, b: &Vec<u8>) -> (holds: bool)
    ensures
        holds == fraction_le(a@, b@),
{
    let mut at: usize = 0;
    assert(a@.skip(0) =~= a@);
    assert(b@.skip(0) =~= b@);
    while at < a.len()
        invariant
            at <= a.len(),
            at <= b.len(),
            fraction_le(a@, b@) == fraction_le(a@.skip(at as int), b@.skip(at as int)),
        decreases a.len() - at,
    {
        if at >= b.len() {
            return zeros_from(a, at);
        }
        assert(a@.skip(at as int)[0] == a@[at as int]);
        assert(b@.skip(at as int)[0] == b@[at as int]);
        if a[at] != b[at] {
            return a[at] < b[at];
        }
        assert(a@.skip(at as int).skip(1) =~= a@.skip(at + 1));
        assert(b@.skip(at as int).skip(1) =~= b@.skip(at + 1));
        at = at + 1;
    }
    true
}

/// Decides whether `a_steps` and `0.a` price steps are at most `b_steps`
/// and `0.b` price steps.
pub fn amount_at_most(a_steps: i128, a: &Vec<u8>, b_steps: i128, b: &Vec<u8>) -> (holds: bool)
    ensures
        holds == price_le(
            PriceView { steps: a_steps as int, beyond: a@ },
            PriceView { steps: b_steps as int, beyond: b@ },
        ),
{
    a_steps < b_steps || (a_steps == b_steps && fraction_at_most(a, b))
}

impl Clone for Price {
    fn clone(&self) -> (copy: Self)
        ensures
            copy@ == self@,
    {
        let mut beyond: Vec<u8> = Vec::new();
        let mut at: usize = 0;
        while at < self.beyond.len()
            invariant
                at <= self.beyond.len(),
                beyond@ == self.beyond@.take(at as int),
            decreases self.beyond.len() - at,
        {
            beyond.push(self.beyond[at]);
            at = at + 1;
            assert(beyond@ =~= self.beyond@.take(at as int));
        }
        assert(self.beyond@.take(at as int) =~= self.beyond@);
        Price { steps: self.steps, beyond }
    }
}

impl Price {
    /// The price of a whole number of price steps.
    pub fn of_steps(steps: i64) -> (price: Self)
        ensures
            price@ == (PriceView { steps: steps as int, beyond: Seq::empty() }),
    {
        Price { steps, beyond: Vec::new() }
    }

    /// Decides whether this price is at most another.
    pub fn at_most(&self, other: &Price) -> (holds: bool)
        ensures
            holds == price_le(self@, other@),
    {
        amount_at_most(self.steps as i128, &self.beyond, other.steps as i128, &other.beyond)
    }
}

} // verus!
