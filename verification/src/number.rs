//! Decimal numbers in header values, read exactly.

use vstd::arithmetic::power::pow;
use vstd::prelude::*;
use vstd::slice::{slice_subrange, slice_to_vec};

use crate::time::MAX_DURATION_NANOS;

verus! {

/// What a text stands for, when it is a number.
pub enum Quantity {
    /// `nan`.
    NotANumber,
    /// `inf` or `infinity`.
    Infinite { negative: bool },
    /// `digits` times ten to the power of `exponent`, or the negative of that.
    Finite { negative: bool, digits: nat, exponent: int },
}

/// `digits` times ten to the power of `exponent`.
pub struct Decimal {
    pub digits: nat,
    pub exponent: int,
}

/// A decimal digit.
pub open spec fn is_digit(byte: u8) -> bool {
    48 <= byte <= 57
}

/// Nothing but decimal digits.
pub open spec fn all_digits(text: Seq<u8>) -> bool {
    forall|i: int| 0 <= i < text.len() ==> is_digit(#[trigger] text[i])
}

/// The number that a row of decimal digits writes.
pub open spec fn digits_value(text: Seq<u8>) -> nat
    decreases text.len(),
{
    if text.len() == 0 {
        0
    } else {
        digits_value(text.drop_last()) * 10 + (text.last() - 48) as nat
    }
}

/// The first place, from `from` on, at which one of the two bytes stands; the end if there is none.
pub open spec fn first_of(text: Seq<u8>, from: int, a: u8, b: u8) -> int
    decreases text.len() - from,
{
    if from >= text.len() {
        text.len() as int
    } else if text[from] == a || text[from] == b {
        from
    } else {
        first_of(text, from + 1, a, b)
    }
}

/// A text starts with a minus sign.
pub open spec fn is_negative(text: Seq<u8>) -> bool {
    text.len() > 0 && text[0] == 45
}

/// A text without its sign, if it has one.
pub open spec fn unsigned(text: Seq<u8>) -> Seq<u8> {
    if text.len() > 0 && (text[0] == 45 || text[0] == 43) {
        text.skip(1)
    } else {
        text
    }
}

/// The lower-case form of an ASCII letter; any other byte as it is.
pub open spec fn lower(byte: u8) -> u8 {
    if 65 <= byte <= 90 {
        (byte + 32) as u8
    } else {
        byte
    }
}

/// A text is the given lower-case word, in whatever case.
pub open spec fn is_word(text: Seq<u8>, word: Seq<u8>) -> bool {
    text.len() == word.len() && forall|i: int|
        0 <= i < text.len() ==> lower(#[trigger] text[i]) == word[i]
}

/// The exponent that stands behind an `e`: a sign or none, and at least one digit.
pub open spec fn exponent_value(text: Seq<u8>) -> Option<int> {
    let digits = unsigned(text);
    if digits.len() > 0 && all_digits(digits) {
        if is_negative(text) {
            Some(-digits_value(digits))
        } else {
            Some(digits_value(digits) as int)
        }
    } else {
        None
    }
}

/// What stands before the decimal point.
pub open spec fn whole_part(mantissa: Seq<u8>) -> Seq<u8> {
    mantissa.take(first_of(mantissa, 0, 46, 46))
}

/// What stands behind the decimal point, if there is one.
pub open spec fn fraction_part(mantissa: Seq<u8>) -> Seq<u8> {
    let point = first_of(mantissa, 0, 46, 46);
    if point < mantissa.len() {
        mantissa.skip(point + 1)
    } else {
        Seq::empty()
    }
}

/// A text that starts with no sign, read as digits with at most one point among them and an
/// exponent or none behind: the digits without the point, and the power of ten to scale them by.
pub open spec fn decimal(text: Seq<u8>) -> Option<Decimal> {
    let mark = first_of(text, 0, 101, 69);
    let mantissa = text.take(mark);
    let whole = whole_part(mantissa);
    let fraction = fraction_part(mantissa);
    let exponent = if mark < text.len() {
        exponent_value(text.skip(mark + 1))
    } else {
        Some(0)
    };
    if all_digits(whole) && all_digits(fraction) && whole.len() + fraction.len() > 0
        && exponent is Some {
        Some(
            Decimal {
                digits: digits_value(whole + fraction),
                exponent: exponent->0 - fraction.len(),
            },
        )
    } else {
        None
    }
}

/// The number that a text writes, if it writes one: `nan`, `inf` or `infinity` in whatever case,
/// or a decimal, each with a sign before it or none.
pub open spec fn quantity(text: Seq<u8>) -> Option<Quantity> {
    let rest = unsigned(text);
    let negative = is_negative(text);
    if is_word(rest, seq![110u8, 97, 110]) {
        Some(Quantity::NotANumber)
    } else if is_word(rest, seq![105u8, 110, 102]) || is_word(
        rest,
        seq![105u8, 110, 102, 105, 110, 105, 116, 121],
    ) {
        Some(Quantity::Infinite { negative })
    } else {
        match decimal(rest) {
            Some(Decimal { digits, exponent }) => Some(Quantity::Finite { negative, digits, exponent }),
            None => None,
        }
    }
}

/// Amounts of so many nanoseconds or more are not told apart. It is longer than any two durations
/// together.
pub const NANOS_CAP: u128 = 1_000_000_000_000_000_000_000_000_000_000;

/// `digits` times ten to the power of `power`, without what is behind the decimal point.
pub open spec fn scaled(digits: nat, power: int) -> nat {
    if power >= 0 {
        (digits * pow(10, power as nat)) as nat
    } else {
        (digits as int / pow(10, (-power) as nat)) as nat
    }
}

/// There is something behind the decimal point of `digits` times ten to the power of `power`.
pub open spec fn scaled_has_rest(digits: nat, power: int) -> bool {
    power < 0 && digits as int % pow(10, (-power) as nat) != 0
}

/// So many seconds, in whole nanoseconds, rounded up.
pub open spec fn nanos_up(digits: nat, exponent: int) -> nat {
    scaled(digits, exponent + 9) + if scaled_has_rest(digits, exponent + 9) {
        1nat
    } else {
        0nat
    }
}

impl Quantity {
    /// The seconds that are left of this many once `elapsed` nanoseconds are over: rounded up,
    /// none if there are none left or there is no telling, and no more than `u64::MAX`.
    pub open spec fn seconds_past(self, elapsed: nat) -> nat {
        match self {
            Quantity::NotANumber => 0,
            Quantity::Infinite { negative } => if negative {
                0
            } else {
                u64::MAX as nat
            },
            Quantity::Finite { negative, digits, exponent } => {
                let nanos = nanos_up(digits, exponent);
                if negative || nanos <= elapsed {
                    0
                } else {
                    let seconds = ((nanos - elapsed + 999_999_999) / 1_000_000_000) as nat;
                    if seconds <= u64::MAX {
                        seconds
                    } else {
                        u64::MAX as nat
                    }
                }
            },
        }
    }

    /// The quantity is a billion or more.
    pub open spec fn is_timestamp(self) -> bool {
        match self {
            Quantity::NotANumber => false,
            Quantity::Infinite { negative } => !negative,
            Quantity::Finite { negative, digits, exponent } => !negative && scaled(digits, exponent)
                >= 1_000_000_000,
        }
    }

    /// The quantity is zero, with whatever sign.
    pub open spec fn is_zero(self) -> bool {
        self matches Quantity::Finite { digits, .. } && digits == 0
    }
}

/// A number of seconds that was read, to the nanosecond.
#[derive(Debug, Clone, Copy)]
pub enum Number {
    /// `nan`.
    NotANumber,
    /// The whole nanoseconds of the absolute value, up to a cap, and whether it has a part of a
    /// nanosecond more.
    Amount { negative: bool, nanos: u128, more: bool },
}

impl Number {
    /// The number is that quantity of seconds.
    pub open spec fn reads(self, quantity: Quantity) -> bool {
        match (self, quantity) {
            (Number::NotANumber, Quantity::NotANumber) => true,
            (Number::Amount { negative, nanos, more }, Quantity::Infinite { negative: sign }) => {
                negative == sign && nanos == NANOS_CAP
            },
            (
                Number::Amount { negative, nanos, more },
                Quantity::Finite { negative: sign, digits, exponent },
            ) => {
                &&& negative == sign
                &&& if scaled(digits, exponent + 9) < NANOS_CAP {
                    nanos == scaled(digits, exponent + 9) && more == scaled_has_rest(
                        digits,
                        exponent + 9,
                    )
                } else {
                    nanos == NANOS_CAP
                }
            },
            _ => false,
        }
    }

    /// The seconds that are left once `elapsed` nanoseconds are over, rounded up.
    pub fn seconds_past(self, elapsed: u128) -> (seconds: u64)
        requires
            elapsed <= MAX_DURATION_NANOS,
        ensures
            forall|quantity: Quantity| #[trigger]
                self.reads(quantity) ==> seconds == quantity.seconds_past(elapsed as nat),
    {
        match self {
            Number::NotANumber => 0,
            Number::Amount { negative, nanos, more } => {
                if negative {
                    return 0;
                }
                if nanos >= NANOS_CAP {
                    return u64::MAX;
                }
                let up: u128 = if more {
                    nanos + 1
                } else {
                    nanos
                };
                if up <= elapsed {
                    return 0;
                }
                let seconds: u128 = (up - elapsed + 999_999_999) / 1_000_000_000;
                if seconds <= u64::MAX as u128 {
                    seconds as u64
                } else {
                    u64::MAX
                }
            },
        }
    }

    /// The number is a billion or more.
    pub fn is_timestamp(self) -> (large: bool)
        ensures
            forall|quantity: Quantity| #[trigger]
                self.reads(quantity) ==> large == quantity.is_timestamp(),
    {
        let large = match self {
            Number::NotANumber => false,
            Number::Amount { negative, nanos, more } => !negative && nanos
                >= 1_000_000_000_000_000_000,
        };
        proof {
            assert forall|quantity: Quantity| #[trigger] self.reads(quantity) implies large
                == quantity.is_timestamp() by {
                if let Quantity::Finite { negative, digits, exponent } = quantity {
                    lemma_scaled_reaches(digits, exponent, 9);
                    lemma_scaled_reaches(digits, exponent + 9, 18);
                    assert(pow(10, 9) == 1_000_000_000) by {
                        reveal_with_fuel(pow, 10);
                    }
                    assert(pow(10, 18) == 1_000_000_000_000_000_000) by {
                        reveal_with_fuel(pow, 19);
                    }
                }
            }
        }
        large
    }

    /// The number is zero, with whatever sign.
    pub fn is_zero(self) -> (zero: bool)
        ensures
            forall|quantity: Quantity| #[trigger]
                self.reads(quantity) ==> zero == quantity.is_zero(),
    {
        let zero = match self {
            Number::NotANumber => false,
            Number::Amount { negative, nanos, more } => nanos == 0 && !more,
        };
        proof {
            assert forall|quantity: Quantity| #[trigger] self.reads(quantity) implies zero
                == quantity.is_zero() by {
                if let Quantity::Finite { negative, digits, exponent } = quantity {
                    lemma_scaled_zero(digits, exponent + 9);
                }
            }
        }
        zero
    }
}

/// A space or a tab.
pub open spec fn is_blank(byte: u8) -> bool {
    byte == 32 || byte == 9
}

/// A text without the blanks before it.
pub open spec fn trim_start(text: Seq<u8>) -> Seq<u8>
    decreases text.len(),
{
    if text.len() > 0 && is_blank(text[0]) {
        trim_start(text.skip(1))
    } else {
        text
    }
}

/// A text without the blanks behind it.
pub open spec fn trim_end(text: Seq<u8>) -> Seq<u8>
    decreases text.len(),
{
    if text.len() > 0 && is_blank(text.last()) {
        trim_end(text.drop_last())
    } else {
        text
    }
}

/// A text without the blanks before it.
fn skip_blanks(text: &[u8]) -> (rest: &[u8])
    ensures
        rest@ == trim_start(text@),
{
    let mut from: usize = 0;
    proof {
        assert(text@.skip(0) =~= text@);
    }
    while from < text.len() && (text[from] == 32 || text[from] == 9)
        invariant
            from <= text.len(),
            trim_start(text@) == trim_start(text@.skip(from as int)),
        decreases text.len() - from,
    {
        proof {
            assert(text@.skip(from as int).skip(1) =~= text@.skip(from + 1));
        }
        from = from + 1;
    }
    proof {
        assert(text@.subrange(from as int, text@.len() as int) =~= text@.skip(from as int));
    }
    slice_subrange(text, from, text.len())
}

/// A text without the blanks around it.
pub fn trim(text: &[u8]) -> (trimmed: &[u8])
    ensures
        trimmed@ == trim_end(trim_start(text@)),
{
    let start = skip_blanks(text);
    let mut to: usize = start.len();
    proof {
        assert(start@.take(to as int) =~= start@);
    }
    while to > 0 && (start[to - 1] == 32 || start[to - 1] == 9)
        invariant
            to <= start.len(),
            trim_end(start@) == trim_end(start@.take(to as int)),
        decreases to,
    {
        proof {
            assert(start@.take(to as int).drop_last() =~= start@.take(to - 1));
        }
        to = to - 1;
    }
    proof {
        assert(start@.subrange(0, to as int) =~= start@.take(to as int));
    }
    slice_subrange(start, 0, to)
}

/// Whole nanoseconds round up: they are the fewest that make up so many seconds.
pub proof fn law_nanos_round_up(digits: nat, exponent: int)
    ensures
        exponent + 9 >= 0 ==> nanos_up(digits, exponent) == digits * pow(
            10,
            (exponent + 9) as nat,
        ),
        exponent + 9 < 0 ==> {
            let unit = pow(10, (-(exponent + 9)) as nat);
            &&& nanos_up(digits, exponent) * unit >= digits
            &&& nanos_up(digits, exponent) > 0 ==> (nanos_up(digits, exponent) - 1) * unit < digits
        },
{
    if exponent + 9 < 0 {
        let unit = pow(10, (-(exponent + 9)) as nat);
        vstd::arithmetic::power::lemma_pow_positive(10, (-(exponent + 9)) as nat);
        let q = digits as int / unit;
        let r = digits as int % unit;
        vstd::arithmetic::div_mod::lemma_fundamental_div_mod(digits as int, unit);
        vstd::arithmetic::div_mod::lemma_mod_bound(digits as int, unit);
        vstd::arithmetic::div_mod::lemma_div_pos_is_pos(digits as int, unit);
        assert(q * unit <= digits && (q + 1) * unit > digits && (r == 0 ==> q * unit == digits) && (r
            > 0 ==> q * unit < digits) && (q - 1) * unit < digits) by (nonlinear_arith)
            requires
                digits == unit * q + r,
                0 <= r < unit,
        ;
    } else {
        vstd::arithmetic::power::lemma_pow_positive(10, (exponent + 9) as nat);
        let unit = pow(10, (exponent + 9) as nat);
        assert(digits * unit >= 0) by (nonlinear_arith)
            requires
                unit > 0,
        ;
    }
}

/// Whole seconds round up: they are the fewest that, after the elapsed time, reach the quantity.
pub proof fn law_seconds_round_up(digits: nat, exponent: int, elapsed: nat)
    ensures
        ({
            let quantity = Quantity::Finite { negative: false, digits, exponent };
            let seconds = quantity.seconds_past(elapsed);
            let nanos = nanos_up(digits, exponent);
            &&& seconds <= u64::MAX
            &&& seconds < u64::MAX ==> seconds * 1_000_000_000 + elapsed >= nanos
            &&& seconds > 0 ==> (seconds - 1) * 1_000_000_000 + elapsed < nanos
        }),
{
}

/// Fractional seconds round up: they are the smallest whole number that is not below the quantity.
pub proof fn law_fractional_seconds_round_up(digits: nat, exponent: int)
    requires
        (Quantity::Finite { negative: false, digits, exponent }).seconds_past(0) < u64::MAX,
    ensures
        ({
            let seconds = (Quantity::Finite { negative: false, digits, exponent }).seconds_past(0);
            &&& exponent >= 0 ==> seconds == digits * pow(10, exponent as nat)
            &&& exponent < 0 ==> seconds * pow(10, (-exponent) as nat) >= digits
            &&& exponent < 0 && seconds > 0 ==> (seconds - 1) * pow(10, (-exponent) as nat) < digits
        }),
{
    let seconds = (Quantity::Finite { negative: false, digits, exponent }).seconds_past(0);
    let nanos = nanos_up(digits, exponent);
    let d = digits as int;
    law_nanos_round_up(digits, exponent);
    law_seconds_round_up(digits, exponent, 0);
    assert(pow(10, 9) == 1_000_000_000) by {
        reveal_with_fuel(pow, 10);
    }
    if exponent >= 0 {
        let p = pow(10, exponent as nat);
        vstd::arithmetic::power::lemma_pow_adds(10, exponent as nat, 9);
        assert(d * (p * 1_000_000_000) == (d * p) * 1_000_000_000) by (nonlinear_arith);
    } else {
        let p = pow(10, (-exponent) as nat);
        let n = seconds as int;
        if exponent + 9 >= 0 {
            let left = pow(10, (exponent + 9) as nat);
            vstd::arithmetic::power::lemma_pow_positive(10, (exponent + 9) as nat);
            vstd::arithmetic::power::lemma_pow_adds(10, (-exponent) as nat, (exponent + 9) as nat);
            assert(n * 1_000_000_000 >= d * left ==> n * p >= d) by (nonlinear_arith)
                requires
                    p * left == 1_000_000_000,
                    left > 0,
            ;
            assert((n - 1) * 1_000_000_000 < d * left ==> (n - 1) * p < d) by (nonlinear_arith)
                requires
                    p * left == 1_000_000_000,
                    left > 0,
            ;
        } else {
            let unit = pow(10, (-(exponent + 9)) as nat);
            vstd::arithmetic::power::lemma_pow_positive(10, (-(exponent + 9)) as nat);
            vstd::arithmetic::power::lemma_pow_adds(10, 9, (-(exponent + 9)) as nat);
            let c = nanos as int;
            assert(n * p >= d) by (nonlinear_arith)
                requires
                    p == 1_000_000_000 * unit,
                    unit > 0,
                    n * 1_000_000_000 >= c,
                    c * unit >= d,
            ;
            if n > 0 {
                assert((n - 1) * p < d) by (nonlinear_arith)
                    requires
                        p == 1_000_000_000 * unit,
                        unit > 0,
                        (n - 1) * 1_000_000_000 <= c - 1,
                        (c - 1) * unit < d,
                ;
            }
        }
    }
}

/// A row of digits is the number that it writes, so many whole seconds.
pub proof fn law_plain_digits_are_seconds(text: Seq<u8>)
    requires
        text.len() > 0,
        all_digits(text),
    ensures
        quantity(text) == Some(
            Quantity::Finite { negative: false, digits: digits_value(text), exponent: 0 },
        ),
        digits_value(text) <= u64::MAX ==> quantity(text)->0.seconds_past(0) == digits_value(text),
{
    assert(is_digit(text[0]));
    assert(unsigned(text) == text);
    lemma_first_of_absent(text, 0, 101, 69);
    lemma_first_of_absent(text, 0, 46, 46);
    assert(text.take(text.len() as int) =~= text);
    assert(text + Seq::<u8>::empty() =~= text);
    assert(lower(text[0]) == text[0]);
    assert(!is_word(text, seq![110u8, 97, 110]));
    assert(!is_word(text, seq![105u8, 110, 102]));
    assert(!is_word(text, seq![105u8, 110, 102, 105, 110, 105, 116, 121]));
    assert(pow(10, 9) == 1_000_000_000) by {
        reveal_with_fuel(pow, 10);
    }
}

/// A byte that is not a digit is not found among digits.
proof fn lemma_first_of_absent(text: Seq<u8>, from: int, a: u8, b: u8)
    requires
        all_digits(text),
        !is_digit(a),
        !is_digit(b),
        0 <= from <= text.len(),
    ensures
        first_of(text, from, a, b) == text.len(),
    decreases text.len() - from,
{
    if from < text.len() {
        assert(is_digit(text[from]));
        lemma_first_of_absent(text, from + 1, a, b);
    }
}

/// A text with a colon in it, as every HTTP-date has one, is not a number.
pub proof fn law_colon_is_in_no_number(text: Seq<u8>, i: int)
    requires
        0 <= i < text.len(),
        text[i] == 58,
    ensures
        quantity(text) is None,
{
    let rest = unsigned(text);
    let at = if rest.len() == text.len() {
        i
    } else {
        i - 1
    };
    assert(rest[at] == 58);
    assert(lower(rest[at]) == 58);
    let mark = first_of(rest, 0, 101, 69);
    lemma_first_of_range(rest, 0, 101, 69);
    let mantissa = rest.take(mark);
    if at < mark {
        assert(mantissa[at] == 58);
        let point = first_of(mantissa, 0, 46, 46);
        lemma_first_of_range(mantissa, 0, 46, 46);
        if at < point {
            assert(whole_part(mantissa)[at] == 58);
        } else {
            assert(fraction_part(mantissa)[at - point - 1] == 58);
        }
    } else {
        let tail = rest.skip(mark + 1);
        assert(tail[at - mark - 1] == 58);
        let digits = unsigned(tail);
        let place = if digits.len() == tail.len() {
            at - mark - 1
        } else {
            at - mark - 2
        };
        assert(digits[place] == 58);
    }
}

/// Where one of two bytes is found, one of them stands.
proof fn lemma_first_of_range(text: Seq<u8>, from: int, a: u8, b: u8)
    requires
        0 <= from <= text.len(),
    ensures
        from <= first_of(text, from, a, b) <= text.len(),
        first_of(text, from, a, b) < text.len() ==> {
            let found = text[first_of(text, from, a, b)];
            found == a || found == b
        },
    decreases text.len() - from,
{
    if from < text.len() && text[from] != a && text[from] != b {
        lemma_first_of_range(text, from + 1, a, b);
    }
}

/// The number that a row of digits writes, up to the cap.
fn capped_value(digits: &[u8]) -> (value: u128)
    requires
        all_digits(digits@),
    ensures
        value <= NANOS_CAP,
        digits_value(digits@) < NANOS_CAP ==> value == digits_value(digits@),
        digits_value(digits@) >= NANOS_CAP ==> value == NANOS_CAP,
{
    let mut value: u128 = 0;
    let mut i: usize = 0;
    while i < digits.len()
        invariant
            i <= digits.len(),
            all_digits(digits@),
            value <= NANOS_CAP,
            digits_value(digits@.take(i as int)) < NANOS_CAP ==> value == digits_value(
                digits@.take(i as int),
            ),
            digits_value(digits@.take(i as int)) >= NANOS_CAP ==> value == NANOS_CAP,
        decreases digits.len() - i,
    {
        proof {
            lemma_digits_push(digits@, i as int);
            assert(is_digit(digits@[i as int]));
        }
        let next: u128 = value * 10 + (digits[i] - 48) as u128;
        value = if next < NANOS_CAP {
            next
        } else {
            NANOS_CAP
        };
        i = i + 1;
    }
    proof {
        assert(digits@.take(i as int) =~= digits@);
    }
    value
}

/// All digits of a row are zeros.
fn all_zeros(digits: &[u8]) -> (zeros: bool)
    ensures
        zeros == forall|i: int| 0 <= i < digits@.len() ==> digits@[i] == 48,
{
    let mut i: usize = 0;
    while i < digits.len()
        invariant
            i <= digits.len(),
            forall|j: int| 0 <= j < i ==> digits@[j] == 48,
        decreases digits.len() - i,
    {
        if digits[i] != 48 {
            return false;
        }
        i = i + 1;
    }
    true
}

/// A row of digits, scaled by a power of ten: the whole part up to the cap, and whether there is
/// something behind the decimal point.
fn scale(digits: &[u8], power: i128) -> (scaled_digits: (u128, bool))
    requires
        all_digits(digits@),
        power > i128::MIN,
    ensures
        if scaled(digits_value(digits@), power as int) < NANOS_CAP {
            scaled_digits.0 == scaled(digits_value(digits@), power as int) && scaled_digits.1
                == scaled_has_rest(digits_value(digits@), power as int)
        } else {
            scaled_digits.0 == NANOS_CAP
        },
{
    let ghost all = digits_value(digits@);
    if power >= 0 {
        let mut value: u128 = capped_value(digits);
        let mut done: i128 = 0;
        proof {
            reveal(pow);
        }
        while done < power && 0 < value && value < NANOS_CAP
            invariant
                0 <= done <= power,
                value <= NANOS_CAP,
                value < NANOS_CAP ==> value == all * pow(10, done as nat),
                value == NANOS_CAP ==> all * pow(10, done as nat) >= NANOS_CAP,
            decreases power - done,
        {
            proof {
                reveal(pow);
                let p = pow(10, done as nat);
                assert(all * (10 * p) == (all * p) * 10) by (nonlinear_arith);
            }
            let next: u128 = value * 10;
            value = if next < NANOS_CAP {
                next
            } else {
                NANOS_CAP
            };
            done = done + 1;
        }
        proof {
            lemma_scaled_up(all, done as nat, power as nat);
        }
        (value, false)
    } else {
        let dropped: u128 = (-power) as u128;
        if dropped >= digits.len() as u128 {
            proof {
                lemma_digits_zero(digits@);
                lemma_small_power(digits@, dropped as nat);
            }
            (0, !all_zeros(digits))
        } else {
            let kept: usize = digits.len() - dropped as usize;
            let front = slice_subrange(digits, 0, kept);
            let back = slice_subrange(digits, kept, digits.len());
            proof {
                assert(front@ =~= digits@.take(kept as int));
                assert(back@ =~= digits@.skip(kept as int));
                assert forall|i: int| 0 <= i < front@.len() implies is_digit(#[trigger] front@[i]) by {
                    assert(is_digit(digits@[i]));
                }
                assert forall|i: int| 0 <= i < back@.len() implies is_digit(#[trigger] back@[i]) by {
                    assert(is_digit(digits@[i + kept]));
                }
                lemma_digits_split(digits@, kept as int);
                lemma_digits_bound(back@);
                lemma_digits_zero(back@);
                let p = pow(10, dropped as nat);
                vstd::arithmetic::div_mod::lemma_fundamental_div_mod_converse(
                    all as int,
                    p,
                    digits_value(front@) as int,
                    digits_value(back@) as int,
                );
            }
            (capped_value(front), !all_zeros(back))
        }
    }
}

/// The first place at which one of the two bytes stands; the end if there is none.
fn find(text: &[u8], a: u8, b: u8) -> (place: usize)
    ensures
        place == first_of(text@, 0, a, b),
        place <= text@.len(),
{
    let mut i: usize = 0;
    while i < text.len() && text[i] != a && text[i] != b
        invariant
            i <= text.len(),
            first_of(text@, 0, a, b) == first_of(text@, i as int, a, b),
        decreases text.len() - i,
    {
        i = i + 1;
    }
    i
}

/// There are nothing but decimal digits.
fn are_digits(text: &[u8]) -> (digits: bool)
    ensures
        digits == all_digits(text@),
{
    let mut i: usize = 0;
    while i < text.len()
        invariant
            i <= text.len(),
            forall|j: int| 0 <= j < i ==> is_digit(#[trigger] text@[j]),
        decreases text.len() - i,
    {
        if text[i] < 48 || text[i] > 57 {
            assert(!is_digit(text@[i as int]));
            return false;
        }
        i = i + 1;
    }
    true
}

/// A text is the given lower-case word, in whatever case.
fn matches_word(text: &[u8], word: &Vec<u8>) -> (matches: bool)
    ensures
        matches == is_word(text@, word@),
{
    if text.len() != word.len() {
        return false;
    }
    let mut i: usize = 0;
    while i < text.len()
        invariant
            i <= text.len(),
            text@.len() == word@.len(),
            forall|j: int| 0 <= j < i ==> lower(#[trigger] text@[j]) == word@[j],
        decreases text.len() - i,
    {
        let byte: u8 = text[i];
        let small: u8 = if 65 <= byte && byte <= 90 {
            byte + 32
        } else {
            byte
        };
        if small != word[i] {
            assert(lower(text@[i as int]) != word@[i as int]);
            return false;
        }
        i = i + 1;
    }
    true
}

/// A text without its sign, if it has one.
fn strip_sign(text: &[u8]) -> (rest: &[u8])
    ensures
        rest@ == unsigned(text@),
{
    if text.len() > 0 && (text[0] == 45 || text[0] == 43) {
        proof {
            assert(text@.subrange(1, text@.len() as int) =~= text@.skip(1));
        }
        slice_subrange(text, 1, text.len())
    } else {
        text
    }
}

/// An exponent, with anything beyond the cap at the cap.
spec fn clamped(exponent: int) -> int {
    if exponent > NANOS_CAP {
        NANOS_CAP as int
    } else if exponent < -NANOS_CAP {
        -NANOS_CAP
    } else {
        exponent
    }
}

/// The exponent that stands behind an `e`, up to the cap.
fn read_exponent(text: &[u8]) -> (exponent: Option<i128>)
    ensures
        exponent is Some <==> exponent_value(text@) is Some,
        exponent matches Some(e) ==> e == clamped(exponent_value(text@)->0),
{
    let digits = strip_sign(text);
    if digits.len() == 0 || !are_digits(digits) {
        return None;
    }
    let value: i128 = capped_value(digits) as i128;
    if text[0] == 45 {
        Some(-value)
    } else {
        Some(value)
    }
}

/// A mantissa and an exponent, as an amount of seconds with the given sign.
fn read_decimal(rest: &[u8], negative: bool) -> (number: Option<Number>)
    ensures
        number is Some <==> decimal(rest@) is Some,
        number matches Some(n) ==> n.reads(
            Quantity::Finite {
                negative,
                digits: decimal(rest@)->0.digits,
                exponent: decimal(rest@)->0.exponent,
            },
        ),
{
    let mark: usize = find(rest, 101, 69);
    let mantissa = slice_subrange(rest, 0, mark);
    proof {
        assert(mantissa@ =~= rest@.take(mark as int));
    }
    let exponent: i128 = if mark < rest.len() {
        proof {
            assert(rest@.subrange(mark + 1, rest@.len() as int) =~= rest@.skip(mark + 1));
        }
        match read_exponent(slice_subrange(rest, mark + 1, rest.len())) {
            Some(e) => e,
            None => {
                return None;
            },
        }
    } else {
        0
    };
    let point: usize = find(mantissa, 46, 46);
    let whole = slice_subrange(mantissa, 0, point);
    let after: usize = if point < mantissa.len() {
        point + 1
    } else {
        point
    };
    let fraction = slice_subrange(mantissa, after, mantissa.len());
    proof {
        assert(whole@ =~= whole_part(mantissa@));
        assert(fraction@ =~= fraction_part(mantissa@));
    }
    if !are_digits(whole) || !are_digits(fraction) {
        return None;
    }
    if whole.len() == 0 && fraction.len() == 0 {
        return None;
    }
    let mut digits: Vec<u8> = slice_to_vec(whole);
    let mut tail: Vec<u8> = slice_to_vec(fraction);
    digits.append(&mut tail);
    proof {
        assert(digits@ =~= whole@ + fraction@);
        assert forall|i: int| 0 <= i < digits@.len() implies is_digit(#[trigger] digits@[i]) by {
            if i < whole@.len() {
                assert(is_digit(whole@[i]));
            } else {
                assert(is_digit(fraction@[i - whole@.len()]));
            }
        }
        lemma_clamped(
            digits@,
            decimal(rest@)->0.exponent + fraction@.len(),
            fraction@.len() as int,
        );
    }
    let (nanos, more) = scale(digits.as_slice(), exponent - fraction.len() as i128 + 9);
    Some(Number::Amount { negative, nanos, more })
}

/// The number that a text writes, if it writes one.
pub fn read_number(text: &[u8]) -> (number: Option<Number>)
    ensures
        number is Some <==> quantity(text@) is Some,
        number matches Some(n) ==> n.reads(quantity(text@)->0),
{
    let negative = text.len() > 0 && text[0] == 45;
    let rest = strip_sign(text);
    let nan: Vec<u8> = vec![110u8, 97, 110];
    let inf: Vec<u8> = vec![105u8, 110, 102];
    let infinity: Vec<u8> = vec![105u8, 110, 102, 105, 110, 105, 116, 121];
    proof {
        assert(nan@ =~= seq![110u8, 97, 110]);
        assert(inf@ =~= seq![105u8, 110, 102]);
        assert(infinity@ =~= seq![105u8, 110, 102, 105, 110, 105, 116, 121]);
    }
    if matches_word(rest, &nan) {
        return Some(Number::NotANumber);
    }
    if matches_word(rest, &inf) || matches_word(rest, &infinity) {
        return Some(Number::Amount { negative, nanos: NANOS_CAP, more: false });
    }
    read_decimal(rest, negative)
}

/// Scaling by an exponent at the cap is no different from scaling by one beyond it.
proof fn lemma_clamped(digits: Seq<u8>, exponent: int, shift: int)
    requires
        all_digits(digits),
        digits.len() <= usize::MAX,
        0 <= shift <= usize::MAX,
    ensures
        ({
            let d = digits_value(digits);
            let near = clamped(exponent) - shift + 9;
            let far = exponent - shift + 9;
            if scaled(d, far) < NANOS_CAP {
                scaled(d, near) == scaled(d, far) && scaled_has_rest(d, near) == scaled_has_rest(
                    d,
                    far,
                )
            } else {
                scaled(d, near) >= NANOS_CAP
            }
        }),
{
    let d = digits_value(digits);
    let near = clamped(exponent) - shift + 9;
    let far = exponent - shift + 9;
    if exponent > NANOS_CAP {
        lemma_scaled_up(d, near as nat, far as nat);
        if d > 0 {
            lemma_large_power(d, near as nat);
        } else {
            assert(d * pow(10, near as nat) == 0) by (nonlinear_arith)
                requires
                    d == 0,
            ;
            assert(d * pow(10, far as nat) == 0) by (nonlinear_arith)
                requires
                    d == 0,
            ;
        }
    } else if exponent < -NANOS_CAP {
        lemma_small_power(digits, (-near) as nat);
        lemma_small_power(digits, (-far) as nat);
    }
}

/// Anything but zero, times a large power of ten, reaches the cap.
proof fn lemma_large_power(digits: nat, power: nat)
    requires
        digits > 0,
        power >= 30,
    ensures
        digits * pow(10, power) >= NANOS_CAP,
{
    vstd::arithmetic::power::lemma_pow_increases(10, 30, power);
    assert(pow(10, 30) == NANOS_CAP) by {
        reveal_with_fuel(pow, 31);
    }
    let p = pow(10, power);
    assert(digits * p >= p) by (nonlinear_arith)
        requires
            digits > 0,
            p >= 0,
    ;
}

/// Dropping at least as many digits as there are leaves nothing, and a rest unless all were zeros.
proof fn lemma_small_power(digits: Seq<u8>, dropped: nat)
    requires
        all_digits(digits),
        dropped >= digits.len(),
        dropped > 0,
    ensures
        scaled(digits_value(digits), -(dropped as int)) == 0,
        scaled_has_rest(digits_value(digits), -(dropped as int)) == (digits_value(digits) != 0),
{
    let d = digits_value(digits);
    lemma_digits_bound(digits);
    vstd::arithmetic::power::lemma_pow_increases(10, digits.len(), dropped);
    vstd::arithmetic::div_mod::lemma_basic_div(d as int, pow(10, dropped));
    vstd::arithmetic::div_mod::lemma_small_mod(d, pow(10, dropped) as nat);
}

/// A scaled number reaches a power of ten when its digits reach the power of ten that is left.
proof fn lemma_scaled_reaches(digits: nat, power: int, bound: nat)
    ensures
        scaled(digits, power) >= pow(10, bound) <==> if power <= bound {
            digits >= pow(10, (bound - power) as nat)
        } else {
            digits >= 1
        },
{
    let goal = pow(10, bound);
    vstd::arithmetic::power::lemma_pow_positive(10, bound);
    if power > bound {
        vstd::arithmetic::power::lemma_pow_increases(10, bound, power as nat);
        let p = pow(10, power as nat);
        assert(digits >= 1 ==> digits * p >= p) by (nonlinear_arith)
            requires
                p > 0,
        ;
        assert(digits == 0 ==> digits * p == 0) by (nonlinear_arith);
    } else if power >= 0 {
        let p = pow(10, power as nat);
        let left = pow(10, (bound - power) as nat);
        vstd::arithmetic::power::lemma_pow_positive(10, power as nat);
        vstd::arithmetic::power::lemma_pow_adds(10, (bound - power) as nat, power as nat);
        assert(digits * p >= left * p <==> digits >= left) by (nonlinear_arith)
            requires
                p > 0,
        ;
    } else {
        let p = pow(10, (-power) as nat);
        vstd::arithmetic::power::lemma_pow_positive(10, (-power) as nat);
        vstd::arithmetic::power::lemma_pow_adds(10, bound, (-power) as nat);
        let q = digits as int / p;
        let r = digits as int % p;
        vstd::arithmetic::div_mod::lemma_fundamental_div_mod(digits as int, p);
        vstd::arithmetic::div_mod::lemma_mod_bound(digits as int, p);
        assert(q >= goal <==> digits >= goal * p) by (nonlinear_arith)
            requires
                digits == p * q + r,
                0 <= r < p,
        ;
        vstd::arithmetic::div_mod::lemma_div_pos_is_pos(digits as int, p);
    }
}

/// Scaling leaves nothing at all of zero, and of zero only.
proof fn lemma_scaled_zero(digits: nat, power: int)
    ensures
        scaled(digits, power) == 0 && !scaled_has_rest(digits, power) <==> digits == 0,
{
    let p = if power >= 0 {
        pow(10, power as nat)
    } else {
        pow(10, (-power) as nat)
    };
    if power >= 0 {
        vstd::arithmetic::power::lemma_pow_positive(10, power as nat);
        assert(digits * p == 0 <==> digits == 0) by (nonlinear_arith)
            requires
                p > 0,
        ;
    } else {
        vstd::arithmetic::power::lemma_pow_positive(10, (-power) as nat);
        vstd::arithmetic::div_mod::lemma_fundamental_div_mod(digits as int, p);
        vstd::arithmetic::div_mod::lemma_div_pos_is_pos(digits as int, p);
        vstd::arithmetic::div_mod::lemma_basic_div(0, p);
        vstd::arithmetic::div_mod::lemma_small_mod(0, p as nat);
        let q = digits as int / p;
        let r = digits as int % p;
        assert(q == 0 && r == 0 ==> digits == 0) by (nonlinear_arith)
            requires
                digits == p * q + r,
        ;
    }
}

/// Scaling on does not make a number smaller, and leaves zero as it is.
proof fn lemma_scaled_up(digits: nat, done: nat, power: nat)
    requires
        done <= power,
    ensures
        digits * pow(10, done) <= digits * pow(10, power),
        digits * pow(10, done) == 0 ==> digits * pow(10, power) == 0,
{
    vstd::arithmetic::power::lemma_pow_increases(10, done, power);
    vstd::arithmetic::power::lemma_pow_positive(10, done);
    let a = pow(10, done);
    let b = pow(10, power);
    assert(digits * a <= digits * b) by (nonlinear_arith)
        requires
            a <= b,
            digits >= 0,
    ;
    assert(digits * a == 0 ==> digits * b == 0) by (nonlinear_arith)
        requires
            a > 0,
            digits >= 0,
    ;
}

/// Writing one more digit behind a row of digits.
proof fn lemma_digits_push(text: Seq<u8>, i: int)
    requires
        0 <= i < text.len(),
    ensures
        digits_value(text.take(i + 1)) == digits_value(text.take(i)) * 10 + (text[i] - 48) as nat,
{
    assert(text.take(i + 1).drop_last() =~= text.take(i));
}

/// So many digits write a number below that power of ten.
proof fn lemma_digits_bound(text: Seq<u8>)
    requires
        all_digits(text),
    ensures
        digits_value(text) < pow(10, text.len()),
    decreases text.len(),
{
    reveal(pow);
    if text.len() > 0 {
        lemma_digits_bound(text.drop_last());
        assert(is_digit(text.last()));
        assert(digits_value(text.drop_last()) + 1 <= pow(10, (text.len() - 1) as nat));
    }
}

/// A row of digits cut in two: the first part, shifted past the second, and the second.
proof fn lemma_digits_split(text: Seq<u8>, kept: int)
    requires
        all_digits(text),
        0 <= kept <= text.len(),
    ensures
        digits_value(text) == digits_value(text.take(kept)) * pow(10, (text.len() - kept) as nat)
            + digits_value(text.skip(kept)),
    decreases text.len() - kept,
{
    reveal(pow);
    if kept == text.len() {
        assert(text.take(kept) =~= text);
        assert(text.skip(kept) =~= Seq::empty());
    } else {
        let front = text.drop_last();
        lemma_digits_split(front, kept);
        assert(front.take(kept) =~= text.take(kept));
        assert(text.skip(kept).drop_last() =~= front.skip(kept));
        assert(text.skip(kept).last() == text.last());
        let m = (text.len() - kept) as nat;
        let a = digits_value(text.take(kept)) as int;
        assert((a * pow(10, (m - 1) as nat)) * 10 == a * pow(10, m)) by (nonlinear_arith)
            requires
                pow(10, m) == 10 * pow(10, (m - 1) as nat),
        ;
    }
}

/// A row of digits writes zero when all of them are zeros, and only then.
proof fn lemma_digits_zero(text: Seq<u8>)
    requires
        all_digits(text),
    ensures
        digits_value(text) == 0 <==> forall|i: int| 0 <= i < text.len() ==> text[i] == 48,
    decreases text.len(),
{
    if text.len() > 0 {
        let front = text.drop_last();
        lemma_digits_zero(front);
        assert(is_digit(text.last()));
        if digits_value(text) == 0 {
            assert forall|i: int| 0 <= i < text.len() implies text[i] == 48 by {
                if i < text.len() - 1 {
                    assert(front[i] == text[i]);
                }
            }
        }
    }
}

/// The parts that a decimal number is written of: a sign, digits, a point, digits, and an exponent that
/// is a letter, a sign and digits. Each part may be missing.
pub struct NumberParts {
    pub sign: Seq<u8>,
    pub whole: Seq<u8>,
    pub point: Seq<u8>,
    pub fraction: Seq<u8>,
    pub letter: Seq<u8>,
    pub exponent_sign: Seq<u8>,
    pub exponent: Seq<u8>,
}

/// Digits are read from the left: each one is worth a tenth of the one before it.
pub proof fn law_digits_are_decimal(text: Seq<u8>, digit: u8)
    requires
        48 <= digit <= 57,
    ensures
        digits_value(Seq::<u8>::empty()) == 0,
        digits_value(text.push(digit)) == 10 * digits_value(text) + (digit - 48),
{
    assert(text.push(digit).drop_last() =~= text);
}

/// The first place is where nothing of the two stands before and one of them stands, or the end.
proof fn lemma_first_of_is(text: Seq<u8>, from: int, place: int, a: u8, b: u8)
    requires
        0 <= from <= place <= text.len(),
        forall|i: int| from <= i < place ==> text[i] != a && text[i] != b,
        place < text.len() ==> text[place] == a || text[place] == b,
    ensures
        first_of(text, from, a, b) == place,
    decreases place - from,
{
    if from < place {
        lemma_first_of_is(text, from + 1, place, a, b);
    }
}

/// Every decimal number is read: with or without a sign, with or without a point, which may stand
/// first or last, and with or without an exponent. It is the digits without the point, and a power of
/// ten that is the exponent less the digits behind the point.
pub proof fn law_decimals_are_read(parts: NumberParts)
    requires
        parts.sign == Seq::<u8>::empty() || parts.sign == seq![43u8] || parts.sign == seq![45u8],
        forall|i: int| 0 <= i < parts.whole.len() ==> 48 <= #[trigger] parts.whole[i] <= 57,
        forall|i: int| 0 <= i < parts.fraction.len() ==> 48 <= #[trigger] parts.fraction[i] <= 57,
        forall|i: int| 0 <= i < parts.exponent.len() ==> 48 <= #[trigger] parts.exponent[i] <= 57,
        parts.whole.len() + parts.fraction.len() > 0,
        parts.point == seq![46u8] || (parts.point.len() == 0 && parts.fraction.len() == 0),
        if parts.letter.len() == 0 {
            parts.exponent_sign.len() == 0 && parts.exponent.len() == 0
        } else {
            &&& parts.letter == seq![101u8] || parts.letter == seq![69u8]
            &&& parts.exponent_sign == Seq::<u8>::empty() || parts.exponent_sign == seq![43u8]
                || parts.exponent_sign == seq![45u8]
            &&& parts.exponent.len() > 0
        },
    ensures
        quantity(
            parts.sign + parts.whole + parts.point + parts.fraction + parts.letter
                + parts.exponent_sign + parts.exponent,
        ) == Some(
            Quantity::Finite {
                negative: parts.sign == seq![45u8],
                digits: digits_value(parts.whole + parts.fraction),
                exponent: (if parts.exponent_sign == seq![45u8] {
                    -digits_value(parts.exponent)
                } else {
                    digits_value(parts.exponent) as int
                }) - parts.fraction.len(),
            },
        ),
{
    let tail = parts.exponent_sign + parts.exponent;
    let mantissa = parts.whole + parts.point + parts.fraction;
    let rest = mantissa + parts.letter + tail;
    let text = parts.sign + parts.whole + parts.point + parts.fraction + parts.letter
        + parts.exponent_sign + parts.exponent;
    lemma_mantissa_parts(parts.whole, parts.point, parts.fraction);
    lemma_digits_are_all(parts.exponent);
    assert(text =~= parts.sign + rest);
    assert(rest[0] == mantissa[0]);
    lemma_sign_parts(parts.sign, rest);
    if parts.letter.len() > 0 {
        assert(is_digit(parts.exponent[0]));
        lemma_sign_parts(parts.exponent_sign, parts.exponent);
    } else {
        assert(parts.exponent =~= Seq::empty());
        assert(parts.exponent_sign.len() != seq![45u8].len());
        assert(tail =~= Seq::empty());
    }
    lemma_decimal_parts(mantissa, parts.letter, tail);
    lemma_no_word(rest);
}

/// A row of digits is all digits.
proof fn lemma_digits_are_all(text: Seq<u8>)
    requires
        forall|i: int| 0 <= i < text.len() ==> 48 <= #[trigger] text[i] <= 57,
    ensures
        all_digits(text),
{
}

/// What starts with a digit or a point is none of the words.
proof fn lemma_no_word(text: Seq<u8>)
    requires
        text.len() > 0,
        text[0] == 46 || 48 <= text[0] <= 57,
    ensures
        !is_word(text, seq![110u8, 97, 110]),
        !is_word(text, seq![105u8, 110, 102]),
        !is_word(text, seq![105u8, 110, 102, 105, 110, 105, 116, 121]),
{
    assert(lower(text[0]) == text[0]);
}

/// A sign before what starts with none is taken off again.
proof fn lemma_sign_parts(sign: Seq<u8>, rest: Seq<u8>)
    requires
        sign == Seq::<u8>::empty() || sign == seq![43u8] || sign == seq![45u8],
        rest.len() > 0,
        rest[0] != 43 && rest[0] != 45,
    ensures
        unsigned(sign + rest) == rest,
        is_negative(sign + rest) == (sign == seq![45u8]),
{
    let text = sign + rest;
    if sign.len() == 0 {
        assert(text =~= rest);
        assert(sign.len() != seq![45u8].len());
    } else {
        assert(text[0] == sign[0]);
        assert(text.skip(1) =~= rest);
        assert(seq![45u8][0] == 45 && seq![43u8][0] == 43);
    }
}

/// A mantissa comes apart at its point.
proof fn lemma_mantissa_parts(whole: Seq<u8>, point: Seq<u8>, fraction: Seq<u8>)
    requires
        forall|i: int| 0 <= i < whole.len() ==> 48 <= #[trigger] whole[i] <= 57,
        forall|i: int| 0 <= i < fraction.len() ==> 48 <= #[trigger] fraction[i] <= 57,
        whole.len() + fraction.len() > 0,
        point == seq![46u8] || (point.len() == 0 && fraction.len() == 0),
    ensures
        ({
            let mantissa = whole + point + fraction;
            &&& whole_part(mantissa) == whole
            &&& fraction_part(mantissa) == fraction
            &&& all_digits(whole)
            &&& all_digits(fraction)
            &&& mantissa.len() > 0
            &&& forall|i: int|
                0 <= i < mantissa.len() ==> #[trigger] mantissa[i] == 46 || 48 <= mantissa[i] <= 57
        }),
{
    let mantissa = whole + point + fraction;
    let w = whole.len() as int;
    assert forall|i: int| 0 <= i < mantissa.len() implies #[trigger] mantissa[i] == 46 || 48
        <= mantissa[i] <= 57 by {
        if i < w {
            assert(mantissa[i] == whole[i]);
        } else if i > w || point.len() == 0 {
            assert(mantissa[i] == fraction[i - w - point.len()]);
        }
    }
    assert forall|i: int| 0 <= i < w implies mantissa[i] != 46 by {
        assert(mantissa[i] == whole[i]);
    }
    lemma_first_of_is(mantissa, 0, w, 46, 46);
    assert(whole_part(mantissa) =~= whole);
    assert(fraction_part(mantissa) =~= fraction);
    lemma_digits_are_all(whole);
    lemma_digits_are_all(fraction);
}

/// A number comes apart at the letter before its exponent.
proof fn lemma_decimal_parts(mantissa: Seq<u8>, letter: Seq<u8>, tail: Seq<u8>)
    requires
        forall|i: int|
            0 <= i < mantissa.len() ==> #[trigger] mantissa[i] == 46 || 48 <= mantissa[i] <= 57,
        letter == seq![101u8] || letter == seq![69u8] || (letter.len() == 0 && tail.len() == 0),
    ensures
        ({
            let whole = whole_part(mantissa);
            let fraction = fraction_part(mantissa);
            let exponent = if letter.len() > 0 {
                exponent_value(tail)
            } else {
                Some(0)
            };
            decimal(mantissa + letter + tail) == if all_digits(whole) && all_digits(fraction)
                && whole.len() + fraction.len() > 0 && exponent is Some {
                Some(
                    Decimal {
                        digits: digits_value(whole + fraction),
                        exponent: exponent->0 - fraction.len(),
                    },
                )
            } else {
                None
            }
        }),
{
    let rest = mantissa + letter + tail;
    let m = mantissa.len() as int;
    assert forall|i: int| 0 <= i < m implies rest[i] != 101 && rest[i] != 69 by {
        assert(rest[i] == mantissa[i]);
    }
    if letter.len() > 0 {
        assert(rest[m] == letter[0]);
        assert(rest.skip(m + 1) =~= tail);
    }
    lemma_first_of_is(rest, 0, m, 101, 69);
    assert(rest.take(m) =~= mantissa);
}

/// Nothing but a decimal number is read as one: a text that is read comes apart into its parts.
pub proof fn law_what_is_read_is_decimal(text: Seq<u8>) -> (parts: NumberParts)
    requires
        quantity(text) is Some,
        quantity(text)->0 is Finite,
    ensures
        text == parts.sign + parts.whole + parts.point + parts.fraction + parts.letter
            + parts.exponent_sign + parts.exponent,
        parts.sign == Seq::<u8>::empty() || parts.sign == seq![43u8] || parts.sign == seq![45u8],
        forall|i: int| 0 <= i < parts.whole.len() ==> 48 <= #[trigger] parts.whole[i] <= 57,
        forall|i: int| 0 <= i < parts.fraction.len() ==> 48 <= #[trigger] parts.fraction[i] <= 57,
        forall|i: int| 0 <= i < parts.exponent.len() ==> 48 <= #[trigger] parts.exponent[i] <= 57,
        parts.whole.len() + parts.fraction.len() > 0,
        parts.point == seq![46u8] || (parts.point.len() == 0 && parts.fraction.len() == 0),
        if parts.letter.len() == 0 {
            parts.exponent_sign.len() == 0 && parts.exponent.len() == 0
        } else {
            &&& parts.letter == seq![101u8] || parts.letter == seq![69u8]
            &&& parts.exponent_sign == Seq::<u8>::empty() || parts.exponent_sign == seq![43u8]
                || parts.exponent_sign == seq![45u8]
            &&& parts.exponent.len() > 0
        },
{
    let rest = unsigned(text);
    let sign = lemma_split_sign(text);
    let mark = first_of(rest, 0, 101, 69);
    lemma_first_of_range(rest, 0, 101, 69);
    let mantissa = rest.take(mark);
    let whole = whole_part(mantissa);
    let fraction = fraction_part(mantissa);
    assert(decimal(rest) is Some);
    let point = lemma_split_mantissa(mantissa);
    if mark < rest.len() {
        let letter = seq![rest[mark]];
        let tail = rest.skip(mark + 1);
        let exponent = unsigned(tail);
        let exponent_sign = lemma_split_sign(tail);
        assert(exponent_value(tail) is Some);
        assert forall|i: int| 0 <= i < exponent.len() implies 48 <= #[trigger] exponent[i] <= 57 by {
            assert(is_digit(exponent[i]));
        }
        assert(rest =~= mantissa + letter + tail);
        assert(letter =~= seq![101u8] || letter =~= seq![69u8]);
        lemma_parts_concat(
            sign,
            whole,
            point,
            fraction,
            letter,
            exponent_sign,
            exponent,
        );
        NumberParts { sign, whole, point, fraction, letter, exponent_sign, exponent }
    } else {
        let nothing = Seq::<u8>::empty();
        assert(rest =~= mantissa + nothing + nothing);
        assert(nothing + nothing =~= nothing);
        lemma_parts_concat(sign, whole, point, fraction, nothing, nothing, nothing);
        NumberParts {
            sign,
            whole,
            point,
            fraction,
            letter: nothing,
            exponent_sign: nothing,
            exponent: nothing,
        }
    }
}

/// The parts of a number can be put together in groups.
proof fn lemma_parts_concat(
    sign: Seq<u8>,
    whole: Seq<u8>,
    point: Seq<u8>,
    fraction: Seq<u8>,
    letter: Seq<u8>,
    exponent_sign: Seq<u8>,
    exponent: Seq<u8>,
)
    ensures
        sign + (whole + point + fraction + letter + (exponent_sign + exponent)) == sign + whole
            + point + fraction + letter + exponent_sign + exponent,
{
    assert(sign + (whole + point + fraction + letter + (exponent_sign + exponent)) =~= sign + whole
        + point + fraction + letter + exponent_sign + exponent);
}

/// The sign before a text.
proof fn lemma_split_sign(text: Seq<u8>) -> (sign: Seq<u8>)
    ensures
        text == sign + unsigned(text),
        sign == Seq::<u8>::empty() || sign == seq![43u8] || sign == seq![45u8],
{
    if text.len() > 0 && text[0] == 45 {
        assert(text =~= seq![45u8] + text.skip(1));
        seq![45u8]
    } else if text.len() > 0 && text[0] == 43 {
        assert(text =~= seq![43u8] + text.skip(1));
        seq![43u8]
    } else {
        assert(text =~= Seq::<u8>::empty() + text);
        Seq::empty()
    }
}

/// The point in a mantissa.
proof fn lemma_split_mantissa(mantissa: Seq<u8>) -> (point: Seq<u8>)
    requires
        all_digits(whole_part(mantissa)),
        all_digits(fraction_part(mantissa)),
    ensures
        mantissa == whole_part(mantissa) + point + fraction_part(mantissa),
        point == seq![46u8] || (point.len() == 0 && fraction_part(mantissa).len() == 0),
        forall|i: int|
            0 <= i < whole_part(mantissa).len() ==> 48 <= #[trigger] whole_part(mantissa)[i] <= 57,
        forall|i: int|
            0 <= i < fraction_part(mantissa).len() ==> 48 <= #[trigger] fraction_part(mantissa)[i]
                <= 57,
{
    let whole = whole_part(mantissa);
    let fraction = fraction_part(mantissa);
    let place = first_of(mantissa, 0, 46, 46);
    lemma_first_of_range(mantissa, 0, 46, 46);
    assert forall|i: int| 0 <= i < whole.len() implies 48 <= #[trigger] whole[i] <= 57 by {
        assert(is_digit(whole[i]));
    }
    assert forall|i: int| 0 <= i < fraction.len() implies 48 <= #[trigger] fraction[i] <= 57 by {
        assert(is_digit(fraction[i]));
    }
    if place < mantissa.len() {
        assert(mantissa =~= whole + seq![46u8] + fraction);
        seq![46u8]
    } else {
        assert(mantissa =~= whole + Seq::<u8>::empty() + fraction);
        Seq::empty()
    }
}

/// Besides decimal numbers, only three words are read, in whatever case and with a sign or none.
pub proof fn law_three_words_are_read(text: Seq<u8>, rest: Seq<u8>)
    requires
        rest == if text.len() > 0 && (text[0] == 43 || text[0] == 45) {
            text.skip(1)
        } else {
            text
        },
    ensures
        quantity(text) == Some(Quantity::NotANumber) <==> rest.len() == 3 && (rest[0] == 110
            || rest[0] == 78) && (rest[1] == 97 || rest[1] == 65) && (rest[2] == 110 || rest[2]
            == 78),
        (quantity(text) is Some && quantity(text)->0 is Infinite) <==> (rest.len() == 3 || (rest.len()
            == 8 && (rest[3] == 105 || rest[3] == 73) && (rest[4] == 110 || rest[4] == 78) && (
        rest[5] == 105 || rest[5] == 73) && (rest[6] == 116 || rest[6] == 84) && (rest[7] == 121
            || rest[7] == 89))) && (rest[0] == 105 || rest[0] == 73) && (rest[1] == 110 || rest[1]
            == 78) && (rest[2] == 102 || rest[2] == 70),
        quantity(text) matches Some(Quantity::Infinite { negative }) ==> negative == (text[0] == 45),
{
    assert(rest =~= unsigned(text));
    let nan = seq![110u8, 97, 110];
    let inf = seq![105u8, 110, 102];
    let infinity = seq![105u8, 110, 102, 105, 110, 105, 116, 121];
    assert(nan[0] == 110 && nan[1] == 97 && nan[2] == 110);
    assert(inf[0] == 105 && inf[1] == 110 && inf[2] == 102);
    assert(infinity[0] == 105 && infinity[1] == 110 && infinity[2] == 102 && infinity[3] == 105
        && infinity[4] == 110 && infinity[5] == 105 && infinity[6] == 116 && infinity[7] == 121);
    assert(is_word(rest, nan) <==> rest.len() == 3 && (rest[0] == 110 || rest[0] == 78) && (rest[1]
        == 97 || rest[1] == 65) && (rest[2] == 110 || rest[2] == 78)) by {
        if is_word(rest, nan) {
            assert(lower(rest[0]) == nan[0] && lower(rest[1]) == nan[1] && lower(rest[2]) == nan[2]);
        }
    }
    assert(is_word(rest, inf) <==> rest.len() == 3 && (rest[0] == 105 || rest[0] == 73) && (rest[1]
        == 110 || rest[1] == 78) && (rest[2] == 102 || rest[2] == 70)) by {
        if is_word(rest, inf) {
            assert(lower(rest[0]) == inf[0] && lower(rest[1]) == inf[1] && lower(rest[2]) == inf[2]);
        }
    }
    assert(is_word(rest, infinity) <==> rest.len() == 8 && (rest[0] == 105 || rest[0] == 73) && (
    rest[1] == 110 || rest[1] == 78) && (rest[2] == 102 || rest[2] == 70) && (rest[3] == 105
        || rest[3] == 73) && (rest[4] == 110 || rest[4] == 78) && (rest[5] == 105 || rest[5] == 73)
        && (rest[6] == 116 || rest[6] == 84) && (rest[7] == 121 || rest[7] == 89)) by {
        if is_word(rest, infinity) {
            assert(lower(rest[0]) == infinity[0] && lower(rest[1]) == infinity[1] && lower(rest[2])
                == infinity[2] && lower(rest[3]) == infinity[3] && lower(rest[4]) == infinity[4]
                && lower(rest[5]) == infinity[5] && lower(rest[6]) == infinity[6] && lower(rest[7])
                == infinity[7]);
        }
    }
}

/// The seconds that are left of a number of seconds, once some nanoseconds are over, are the fewest
/// whole seconds that make up the rest: not one more and not one less. There are none of a number
/// below zero or of what is no number, and never more than `u64::MAX`.
pub proof fn law_seconds_left_are_the_fewest(digits: nat, exponent: int, elapsed: nat)
    ensures
        (Quantity::Finite { negative: true, digits, exponent }).seconds_past(elapsed) == 0,
        Quantity::NotANumber.seconds_past(elapsed) == 0,
        (Quantity::Infinite { negative: true }).seconds_past(elapsed) == 0,
        (Quantity::Infinite { negative: false }).seconds_past(elapsed) == u64::MAX,
        ({
            let seconds = (Quantity::Finite { negative: false, digits, exponent }).seconds_past(
                elapsed,
            );
            &&& seconds <= u64::MAX
            &&& if exponent + 9 >= 0 {
                let nanos = digits * pow(10, (exponent + 9) as nat);
                &&& seconds < u64::MAX ==> seconds * 1_000_000_000 + elapsed >= nanos
                &&& seconds > 0 ==> (seconds - 1) * 1_000_000_000 + elapsed < nanos
            } else {
                let unit = pow(10, (-(exponent + 9)) as nat);
                &&& seconds < u64::MAX ==> (seconds * 1_000_000_000 + elapsed) * unit >= digits
                &&& seconds > 0 ==> ((seconds - 1) * 1_000_000_000 + elapsed) * unit < digits
            }
        }),
{
    law_nanos_round_up(digits, exponent);
    law_seconds_round_up(digits, exponent, elapsed);
    let seconds = (Quantity::Finite { negative: false, digits, exponent }).seconds_past(elapsed);
    if exponent + 9 < 0 {
        let unit = pow(10, (-(exponent + 9)) as nat);
        vstd::arithmetic::power::lemma_pow_positive(10, (-(exponent + 9)) as nat);
        let c = nanos_up(digits, exponent) as int;
        let d = digits as int;
        let s = seconds as int;
        let e = elapsed as int;
        if seconds < u64::MAX {
            assert((s * 1_000_000_000 + e) * unit >= d) by (nonlinear_arith)
                requires
                    s * 1_000_000_000 + e >= c,
                    c * unit >= d,
                    unit > 0,
            ;
        }
        if seconds > 0 {
            assert(((s - 1) * 1_000_000_000 + e) * unit < d) by (nonlinear_arith)
                requires
                    (s - 1) * 1_000_000_000 + e <= c - 1,
                    (c - 1) * unit < d,
                    unit > 0,
            ;
        }
    }
}

/// A number is a timestamp exactly if it is a billion or more, and it is zero exactly if all of its
/// digits are.
pub proof fn law_timestamps_are_a_billion_or_more(digits: nat, exponent: int, negative: bool)
    ensures
        exponent >= 0 ==> (Quantity::Finite { negative, digits, exponent }).is_timestamp() == (
        !negative && digits * pow(10, exponent as nat) >= 1_000_000_000),
        exponent < 0 ==> (Quantity::Finite { negative, digits, exponent }).is_timestamp() == (
        !negative && digits >= 1_000_000_000 * pow(10, (-exponent) as nat)),
        !Quantity::NotANumber.is_timestamp(),
        (Quantity::Infinite { negative }).is_timestamp() == !negative,
        (Quantity::Finite { negative, digits, exponent }).is_zero() == (digits == 0),
        !Quantity::NotANumber.is_zero(),
        !(Quantity::Infinite { negative }).is_zero(),
{
    if exponent >= 0 {
        vstd::arithmetic::power::lemma_pow_positive(10, exponent as nat);
        let p = pow(10, exponent as nat);
        assert(digits * p >= 0) by (nonlinear_arith)
            requires
                p > 0,
        ;
    } else {
        let p = pow(10, (-exponent) as nat);
        vstd::arithmetic::power::lemma_pow_positive(10, (-exponent) as nat);
        vstd::arithmetic::div_mod::lemma_fundamental_div_mod(digits as int, p);
        vstd::arithmetic::div_mod::lemma_mod_bound(digits as int, p);
        vstd::arithmetic::div_mod::lemma_div_pos_is_pos(digits as int, p);
        let q = digits as int / p;
        let r = digits as int % p;
        assert(q >= 1_000_000_000 <==> digits >= 1_000_000_000 * p) by (nonlinear_arith)
            requires
                digits == p * q + r,
                0 <= r < p,
        ;
    }
}

/// Trimming takes away blanks before and behind a text and nothing else, and it takes all of them.
pub proof fn law_blanks_are_trimmed(text: Seq<u8>) -> (parts: (Seq<u8>, Seq<u8>))
    ensures
        text == parts.0 + trim_end(trim_start(text)) + parts.1,
        forall|i: int| 0 <= i < parts.0.len() ==> #[trigger] parts.0[i] == 32 || parts.0[i] == 9,
        forall|i: int| 0 <= i < parts.1.len() ==> #[trigger] parts.1[i] == 32 || parts.1[i] == 9,
        trim_end(trim_start(text)).len() > 0 ==> {
            let trimmed = trim_end(trim_start(text));
            &&& trimmed[0] != 32 && trimmed[0] != 9
            &&& trimmed.last() != 32 && trimmed.last() != 9
        },
{
    let front = lemma_trimmed_start(text);
    let back = lemma_trimmed_end(trim_start(text));
    assert(text =~= front + trim_end(trim_start(text)) + back);
    (front, back)
}

/// The blanks before a text.
proof fn lemma_trimmed_start(text: Seq<u8>) -> (front: Seq<u8>)
    ensures
        text == front + trim_start(text),
        forall|i: int| 0 <= i < front.len() ==> #[trigger] front[i] == 32 || front[i] == 9,
        trim_start(text).len() > 0 ==> trim_start(text)[0] != 32 && trim_start(text)[0] != 9,
    decreases text.len(),
{
    if text.len() > 0 && is_blank(text[0]) {
        let rest = text.skip(1);
        let front = lemma_trimmed_start(rest);
        let first = seq![text[0]];
        assert(text =~= first + rest);
        assert(first + (front + trim_start(rest)) =~= first + front + trim_start(rest));
        first + front
    } else {
        assert(text =~= Seq::<u8>::empty() + text);
        Seq::empty()
    }
}

/// The blanks behind a text.
proof fn lemma_trimmed_end(text: Seq<u8>) -> (back: Seq<u8>)
    ensures
        text == trim_end(text) + back,
        forall|i: int| 0 <= i < back.len() ==> #[trigger] back[i] == 32 || back[i] == 9,
        trim_end(text).len() > 0 ==> trim_end(text).last() != 32 && trim_end(text).last() != 9,
        trim_end(text).len() > 0 ==> trim_end(text)[0] == text[0],
    decreases text.len(),
{
    if text.len() > 0 && is_blank(text.last()) {
        let rest = text.drop_last();
        let back = lemma_trimmed_end(rest);
        assert(text =~= rest.push(text.last()));
        assert((trim_end(rest) + back).push(text.last()) =~= trim_end(rest) + back.push(
            text.last(),
        ));
        back.push(text.last())
    } else {
        assert(text =~= text + Seq::<u8>::empty());
        Seq::empty()
    }
}

} // verus!
