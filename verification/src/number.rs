use vstd::prelude::*;

verus! {

/// A number as its text spelt it: an exact decimal, never rounded.
///
/// The number stands for `coefficient() * 10^scale()`, which is `value()`
/// (see [`NumberModel`]).
#[derive(Debug)]
pub struct JsonNumber {
    /// Whether a minus sign came before the digits.
    pub negative: bool,
    /// The digits before the exponent, each from 0 to 9, in the order read;
    /// the decimal point is left out.
    pub digits: Vec<u8>,
    /// How many of `digits` came after the decimal point.
    pub fraction_digits: usize,
    /// Whether an exponent marker (`e` or `E`) was read.
    pub has_exponent: bool,
    /// Whether the exponent carries a minus sign.
    pub exponent_negative: bool,
    /// The digits of the exponent, each from 0 to 9, in the order read.
    pub exponent_digits: Vec<u8>,
}

/// The mathematical content of a [`JsonNumber`], field by field.
pub struct NumberModel {
    /// Whether a minus sign came before the digits.
    pub negative: bool,
    /// The digits before the exponent, without the decimal point.
    pub digits: Seq<u8>,
    /// How many of `digits` came after the decimal point.
    pub fraction_digits: nat,
    /// Whether an exponent marker was read.
    pub has_exponent: bool,
    /// Whether the exponent carries a minus sign.
    pub exponent_negative: bool,
    /// The digits of the exponent.
    pub exponent_digits: Seq<u8>,
}

impl View for JsonNumber {
    type V = NumberModel;

    open spec fn view(&self) -> NumberModel {
        NumberModel {
            negative: self.negative,
            digits: self.digits@,
            fraction_digits: self.fraction_digits as nat,
            has_exponent: self.has_exponent,
            exponent_negative: self.exponent_negative,
            exponent_digits: self.exponent_digits@,
        }
    }
}

/// The natural number that a run of decimal digits spells, most significant
/// digit first. Leading zeros change nothing; no digits spell zero.
pub open spec fn decimal_value(digits: Seq<u8>) -> nat
    decreases digits.len(),
{
    if digits.len() == 0 {
        0
    } else {
        decimal_value(digits.drop_last()) * 10 + digits.last() as nat
    }
}

/// Ten to the power of `n`.
pub open spec fn pow10(n: nat) -> nat
    decreases n,
{
    if n == 0 {
        1
    } else {
        10 * pow10((n - 1) as nat)
    }
}

/// Ten to the power of `n`, for any integer `n`, as a real number.
pub open spec fn pow10_real(n: int) -> real
    decreases
            (if n >= 0 {
                n
            } else {
                -n
            }),
{
    if n == 0 {
        1real
    } else if n > 0 {
        pow10_real(n - 1) * 10real
    } else {
        pow10_real(n + 1) / 10real
    }
}

/// Each power of ten is positive, and ten times the one before it.
pub proof fn lemma_pow10_real_step(n: int)
    ensures
        pow10_real(n + 1) == pow10_real(n) * 10real,
        pow10_real(n) > 0real,
    decreases
            (if n >= 0 {
                n
            } else {
                -n
            }),
{
    if n > 0 {
        lemma_pow10_real_step(n - 1);
    } else if n < 0 {
        lemma_pow10_real_step(n + 1);
    }
}

/// Powers of ten multiply as their exponents add.
pub proof fn lemma_pow10_real_add(a: int, b: int)
    ensures
        pow10_real(a + b) == pow10_real(a) * pow10_real(b),
    decreases
            (if b >= 0 {
                b
            } else {
                -b
            }),
{
    let x = pow10_real(a);
    if b > 0 {
        lemma_pow10_real_add(a, b - 1);
        lemma_pow10_real_step(a + b - 1);
        lemma_pow10_real_step(b - 1);
        let y = pow10_real(b - 1);
        assert((x * y) * 10real == x * (y * 10real)) by (nonlinear_arith);
    } else if b < 0 {
        lemma_pow10_real_add(a, b + 1);
        lemma_pow10_real_step(a + b);
        lemma_pow10_real_step(b);
        let y = pow10_real(b);
        let z = pow10_real(a + b);
        assert(z * 10real == x * (y * 10real) ==> z == x * y) by (nonlinear_arith);
    } else {
        assert(x * 1real == x) by (nonlinear_arith);
    }
}

/// For a natural exponent the two powers of ten are one number.
pub proof fn lemma_pow10_real_nat(n: nat)
    ensures
        pow10_real(n as int) == pow10(n) as real,
    decreases n,
{
    if n > 0 {
        lemma_pow10_real_nat((n - 1) as nat);
    }
}

/// Digits written one run behind the other spell the first run's number,
/// shifted by the length of the second, plus the second run's number.
pub proof fn lemma_decimal_value_concat(front: Seq<u8>, back: Seq<u8>)
    ensures
        decimal_value(front + back) == decimal_value(front) * pow10(back.len()) + decimal_value(
            back,
        ),
    decreases back.len(),
{
    if back.len() == 0 {
        assert(front + back =~= front);
        assert(decimal_value(front) * 1 == decimal_value(front)) by (nonlinear_arith);
    } else {
        let whole = front + back;
        assert(whole.drop_last() =~= front + back.drop_last());
        assert(whole.last() == back.last());
        lemma_decimal_value_concat(front, back.drop_last());
        let a = decimal_value(front) as int;
        let p = pow10(back.drop_last().len()) as int;
        let b = decimal_value(back.drop_last()) as int;
        let d = back.last() as int;
        assert(pow10(back.len()) == 10 * p);
        assert(decimal_value(back) == b * 10 + d);
        assert(decimal_value(whole) == (a * p + b) * 10 + d);
        assert((a * p + b) * 10 + d == a * (10 * p) + (b * 10 + d)) by (nonlinear_arith);
    }
}

/// Whether every entry is a decimal digit's value.
pub open spec fn all_decimal(digits: Seq<u8>) -> bool {
    forall|i: int| 0 <= i < digits.len() ==> #[trigger] digits[i] < 10
}

impl NumberModel {
    /// What every number that the parser returns satisfies.
    pub open spec fn well_formed(self) -> bool {
        &&& self.digits.len() > 0
        &&& all_decimal(self.digits)
        &&& all_decimal(self.exponent_digits)
        &&& self.fraction_digits <= self.digits.len()
        &&& !self.has_exponent ==> !self.exponent_negative && self.exponent_digits.len() == 0
    }

    /// The digits read as one integer, with the sign applied.
    pub open spec fn coefficient(self) -> int {
        if self.negative {
            -(decimal_value(self.digits) as int)
        } else {
            decimal_value(self.digits) as int
        }
    }

    /// The exponent as written: zero where there is none.
    pub open spec fn exponent(self) -> int {
        if self.exponent_negative {
            -(decimal_value(self.exponent_digits) as int)
        } else {
            decimal_value(self.exponent_digits) as int
        }
    }

    /// The power of ten by which `coefficient()` is scaled: the written
    /// exponent, less one for each digit after the decimal point.
    pub open spec fn scale(self) -> int {
        self.exponent() - self.fraction_digits
    }

    /// The real number that the number stands for.
    pub open spec fn value(self) -> real {
        (self.coefficient() as real) * pow10_real(self.scale())
    }
}

} // verus!
