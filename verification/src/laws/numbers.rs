use vstd::prelude::*;
use crate::grammar::{
    digit_value, is_digit, is_terminator, number_at, number_from, parsed, skip_whitespace,
    value_at, NumberState,
};
use crate::number::{
    decimal_value, lemma_decimal_value_concat, lemma_pow10_real_add, lemma_pow10_real_nat,
    lemma_pow10_real_step, pow10, pow10_real, NumberModel,
};
use crate::value::JsonModel;

verus! {

/// Whether every character is an ASCII digit.
pub open spec fn all_digits(chars: Seq<char>) -> bool {
    forall|k: int| 0 <= k < chars.len() ==> is_digit(#[trigger] chars[k])
}

/// The numbers that the digits stand for, in order.
pub open spec fn digit_values(chars: Seq<char>) -> Seq<u8> {
    Seq::new(chars.len(), |k: int| digit_value(chars[k]))
}

/// The exponent part of a number as JSON writes it.
pub struct ExponentLiteral {
    /// `e` or `E`.
    pub marker: char,
    /// `+`, `-` or nothing.
    pub sign: Option<char>,
    /// At least one digit.
    pub digits: Seq<char>,
}

/// A number as JSON writes it: an optional minus sign, digits, an optional
/// decimal point with digits behind it, and an optional exponent part.
/// Leading zeros are in order, and so is a decimal point that nothing
/// follows.
pub struct NumberLiteral {
    /// Whether the literal starts with a minus sign.
    pub negative: bool,
    /// The digits before the decimal point: at least one.
    pub whole: Seq<char>,
    /// The digits behind the decimal point, if there is one.
    pub fraction: Option<Seq<char>>,
    /// The exponent part, if there is one.
    pub exponent: Option<ExponentLiteral>,
}

impl ExponentLiteral {
    /// Whether the part is one that JSON allows.
    pub open spec fn well_formed(self) -> bool {
        &&& self.marker == 'e' || self.marker == 'E'
        &&& self.sign == None::<char> || self.sign == Some('+') || self.sign == Some('-')
        &&& self.digits.len() > 0
        &&& all_digits(self.digits)
    }

    /// The characters of the exponent part.
    pub open spec fn text(self) -> Seq<char> {
        seq![self.marker] + (match self.sign {
            Some(c) => seq![c],
            None => Seq::empty(),
        }) + self.digits
    }
}

impl NumberLiteral {
    /// Whether the literal is one that JSON allows, but for leading zeros
    /// and an empty fraction, which are allowed here.
    pub open spec fn well_formed(self) -> bool {
        &&& self.whole.len() > 0
        &&& all_digits(self.whole)
        &&& self.fraction matches Some(fraction) ==> all_digits(fraction)
        &&& self.exponent matches Some(exponent) ==> exponent.well_formed()
    }

    /// The digits behind the decimal point; none where there is no point.
    pub open spec fn fraction_digits(self) -> Seq<char> {
        match self.fraction {
            Some(fraction) => fraction,
            None => Seq::empty(),
        }
    }

    /// The characters of the number.
    pub open spec fn text(self) -> Seq<char> {
        (if self.negative {
            seq!['-']
        } else {
            Seq::empty()
        }) + self.whole + (match self.fraction {
            Some(fraction) => seq!['.'] + fraction,
            None => Seq::empty(),
        }) + (match self.exponent {
            Some(exponent) => exponent.text(),
            None => Seq::empty(),
        })
    }

    /// The number that the literal denotes.
    pub open spec fn number(self) -> NumberModel {
        NumberModel {
            negative: self.negative,
            digits: digit_values(self.whole + self.fraction_digits()),
            fraction_digits: self.fraction_digits().len(),
            has_exponent: self.exponent is Some,
            exponent_negative: self.exponent matches Some(exponent) && exponent.sign == Some('-'),
            exponent_digits: match self.exponent {
                Some(exponent) => digit_values(exponent.digits),
                None => Seq::empty(),
            },
        }
    }
}

impl NumberState {
    /// The state after reading the digits `ds` one by one.
    pub open spec fn with_digits(self, ds: Seq<u8>) -> NumberState {
        if self.number.has_exponent {
            NumberState {
                number: NumberModel {
                    exponent_digits: self.number.exponent_digits + ds,
                    ..self.number
                },
                ..self
            }
        } else {
            NumberState {
                number: NumberModel {
                    digits: self.number.digits + ds,
                    fraction_digits: if self.in_fraction {
                        self.number.fraction_digits + ds.len()
                    } else {
                        self.number.fraction_digits
                    },
                    ..self.number
                },
                ..self
            }
        }
    }
}

/// A run of `n` digits from offset `i` on is read digit by digit.
pub proof fn lemma_number_reads_digits(s: Seq<char>, i: int, n: int, state: NumberState)
    requires
        0 <= i,
        0 <= n,
        i + n <= s.len(),
        all_digits(s.subrange(i, i + n)),
    ensures
        number_from(s, i, state) == number_from(
            s,
            i + n,
            state.with_digits(digit_values(s.subrange(i, i + n))),
        ),
    decreases n,
{
    if n == 0 {
        assert(state.with_digits(digit_values(s.subrange(i, i + n))).number.digits
            =~= state.number.digits);
        assert(state.with_digits(digit_values(s.subrange(i, i + n))).number.exponent_digits
            =~= state.number.exponent_digits);
    } else {
        let run = s.subrange(i, i + n);
        let rest = s.subrange(i + 1, i + n);
        assert(run[0] == s[i]);
        assert(is_digit(s[i]));
        assert forall|k: int| 0 <= k < rest.len() implies is_digit(#[trigger] rest[k]) by {
            assert(rest[k] == run[k + 1]);
        }
        let next = state.with_digit(digit_value(s[i]));
        lemma_number_reads_digits(s, i + 1, n - 1, next);
        assert(seq![digit_value(s[i])] + digit_values(rest) =~= digit_values(run));
        assert(next.with_digits(digit_values(rest)).number.digits =~= state.with_digits(
            digit_values(run),
        ).number.digits);
        assert(next.with_digits(digit_values(rest)).number.exponent_digits
            =~= state.with_digits(digit_values(run)).number.exponent_digits);
    }
}

/// Where the parts of a number literal stand in a text.
pub struct NumberLayout {
    /// The offset of the first digit.
    pub whole_start: int,
    /// The offset behind the digits before the decimal point.
    pub whole_end: int,
    /// The offset behind the fraction.
    pub fraction_end: int,
    /// The offset of the first digit of the exponent.
    pub exponent_start: int,
    /// The offset behind the literal.
    pub end: int,
}

impl NumberLiteral {
    /// Whether the literal stands in `s` at offset `i`, its parts where `at`
    /// says: the minus sign, if any, at `i`; the digits from `whole_start`
    /// up to `whole_end`; the decimal point, if any, at `whole_end`, and the
    /// fraction behind it up to `fraction_end`; the exponent marker, if any,
    /// at `fraction_end`, its sign, if any, behind it, and the digits of the
    /// exponent from `exponent_start` up to `end`.
    pub open spec fn laid_out(self, s: Seq<char>, i: int, at: NumberLayout) -> bool {
        &&& 0 <= i <= at.whole_start <= at.whole_end <= at.fraction_end
        &&& at.fraction_end <= at.exponent_start <= at.end <= s.len()
        &&& if self.negative {
            at.whole_start == i + 1 && s[i] == '-'
        } else {
            at.whole_start == i
        }
        &&& s.subrange(at.whole_start, at.whole_end) == self.whole
        &&& match self.fraction {
            Some(fraction) => {
                &&& at.whole_end < at.fraction_end
                &&& s[at.whole_end] == '.'
                &&& s.subrange(at.whole_end + 1, at.fraction_end) == fraction
            },
            None => at.fraction_end == at.whole_end,
        }
        &&& match self.exponent {
            Some(exponent) => {
                &&& at.fraction_end < at.exponent_start
                &&& s[at.fraction_end] == exponent.marker
                &&& match exponent.sign {
                    Some(c) => at.exponent_start == at.fraction_end + 2 && s[at.fraction_end + 1]
                        == c,
                    None => at.exponent_start == at.fraction_end + 1,
                }
                &&& s.subrange(at.exponent_start, at.end) == exponent.digits
            },
            None => at.exponent_start == at.fraction_end && at.end == at.fraction_end,
        }
    }

    /// The state of the number parser behind the digits before the decimal
    /// point.
    pub open spec fn state_behind_whole(self) -> NumberState {
        let start = if self.negative {
            NumberState::start().negated()
        } else {
            NumberState::start()
        };
        start.with_digits(digit_values(self.whole))
    }

    /// The state of the number parser behind the fraction.
    pub open spec fn state_behind_fraction(self) -> NumberState {
        match self.fraction {
            Some(fraction) => self.state_behind_whole().in_fraction().with_digits(
                digit_values(fraction),
            ),
            None => self.state_behind_whole(),
        }
    }

    /// The state of the number parser behind the exponent part.
    pub open spec fn state_behind_exponent(self) -> NumberState {
        match self.exponent {
            Some(exponent) => self.state_behind_fraction().in_exponent(
                exponent.sign == Some('-'),
            ).with_digits(digit_values(exponent.digits)),
            None => self.state_behind_fraction(),
        }
    }
}

proof fn lemma_literal_whole(literal: NumberLiteral, s: Seq<char>, i: int, at: NumberLayout)
    requires
        literal.well_formed(),
        literal.laid_out(s, i, at),
    ensures
        number_at(s, i) == number_from(s, at.whole_end, literal.state_behind_whole()),
{
    let start = NumberState::start();
    let signed = if literal.negative {
        start.negated()
    } else {
        start
    };
    assert(number_from(s, i, start) == number_from(s, at.whole_start, signed));
    lemma_number_reads_digits(s, at.whole_start, at.whole_end - at.whole_start, signed);
}

proof fn lemma_literal_fraction(literal: NumberLiteral, s: Seq<char>, i: int, at: NumberLayout)
    requires
        literal.well_formed(),
        literal.laid_out(s, i, at),
    ensures
        number_from(s, at.whole_end, literal.state_behind_whole()) == number_from(
            s,
            at.fraction_end,
            literal.state_behind_fraction(),
        ),
{
    let before = literal.state_behind_whole();
    match literal.fraction {
        Some(fraction) => {
            let first = at.whole_end + 1;
            assert(!before.in_fraction);
            assert(number_from(s, at.whole_end, before) == number_from(
                s,
                first,
                before.in_fraction(),
            ));
            lemma_number_reads_digits(s, first, at.fraction_end - first, before.in_fraction());
        },
        None => {},
    }
}

proof fn lemma_literal_exponent(literal: NumberLiteral, s: Seq<char>, i: int, at: NumberLayout)
    requires
        literal.well_formed(),
        literal.laid_out(s, i, at),
    ensures
        number_from(s, at.fraction_end, literal.state_behind_fraction()) == number_from(
            s,
            at.end,
            literal.state_behind_exponent(),
        ),
{
    let before = literal.state_behind_fraction();
    match literal.exponent {
        Some(exponent) => {
            let entered = before.in_exponent(exponent.sign == Some('-'));
            assert(s.subrange(at.exponent_start, at.end)[0] == s[at.exponent_start]);
            assert(is_digit(exponent.digits[0]));
            assert(number_from(s, at.fraction_end, before) == number_from(
                s,
                at.exponent_start,
                entered,
            ));
            lemma_number_reads_digits(s, at.exponent_start, at.end - at.exponent_start, entered);
        },
        None => {},
    }
}

proof fn lemma_literal_end(literal: NumberLiteral)
    requires
        literal.well_formed(),
    ensures
        literal.state_behind_exponent().number == literal.number(),
        literal.number().digits.len() > 0,
{
    let reached = literal.state_behind_exponent().number;
    assert(reached.digits =~= literal.number().digits);
    assert(reached.exponent_digits =~= literal.number().exponent_digits);
}

/// A well-formed number literal that is laid out in a text parses to the
/// number that it denotes, provided that the text ends behind it or goes on
/// with a comma, a closing bracket or brace, or whitespace.
pub proof fn lemma_number_laid_out_parses(
    literal: NumberLiteral,
    s: Seq<char>,
    i: int,
    at: NumberLayout,
)
    requires
        literal.well_formed(),
        literal.laid_out(s, i, at),
        at.end < s.len() ==> is_terminator(s[at.end]),
    ensures
        number_at(s, i) == parsed(literal.number(), at.end),
        value_at(s, i) == parsed(JsonModel::Number(literal.number()), at.end),
{
    lemma_literal_whole(literal, s, i, at);
    lemma_literal_fraction(literal, s, i, at);
    lemma_literal_exponent(literal, s, i, at);
    lemma_literal_end(literal);
    let reached = literal.state_behind_exponent();
    assert(number_from(s, at.end, reached) == reached.finish(at.end));
    assert(s.subrange(at.whole_start, at.whole_end)[0] == s[at.whole_start]);
    assert(is_digit(literal.whole[0]));
    assert(skip_whitespace(s, i) == i);
}

/// A well-formed number literal parses to the number that it denotes,
/// wherever it stands in a text, provided that the text ends behind it or
/// goes on with a comma, a closing bracket or brace, or whitespace. The
/// cursor ends behind the literal.
pub proof fn lemma_number_literal_parses(s: Seq<char>, i: int, literal: NumberLiteral)
    requires
        literal.well_formed(),
        0 <= i,
        i + literal.text().len() <= s.len(),
        s.subrange(i, i + literal.text().len()) == literal.text(),
        i + literal.text().len() < s.len() ==> is_terminator(s[i + literal.text().len()]),
    ensures
        number_at(s, i) == parsed(literal.number(), i + literal.text().len()),
        value_at(s, i) == parsed(
            JsonModel::Number(literal.number()),
            i + literal.text().len(),
        ),
{
    let text = literal.text();
    let end = i + text.len();
    assert forall|m: int| 0 <= m < text.len() implies s[i + m] == #[trigger] text[m] by {
        assert(s.subrange(i, end)[m] == s[i + m]);
    }
    let sign: Seq<char> = if literal.negative {
        seq!['-']
    } else {
        Seq::empty()
    };
    let point: Seq<char> = match literal.fraction {
        Some(fraction) => seq!['.'] + fraction,
        None => Seq::empty(),
    };
    let mark: Seq<char> = match literal.exponent {
        Some(exponent) => match exponent.sign {
            Some(c) => seq![c],
            None => Seq::empty(),
        },
        None => Seq::empty(),
    };
    let tail: Seq<char> = match literal.exponent {
        Some(exponent) => exponent.text(),
        None => Seq::empty(),
    };
    assert(text == sign + literal.whole + point + tail);
    let whole_start = i + sign.len();
    let whole_end = whole_start + literal.whole.len();
    let fraction_end = whole_end + point.len();
    let exponent_start = match literal.exponent {
        Some(exponent) => fraction_end + 1 + mark.len(),
        None => fraction_end,
    };
    let at = NumberLayout { whole_start, whole_end, fraction_end, exponent_start, end };
    if literal.negative {
        assert(text[0] == '-');
    }
    assert(s.subrange(whole_start, whole_end) =~= literal.whole) by {
        assert forall|k: int| 0 <= k < literal.whole.len() implies s[whole_start + k]
            == literal.whole[k] by {
            assert(text[whole_start - i + k] == literal.whole[k]);
        }
    }
    match literal.fraction {
        Some(fraction) => {
            assert(text[whole_end - i] == '.');
            assert(s.subrange(whole_end + 1, fraction_end) =~= fraction) by {
                assert forall|k: int| 0 <= k < fraction.len() implies s[whole_end + 1 + k]
                    == fraction[k] by {
                    assert(text[whole_end - i + 1 + k] == fraction[k]);
                }
            }
        },
        None => {},
    }
    match literal.exponent {
        Some(exponent) => {
            assert(tail == seq![exponent.marker] + mark + exponent.digits);
            assert(text[fraction_end - i] == exponent.marker);
            match exponent.sign {
                Some(c) => {
                    assert(text[fraction_end - i + 1] == c);
                },
                None => {},
            }
            assert(s.subrange(exponent_start, end) =~= exponent.digits) by {
                assert forall|k: int| 0 <= k < exponent.digits.len() implies s[exponent_start
                    + k] == exponent.digits[k] by {
                    assert(text[exponent_start - i + k] == exponent.digits[k]);
                }
            }
        },
        None => {},
    }
    assert(literal.laid_out(s, i, at));
    lemma_number_laid_out_parses(literal, s, i, at);
}

impl NumberLiteral {
    /// The integer that the digits before the decimal point spell.
    pub open spec fn whole_value(self) -> nat {
        decimal_value(digit_values(self.whole))
    }

    /// The integer that the digits behind the decimal point spell.
    pub open spec fn fraction_value(self) -> nat {
        decimal_value(digit_values(self.fraction_digits()))
    }

    /// The exponent, with its sign; zero where there is none.
    pub open spec fn exponent_value(self) -> int {
        match self.exponent {
            Some(exponent) => if exponent.sign == Some('-') {
                -(decimal_value(digit_values(exponent.digits)) as int)
            } else {
                decimal_value(digit_values(exponent.digits)) as int
            },
            None => 0,
        }
    }

    /// The digits of the literal before its exponent, read as one integer
    /// with the literal's sign: with `f` digits behind the decimal point,
    /// `whole * 10^f + fraction`, negated behind a minus sign.
    pub open spec fn coefficient(self) -> int {
        let magnitude = self.whole_value() * pow10(self.fraction_digits().len())
            + self.fraction_value();
        if self.negative {
            -(magnitude as int)
        } else {
            magnitude as int
        }
    }

    /// The real number that the literal spells: with `f` digits behind the
    /// decimal point, `(whole + fraction / 10^f) * 10^exponent`, negated
    /// behind a minus sign.
    pub open spec fn value(self) -> real {
        let magnitude = (self.whole_value() as real + (self.fraction_value() as real) / pow10_real(
            self.fraction_digits().len() as int,
        )) * pow10_real(self.exponent_value());
        if self.negative {
            -magnitude
        } else {
            magnitude
        }
    }
}

/// The number that a literal denotes is well formed and has the value that
/// the literal spells. Its coefficient is that of the literal, and with `f`
/// digits behind the decimal point its scale is `exponent - f`.
pub proof fn lemma_number_literal_value(literal: NumberLiteral)
    requires
        literal.well_formed(),
    ensures
        literal.number().well_formed(),
        literal.number().coefficient() == literal.coefficient(),
        literal.number().scale() == literal.exponent_value() - literal.fraction_digits().len(),
        literal.number().value() == literal.value(),
{
    let whole = digit_values(literal.whole);
    let fraction = digit_values(literal.fraction_digits());
    assert(literal.number().digits =~= whole + fraction);
    lemma_decimal_value_concat(whole, fraction);
    match literal.exponent {
        Some(exponent) => {},
        None => {
            assert(decimal_value(Seq::<u8>::empty()) == 0);
        },
    }
    let w = literal.whole_value();
    let fr = literal.fraction_value();
    let f = literal.fraction_digits().len();
    let e = literal.exponent_value();
    let p = pow10(f);
    let x = pow10_real(f as int);
    let y = pow10_real(e - f);
    lemma_pow10_real_nat(f);
    lemma_pow10_real_add(e - f, f as int);
    lemma_pow10_real_step(f as int);
    assert(((w * p + fr) as real) == (w as real) * (p as real) + (fr as real))
        by (nonlinear_arith);
    assert(x > 0real ==> ((w as real) * x + (fr as real)) * y == ((w as real) + (fr as real) / x)
        * (y * x)) by (nonlinear_arith);
    let magnitude = ((w * p + fr) as real) * y;
    assert(((-(w * p + fr)) as real) * y == -magnitude) by (nonlinear_arith)
        requires
            magnitude == ((w * p + fr) as real) * y,
    ;
}

} // verus!
