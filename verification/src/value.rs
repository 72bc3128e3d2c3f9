//! Operand values and the arithmetic the machine performs on them.
//!
//! A [`Value`] is either a literal signed 64-bit integer or a reference to
//! one of the 256 registers.  This module also holds the decimal-number
//! grammar shared by operand parsing and output formatting, and the wrapping
//! arithmetic that the execution engine applies.

use crate::compile::code::{Code, CodeModel};
use crate::compile::error::{Error, ErrorKind};
use vstd::prelude::*;

verus! {

/// An operand: a literal number or a register reference.
#[derive(Clone, Copy, Debug, PartialEq, Eq, Structural)]
pub enum Value {
    Number(i64),
    Register(u8),
}

/// The tri-state comparison flag consulted by conditional jumps.
#[derive(Clone, Copy, Debug, PartialEq, Eq, Structural)]
pub enum Comparison {
    Less,
    Equal,
    Greater,
}

/// The three-way comparison of two numbers.
pub open spec fn cmp3(l: int, r: int) -> Comparison {
    if l < r {
        Comparison::Less
    } else if l == r {
        Comparison::Equal
    } else {
        Comparison::Greater
    }
}

/// Whether `c` is a decimal digit.
pub open spec fn is_digit(c: char) -> bool {
    0x30 <= c as u32 <= 0x39
}

/// The numeric value of a decimal digit.
pub open spec fn digit_val(c: char) -> int {
    c as u32 - 0x30
}

/// Whether every character of `s` is a decimal digit.
pub open spec fn all_digits(s: Seq<char>) -> bool {
    forall|i: int| 0 <= i < s.len() ==> is_digit(#[trigger] s[i])
}

/// The value of a digit string read in base 10.
pub open spec fn dec_val(s: Seq<char>) -> int
    decreases s.len(),
{
    if s.len() == 0 {
        0
    } else {
        dec_val(s.drop_last()) * 10 + digit_val(s.last())
    }
}

/// What `str::parse::<u8>` accepts: an optional leading `+`, then at least
/// one digit, naming a value of at most 255.
pub open spec fn parse_u8(s: Seq<char>) -> Option<u8> {
    let digits = if s.len() > 0 && s[0] == '+' {
        s.drop_first()
    } else {
        s
    };
    if digits.len() > 0 && all_digits(digits) && dec_val(digits) <= 255 {
        Some(dec_val(digits) as u8)
    } else {
        None
    }
}

/// What `str::parse::<i64>` accepts: an optional sign, then at least one
/// digit, naming a value that fits in a signed 64-bit integer.
pub open spec fn parse_i64(s: Seq<char>) -> Option<i64> {
    if s.len() > 0 && s[0] == '-' {
        let digits = s.drop_first();
        if digits.len() > 0 && all_digits(digits) && -dec_val(digits) >= i64::MIN {
            Some((-dec_val(digits)) as i64)
        } else {
            None
        }
    } else {
        let digits = if s.len() > 0 && s[0] == '+' {
            s.drop_first()
        } else {
            s
        };
        if digits.len() > 0 && all_digits(digits) && dec_val(digits) <= i64::MAX {
            Some(dec_val(digits) as i64)
        } else {
            None
        }
    }
}

/// Runtime decimal parse of the digit part of a number, `s[from..]`.
/// Returns the value capped knowledge: `None` when some character is no
/// digit, otherwise the value as long as it does not exceed `i64::MAX + 1`
/// (the magnitude of the most negative 64-bit integer).
fn parse_digits(s: &str, from: usize) -> (r: Option<u64>)
    requires
        from <= s@.len(),
    ensures
        match r {
            Some(v) => {
                let digits = s@.subrange(from as int, s@.len() as int);
                &&& digits.len() > 0
                &&& all_digits(digits)
                &&& if dec_val(digits) <= 0x8000_0000_0000_0000 {
                    v == dec_val(digits)
                } else {
                    v > 0x8000_0000_0000_0000
                }
            },
            None => {
                let digits = s@.subrange(from as int, s@.len() as int);
                digits.len() == 0 || !all_digits(digits)
            },
        },
{
    let n = s.unicode_len();
    if from >= n {
        return None;
    }
    let mut acc: u64 = 0;
    let mut i: usize = from;
    while i < n
        invariant
            from <= i <= n,
            n == s@.len(),
            all_digits(s@.subrange(from as int, i as int)),
            acc <= 0x8000_0000_0000_0009,
            if dec_val(s@.subrange(from as int, i as int)) <= 0x8000_0000_0000_0000 {
                acc == dec_val(s@.subrange(from as int, i as int))
            } else {
                acc > 0x8000_0000_0000_0000
            },
        decreases n - i,
    {
        let c = s.get_char(i);
        let u = c as u32;
        if u < 0x30 || u > 0x39 {
            proof {
                let digits = s@.subrange(from as int, s@.len() as int);
                assert(digits[i - from] == c);
                assert(!is_digit(c));
            }
            return None;
        }
        let d = (u - 0x30) as u64;
        let ghost prefix = s@.subrange(from as int, i as int);
        let ghost extended = s@.subrange(from as int, i + 1);
        assert(extended.drop_last() =~= prefix);
        assert(extended.last() == c);
        if acc <= 0x0CCC_CCCC_CCCC_CCCC {
            // acc * 10 + 9 stays below 2^63, so the value is still exact.
            acc = acc * 10 + d;
        } else if acc <= 0x8000_0000_0000_0000 {
            // One more digit pushes the value just past 2^63; record the
            // overflow with a single saturated multiply.
            assert(acc * 10 + d > 0x8000_0000_0000_0000);
            assert(acc * 10 <= 0x8000_0000_0000_0000 * 10);
            acc = 0x8000_0000_0000_0001;
            assert(dec_val(extended) == dec_val(prefix) * 10 + digit_val(c));
            assert(dec_val(extended) > 0x8000_0000_0000_0000);
        } else {
            assert(dec_val(prefix) > 0x8000_0000_0000_0000);
            assert(dec_val(extended) == dec_val(prefix) * 10 + digit_val(c));
            assert(dec_val(extended) > 0x8000_0000_0000_0000);
        }
        i += 1;
    }
    assert(s@.subrange(from as int, i as int) =~= s@.subrange(from as int, s@.len() as int));
    Some(acc)
}

/// Runtime test for [`parse_u8`].
pub fn parse_u8_str(s: &str) -> (r: Option<u8>)
    ensures
        r == parse_u8(s@),
{
    let n = s.unicode_len();
    let start: usize = if n > 0 && s.get_char(0) == '+' {
        1
    } else {
        0
    };
    proof {
        if n > 0 && s@[0] == '+' {
            assert(s@.drop_first() =~= s@.subrange(1, s@.len() as int));
        } else {
            assert(s@ =~= s@.subrange(0, s@.len() as int));
        }
    }
    match parse_digits(s, start) {
        Some(v) => if v <= 255 {
            Some(v as u8)
        } else {
            None
        },
        None => None,
    }
}

/// Runtime test for [`parse_i64`].
pub fn parse_i64_str(s: &str) -> (r: Option<i64>)
    ensures
        r == parse_i64(s@),
{
    let n = s.unicode_len();
    let negative: bool = n > 0 && s.get_char(0) == '-';
    let signed: bool = negative || (n > 0 && s.get_char(0) == '+');
    let start: usize = if signed {
        1
    } else {
        0
    };
    proof {
        if signed {
            assert(s@.drop_first() =~= s@.subrange(1, s@.len() as int));
        } else {
            assert(s@ =~= s@.subrange(0, s@.len() as int));
        }
    }
    match parse_digits(s, start) {
        Some(v) => if negative {
            if v > 0x8000_0000_0000_0000 {
                None
            } else if v == 0x8000_0000_0000_0000 {
                Some(i64::MIN)
            } else {
                Some(-(v as i64))
            }
        } else {
            if v >= 0x8000_0000_0000_0000 {
                None
            } else {
                Some(v as i64)
            }
        },
        None => None,
    }
}

/// One of the five arithmetic instructions' operations.
#[derive(Clone, Copy, Debug, PartialEq, Eq, Structural)]
pub enum ArithOp {
    Add,
    Sub,
    Mul,
    Div,
    Mod,
}

/// Division truncated towards zero, as Rust's `/` computes it.
pub open spec fn trunc_div(a: int, b: int) -> int {
    if a >= 0 && b > 0 {
        a / b
    } else if a < 0 && b < 0 {
        (-a) / (-b)
    } else if a < 0 {
        -((-a) / b)
    } else {
        -(a / (-b))
    }
}

/// Remainder of truncated division, as Rust's `%` computes it: its sign
/// follows the dividend.
pub open spec fn trunc_rem(a: int, b: int) -> int {
    if a >= 0 && b > 0 {
        a % b
    } else if a < 0 && b < 0 {
        -((-a) % (-b))
    } else if a < 0 {
        -((-a) % b)
    } else {
        a % (-b)
    }
}

/// `i64::wrapping_div`: truncated division, with the one overflowing
/// quotient wrapped back to `i64::MIN`.
pub open spec fn wrap_div(a: i64, b: i64) -> i64
    recommends
        b != 0,
{
    if a == i64::MIN && b == -1 {
        i64::MIN
    } else {
        trunc_div(a as int, b as int) as i64
    }
}

/// `i64::wrapping_rem`: remainder of truncated division, with the one
/// overflowing case yielding 0.
pub open spec fn wrap_rem(a: i64, b: i64) -> i64
    recommends
        b != 0,
{
    if a == i64::MIN && b == -1 {
        0
    } else {
        trunc_rem(a as int, b as int) as i64
    }
}

/// What one arithmetic instruction computes from its two resolved operands:
/// the wrapping 64-bit operation, or `None` for a division or remainder by
/// zero.
pub open spec fn apply_op(op: ArithOp, l: i64, r: i64) -> Option<i64> {
    match op {
        ArithOp::Add => Some(vstd::wrapping::i64_specs::wrapping_add(l, r)),
        ArithOp::Sub => Some(vstd::wrapping::i64_specs::wrapping_sub(l, r)),
        ArithOp::Mul => Some(vstd::wrapping::i64_specs::wrapping_mul(l, r)),
        ArithOp::Div => if r == 0 {
            None
        } else {
            Some(wrap_div(l, r))
        },
        ArithOp::Mod => if r == 0 {
            None
        } else {
            Some(wrap_rem(l, r))
        },
    }
}

/// The magnitude of `a` as an unsigned 64-bit integer.
pub(crate) fn magnitude(a: i64) -> (r: u64)
    ensures
        a >= 0 ==> r == a,
        a < 0 ==> r == -(a as int),
{
    if a >= 0 {
        a as u64
    } else {
        ((-1 - a) as u64) + 1
    }
}

/// Truncated division on magnitudes, so that no signed case can overflow.
fn div_wrapping(a: i64, b: i64) -> (r: i64)
    requires
        b != 0,
    ensures
        r == wrap_div(a, b),
{
    if a == i64::MIN && b == -1 {
        return i64::MIN;
    }
    let am = magnitude(a);
    let bm = magnitude(b);
    let qm: u64 = am / bm;
    let negate: bool = (a < 0) != (b < 0);
    proof {
        assert(am <= 0x8000_0000_0000_0000);
        assert(qm * bm + am % bm == am) by {
            vstd::arithmetic::div_mod::lemma_fundamental_div_mod(am as int, bm as int);
        }
        assert(qm <= am) by {
            if qm > am {
                assert(qm * bm >= qm) by {
                    vstd::arithmetic::mul::lemma_mul_ordering(qm as int, bm as int);
                }
            }
        }
    }
    if negate {
        if qm >= 0x8000_0000_0000_0000 {
            // Only `i64::MIN / 1` and its mirror reach a magnitude of 2^63.
            i64::MIN
        } else {
            -(qm as i64)
        }
    } else {
        assert(qm < 0x8000_0000_0000_0000) by {
            if a == i64::MIN {
                assert(b < -1 || b > 0);
                if b < -1 {
                    assert(bm >= 2);
                    assert(qm <= am / 2) by {
                        vstd::arithmetic::div_mod::lemma_div_is_ordered_by_denominator(
                            am as int,
                            2,
                            bm as int,
                        );
                    }
                }
            }
        }
        qm as i64
    }
}

/// Remainder of truncated division on magnitudes.
fn rem_wrapping(a: i64, b: i64) -> (r: i64)
    requires
        b != 0,
    ensures
        r == wrap_rem(a, b),
{
    if a == i64::MIN && b == -1 {
        return 0;
    }
    let am = magnitude(a);
    let bm = magnitude(b);
    let rm: u64 = am % bm;
    proof {
        assert(0 <= rm < bm) by {
            vstd::arithmetic::div_mod::lemma_mod_division_less_than_divisor(am as int, bm as int);
        }
    }
    if a < 0 {
        -(rm as i64)
    } else {
        rm as i64
    }
}

impl Value {
    /// What [`Value::from_str`] yields for the characters of an operand
    /// token, with errors placed at the scanner's current position.
    pub open spec fn of_token(s: Seq<char>, m: CodeModel) -> Result<Value, Error> {
        if s.len() > 0 && s[0] == 'r' {
            match parse_u8(s.drop_first()) {
                Some(n) => Ok(Value::Register(n)),
                None => Err(
                    Error {
                        kind: ErrorKind::InvalidRegister,
                        line: m.line as usize,
                        column: m.column as usize,
                    },
                ),
            }
        } else {
            match parse_i64(s) {
                Some(n) => Ok(Value::Number(n)),
                None => Err(
                    Error {
                        kind: ErrorKind::InvalidArgument,
                        line: m.line as usize,
                        column: m.column as usize,
                    },
                ),
            }
        }
    }

    /// Reads an operand token: `r` followed by a register index names a
    /// register, anything else must be a signed 64-bit integer literal.
    pub fn from_str(value: &str, code: &Code) -> (r: Result<Value, Error>)
        requires
            code@.wf(),
        ensures
            r == Value::of_token(value@, code@),
    {
        let n = value.unicode_len();
        if n > 0 && value.get_char(0) == 'r' {
            let rest = value.substring_char(1, n);
            proof {
                assert(rest@ =~= value@.drop_first());
            }
            match parse_u8_str(rest) {
                Some(index) => Ok(Value::Register(index)),
                None => Err(Error::new(ErrorKind::InvalidRegister, code.line(), code.column())),
            }
        } else {
            match parse_i64_str(value) {
                Some(number) => Ok(Value::Number(number)),
                None => Err(Error::new(ErrorKind::InvalidArgument, code.line(), code.column())),
            }
        }
    }

    /// The number an operand resolves to against a register file: a register
    /// operand reads its slot, a literal is used as-is.
    pub open spec fn resolved(self, registers: Seq<i64>) -> i64
        recommends
            registers.len() == 256,
    {
        match self {
            Value::Number(n) => n,
            Value::Register(index) => registers[index as int],
        }
    }

    /// Resolves the operand against the register file.
    pub fn take(&self, registers: &Vec<i64>) -> (r: i64)
        requires
            registers@.len() == 256,
        ensures
            r == self.resolved(registers@),
    {
        match self {
            Value::Register(index) => registers[*index as usize],
            Value::Number(n) => *n,
        }
    }

    /// Resolves both operands and applies the wrapping operation; a division
    /// or remainder whose right operand resolves to zero yields `None`.
    pub fn perform_operation(&self, other: &Value, registers: &Vec<i64>, op: ArithOp) -> (r: Option<
        i64,
    >)
        requires
            registers@.len() == 256,
        ensures
            r == apply_op(op, self.resolved(registers@), other.resolved(registers@)),
    {
        let left = self.take(registers);
        let right = other.take(registers);
        match op {
            ArithOp::Add => Some(left.wrapping_add(right)),
            ArithOp::Sub => Some(left.wrapping_sub(right)),
            ArithOp::Mul => Some(left.wrapping_mul(right)),
            ArithOp::Div => if right == 0 {
                None
            } else {
                Some(div_wrapping(left, right))
            },
            ArithOp::Mod => if right == 0 {
                None
            } else {
                Some(rem_wrapping(left, right))
            },
        }
    }

    /// Resolves both operands and compares them three ways.
    pub fn compare(&self, other: &Value, registers: &Vec<i64>) -> (r: Comparison)
        requires
            registers@.len() == 256,
        ensures
            r == cmp3(self.resolved(registers@) as int, other.resolved(registers@) as int),
    {
        let left = self.take(registers);
        let right = other.take(registers);
        if left < right {
            Comparison::Less
        } else if left == right {
            Comparison::Equal
        } else {
            Comparison::Greater
        }
    }

    /// Compares the resolved operand against zero.
    pub fn compare_zero(&self, registers: &Vec<i64>) -> (r: Comparison)
        requires
            registers@.len() == 256,
        ensures
            r == cmp3(self.resolved(registers@) as int, 0),
    {
        self.compare(&Value::Number(0), registers)
    }
}

} // verus!
