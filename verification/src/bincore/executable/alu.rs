//! The arithmetic and the comparisons of the machine, on scalar operands.

use vstd::prelude::*;
use vstd::arithmetic::power::pow;
use vstd::wrapping::i64_specs::signed_crop;
use crate::bincore::data::ieee;
use crate::bincore::data::value::Value;
use crate::bincore::executable::machine::{
    exponent, int_arithmetic, is_arithmetic, is_ordering, remainder, same_list, same_value,
    wrapping_pow, Computed, Fault,
};
use crate::bincore::executable::runnable::Instruction;

verus! {

/// Two integers that leave the same remainder when divided by 2 to the 64.
pub open spec fn congruent(x: int, y: int) -> bool {
    x % 0x1_0000_0000_0000_0000 == y % 0x1_0000_0000_0000_0000
}

/// An integer wraps to a 64-bit integer that is congruent to it, and
/// congruent integers wrap to the same.
proof fn lemma_crop(x: int, y: int)
    ensures
        congruent(signed_crop(x) as int, x),
        congruent(x, y) ==> signed_crop(x) == signed_crop(y),
{
    let m = 0x1_0000_0000_0000_0000int;
    vstd::arithmetic::div_mod::lemma_mod_bound(x, m);
    if x % m > i64::MAX {
        vstd::arithmetic::div_mod::lemma_mod_sub_multiples_vanish(x % m, m);
    }
    vstd::arithmetic::div_mod::lemma_mod_twice(x, m);
}

/// A 64-bit integer wraps to itself.
proof fn lemma_crop_identity(r: i64)
    ensures
        signed_crop(r as int) == r,
{
    let m = 0x1_0000_0000_0000_0000int;
    if r >= 0 {
        vstd::arithmetic::div_mod::lemma_small_mod(r as nat, m as nat);
    } else {
        vstd::arithmetic::div_mod::lemma_mod_add_multiples_vanish(r as int, m);
        vstd::arithmetic::div_mod::lemma_small_mod((r + m) as nat, m as nat);
    }
}

/// Products of congruent integers are congruent.
proof fn lemma_mul_congruent(a: int, c: int, b: int, d: int)
    requires
        congruent(a, c),
        congruent(b, d),
    ensures
        congruent(a * b, c * d),
{
    let m = 0x1_0000_0000_0000_0000int;
    vstd::arithmetic::div_mod::lemma_mul_mod_noop_general(a, b, m);
    vstd::arithmetic::div_mod::lemma_mul_mod_noop_general(c, d, m);
}

/// Powers of congruent integers are congruent.
proof fn lemma_pow_congruent(a: int, c: int, e: nat)
    requires
        congruent(a, c),
    ensures
        congruent(pow(a, e), pow(c, e)),
    decreases e,
{
    reveal(pow);
    if e > 0 {
        lemma_pow_congruent(a, c, (e - 1) as nat);
        lemma_mul_congruent(a, c, pow(a, (e - 1) as nat), pow(c, (e - 1) as nat));
    }
}

/// A power is the power of the square with half the exponent, times the base
/// if the exponent is odd.
proof fn lemma_pow_halves(b: int, e: nat)
    requires
        e > 0,
    ensures
        pow(b, e) == (if e % 2 == 1 {
            b * pow(b * b, e / 2)
        } else {
            pow(b * b, e / 2)
        }),
{
    reveal(pow);
    vstd::arithmetic::power::lemma_pow1(b);
    vstd::arithmetic::power::lemma_pow_adds(b, 1, 1);
    assert(pow(b, 2) == b * b);
    vstd::arithmetic::power::lemma_pow_multiplies(b, 2, e / 2);
    if e % 2 == 1 {
        assert(e == 2 * (e / 2) + 1);
        assert(pow(b, e) == b * pow(b, (e - 1) as nat));
        assert((e - 1) as nat == 2 * (e / 2));
    } else {
        assert(e == 2 * (e / 2));
    }
}

/// `base` to the power `exp`, wrapped to 64 bits: by squaring, with every
/// product wrapped.
pub fn int_pow(base: i64, exp: u32) -> (power: i64)
    ensures
        power == wrapping_pow(base, exp as nat),
{
    let mut result: i64 = 1;
    let mut b: i64 = base;
    let mut e: u32 = exp;
    proof {
        assert(1 * pow(base as int, exp as nat) == pow(base as int, exp as nat));
    }
    while e > 0
        invariant
            congruent(result * pow(b as int, e as nat), pow(base as int, exp as nat)),
        decreases e,
    {
        let ghost square = pow(b * b, (e / 2) as nat);
        let ghost wrapped = pow(b.wrapping_mul(b) as int, (e / 2) as nat);
        proof {
            lemma_pow_halves(b as int, e as nat);
            lemma_crop(b * b, 0);
            lemma_pow_congruent(signed_crop(b * b) as int, b * b, (e / 2) as nat);
        }
        if e % 2 == 1 {
            proof {
                lemma_crop(result * b, 0);
                lemma_mul_congruent(signed_crop(result * b) as int, result * b, wrapped, square);
                assert((result * b) * square == result * (b * square)) by (nonlinear_arith);
            }
            result = result.wrapping_mul(b);
        } else {
            proof {
                lemma_mul_congruent(result as int, result as int, wrapped, square);
            }
        }
        b = b.wrapping_mul(b);
        e = e / 2;
    }
    proof {
        vstd::arithmetic::power::lemma_pow0(b as int);
        assert(result * 1 == result);
        lemma_crop(result as int, pow(base as int, exp as nat));
        lemma_crop_identity(result);
    }
    result
}

/// The low 32 bits of `right`, as a number.
fn low_bits(right: i64) -> (e: u32)
    ensures
        e == exponent(right),
{
    let m: i64 = right % 4294967296;
    if m < 0 {
        (m + 4294967296) as u32
    } else {
        m as u32
    }
}

/// Integer arithmetic: the value that the opcode gives, or why it gives none.
pub fn eval_int(op: Instruction, left: i64, right: i64) -> (r: Result<Value, Fault>)
    requires
        is_arithmetic(op),
    ensures
        int_arithmetic(op, left, right) == (match r {
            Ok(value) => Computed::Plain(value),
            Err(fault) => Computed::Fails(fault),
        }),
{
    match op {
        Instruction::Add => Ok(Value::Int(left.wrapping_add(right))),
        Instruction::Sub => Ok(Value::Int(left.wrapping_sub(right))),
        Instruction::Mul => Ok(Value::Int(left.wrapping_mul(right))),
        Instruction::Div => {
            if right == 0 {
                Err(Fault::DivisionByZero)
            } else if left == i64::MIN && right == -1 {
                Err(Fault::DivisionOverflow)
            } else {
                Ok(Value::Int(left / right))
            }
        },
        Instruction::Mod => {
            if right == 0 {
                Err(Fault::DivisionByZero)
            } else if right == -1 {
                assert(remainder(left as int, -1) == 0);
                Ok(Value::Int(0))
            } else {
                Ok(Value::Int(left % right))
            }
        },
        _ => Ok(Value::Int(int_pow(left, low_bits(right)))),
    }
}

/// The comparison that an ordering opcode makes of two integers.
pub fn order_int(op: Instruction, left: i64, right: i64) -> (r: bool)
    requires
        is_ordering(op),
    ensures
        r == (match op {
            Instruction::Gt => left > right,
            Instruction::Lt => left < right,
            Instruction::Gte => left >= right,
            _ => left <= right,
        }),
{
    match op {
        Instruction::Gt => left > right,
        Instruction::Lt => left < right,
        Instruction::Gte => left >= right,
        _ => left <= right,
    }
}

/// The comparison that an ordering opcode makes of two floats.
pub fn order_float(op: Instruction, left: u64, right: u64) -> (r: bool)
    requires
        is_ordering(op),
    ensures
        r == (match op {
            Instruction::Gt => ieee::float_lt(right, left),
            Instruction::Lt => ieee::float_lt(left, right),
            Instruction::Gte => ieee::float_le(right, left),
            _ => ieee::float_le(left, right),
        }),
{
    match op {
        Instruction::Gt => ieee::lt(right, left),
        Instruction::Lt => ieee::lt(left, right),
        Instruction::Gte => ieee::le(right, left),
        _ => ieee::le(left, right),
    }
}

/// Whether two values are equal as list elements.
pub fn values_equal(a: Value, b: Value) -> (r: bool)
    ensures
        r == same_value(a, b),
{
    match (a, b) {
        (Value::Float(x), Value::Float(y)) => ieee::eq(x, y),
        _ => a == b,
    }
}

/// Whether two lists are equal, element by element.
pub fn lists_equal(a: &Vec<Value>, b: &Vec<Value>) -> (r: bool)
    ensures
        r == same_list(a@, b@),
{
    if a.len() != b.len() {
        return false;
    }
    let mut i: usize = 0;
    while i < a.len()
        invariant
            i <= a.len(),
            a.len() == b.len(),
            forall|j: int| 0 <= j < i ==> same_value(a[j], b[j]),
        decreases a.len() - i,
    {
        if !values_equal(a[i], b[i]) {
            return false;
        }
        i += 1;
    }
    true
}

} // verus!
