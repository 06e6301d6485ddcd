//! What the instructions compute: integer arithmetic on 64-bit words, the
//! tests that branches make, and the text that the input and output
//! instructions read and write.

use crate::error::{Error, Result};
use crate::opcodes::Op;
use vstd::prelude::*;

verus! {

/// The signed number that a word holds in two's complement.
pub open spec fn as_signed(x: u64) -> i64 {
    if x <= 0x7fff_ffff_ffff_ffff {
        x as i64
    } else {
        (x - 0x1_0000_0000_0000_0000) as i64
    }
}

/// The word that holds a signed number in two's complement.
pub open spec fn as_unsigned(x: i64) -> u64 {
    if x >= 0 {
        x as u64
    } else {
        (x + 0x1_0000_0000_0000_0000) as u64
    }
}

/// The signed number that a word holds in two's complement.
pub fn reinterpret_u(x: u64) -> (r: i64)
    ensures
        r == as_signed(x),
        as_unsigned(r) == x,
{
    if x <= 0x7fff_ffff_ffff_ffff {
        x as i64
    } else {
        ((x - 0x8000_0000_0000_0000) as i64) + i64::MIN
    }
}

/// The word that holds a signed number in two's complement.
pub fn reinterpret_t(x: i64) -> (r: u64)
    ensures
        r == as_unsigned(x),
        as_signed(r) == x,
{
    if x >= 0 {
        x as u64
    } else {
        ((x - i64::MIN) as u64) + 0x8000_0000_0000_0000
    }
}

/// The shift count that a word gives: its low 32 bits.
pub open spec fn shift_count(x: u64) -> u32 {
    (x & 0xffff_ffff) as u32
}

fn exec_shift_count(x: u64) -> (r: u32)
    ensures
        r == shift_count(x),
{
    assert(x & 0xffff_ffff <= 0xffff_ffff) by (bit_vector);
    (x & 0xffff_ffff) as u32
}

/// Whether the instruction takes two words and gives one, computed on
/// integers.
pub open spec fn is_int_binary(op: Op) -> bool {
    op is AddI || op is SubI || op is MulI || op is DivI || op is DivU || op is Shl || op is Shr
        || op is ShrL || op is And || op is Or || op is Xor || op is CmpI || op is CmpU
}

/// Whether the instruction takes one word and gives one, computed on
/// integers.
pub open spec fn is_int_unary(op: Op) -> bool {
    op is Not || op is NegI || op is SetLt || op is SetGt
}

/// The word for the outcome of a comparison: -1, 0 or +1.
pub open spec fn order_word(less: bool, greater: bool) -> u64 {
    if less {
        0xffff_ffff_ffff_ffff
    } else if greater {
        1
    } else {
        0
    }
}

/// The quotient of two signed numbers, rounded toward zero. The one quotient
/// that does not fit, that of the least number by -1, is the least number.
pub open spec fn signed_quotient(a: i64, b: i64) -> i64 {
    match a.checked_div(b) {
        Some(q) => q,
        None => i64::MIN,
    }
}

/// What an integer instruction with two operands gives. `lhs` is the operand
/// that was pushed first. Arithmetic wraps; a division by zero is refused.
pub open spec fn binary_result(op: Op, lhs: u64, rhs: u64) -> core::result::Result<u64, Error> {
    match op {
        Op::AddI => Ok(lhs.wrapping_add(rhs)),
        Op::SubI => Ok(lhs.wrapping_sub(rhs)),
        Op::MulI => Ok(lhs.wrapping_mul(rhs)),
        Op::DivI => if rhs == 0 {
            Err(Error::DivZero)
        } else {
            Ok(as_unsigned(signed_quotient(as_signed(lhs), as_signed(rhs))))
        },
        Op::DivU => if rhs == 0 {
            Err(Error::DivZero)
        } else {
            Ok(lhs / rhs)
        },
        Op::Shl => Ok(lhs.wrapping_shl(shift_count(rhs))),
        Op::Shr => Ok(as_unsigned(as_signed(lhs).wrapping_shr(shift_count(rhs)))),
        Op::ShrL => Ok(lhs.wrapping_shr(shift_count(rhs))),
        Op::And => Ok(lhs & rhs),
        Op::Or => Ok(lhs | rhs),
        Op::Xor => Ok(lhs ^ rhs),
        Op::CmpI => Ok(order_word(as_signed(lhs) < as_signed(rhs), as_signed(lhs) > as_signed(rhs))),
        Op::CmpU => Ok(order_word(lhs < rhs, lhs > rhs)),
        _ => Ok(0),
    }
}

/// What an integer instruction with one operand gives.
pub open spec fn unary_result(op: Op, x: u64) -> u64 {
    match op {
        Op::Not => if x == 0 {
            1
        } else {
            0
        },
        Op::NegI => 0u64.wrapping_sub(x),
        Op::SetLt => if as_signed(x) < 0 {
            1
        } else {
            0
        },
        Op::SetGt => if as_signed(x) > 0 {
            1
        } else {
            0
        },
        _ => 0,
    }
}

/// Computes an integer instruction with two operands.
pub fn eval_binary(op: Op, lhs: u64, rhs: u64) -> (r: Result<u64>)
    requires
        is_int_binary(op),
    ensures
        r == binary_result(op, lhs, rhs),
{
    match op {
        Op::AddI => Ok(lhs.wrapping_add(rhs)),
        Op::SubI => Ok(lhs.wrapping_sub(rhs)),
        Op::MulI => Ok(lhs.wrapping_mul(rhs)),
        Op::DivI => {
            if rhs == 0 {
                Err(Error::DivZero)
            } else {
                let a = reinterpret_u(lhs);
                let b = reinterpret_u(rhs);
                let q = match a.checked_div(b) {
                    Some(q) => q,
                    None => i64::MIN,
                };
                Ok(reinterpret_t(q))
            }
        },
        Op::DivU => {
            if rhs == 0 {
                Err(Error::DivZero)
            } else {
                Ok(lhs / rhs)
            }
        },
        Op::Shl => Ok(lhs.wrapping_shl(exec_shift_count(rhs))),
        Op::Shr => Ok(reinterpret_t(reinterpret_u(lhs).wrapping_shr(exec_shift_count(rhs)))),
        Op::ShrL => Ok(lhs.wrapping_shr(exec_shift_count(rhs))),
        Op::And => Ok(lhs & rhs),
        Op::Or => Ok(lhs | rhs),
        Op::Xor => Ok(lhs ^ rhs),
        Op::CmpI => {
            let a = reinterpret_u(lhs);
            let b = reinterpret_u(rhs);
            if a < b {
                Ok(0xffff_ffff_ffff_ffff)
            } else if a > b {
                Ok(1)
            } else {
                Ok(0)
            }
        },
        _ => {
            if lhs < rhs {
                Ok(0xffff_ffff_ffff_ffff)
            } else if lhs > rhs {
                Ok(1)
            } else {
                Ok(0)
            }
        },
    }
}

/// Computes an integer instruction with one operand.
pub fn eval_unary(op: Op, x: u64) -> (r: u64)
    requires
        is_int_unary(op),
    ensures
        r == unary_result(op, x),
{
    match op {
        Op::Not => if x == 0 {
            1
        } else {
            0
        },
        Op::NegI => 0u64.wrapping_sub(x),
        Op::SetLt => if reinterpret_u(x) < 0 {
            1
        } else {
            0
        },
        _ => if reinterpret_u(x) > 0 {
            1
        } else {
            0
        },
    }
}

/// The offset of a branch instruction, if the instruction is one.
pub open spec fn branch_offset(op: Op) -> Option<i32> {
    match op {
        Op::Br(off) => Some(off),
        Op::Bz(off) => Some(off),
        Op::Bnz(off) => Some(off),
        Op::Bl(off) => Some(off),
        Op::Bg(off) => Some(off),
        Op::Blz(off) => Some(off),
        Op::Bgz(off) => Some(off),
        Op::BrFalse(off) => Some(off),
        Op::BrTrue(off) => Some(off),
        _ => None,
    }
}

/// Whether the branch pops a word and tests it.
pub open spec fn is_conditional_branch(op: Op) -> bool {
    branch_offset(op) is Some && !(op is Br)
}

/// Whether a conditional branch is taken on the word that it popped.
pub open spec fn branch_taken(op: Op, x: u64) -> bool {
    match op {
        Op::Bz(_) => x == 0,
        Op::BrFalse(_) => x == 0,
        Op::Bnz(_) => x != 0,
        Op::BrTrue(_) => x != 0,
        Op::Bl(_) => as_signed(x) < 0,
        Op::Bg(_) => as_signed(x) > 0,
        Op::Blz(_) => as_signed(x) <= 0,
        Op::Bgz(_) => as_signed(x) >= 0,
        _ => true,
    }
}

/// Whether a conditional branch is taken on the word that it popped.
pub fn eval_branch_taken(op: Op, x: u64) -> (r: bool)
    requires
        is_conditional_branch(op),
    ensures
        r == branch_taken(op, x),
{
    match op {
        Op::Bz(_) => x == 0,
        Op::BrFalse(_) => x == 0,
        Op::Bnz(_) => x != 0,
        Op::BrTrue(_) => x != 0,
        Op::Bl(_) => reinterpret_u(x) < 0,
        Op::Bg(_) => reinterpret_u(x) > 0,
        Op::Blz(_) => reinterpret_u(x) <= 0,
        _ => reinterpret_u(x) >= 0,
    }
}

/// Whether a byte is white space between tokens of the input.
pub open spec fn is_space(b: u8) -> bool {
    b == 0x09 || b == 0x0a || b == 0x0d || b == 0x20
}

/// The number of bytes at the front of `s` that are white space.
pub open spec fn leading_spaces(s: Seq<u8>) -> nat
    decreases s.len(),
{
    if s.len() > 0 && is_space(s[0]) {
        1 + leading_spaces(s.skip(1))
    } else {
        0
    }
}

/// The number of bytes at the front of `s` that are no white space.
pub open spec fn leading_word(s: Seq<u8>) -> nat
    decreases s.len(),
{
    if s.len() > 0 && !is_space(s[0]) {
        1 + leading_word(s.skip(1))
    } else {
        0
    }
}

/// The next token of the input: the bytes behind the leading white space, up
/// to the next white space or the end.
pub open spec fn next_token(input: Seq<u8>) -> Seq<u8> {
    let rest = input.skip(leading_spaces(input) as int);
    rest.take(leading_word(rest) as int)
}

/// The number of bytes that reading the next token takes from the input: the
/// leading white space, the token, and the one byte of white space that ends
/// the token, if the input does not end with the token.
pub open spec fn token_consumed(input: Seq<u8>) -> nat {
    let spaces = leading_spaces(input);
    let word = leading_word(input.skip(spaces as int));
    if spaces + word < input.len() {
        spaces + word + 1
    } else {
        spaces + word
    }
}

/// The counts of leading bytes are within the sequence.
pub proof fn lemma_leading_bounds(s: Seq<u8>)
    ensures
        leading_spaces(s) <= s.len(),
        leading_word(s) <= s.len(),
        leading_spaces(s) < s.len() ==> !is_space(s[leading_spaces(s) as int]),
        leading_word(s) < s.len() ==> is_space(s[leading_word(s) as int]),
    decreases s.len(),
{
    if s.len() > 0 {
        lemma_leading_bounds(s.skip(1));
    }
}

/// Reads the next token of `input` from position `pos` on. Gives the token
/// and the position behind what was read.
pub fn scan_token(input: &Vec<u8>, pos: usize) -> (r: (Vec<u8>, usize))
    requires
        pos <= input@.len(),
    ensures
        r.0@ == next_token(input@.skip(pos as int)),
        r.1 == pos + token_consumed(input@.skip(pos as int)),
        r.1 <= input@.len(),
{
    let ghost rest = input@.skip(pos as int);
    let n = input.len();
    let mut i: usize = pos;
    while i < n && is_space_byte(input[i])
        invariant
            pos <= i <= n,
            n == input@.len(),
            rest == input@.skip(pos as int),
            leading_spaces(rest) == (i - pos) + leading_spaces(input@.skip(i as int)),
        decreases n - i,
    {
        assert(input@.skip(i as int).skip(1) =~= input@.skip(i + 1));
        i = i + 1;
    }
    let start = i;
    assert(leading_spaces(rest) == start - pos);
    assert(rest.skip(start - pos) =~= input@.skip(start as int));
    let mut token: Vec<u8> = Vec::new();
    while i < n && !is_space_byte(input[i])
        invariant
            start <= i <= n,
            n == input@.len(),
            token@ == input@.subrange(start as int, i as int),
            leading_word(input@.skip(start as int)) == (i - start) + leading_word(
                input@.skip(i as int),
            ),
        decreases n - i,
    {
        assert(input@.skip(i as int).skip(1) =~= input@.skip(i + 1));
        token.push(input[i]);
        assert(token@ =~= input@.subrange(start as int, i + 1));
        i = i + 1;
    }
    assert(token@ =~= input@.skip(start as int).take(i - start));
    if i < n {
        (token, i + 1)
    } else {
        (token, i)
    }
}

/// Whether the input ends before its next token does: no token begins in
/// it, or no white space stands behind the token, so that more input may
/// belong to the token.
pub open spec fn token_open(input: Seq<u8>) -> bool {
    leading_spaces(input) + leading_word(input.skip(leading_spaces(input) as int)) == input.len()
}

/// Whether `input` from position `pos` on ends before its next token does.
pub fn scan_is_open(input: &Vec<u8>, pos: usize) -> (r: bool)
    requires
        pos <= input@.len(),
    ensures
        r == token_open(input@.skip(pos as int)),
{
    let ghost rest = input@.skip(pos as int);
    let n = input.len();
    let mut i: usize = pos;
    while i < n && is_space_byte(input[i])
        invariant
            pos <= i <= n,
            n == input@.len(),
            rest == input@.skip(pos as int),
            leading_spaces(rest) == (i - pos) + leading_spaces(input@.skip(i as int)),
        decreases n - i,
    {
        assert(input@.skip(i as int).skip(1) =~= input@.skip(i + 1));
        i = i + 1;
    }
    let start = i;
    assert(leading_spaces(rest) == start - pos);
    assert(rest.skip(start - pos) =~= input@.skip(start as int));
    while i < n && !is_space_byte(input[i])
        invariant
            start <= i <= n,
            n == input@.len(),
            leading_word(input@.skip(start as int)) == (i - start) + leading_word(
                input@.skip(i as int),
            ),
        decreases n - i,
    {
        assert(input@.skip(i as int).skip(1) =~= input@.skip(i + 1));
        i = i + 1;
    }
    i == n
}

fn is_space_byte(b: u8) -> (r: bool)
    ensures
        r == is_space(b),
{
    b == 0x09 || b == 0x0a || b == 0x0d || b == 0x20
}

/// Whether a byte is a decimal digit.
pub open spec fn is_digit(b: u8) -> bool {
    0x30 <= b <= 0x39
}

/// The number that decimal digits stand for.
pub open spec fn digits_value(s: Seq<u8>) -> nat
    decreases s.len(),
{
    if s.len() == 0 {
        0
    } else {
        digits_value(s.drop_last()) * 10 + (s.last() - 0x30) as nat
    }
}

/// The digits of an unsigned decimal numeral: the token without a leading
/// plus sign.
pub open spec fn numeral_digits(token: Seq<u8>) -> Seq<u8> {
    if token.len() > 0 && token[0] == 0x2b {
        token.skip(1)
    } else {
        token
    }
}

/// The number that a token stands for as an unsigned decimal numeral: an
/// optional plus sign and at least one digit, of a number that fits 64 bits.
pub open spec fn parse_u64(token: Seq<u8>) -> Option<u64> {
    let digits = numeral_digits(token);
    if digits.len() > 0 && (forall|i: int| 0 <= i < digits.len() ==> is_digit(#[trigger] digits[i]))
        && digits_value(digits) <= u64::MAX {
        Some(digits_value(digits) as u64)
    } else {
        None
    }
}

/// More digits do not make a number smaller.
pub proof fn lemma_digits_value_monotone(s: Seq<u8>, k: int)
    requires
        0 <= k <= s.len(),
        forall|i: int| 0 <= i < s.len() ==> is_digit(#[trigger] s[i]),
    ensures
        digits_value(s.take(k)) <= digits_value(s),
    decreases s.len() - k,
{
    if k < s.len() {
        lemma_digits_value_monotone(s, k + 1);
        assert(s.take(k + 1).drop_last() =~= s.take(k));
        assert(s.take(k + 1).last() == s[k]);
    } else {
        assert(s.take(k) =~= s);
    }
}

/// The number that a token stands for as an unsigned decimal numeral.
pub fn parse_uint(token: &Vec<u8>) -> (r: Option<u64>)
    ensures
        r == parse_u64(token@),
{
    let n = token.len();
    let start: usize = if n > 0 && token[0] == 0x2b {
        1
    } else {
        0
    };
    let ghost digits = numeral_digits(token@);
    assert(digits =~= token@.skip(start as int));
    if start == n {
        return None;
    }
    let mut acc: u64 = 0;
    let mut i: usize = start;
    assert(digits.take(0) =~= Seq::<u8>::empty());
    while i < n
        invariant
            start <= i <= n,
            n == token@.len(),
            digits == token@.skip(start as int),
            digits == numeral_digits(token@),
            forall|j: int| 0 <= j < i - start ==> is_digit(#[trigger] digits[j]),
            acc == digits_value(digits.take(i - start)),
        decreases n - i,
    {
        let b = token[i];
        assert(digits[i - start] == b);
        if b < 0x30 || b > 0x39 {
            return None;
        }
        let d = (b - 0x30) as u64;
        proof {
            assert(digits.take(i - start + 1).drop_last() =~= digits.take(i - start));
            assert(digits.take(i - start + 1).last() == b);
        }
        if acc > (u64::MAX - d) / 10 {
            proof {
                assert(digits_value(digits.take(i - start + 1)) > u64::MAX);
                if forall|j: int| 0 <= j < digits.len() ==> is_digit(#[trigger] digits[j]) {
                    lemma_digits_value_monotone(digits, i - start + 1);
                }
            }
            return None;
        }
        acc = acc * 10 + d;
        i = i + 1;
    }
    assert(digits.take(n - start) =~= digits);
    Some(acc)
}

/// The decimal digits of a number, without leading zeros.
pub open spec fn dec_digits(n: nat) -> Seq<u8>
    decreases n,
{
    if n < 10 {
        seq![(0x30 + n) as u8]
    } else {
        dec_digits(n / 10).push((0x30 + n % 10) as u8)
    }
}

/// The decimal numeral of a signed number: a minus sign before the digits of
/// a negative one.
pub open spec fn dec_signed(v: int) -> Seq<u8> {
    if v < 0 {
        seq![0x2du8] + dec_digits((-v) as nat)
    } else {
        dec_digits(v as nat)
    }
}

/// The decimal digits of `n`, least significant first.
spec fn dec_digits_rev(n: nat) -> Seq<u8>
    decreases n,
{
    if n < 10 {
        seq![(0x30 + n) as u8]
    } else {
        seq![(0x30 + n % 10) as u8] + dec_digits_rev(n / 10)
    }
}

proof fn lemma_dec_digits_rev(n: nat)
    ensures
        dec_digits_rev(n).reverse() == dec_digits(n),
    decreases n,
{
    if n < 10 {
        assert(dec_digits_rev(n).reverse() =~= dec_digits(n));
    } else {
        lemma_dec_digits_rev(n / 10);
        let d = (0x30 + n % 10) as u8;
        let r = dec_digits_rev(n / 10);
        assert((seq![d] + r).reverse() =~= r.reverse().push(d));
    }
}

/// The decimal numeral of the signed number that a word holds.
pub fn format_int(word: u64) -> (text: Vec<u8>)
    ensures
        text@ == dec_signed(as_signed(word) as int),
{
    let v = reinterpret_u(word);
    let negative = v < 0;
    let magnitude: u64 = if negative {
        0u64.wrapping_sub(word)
    } else {
        word
    };
    assert(magnitude == if v < 0 {
        -v
    } else {
        v as int
    });
    let mut rev: Vec<u8> = Vec::new();
    let mut rest: u64 = magnitude;
    while rest >= 10
        invariant
            dec_digits_rev(magnitude as nat) == rev@ + dec_digits_rev(rest as nat),
        decreases rest,
    {
        let d = (0x30 + rest % 10) as u8;
        let ghost before = rev@;
        rev.push(d);
        assert(before + (seq![d] + dec_digits_rev((rest / 10) as nat)) =~= rev@ + dec_digits_rev(
            (rest / 10) as nat,
        ));
        rest = rest / 10;
    }
    rev.push((0x30 + rest) as u8);
    assert(rev@ =~= dec_digits_rev(magnitude as nat));
    proof {
        lemma_dec_digits_rev(magnitude as nat);
    }
    let mut text: Vec<u8> = Vec::new();
    if negative {
        text.push(0x2d);
    }
    let ghost sign = text@;
    let len = rev.len();
    let mut i: usize = len;
    while i > 0
        invariant
            i <= len,
            len == rev@.len(),
            text@ == sign + rev@.reverse().take(len - i),
        decreases i,
    {
        i = i - 1;
        text.push(rev[i]);
        assert(rev@.reverse()[len - i - 1] == rev@[i as int]);
        assert(text@ =~= sign + rev@.reverse().take(len - i));
    }
    assert(rev@.reverse().take(len as int) =~= rev@.reverse());
    assert(text@ =~= dec_signed(v as int));
    text
}

/// The UTF-8 form of the character whose code is the low byte of a word: the
/// byte itself below 128, else two bytes.
pub open spec fn char_text(word: u64) -> Seq<u8> {
    let b = word & 0xff;
    if b < 0x80 {
        seq![b as u8]
    } else {
        seq![(0xc0 | (b >> 6)) as u8, (0x80 | (b & 0x3f)) as u8]
    }
}

/// The UTF-8 form of the character whose code is the low byte of a word.
pub fn format_char(word: u64) -> (text: Vec<u8>)
    ensures
        text@ == char_text(word),
{
    let b = word & 0xff;
    assert(word & 0xff <= 0xff) by (bit_vector);
    let mut text: Vec<u8> = Vec::new();
    if b < 0x80 {
        text.push(b as u8);
    } else {
        assert(b <= 0xff ==> (0xc0 | (b >> 6)) <= 0xff && (0x80 | (b & 0x3f)) <= 0xff)
            by (bit_vector);
        text.push((0xc0 | (b >> 6)) as u8);
        text.push((0x80 | (b & 0x3f)) as u8);
    }
    assert(text@ =~= char_text(word));
    text
}

} // verus!
