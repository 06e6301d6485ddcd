//! The instruction set of the stack machine, and the numbering of its
//! instructions in a binary module.

use vstd::prelude::*;

verus! {

/// One instruction. A variant carries at most one immediate operand.
#[derive(Debug, Copy, Clone, PartialEq, Eq, Structural)]
pub enum Op {
    Nop,
    Push(u64),
    Pop,
    PopN(u32),
    Dup,
    LocA(u32),
    ArgA(u32),
    GlobA(u32),
    Load8,
    Load16,
    Load32,
    Load64,
    Store8,
    Store16,
    Store32,
    Store64,
    Alloc,
    Free,
    StackAlloc(u32),
    AddI,
    SubI,
    MulI,
    DivI,
    AddF,
    SubF,
    MulF,
    DivF,
    DivU,
    Shl,
    Shr,
    And,
    Or,
    Xor,
    Not,
    CmpI,
    CmpU,
    CmpF,
    NegI,
    NegF,
    IToF,
    FToI,
    ShrL,
    SetLt,
    SetGt,
    BrA(u64),
    Br(i32),
    Bz(i32),
    Bnz(i32),
    Bl(i32),
    Bg(i32),
    Blz(i32),
    Bgz(i32),
    Call(u32),
    Ret,
    CallName(u32),
    BrFalse(i32),
    BrTrue(i32),
    ScanI,
    ScanC,
    ScanF,
    PrintI,
    PrintC,
    PrintF,
    PrintS,
    PrintLn,
    Panic,
}

/// The low 32 bits of a word.
pub open spec fn low_word(x: u64) -> u32 {
    (x & 0xffff_ffff) as u32
}

/// The 32-bit word that holds a signed offset in two's complement.
pub open spec fn offset_word(x: i32) -> u32 {
    x as u32
}

/// The signed offset that a 32-bit word holds in two's complement.
pub open spec fn word_offset(x: u32) -> i32 {
    x as i32
}

/// Reading an offset back from the word it was stored in gives the offset.
pub proof fn lemma_offset_word_round_trip(x: i32)
    ensures
        word_offset(offset_word(x)) == x,
        low_word(offset_word(x) as u64) == offset_word(x),
{
    assert((x as u32) as i32 == x) by (bit_vector);
    let w = x as u32;
    assert((((w as u64) & 0xffff_ffff) as u32) == w) by (bit_vector);
}

/// Widening a 32-bit word and taking the low word again gives the word.
pub proof fn lemma_low_word_of_widened(w: u32)
    ensures
        low_word(w as u64) == w,
{
    assert((((w as u64) & 0xffff_ffff) as u32) == w) by (bit_vector);
}

fn exec_low_word(x: u64) -> (r: u32)
    ensures
        r == low_word(x),
{
    assert(x & 0xffff_ffff <= 0xffff_ffff) by (bit_vector);
    (x & 0xffff_ffff) as u32
}

fn exec_offset_word(x: i32) -> (r: u32)
    ensures
        r == offset_word(x),
{
    #[verifier::truncate]
    (x as u32)
}

fn exec_word_offset(x: u32) -> (r: i32)
    ensures
        r == word_offset(x),
{
    #[verifier::truncate]
    (x as i32)
}

impl Op {
    /// The byte that names this instruction in a binary module.
    pub open spec fn spec_code(self) -> u8 {
        match self {
            Op::Nop => 0x00,
            Op::Push(_) => 0x01,
            Op::Pop => 0x02,
            Op::PopN(_) => 0x03,
            Op::Dup => 0x04,
            Op::LocA(_) => 0x08,
            Op::GlobA(_) => 0x09,
            Op::ArgA(_) => 0x0a,
            Op::Load8 => 0x10,
            Op::Load16 => 0x11,
            Op::Load32 => 0x12,
            Op::Load64 => 0x13,
            Op::Store8 => 0x14,
            Op::Store16 => 0x15,
            Op::Store32 => 0x16,
            Op::Store64 => 0x17,
            Op::Alloc => 0x18,
            Op::Free => 0x19,
            Op::StackAlloc(_) => 0x1a,
            Op::AddI => 0x20,
            Op::SubI => 0x21,
            Op::MulI => 0x22,
            Op::DivI => 0x23,
            Op::AddF => 0x24,
            Op::SubF => 0x25,
            Op::MulF => 0x26,
            Op::DivF => 0x27,
            Op::DivU => 0x28,
            Op::Shl => 0x29,
            Op::Shr => 0x2a,
            Op::And => 0x2b,
            Op::Or => 0x2c,
            Op::Xor => 0x2d,
            Op::Not => 0x2e,
            Op::CmpI => 0x30,
            Op::CmpU => 0x31,
            Op::CmpF => 0x32,
            Op::NegI => 0x34,
            Op::NegF => 0x35,
            Op::IToF => 0x36,
            Op::FToI => 0x37,
            Op::ShrL => 0x38,
            Op::SetLt => 0x39,
            Op::SetGt => 0x3a,
            Op::BrA(_) => 0x40,
            Op::Br(_) => 0x41,
            Op::Bz(_) => 0x42,
            Op::Bnz(_) => 0x43,
            Op::Bl(_) => 0x44,
            Op::Bg(_) => 0x45,
            Op::Blz(_) => 0x46,
            Op::Bgz(_) => 0x47,
            Op::Call(_) => 0x48,
            Op::Ret => 0x49,
            Op::CallName(_) => 0x4a,
            Op::BrFalse(_) => 0x4b,
            Op::BrTrue(_) => 0x4c,
            Op::ScanI => 0x50,
            Op::ScanC => 0x51,
            Op::ScanF => 0x52,
            Op::PrintI => 0x54,
            Op::PrintC => 0x55,
            Op::PrintF => 0x56,
            Op::PrintS => 0x57,
            Op::PrintLn => 0x58,
            Op::Panic => 0xfe,
        }
    }

    /// The number of immediate bytes that follow an instruction byte: it
    /// depends on the byte alone.
    pub open spec fn spec_param_size(code: u8) -> usize {
        if code == 0x01 || code == 0x40 {
            8
        } else if code == 0x03 || code == 0x08 || code == 0x09 || code == 0x0a || code == 0x1a || (
        0x41 <= code && code <= 0x4c && code != 0x49) {
            4
        } else {
            0
        }
    }

    /// The immediate operand as a word; zero where there is none. A signed
    /// offset is held in the low 32 bits in two's complement.
    pub open spec fn spec_code_param(self) -> u64 {
        match self {
            Op::Push(x) => x,
            Op::PopN(x) => x as u64,
            Op::LocA(x) => x as u64,
            Op::ArgA(x) => x as u64,
            Op::GlobA(x) => x as u64,
            Op::StackAlloc(x) => x as u64,
            Op::BrA(x) => x,
            Op::Br(x) => offset_word(x) as u64,
            Op::Bz(x) => offset_word(x) as u64,
            Op::Bnz(x) => offset_word(x) as u64,
            Op::Bl(x) => offset_word(x) as u64,
            Op::Bg(x) => offset_word(x) as u64,
            Op::Blz(x) => offset_word(x) as u64,
            Op::Bgz(x) => offset_word(x) as u64,
            Op::BrFalse(x) => offset_word(x) as u64,
            Op::BrTrue(x) => offset_word(x) as u64,
            Op::Call(x) => x as u64,
            Op::CallName(x) => x as u64,
            _ => 0,
        }
    }

    /// The instruction that an instruction byte and an immediate word stand
    /// for. A 32-bit operand is the low word of `param`. The byte of the
    /// absolute branch is reserved and stands for nothing, as does every byte
    /// that names no instruction.
    pub open spec fn spec_from_code(code: u8, param: u64) -> Option<Op> {
        if code == 0x00 {
            Some(Op::Nop)
        } else if code == 0x01 {
            Some(Op::Push(param))
        } else if code == 0x02 {
            Some(Op::Pop)
        } else if code == 0x03 {
            Some(Op::PopN(low_word(param)))
        } else if code == 0x04 {
            Some(Op::Dup)
        } else if code == 0x08 {
            Some(Op::LocA(low_word(param)))
        } else if code == 0x09 {
            Some(Op::GlobA(low_word(param)))
        } else if code == 0x0a {
            Some(Op::ArgA(low_word(param)))
        } else if code == 0x10 {
            Some(Op::Load8)
        } else if code == 0x11 {
            Some(Op::Load16)
        } else if code == 0x12 {
            Some(Op::Load32)
        } else if code == 0x13 {
            Some(Op::Load64)
        } else if code == 0x14 {
            Some(Op::Store8)
        } else if code == 0x15 {
            Some(Op::Store16)
        } else if code == 0x16 {
            Some(Op::Store32)
        } else if code == 0x17 {
            Some(Op::Store64)
        } else if code == 0x18 {
            Some(Op::Alloc)
        } else if code == 0x19 {
            Some(Op::Free)
        } else if code == 0x1a {
            Some(Op::StackAlloc(low_word(param)))
        } else if code == 0x20 {
            Some(Op::AddI)
        } else if code == 0x21 {
            Some(Op::SubI)
        } else if code == 0x22 {
            Some(Op::MulI)
        } else if code == 0x23 {
            Some(Op::DivI)
        } else if code == 0x24 {
            Some(Op::AddF)
        } else if code == 0x25 {
            Some(Op::SubF)
        } else if code == 0x26 {
            Some(Op::MulF)
        } else if code == 0x27 {
            Some(Op::DivF)
        } else if code == 0x28 {
            Some(Op::DivU)
        } else if code == 0x29 {
            Some(Op::Shl)
        } else if code == 0x2a {
            Some(Op::Shr)
        } else if code == 0x2b {
            Some(Op::And)
        } else if code == 0x2c {
            Some(Op::Or)
        } else if code == 0x2d {
            Some(Op::Xor)
        } else if code == 0x2e {
            Some(Op::Not)
        } else if code == 0x30 {
            Some(Op::CmpI)
        } else if code == 0x31 {
            Some(Op::CmpU)
        } else if code == 0x32 {
            Some(Op::CmpF)
        } else if code == 0x34 {
            Some(Op::NegI)
        } else if code == 0x35 {
            Some(Op::NegF)
        } else if code == 0x36 {
            Some(Op::IToF)
        } else if code == 0x37 {
            Some(Op::FToI)
        } else if code == 0x38 {
            Some(Op::ShrL)
        } else if code == 0x39 {
            Some(Op::SetLt)
        } else if code == 0x3a {
            Some(Op::SetGt)
        } else if code == 0x41 {
            Some(Op::Br(word_offset(low_word(param))))
        } else if code == 0x42 {
            Some(Op::Bz(word_offset(low_word(param))))
        } else if code == 0x43 {
            Some(Op::Bnz(word_offset(low_word(param))))
        } else if code == 0x44 {
            Some(Op::Bl(word_offset(low_word(param))))
        } else if code == 0x45 {
            Some(Op::Bg(word_offset(low_word(param))))
        } else if code == 0x46 {
            Some(Op::Blz(word_offset(low_word(param))))
        } else if code == 0x47 {
            Some(Op::Bgz(word_offset(low_word(param))))
        } else if code == 0x48 {
            Some(Op::Call(low_word(param)))
        } else if code == 0x49 {
            Some(Op::Ret)
        } else if code == 0x4a {
            Some(Op::CallName(low_word(param)))
        } else if code == 0x4b {
            Some(Op::BrFalse(word_offset(low_word(param))))
        } else if code == 0x4c {
            Some(Op::BrTrue(word_offset(low_word(param))))
        } else if code == 0x50 {
            Some(Op::ScanI)
        } else if code == 0x51 {
            Some(Op::ScanC)
        } else if code == 0x52 {
            Some(Op::ScanF)
        } else if code == 0x54 {
            Some(Op::PrintI)
        } else if code == 0x55 {
            Some(Op::PrintC)
        } else if code == 0x56 {
            Some(Op::PrintF)
        } else if code == 0x57 {
            Some(Op::PrintS)
        } else if code == 0x58 {
            Some(Op::PrintLn)
        } else if code == 0xfe {
            Some(Op::Panic)
        } else {
            None
        }
    }

    /// Whether the instruction can stand in a binary module: every
    /// instruction but the reserved absolute branch.
    pub open spec fn encodable(self) -> bool {
        !(self is BrA)
    }

    /// The byte that names this instruction.
    pub fn code(&self) -> (r: u8)
        ensures
            r == self.spec_code(),
    {
        match self {
            Op::Nop => 0x00,
            Op::Push(_) => 0x01,
            Op::Pop => 0x02,
            Op::PopN(_) => 0x03,
            Op::Dup => 0x04,
            Op::LocA(_) => 0x08,
            Op::GlobA(_) => 0x09,
            Op::ArgA(_) => 0x0a,
            Op::Load8 => 0x10,
            Op::Load16 => 0x11,
            Op::Load32 => 0x12,
            Op::Load64 => 0x13,
            Op::Store8 => 0x14,
            Op::Store16 => 0x15,
            Op::Store32 => 0x16,
            Op::Store64 => 0x17,
            Op::Alloc => 0x18,
            Op::Free => 0x19,
            Op::StackAlloc(_) => 0x1a,
            Op::AddI => 0x20,
            Op::SubI => 0x21,
            Op::MulI => 0x22,
            Op::DivI => 0x23,
            Op::AddF => 0x24,
            Op::SubF => 0x25,
            Op::MulF => 0x26,
            Op::DivF => 0x27,
            Op::DivU => 0x28,
            Op::Shl => 0x29,
            Op::Shr => 0x2a,
            Op::And => 0x2b,
            Op::Or => 0x2c,
            Op::Xor => 0x2d,
            Op::Not => 0x2e,
            Op::CmpI => 0x30,
            Op::CmpU => 0x31,
            Op::CmpF => 0x32,
            Op::NegI => 0x34,
            Op::NegF => 0x35,
            Op::IToF => 0x36,
            Op::FToI => 0x37,
            Op::ShrL => 0x38,
            Op::SetLt => 0x39,
            Op::SetGt => 0x3a,
            Op::BrA(_) => 0x40,
            Op::Br(_) => 0x41,
            Op::Bz(_) => 0x42,
            Op::Bnz(_) => 0x43,
            Op::Bl(_) => 0x44,
            Op::Bg(_) => 0x45,
            Op::Blz(_) => 0x46,
            Op::Bgz(_) => 0x47,
            Op::Call(_) => 0x48,
            Op::Ret => 0x49,
            Op::CallName(_) => 0x4a,
            Op::BrFalse(_) => 0x4b,
            Op::BrTrue(_) => 0x4c,
            Op::ScanI => 0x50,
            Op::ScanC => 0x51,
            Op::ScanF => 0x52,
            Op::PrintI => 0x54,
            Op::PrintC => 0x55,
            Op::PrintF => 0x56,
            Op::PrintS => 0x57,
            Op::PrintLn => 0x58,
            Op::Panic => 0xfe,
        }
    }

    /// The number of immediate bytes that follow the instruction byte `code`.
    pub fn param_size(code: u8) -> (r: usize)
        ensures
            r == Self::spec_param_size(code),
            r == 0 || r == 4 || r == 8,
    {
        match code {
            0x01 | 0x40 => 8,
            0x03 | 0x08 | 0x09 | 0x0a | 0x1a | 0x41..=0x48 | 0x4a..=0x4c => 4,
            _ => 0,
        }
    }

    /// The instruction that `code` and `param` stand for, if there is one.
    pub fn from_code(code: u8, param: u64) -> (r: Option<Op>)
        ensures
            r == Self::spec_from_code(code, param),
    {
        match code {
            0x00 => Some(Op::Nop),
            0x01 => Some(Op::Push(param)),
            0x02 => Some(Op::Pop),
            0x03 => Some(Op::PopN(exec_low_word(param))),
            0x04 => Some(Op::Dup),
            0x08 => Some(Op::LocA(exec_low_word(param))),
            0x09 => Some(Op::GlobA(exec_low_word(param))),
            0x0a => Some(Op::ArgA(exec_low_word(param))),
            0x10 => Some(Op::Load8),
            0x11 => Some(Op::Load16),
            0x12 => Some(Op::Load32),
            0x13 => Some(Op::Load64),
            0x14 => Some(Op::Store8),
            0x15 => Some(Op::Store16),
            0x16 => Some(Op::Store32),
            0x17 => Some(Op::Store64),
            0x18 => Some(Op::Alloc),
            0x19 => Some(Op::Free),
            0x1a => Some(Op::StackAlloc(exec_low_word(param))),
            0x20 => Some(Op::AddI),
            0x21 => Some(Op::SubI),
            0x22 => Some(Op::MulI),
            0x23 => Some(Op::DivI),
            0x24 => Some(Op::AddF),
            0x25 => Some(Op::SubF),
            0x26 => Some(Op::MulF),
            0x27 => Some(Op::DivF),
            0x28 => Some(Op::DivU),
            0x29 => Some(Op::Shl),
            0x2a => Some(Op::Shr),
            0x2b => Some(Op::And),
            0x2c => Some(Op::Or),
            0x2d => Some(Op::Xor),
            0x2e => Some(Op::Not),
            0x30 => Some(Op::CmpI),
            0x31 => Some(Op::CmpU),
            0x32 => Some(Op::CmpF),
            0x34 => Some(Op::NegI),
            0x35 => Some(Op::NegF),
            0x36 => Some(Op::IToF),
            0x37 => Some(Op::FToI),
            0x38 => Some(Op::ShrL),
            0x39 => Some(Op::SetLt),
            0x3a => Some(Op::SetGt),
            0x41 => Some(Op::Br(exec_word_offset(exec_low_word(param)))),
            0x42 => Some(Op::Bz(exec_word_offset(exec_low_word(param)))),
            0x43 => Some(Op::Bnz(exec_word_offset(exec_low_word(param)))),
            0x44 => Some(Op::Bl(exec_word_offset(exec_low_word(param)))),
            0x45 => Some(Op::Bg(exec_word_offset(exec_low_word(param)))),
            0x46 => Some(Op::Blz(exec_word_offset(exec_low_word(param)))),
            0x47 => Some(Op::Bgz(exec_word_offset(exec_low_word(param)))),
            0x48 => Some(Op::Call(exec_low_word(param))),
            0x49 => Some(Op::Ret),
            0x4a => Some(Op::CallName(exec_low_word(param))),
            0x4b => Some(Op::BrFalse(exec_word_offset(exec_low_word(param)))),
            0x4c => Some(Op::BrTrue(exec_word_offset(exec_low_word(param)))),
            0x50 => Some(Op::ScanI),
            0x51 => Some(Op::ScanC),
            0x52 => Some(Op::ScanF),
            0x54 => Some(Op::PrintI),
            0x55 => Some(Op::PrintC),
            0x56 => Some(Op::PrintF),
            0x57 => Some(Op::PrintS),
            0x58 => Some(Op::PrintLn),
            0xfe => Some(Op::Panic),
            _ => None,
        }
    }

    /// The immediate operand as a word; zero where there is none.
    pub fn code_param(&self) -> (r: u64)
        ensures
            r == self.spec_code_param(),
    {
        match *self {
            Op::Push(x) => x,
            Op::PopN(x) => x as u64,
            Op::LocA(x) => x as u64,
            Op::ArgA(x) => x as u64,
            Op::GlobA(x) => x as u64,
            Op::StackAlloc(x) => x as u64,
            Op::BrA(x) => x,
            Op::Br(x) => exec_offset_word(x) as u64,
            Op::Bz(x) => exec_offset_word(x) as u64,
            Op::Bnz(x) => exec_offset_word(x) as u64,
            Op::Bl(x) => exec_offset_word(x) as u64,
            Op::Bg(x) => exec_offset_word(x) as u64,
            Op::Blz(x) => exec_offset_word(x) as u64,
            Op::Bgz(x) => exec_offset_word(x) as u64,
            Op::BrFalse(x) => exec_offset_word(x) as u64,
            Op::BrTrue(x) => exec_offset_word(x) as u64,
            Op::Call(x) => x as u64,
            Op::CallName(x) => x as u64,
            _ => 0u64,
        }
    }

    /// Decoding inverts encoding: the byte and the operand word of an
    /// encodable instruction stand for that instruction again.
    pub proof fn lemma_from_code_inverts(self)
        requires
            self.encodable(),
        ensures
            Self::spec_from_code(self.spec_code(), self.spec_code_param()) == Some(self),
    {
        match self {
            Op::PopN(x) | Op::LocA(x) | Op::ArgA(x) | Op::GlobA(x) | Op::StackAlloc(x) | Op::Call(
                x,
            ) | Op::CallName(x) => {
                lemma_low_word_of_widened(x);
            },
            Op::Br(x) | Op::Bz(x) | Op::Bnz(x) | Op::Bl(x) | Op::Bg(x) | Op::Blz(x) | Op::Bgz(x)
            | Op::BrFalse(x) | Op::BrTrue(x) => {
                lemma_offset_word_round_trip(x);
            },
            _ => {},
        }
    }

    /// The reserved absolute branch is rejected when decoded.
    pub proof fn lemma_absolute_branch_reserved(param: u64)
        ensures
            Self::spec_from_code(Op::BrA(param).spec_code(), param) is None,
    {
    }

    /// The operand word of an instruction with a 4-byte immediate fits in 32
    /// bits, and that of one without an immediate is zero.
    pub proof fn lemma_code_param_width(self)
        ensures
            Self::spec_param_size(self.spec_code()) == 4 ==> self.spec_code_param() <= u32::MAX,
            Self::spec_param_size(self.spec_code()) == 0 ==> self.spec_code_param() == 0,
    {
    }
}

} // verus!
