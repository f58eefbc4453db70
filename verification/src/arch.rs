//! The target architecture: operations, branch conditions, registers, and the
//! two 16-bit word layouts (immediate and operation) with their fixed 3-bit
//! codes.

use vstd::prelude::*;
use vstd::string::StringExecFns;

verus! {

/// Largest value a word of immediate layout can carry: 15 usable bits.
pub const MAX_LOAD_VALUE: u16 = 32767;

/// An ALU operation, or the assignment operator `=`, which binds a
/// destination register to a source but has no 3-bit code of its own.
#[derive(Clone, Copy, Debug, PartialEq, Eq, Structural)]
pub enum Op {
    Add,
    Sub,
    And,
    Not,
    Or,
    Xor,
    Assignement,
}

/// A register reference. `AStar` and `VStar` are the memory cells addressed
/// by `A` and `V`; `Zero` and `One` are the constant pseudo-registers.
#[derive(Clone, Copy, Debug, PartialEq, Eq, Structural)]
pub enum Reg {
    A,
    V,
    AStar,
    VStar,
    D,
    Zero,
    One,
}

/// A branch test against zero, or the unconditional jump.
#[derive(Clone, Copy, Debug, PartialEq, Eq, Structural)]
pub enum Cond {
    Eq,
    Neq,
    Gt,
    Lt,
    GtEq,
    LtEq,
    Jump,
}

/// Either an operation or a condition: the two share the same 3-bit field of
/// the operation layout, because a word is one or the other, never both.
#[derive(Clone, Copy, Debug, PartialEq, Eq, Structural)]
pub enum OpOrCond {
    Operation(Op),
    Condition(Cond),
}

/// The fixed 3-bit code of an operation; the assignment operator has none.
pub open spec fn op_code(op: Op) -> Seq<char> {
    match op {
        Op::Add => seq!['0', '0', '0'],
        Op::Sub => seq!['0', '0', '1'],
        Op::And => seq!['0', '1', '0'],
        Op::Or => seq!['0', '1', '1'],
        Op::Xor => seq!['1', '0', '0'],
        Op::Not => seq!['1', '0', '1'],
        Op::Assignement => seq![],
    }
}

/// The fixed 3-bit code of a condition.
pub open spec fn cond_code(cond: Cond) -> Seq<char> {
    match cond {
        Cond::Gt => seq!['0', '0', '1'],
        Cond::Eq => seq!['0', '1', '0'],
        Cond::GtEq => seq!['0', '1', '1'],
        Cond::Lt => seq!['1', '0', '0'],
        Cond::Neq => seq!['1', '0', '1'],
        Cond::LtEq => seq!['1', '1', '0'],
        Cond::Jump => seq!['1', '1', '1'],
    }
}

/// The fixed 3-bit code of a register.
pub open spec fn reg_code(reg: Reg) -> Seq<char> {
    match reg {
        Reg::A => seq!['0', '0', '0'],
        Reg::AStar => seq!['0', '0', '1'],
        Reg::V => seq!['0', '1', '0'],
        Reg::VStar => seq!['0', '1', '1'],
        Reg::D => seq!['1', '0', '0'],
        Reg::Zero => seq!['1', '1', '0'],
        Reg::One => seq!['1', '1', '1'],
    }
}

/// The 3-bit code of whichever side an `OpOrCond` holds.
pub open spec fn op_or_cond_code(oc: OpOrCond) -> Seq<char> {
    match oc {
        OpOrCond::Operation(op) => op_code(op),
        OpOrCond::Condition(cond) => cond_code(cond),
    }
}

impl Op {
    /// The 3-bit code of this operation as text.
    pub fn bit_stream(&self) -> (r: String)
        ensures
            r@ == op_code(*self),
    {
        proof {
            reveal_strlit("000");
            reveal_strlit("001");
            reveal_strlit("010");
            reveal_strlit("011");
            reveal_strlit("100");
            reveal_strlit("101");
        }
        match self {
            Op::Add => String::from_str("000"),
            Op::Sub => String::from_str("001"),
            Op::And => String::from_str("010"),
            Op::Or => String::from_str("011"),
            Op::Xor => String::from_str("100"),
            Op::Not => String::from_str("101"),
            Op::Assignement => String::new(),
        }
    }
}

impl Cond {
    /// The 3-bit code of this condition as text.
    pub fn bit_stream(&self) -> (r: String)
        ensures
            r@ == cond_code(*self),
    {
        proof {
            reveal_strlit("001");
            reveal_strlit("010");
            reveal_strlit("011");
            reveal_strlit("100");
            reveal_strlit("101");
            reveal_strlit("110");
            reveal_strlit("111");
        }
        match self {
            Cond::Gt => String::from_str("001"),
            Cond::Eq => String::from_str("010"),
            Cond::GtEq => String::from_str("011"),
            Cond::Lt => String::from_str("100"),
            Cond::Neq => String::from_str("101"),
            Cond::LtEq => String::from_str("110"),
            Cond::Jump => String::from_str("111"),
        }
    }
}

impl Reg {
    /// The 3-bit code of this register as text.
    pub fn bit_stream(&self) -> (r: String)
        ensures
            r@ == reg_code(*self),
    {
        proof {
            reveal_strlit("000");
            reveal_strlit("001");
            reveal_strlit("010");
            reveal_strlit("011");
            reveal_strlit("100");
            reveal_strlit("110");
            reveal_strlit("111");
        }
        match self {
            Reg::A => String::from_str("000"),
            Reg::AStar => String::from_str("001"),
            Reg::V => String::from_str("010"),
            Reg::VStar => String::from_str("011"),
            Reg::D => String::from_str("100"),
            Reg::Zero => String::from_str("110"),
            Reg::One => String::from_str("111"),
        }
    }
}

impl OpOrCond {
    /// The 3-bit code of whichever side this value holds, as text.
    pub fn bit_stream(&self) -> (r: String)
        ensures
            r@ == op_or_cond_code(*self),
    {
        match self {
            OpOrCond::Operation(op) => op.bit_stream(),
            OpOrCond::Condition(cond) => cond.bit_stream(),
        }
    }
}

/// The low `n` binary digits of `v`, most significant first.
pub open spec fn bin_digits(v: int, n: nat) -> Seq<char>
    decreases n,
{
    if n == 0 {
        Seq::empty()
    } else {
        bin_digits(v / 2, (n - 1) as nat).push(if v % 2 == 1 {
            '1'
        } else {
            '0'
        })
    }
}

pub proof fn lemma_bin_digits_len(v: int, n: nat)
    ensures
        bin_digits(v, n).len() == n,
    decreases n,
{
    if n > 0 {
        lemma_bin_digits_len(v / 2, (n - 1) as nat);
    }
}

/// The immediate layout: bit 15 set, then the 15-bit value.
pub open spec fn data_word_chars(val: u16) -> Seq<char> {
    seq!['1'] + bin_digits(val as int, 15)
}

/// The operation layout: bit 15 clear, the 3-bit op or condition code, three
/// zero filler bits, then the source-A, source-B and destination registers.
pub open spec fn inst_word_chars(oc: OpOrCond, rega: Reg, regb: Reg, regc: Reg) -> Seq<char> {
    seq!['0'] + op_or_cond_code(oc) + seq!['0', '0', '0'] + reg_code(rega) + reg_code(regb)
        + reg_code(regc)
}

/// Appends the low `n` binary digits of `v`, most significant first.
fn push_bin_digits(s: &mut String, v: u16, n: u16)
    ensures
        final(s)@ == old(s)@ + bin_digits(v as int, n as nat),
    decreases n,
{
    if n == 0 {
        assert(final(s)@ =~= old(s)@ + bin_digits(v as int, 0));
    } else {
        push_bin_digits(s, v / 2, n - 1);
        if v % 2 == 1 {
            crate::strutil::push_char(s, '1');
        } else {
            crate::strutil::push_char(s, '0');
        }
        assert(final(s)@ =~= old(s)@ + bin_digits(v as int, n as nat));
    }
}

/// Formats a 15-bit value as a word of immediate layout: a leading `1`
/// followed by the value's 15 binary digits.
pub fn data_mode_format(val: u16) -> (r: String)
    requires
        val <= MAX_LOAD_VALUE,
    ensures
        r@ == data_word_chars(val),
        r@.len() == 16,
{
    let mut s = String::new();
    crate::strutil::push_char(&mut s, '1');
    push_bin_digits(&mut s, val, 15);
    proof {
        lemma_bin_digits_len(val as int, 15);
        assert(s@ =~= data_word_chars(val));
    }
    s
}

/// Formats an operation-layout word from its op or condition code, the two
/// source registers and the destination register.
pub fn inst_mode_format(op_or_cond: OpOrCond, rega: Reg, regb: Reg, regc: Reg) -> (r: String)
    requires
        op_or_cond != OpOrCond::Operation(Op::Assignement),
    ensures
        r@ == inst_word_chars(op_or_cond, rega, regb, regc),
        r@.len() == 16,
{
    proof {
        reveal_strlit("0");
        reveal_strlit("000");
    }
    let mut s = String::from_str("0");
    s.append(op_or_cond.bit_stream().as_str());
    s.append("000");
    s.append(rega.bit_stream().as_str());
    s.append(regb.bit_stream().as_str());
    s.append(regc.bit_stream().as_str());
    proof {
        assert(s@ =~= inst_word_chars(op_or_cond, rega, regb, regc));
    }
    s
}

} // verus!
