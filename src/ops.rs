use vstd::prelude::*;
use crate::text::str_eq;

verus! {

/// The mnemonics of the instruction set, `byte` included.
#[derive(PartialEq, Eq, Structural, Debug, Clone, Copy)]
pub enum Ops {
    NoOp,
    Halt,
    Jumpi,
    JumpLessi,
    JumpOverflowi,
    JumpSigni,
    JumpCarryi,
    JumpZeroi,
    CopyReg,
    JumpLess,
    JumpOverflow,
    JumpSign,
    Jump,
    JumpCarry,
    JumpZero,
    Loadi,
    Load,
    Store,
    Add,
    Sub,
    Compare,
    RightShift,
    Not,
    And,
    Or,
    Byte,
    Increment,
    Decrement,
}

/// Number of bytes an operation occupies in the image.
pub open spec fn byte_count(op: Ops) -> u8 {
    match op {
        Ops::Jumpi | Ops::JumpLessi | Ops::JumpOverflowi | Ops::JumpSigni | Ops::JumpCarryi
        | Ops::JumpZeroi | Ops::Loadi => 2,
        _ => 1,
    }
}

/// Number of operands an operation takes.
pub open spec fn param_count(op: Ops) -> usize {
    match op {
        Ops::NoOp | Ops::Halt => 0,
        Ops::Byte | Ops::Jumpi | Ops::JumpLessi | Ops::JumpOverflowi | Ops::JumpSigni
        | Ops::JumpCarryi | Ops::JumpZeroi | Ops::JumpLess | Ops::JumpOverflow | Ops::JumpSign
        | Ops::Jump | Ops::JumpCarry | Ops::JumpZero | Ops::Not | Ops::Increment
        | Ops::Decrement => 1,
        _ => 2,
    }
}

/// The operation a mnemonic names, if any.
pub open spec fn op_of(s: Seq<char>) -> Option<Ops> {
    if s == "nop"@ { Some(Ops::NoOp) }
    else if s == "halt"@ { Some(Ops::Halt) }
    else if s == "jmpi"@ { Some(Ops::Jumpi) }
    else if s == "jli"@ { Some(Ops::JumpLessi) }
    else if s == "joi"@ { Some(Ops::JumpOverflowi) }
    else if s == "jsi"@ { Some(Ops::JumpSigni) }
    else if s == "jci"@ { Some(Ops::JumpCarryi) }
    else if s == "jzi"@ { Some(Ops::JumpZeroi) }
    else if s == "cpr"@ { Some(Ops::CopyReg) }
    else if s == "jl"@ { Some(Ops::JumpLess) }
    else if s == "jo"@ { Some(Ops::JumpOverflow) }
    else if s == "js"@ { Some(Ops::JumpSign) }
    else if s == "ldi"@ { Some(Ops::Loadi) }
    else if s == "ld"@ { Some(Ops::Load) }
    else if s == "add"@ { Some(Ops::Add) }
    else if s == "sub"@ { Some(Ops::Sub) }
    else if s == "rsh"@ { Some(Ops::RightShift) }
    else if s == "not"@ { Some(Ops::Not) }
    else if s == "jmp"@ { Some(Ops::Jump) }
    else if s == "jc"@ { Some(Ops::JumpCarry) }
    else if s == "jz"@ { Some(Ops::JumpZero) }
    else if s == "and"@ { Some(Ops::And) }
    else if s == "or"@ { Some(Ops::Or) }
    else if s == "cmp"@ { Some(Ops::Compare) }
    else if s == "st"@ { Some(Ops::Store) }
    else if s == "inc"@ { Some(Ops::Increment) }
    else if s == "dec"@ { Some(Ops::Decrement) }
    else if s == "byte"@ { Some(Ops::Byte) }
    else { None }
}

impl Ops {
    pub fn get_byte_count(&self) -> (r: u8)
        ensures
            r == byte_count(*self),
    {
        match self {
            Ops::Jumpi | Ops::JumpLessi | Ops::JumpOverflowi | Ops::JumpSigni
            | Ops::JumpCarryi | Ops::JumpZeroi | Ops::Loadi => 2,
            _ => 1,
        }
    }

    pub fn get_op_param_count(&self) -> (r: usize)
        ensures
            r == param_count(*self),
    {
        match self {
            Ops::NoOp | Ops::Halt => 0,
            Ops::Byte | Ops::Jumpi | Ops::JumpLessi | Ops::JumpOverflowi | Ops::JumpSigni
            | Ops::JumpCarryi | Ops::JumpZeroi | Ops::JumpLess | Ops::JumpOverflow
            | Ops::JumpSign | Ops::Jump | Ops::JumpCarry | Ops::JumpZero | Ops::Not
            | Ops::Increment | Ops::Decrement => 1,
            _ => 2,
        }
    }

    /// The operation named by a mnemonic (lower case, exact).
    pub fn get_op(s: &str) -> (r: Option<Ops>)
        ensures
            r == op_of(s@),
    {
        if str_eq(s, "nop") { Some(Ops::NoOp) }
        else if str_eq(s, "halt") { Some(Ops::Halt) }
        else if str_eq(s, "jmpi") { Some(Ops::Jumpi) }
        else if str_eq(s, "jli") { Some(Ops::JumpLessi) }
        else if str_eq(s, "joi") { Some(Ops::JumpOverflowi) }
        else if str_eq(s, "jsi") { Some(Ops::JumpSigni) }
        else if str_eq(s, "jci") { Some(Ops::JumpCarryi) }
        else if str_eq(s, "jzi") { Some(Ops::JumpZeroi) }
        else if str_eq(s, "cpr") { Some(Ops::CopyReg) }
        else if str_eq(s, "jl") { Some(Ops::JumpLess) }
        else if str_eq(s, "jo") { Some(Ops::JumpOverflow) }
        else if str_eq(s, "js") { Some(Ops::JumpSign) }
        else if str_eq(s, "ldi") { Some(Ops::Loadi) }
        else if str_eq(s, "ld") { Some(Ops::Load) }
        else if str_eq(s, "add") { Some(Ops::Add) }
        else if str_eq(s, "sub") { Some(Ops::Sub) }
        else if str_eq(s, "rsh") { Some(Ops::RightShift) }
        else if str_eq(s, "not") { Some(Ops::Not) }
        else if str_eq(s, "jmp") { Some(Ops::Jump) }
        else if str_eq(s, "jc") { Some(Ops::JumpCarry) }
        else if str_eq(s, "jz") { Some(Ops::JumpZero) }
        else if str_eq(s, "and") { Some(Ops::And) }
        else if str_eq(s, "or") { Some(Ops::Or) }
        else if str_eq(s, "cmp") { Some(Ops::Compare) }
        else if str_eq(s, "st") { Some(Ops::Store) }
        else if str_eq(s, "inc") { Some(Ops::Increment) }
        else if str_eq(s, "dec") { Some(Ops::Decrement) }
        else if str_eq(s, "byte") { Some(Ops::Byte) }
        else { None }
    }
}

/// The four general-purpose registers.
#[derive(PartialEq, Eq, Structural, Debug, Clone, Copy)]
pub enum Register {
    A,
    B,
    C,
    D,
}

pub open spec fn register_of_char(c: char) -> Option<Register> {
    if c == 'a' || c == 'A' { Some(Register::A) }
    else if c == 'b' || c == 'B' { Some(Register::B) }
    else if c == 'c' || c == 'C' { Some(Register::C) }
    else if c == 'd' || c == 'D' { Some(Register::D) }
    else { None }
}

pub open spec fn register_bits(r: Register) -> u8 {
    match r {
        Register::A => 0,
        Register::B => 1,
        Register::C => 2,
        Register::D => 3,
    }
}

/// The register whose encoding is the low two bits of `b`.
pub open spec fn register_of_bits(b: u8) -> Register {
    let k = b % 4;
    if k == 0 { Register::A }
    else if k == 1 { Register::B }
    else if k == 2 { Register::C }
    else { Register::D }
}

impl Register {
    pub fn from_char(c: char) -> (r: Option<Register>)
        ensures
            r == register_of_char(c),
    {
        match c {
            'a' | 'A' => Some(Register::A),
            'b' | 'B' => Some(Register::B),
            'c' | 'C' => Some(Register::C),
            'd' | 'D' => Some(Register::D),
            _ => None,
        }
    }

    pub fn bits(&self) -> (r: u8)
        ensures
            r == register_bits(*self),
            r < 4,
    {
        match self {
            Register::A => 0,
            Register::B => 1,
            Register::C => 2,
            Register::D => 3,
        }
    }

    pub fn from_bits(bits: u8) -> (r: Register)
        ensures
            r == register_of_bits(bits),
            register_bits(r) == bits % 4,
    {
        let k: u8 = bits % 4;
        if k == 0 {
            Register::A
        } else if k == 1 {
            Register::B
        } else if k == 2 {
            Register::C
        } else {
            Register::D
        }
    }
}

} // verus!
