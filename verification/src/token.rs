//! The instruction set: one token per language construct, together with the
//! mathematical view of a token that the contracts speak of.

use crate::compile::code::{Code, CodeModel};
use crate::compile::error::Error;
use crate::value::{ArithOp, Value};
use vstd::prelude::*;

pub mod argument;

verus! {

/// A jump target: symbolic before label resolution, an absolute instruction
/// index afterwards.
#[derive(Debug, Clone)]
pub enum Label {
    Base(String),
    Address(usize),
}

/// One decoded instruction of the program.
#[derive(Debug, Clone)]
pub enum Token {
    Comment(String),
    Out(String),
    Mov(u8, Value),
    Add(u8, Value, Value),
    Sub(u8, Value, Value),
    Mul(u8, Value, Value),
    Div(u8, Value, Value),
    Mod(u8, Value, Value),
    Label(String),
    Jmp(Label),
    Jl(Label),
    Jg(Label),
    Je(Label),
    Cmp(Value, Value),
}

/// The mathematical view of a jump target.
pub enum LabelRef {
    Base(Seq<char>),
    Address(int),
}

/// The mathematical view of an instruction: strings become character
/// sequences, addresses become integers.
pub enum Instr {
    Comment(Seq<char>),
    Out(Seq<char>),
    Mov(u8, Value),
    Add(u8, Value, Value),
    Sub(u8, Value, Value),
    Mul(u8, Value, Value),
    Div(u8, Value, Value),
    Mod(u8, Value, Value),
    Label(Seq<char>),
    Jmp(LabelRef),
    Jl(LabelRef),
    Jg(LabelRef),
    Je(LabelRef),
    Cmp(Value, Value),
}

impl View for Label {
    type V = LabelRef;

    open spec fn view(&self) -> LabelRef {
        match self {
            Label::Base(name) => LabelRef::Base(name@),
            Label::Address(address) => LabelRef::Address(*address as int),
        }
    }
}

impl View for Token {
    type V = Instr;

    open spec fn view(&self) -> Instr {
        match self {
            Token::Comment(text) => Instr::Comment(text@),
            Token::Out(template) => Instr::Out(template@),
            Token::Mov(dest, src) => Instr::Mov(*dest, *src),
            Token::Add(dest, left, right) => Instr::Add(*dest, *left, *right),
            Token::Sub(dest, left, right) => Instr::Sub(*dest, *left, *right),
            Token::Mul(dest, left, right) => Instr::Mul(*dest, *left, *right),
            Token::Div(dest, left, right) => Instr::Div(*dest, *left, *right),
            Token::Mod(dest, left, right) => Instr::Mod(*dest, *left, *right),
            Token::Label(name) => Instr::Label(name@),
            Token::Jmp(target) => Instr::Jmp(target@),
            Token::Jl(target) => Instr::Jl(target@),
            Token::Jg(target) => Instr::Jg(target@),
            Token::Je(target) => Instr::Je(target@),
            Token::Cmp(left, right) => Instr::Cmp(*left, *right),
        }
    }
}

/// The views of a sequence of tokens.
pub open spec fn instrs(tokens: Seq<Token>) -> Seq<Instr> {
    tokens.map_values(|t: Token| t@)
}

/// What reading the operands of a `mov` does to the scanner: one register
/// destination and one value.
pub open spec fn mov_s(m: CodeModel) -> (Result<Token, Error>, CodeModel) {
    let (r, m2) = argument::read_reg_args(m, 1);
    match r {
        Err(e) => (Err(e), m2),
        Ok((register, values)) => (Ok(Token::Mov(register, values[0])), m2),
    }
}

/// What reading the operands of an arithmetic operation does: one register
/// destination and two values, put into the instruction `op` names.
pub open spec fn arith_s(m: CodeModel, op: ArithOp) -> (Result<Token, Error>, CodeModel) {
    let (r, m2) = argument::read_reg_args(m, 2);
    match r {
        Err(e) => (Err(e), m2),
        Ok((register, values)) => (
            Ok(
                match op {
                    ArithOp::Add => Token::Add(register, values[0], values[1]),
                    ArithOp::Sub => Token::Sub(register, values[0], values[1]),
                    ArithOp::Mul => Token::Mul(register, values[0], values[1]),
                    ArithOp::Div => Token::Div(register, values[0], values[1]),
                    ArithOp::Mod => Token::Mod(register, values[0], values[1]),
                },
            ),
            m2,
        ),
    }
}

impl Token {
    /// Reads the arguments of the move operation and returns it as a token.
    pub fn mov(code: &mut Code) -> (r: Result<Token, Error>)
        requires
            old(code)@.wf(),
        ensures
            final(code)@.wf(),
            (r, final(code)@) == mov_s(old(code)@),
    {
        match argument::read_register_arguments(code, 1) {
            Err(e) => Err(e),
            Ok((register, values)) => Ok(Token::Mov(register, values[0])),
        }
    }

    /// Reads the arguments of an arithmetic operation and returns the token
    /// that `op` names.
    fn arith(code: &mut Code, op: ArithOp) -> (r: Result<Token, Error>)
        requires
            old(code)@.wf(),
        ensures
            final(code)@.wf(),
            (r, final(code)@) == arith_s(old(code)@, op),
    {
        match argument::read_register_arguments(code, 2) {
            Err(e) => Err(e),
            Ok((register, values)) => Ok(
                match op {
                    ArithOp::Add => Token::Add(register, values[0], values[1]),
                    ArithOp::Sub => Token::Sub(register, values[0], values[1]),
                    ArithOp::Mul => Token::Mul(register, values[0], values[1]),
                    ArithOp::Div => Token::Div(register, values[0], values[1]),
                    ArithOp::Mod => Token::Mod(register, values[0], values[1]),
                },
            ),
        }
    }

    /// Reads the add operation's arguments.
    pub fn add(code: &mut Code) -> (r: Result<Token, Error>)
        requires
            old(code)@.wf(),
        ensures
            final(code)@.wf(),
            (r, final(code)@) == arith_s(old(code)@, ArithOp::Add),
    {
        Token::arith(code, ArithOp::Add)
    }

    /// Reads the sub operation's arguments.
    pub fn sub(code: &mut Code) -> (r: Result<Token, Error>)
        requires
            old(code)@.wf(),
        ensures
            final(code)@.wf(),
            (r, final(code)@) == arith_s(old(code)@, ArithOp::Sub),
    {
        Token::arith(code, ArithOp::Sub)
    }

    /// Reads the mul operation's arguments.
    pub fn mul(code: &mut Code) -> (r: Result<Token, Error>)
        requires
            old(code)@.wf(),
        ensures
            final(code)@.wf(),
            (r, final(code)@) == arith_s(old(code)@, ArithOp::Mul),
    {
        Token::arith(code, ArithOp::Mul)
    }

    /// Reads the div operation's arguments.
    pub fn div(code: &mut Code) -> (r: Result<Token, Error>)
        requires
            old(code)@.wf(),
        ensures
            final(code)@.wf(),
            (r, final(code)@) == arith_s(old(code)@, ArithOp::Div),
    {
        Token::arith(code, ArithOp::Div)
    }

    /// Reads the mod operation's arguments.
    pub fn modulo(code: &mut Code) -> (r: Result<Token, Error>)
        requires
            old(code)@.wf(),
        ensures
            final(code)@.wf(),
            (r, final(code)@) == arith_s(old(code)@, ArithOp::Mod),
    {
        Token::arith(code, ArithOp::Mod)
    }
}

impl PartialEq for Label {
    /// Two jump targets are equal when their views are.
    fn eq(&self, other: &Label) -> (r: bool) {
        match (self, other) {
            (Label::Base(a), Label::Base(b)) => crate::str_eq(a.as_str(), b.as_str()),
            (Label::Address(a), Label::Address(b)) => *a == *b,
            _ => false,
        }
    }
}

impl vstd::std_specs::cmp::PartialEqSpecImpl for Label {
    open spec fn obeys_eq_spec() -> bool {
        true
    }

    open spec fn eq_spec(&self, other: &Label) -> bool {
        self@ == other@
    }
}

impl PartialEq for Token {
    /// Two tokens are equal when their views are.
    fn eq(&self, other: &Token) -> (r: bool) {
        match (self, other) {
            (Token::Comment(a), Token::Comment(b)) => crate::str_eq(a.as_str(), b.as_str()),
            (Token::Out(a), Token::Out(b)) => crate::str_eq(a.as_str(), b.as_str()),
            (Token::Mov(d1, s1), Token::Mov(d2, s2)) => *d1 == *d2 && *s1 == *s2,
            (Token::Add(d1, l1, r1), Token::Add(d2, l2, r2)) => *d1 == *d2 && *l1 == *l2 && *r1
                == *r2,
            (Token::Sub(d1, l1, r1), Token::Sub(d2, l2, r2)) => *d1 == *d2 && *l1 == *l2 && *r1
                == *r2,
            (Token::Mul(d1, l1, r1), Token::Mul(d2, l2, r2)) => *d1 == *d2 && *l1 == *l2 && *r1
                == *r2,
            (Token::Div(d1, l1, r1), Token::Div(d2, l2, r2)) => *d1 == *d2 && *l1 == *l2 && *r1
                == *r2,
            (Token::Mod(d1, l1, r1), Token::Mod(d2, l2, r2)) => *d1 == *d2 && *l1 == *l2 && *r1
                == *r2,
            (Token::Label(a), Token::Label(b)) => crate::str_eq(a.as_str(), b.as_str()),
            (Token::Jmp(a), Token::Jmp(b)) => a.eq(b),
            (Token::Jl(a), Token::Jl(b)) => a.eq(b),
            (Token::Jg(a), Token::Jg(b)) => a.eq(b),
            (Token::Je(a), Token::Je(b)) => a.eq(b),
            (Token::Cmp(l1, r1), Token::Cmp(l2, r2)) => *l1 == *l2 && *r1 == *r2,
            _ => false,
        }
    }
}

impl vstd::std_specs::cmp::PartialEqSpecImpl for Token {
    open spec fn obeys_eq_spec() -> bool {
        true
    }

    open spec fn eq_spec(&self, other: &Token) -> bool {
        self@ == other@
    }
}

} // verus!
