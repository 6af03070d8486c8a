//! The commands of the VM language: arithmetic operations, memory segments
//! and the commands built from them.

use vstd::prelude::*;
use crate::text::{is_text, to_chars};

verus! {

/// An arithmetic or logical operation on the top of the stack.
#[derive(Debug, PartialEq, Eq, Copy, Clone, Structural)]
pub enum VMOp {
    ADD,
    SUB,
    NEG,
    EQ,
    GT,
    LT,
    AND,
    OR,
    NOT,
}

impl VMOp {
    /// The word that names the operation in VM source.
    pub open spec fn text(self) -> Seq<char> {
        match self {
            VMOp::ADD => "add"@,
            VMOp::SUB => "sub"@,
            VMOp::NEG => "neg"@,
            VMOp::EQ => "eq"@,
            VMOp::GT => "gt"@,
            VMOp::LT => "lt"@,
            VMOp::AND => "and"@,
            VMOp::OR => "or"@,
            VMOp::NOT => "not"@,
        }
    }

    /// The operation that a word names, if it names one.
    pub open spec fn parse(s: Seq<char>) -> Option<VMOp> {
        if s == "add"@ {
            Some(VMOp::ADD)
        } else if s == "sub"@ {
            Some(VMOp::SUB)
        } else if s == "neg"@ {
            Some(VMOp::NEG)
        } else if s == "eq"@ {
            Some(VMOp::EQ)
        } else if s == "gt"@ {
            Some(VMOp::GT)
        } else if s == "lt"@ {
            Some(VMOp::LT)
        } else if s == "and"@ {
            Some(VMOp::AND)
        } else if s == "or"@ {
            Some(VMOp::OR)
        } else if s == "not"@ {
            Some(VMOp::NOT)
        } else {
            None
        }
    }

    /// Whether the operation takes two operands and leaves a number.
    pub open spec fn is_binary(self) -> bool {
        self == VMOp::ADD || self == VMOp::SUB || self == VMOp::AND || self == VMOp::OR
    }

    /// Whether the operation takes one operand.
    pub open spec fn is_unary(self) -> bool {
        self == VMOp::NEG || self == VMOp::NOT
    }

    /// Whether the operation compares two operands.
    pub open spec fn is_comparison(self) -> bool {
        self == VMOp::EQ || self == VMOp::LT || self == VMOp::GT
    }

    pub(crate) fn from_chars(v: &Vec<char>) -> (r: Option<VMOp>)
        ensures
            r == VMOp::parse(v@),
    {
        if is_text(v, "add") {
            Some(VMOp::ADD)
        } else if is_text(v, "sub") {
            Some(VMOp::SUB)
        } else if is_text(v, "neg") {
            Some(VMOp::NEG)
        } else if is_text(v, "eq") {
            Some(VMOp::EQ)
        } else if is_text(v, "gt") {
            Some(VMOp::GT)
        } else if is_text(v, "lt") {
            Some(VMOp::LT)
        } else if is_text(v, "and") {
            Some(VMOp::AND)
        } else if is_text(v, "or") {
            Some(VMOp::OR)
        } else if is_text(v, "not") {
            Some(VMOp::NOT)
        } else {
            None
        }
    }

    /// The operation that a word names.
    pub fn from_str(s: &str) -> (r: Option<VMOp>)
        ensures
            r == VMOp::parse(s@),
    {
        let v = to_chars(s);
        VMOp::from_chars(&v)
    }

    /// The word that names the operation.
    pub fn as_str(&self) -> (r: &'static str)
        ensures
            r@ == self.text(),
    {
        match self {
            VMOp::ADD => "add",
            VMOp::SUB => "sub",
            VMOp::NEG => "neg",
            VMOp::EQ => "eq",
            VMOp::GT => "gt",
            VMOp::LT => "lt",
            VMOp::AND => "and",
            VMOp::OR => "or",
            VMOp::NOT => "not",
        }
    }
}

/// A memory segment that `push` and `pop` address.
#[derive(Debug, PartialEq, Eq, Copy, Clone, Structural)]
pub enum VMSeg {
    LOCAL,
    ARGUMENT,
    THIS,
    THAT,
    CONSTANT,
    STATIC,
    TEMP,
    POINTER,
}

impl VMSeg {
    /// The word that names the segment in VM source.
    pub open spec fn text(self) -> Seq<char> {
        match self {
            VMSeg::LOCAL => "local"@,
            VMSeg::ARGUMENT => "argument"@,
            VMSeg::THIS => "this"@,
            VMSeg::THAT => "that"@,
            VMSeg::CONSTANT => "constant"@,
            VMSeg::STATIC => "static"@,
            VMSeg::TEMP => "temp"@,
            VMSeg::POINTER => "pointer"@,
        }
    }

    /// The segment that a word names, if it names one.
    pub open spec fn parse(s: Seq<char>) -> Option<VMSeg> {
        if s == "local"@ {
            Some(VMSeg::LOCAL)
        } else if s == "argument"@ {
            Some(VMSeg::ARGUMENT)
        } else if s == "this"@ {
            Some(VMSeg::THIS)
        } else if s == "that"@ {
            Some(VMSeg::THAT)
        } else if s == "constant"@ {
            Some(VMSeg::CONSTANT)
        } else if s == "static"@ {
            Some(VMSeg::STATIC)
        } else if s == "temp"@ {
            Some(VMSeg::TEMP)
        } else if s == "pointer"@ {
            Some(VMSeg::POINTER)
        } else {
            None
        }
    }

    /// Whether the segment lies at a base that a register or a fixed address
    /// gives: `local`, `argument`, `this`, `that` and `temp`.
    pub open spec fn has_base(self) -> bool {
        self == VMSeg::LOCAL || self == VMSeg::ARGUMENT || self == VMSeg::THIS || self
            == VMSeg::THAT || self == VMSeg::TEMP
    }

    /// The assembly name of the segment's base: the register that holds it,
    /// or for `temp` the address itself.
    pub open spec fn base_text(self) -> Seq<char>
        recommends
            self.has_base(),
    {
        match self {
            VMSeg::LOCAL => "LCL"@,
            VMSeg::ARGUMENT => "ARG"@,
            VMSeg::THIS => "THIS"@,
            VMSeg::THAT => "THAT"@,
            _ => "5"@,
        }
    }

    pub(crate) fn from_chars(v: &Vec<char>) -> (r: Option<VMSeg>)
        ensures
            r == VMSeg::parse(v@),
    {
        if is_text(v, "local") {
            Some(VMSeg::LOCAL)
        } else if is_text(v, "argument") {
            Some(VMSeg::ARGUMENT)
        } else if is_text(v, "this") {
            Some(VMSeg::THIS)
        } else if is_text(v, "that") {
            Some(VMSeg::THAT)
        } else if is_text(v, "constant") {
            Some(VMSeg::CONSTANT)
        } else if is_text(v, "static") {
            Some(VMSeg::STATIC)
        } else if is_text(v, "temp") {
            Some(VMSeg::TEMP)
        } else if is_text(v, "pointer") {
            Some(VMSeg::POINTER)
        } else {
            None
        }
    }

    /// The segment that a word names.
    pub fn from_str(s: &str) -> (r: Option<VMSeg>)
        ensures
            r == VMSeg::parse(s@),
    {
        let v = to_chars(s);
        VMSeg::from_chars(&v)
    }

    /// The word that names the segment.
    pub fn as_str(&self) -> (r: &'static str)
        ensures
            r@ == self.text(),
    {
        match self {
            VMSeg::LOCAL => "local",
            VMSeg::ARGUMENT => "argument",
            VMSeg::THIS => "this",
            VMSeg::THAT => "that",
            VMSeg::CONSTANT => "constant",
            VMSeg::STATIC => "static",
            VMSeg::TEMP => "temp",
            VMSeg::POINTER => "pointer",
        }
    }

    /// The assembly name of the segment's base.
    pub fn base_var_str(&self) -> (r: &'static str)
        requires
            self.has_base(),
        ensures
            r@ == self.base_text(),
    {
        match self {
            VMSeg::LOCAL => "LCL",
            VMSeg::ARGUMENT => "ARG",
            VMSeg::THIS => "THIS",
            VMSeg::THAT => "THAT",
            _ => "5",
        }
    }
}

/// One command of the VM language.
#[derive(Debug, PartialEq, Eq, Clone)]
pub enum VMCommand {
    Arithmetic(VMOp),
    Push(VMSeg, i32),
    Pop(VMSeg, i32),
    Label(String),
    Goto(String),
    IfGoto(String),
    Call(String, i32),
    Function(String, i32),
    Return,
}

/// What a VM command holds, with each name as its characters.
pub enum VMCommandView {
    Arithmetic(VMOp),
    Push(VMSeg, i32),
    Pop(VMSeg, i32),
    Label(Seq<char>),
    Goto(Seq<char>),
    IfGoto(Seq<char>),
    Call(Seq<char>, i32),
    Function(Seq<char>, i32),
    Return,
}

impl View for VMCommand {
    type V = VMCommandView;

    open spec fn view(&self) -> VMCommandView {
        match self {
            VMCommand::Arithmetic(op) => VMCommandView::Arithmetic(*op),
            VMCommand::Push(seg, n) => VMCommandView::Push(*seg, *n),
            VMCommand::Pop(seg, n) => VMCommandView::Pop(*seg, *n),
            VMCommand::Label(name) => VMCommandView::Label(name@),
            VMCommand::Goto(name) => VMCommandView::Goto(name@),
            VMCommand::IfGoto(name) => VMCommandView::IfGoto(name@),
            VMCommand::Call(name, n) => VMCommandView::Call(name@, *n),
            VMCommand::Function(name, n) => VMCommandView::Function(name@, *n),
            VMCommand::Return => VMCommandView::Return,
        }
    }
}

/// Reading the word of an operation gives that operation.
pub proof fn lemma_op_round_trip(op: VMOp)
    ensures
        VMOp::parse(op.text()) == Some(op),
{
    reveal_strlit("add");
    reveal_strlit("sub");
    reveal_strlit("neg");
    reveal_strlit("eq");
    reveal_strlit("gt");
    reveal_strlit("lt");
    reveal_strlit("and");
    reveal_strlit("or");
    reveal_strlit("not");
    assert("add"@[0] == 'a' && "add"@[1] == 'd');
    assert("sub"@[0] == 's');
    assert("neg"@[0] == 'n' && "neg"@[1] == 'e');
    assert("eq"@[0] == 'e');
    assert("gt"@[0] == 'g');
    assert("lt"@[0] == 'l');
    assert("and"@[0] == 'a' && "and"@[1] == 'n');
    assert("or"@[0] == 'o');
    assert("not"@[0] == 'n' && "not"@[1] == 'o');
}

/// Reading the word of a segment gives that segment.
pub proof fn lemma_seg_round_trip(seg: VMSeg)
    ensures
        VMSeg::parse(seg.text()) == Some(seg),
{
    reveal_strlit("local");
    reveal_strlit("argument");
    reveal_strlit("this");
    reveal_strlit("that");
    reveal_strlit("constant");
    reveal_strlit("static");
    reveal_strlit("temp");
    reveal_strlit("pointer");
    assert("local"@[0] == 'l');
    assert("argument"@[0] == 'a');
    assert("this"@[0] == 't' && "this"@[2] == 'i');
    assert("that"@[0] == 't' && "that"@[2] == 'a');
    assert("constant"@[0] == 'c');
    assert("static"@[0] == 's');
    assert("temp"@[0] == 't' && "temp"@[2] == 'm');
    assert("pointer"@[0] == 'p');
}

} // verus!
