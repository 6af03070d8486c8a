//! The instruction set of the target machine and its symbolic assembler.
//!
//! Assembly text holds one instruction or label per line. The assembler reads
//! it in two passes: the first sorts the lines into instructions and records
//! the address of each label, the second puts an address in place of each
//! symbol.

use vstd::hash_map::StringHashMap;
use vstd::prelude::*;
use vstd::string::StringExecFns;
use crate::decimal::{parse_int, push_int, read_int};
use crate::text::{
    find, find_char, find_comment, is_text, lines, rows, slice, split_lines, strip,
    string_of, strip_blanks, to_chars, to_string, without_comment,
};

verus! {

/// What a compute instruction computes, from the registers A and D and from M, the memory cell that A addresses.
#[derive(Debug, PartialEq, Eq, Copy, Clone, Structural)]
pub enum Comp {
    Zero,
    One,
    MinusOne,
    D,
    A,
    NotD,
    NotA,
    MinusD,
    MinusA,
    DPlusOne,
    APlusOne,
    DMinusOne,
    AMinusOne,
    DPlusA,
    DMinusA,
    AMinusD,
    DAndA,
    DOrA,
    M,
    NotM,
    MinusM,
    MPlusOne,
    MMinusOne,
    DPlusM,
    DMinusM,
    MMinusD,
    DAndM,
    DOrM,
}

impl Comp {
    /// The mnemonic of the computation in assembly text.
    pub open spec fn text(self) -> Seq<char> {
        match self {
            Comp::Zero => "0"@,
            Comp::One => "1"@,
            Comp::MinusOne => "-1"@,
            Comp::D => "D"@,
            Comp::A => "A"@,
            Comp::NotD => "!D"@,
            Comp::NotA => "!A"@,
            Comp::MinusD => "-D"@,
            Comp::MinusA => "-A"@,
            Comp::DPlusOne => "D+1"@,
            Comp::APlusOne => "A+1"@,
            Comp::DMinusOne => "D-1"@,
            Comp::AMinusOne => "A-1"@,
            Comp::DPlusA => "D+A"@,
            Comp::DMinusA => "D-A"@,
            Comp::AMinusD => "A-D"@,
            Comp::DAndA => "D&A"@,
            Comp::DOrA => "D|A"@,
            Comp::M => "M"@,
            Comp::NotM => "!M"@,
            Comp::MinusM => "-M"@,
            Comp::MPlusOne => "M+1"@,
            Comp::MMinusOne => "M-1"@,
            Comp::DPlusM => "D+M"@,
            Comp::DMinusM => "D-M"@,
            Comp::MMinusD => "M-D"@,
            Comp::DAndM => "D&M"@,
            Comp::DOrM => "D|M"@,
        }
    }

    /// The computation that a mnemonic names, if it names one.
    pub open spec fn parse(s: Seq<char>) -> Option<Comp> {
        if s == "0"@ {
            Some(Comp::Zero)
        } else if s == "1"@ {
            Some(Comp::One)
        } else if s == "-1"@ {
            Some(Comp::MinusOne)
        } else if s == "D"@ {
            Some(Comp::D)
        } else if s == "A"@ {
            Some(Comp::A)
        } else if s == "!D"@ {
            Some(Comp::NotD)
        } else if s == "!A"@ {
            Some(Comp::NotA)
        } else if s == "-D"@ {
            Some(Comp::MinusD)
        } else if s == "-A"@ {
            Some(Comp::MinusA)
        } else if s == "D+1"@ {
            Some(Comp::DPlusOne)
        } else if s == "A+1"@ {
            Some(Comp::APlusOne)
        } else if s == "D-1"@ {
            Some(Comp::DMinusOne)
        } else if s == "A-1"@ {
            Some(Comp::AMinusOne)
        } else if s == "D+A"@ {
            Some(Comp::DPlusA)
        } else if s == "D-A"@ {
            Some(Comp::DMinusA)
        } else if s == "A-D"@ {
            Some(Comp::AMinusD)
        } else if s == "D&A"@ {
            Some(Comp::DAndA)
        } else if s == "D|A"@ {
            Some(Comp::DOrA)
        } else if s == "M"@ {
            Some(Comp::M)
        } else if s == "!M"@ {
            Some(Comp::NotM)
        } else if s == "-M"@ {
            Some(Comp::MinusM)
        } else if s == "M+1"@ {
            Some(Comp::MPlusOne)
        } else if s == "M-1"@ {
            Some(Comp::MMinusOne)
        } else if s == "D+M"@ {
            Some(Comp::DPlusM)
        } else if s == "D-M"@ {
            Some(Comp::DMinusM)
        } else if s == "M-D"@ {
            Some(Comp::MMinusD)
        } else if s == "D&M"@ {
            Some(Comp::DAndM)
        } else if s == "D|M"@ {
            Some(Comp::DOrM)
        } else {
            None
        }
    }

    pub(crate) fn from_chars(v: &Vec<char>) -> (r: Option<Comp>)
        ensures
            r == Comp::parse(v@),
    {
        if is_text(v, "0") {
            Some(Comp::Zero)
        } else if is_text(v, "1") {
            Some(Comp::One)
        } else if is_text(v, "-1") {
            Some(Comp::MinusOne)
        } else if is_text(v, "D") {
            Some(Comp::D)
        } else if is_text(v, "A") {
            Some(Comp::A)
        } else if is_text(v, "!D") {
            Some(Comp::NotD)
        } else if is_text(v, "!A") {
            Some(Comp::NotA)
        } else if is_text(v, "-D") {
            Some(Comp::MinusD)
        } else if is_text(v, "-A") {
            Some(Comp::MinusA)
        } else if is_text(v, "D+1") {
            Some(Comp::DPlusOne)
        } else if is_text(v, "A+1") {
            Some(Comp::APlusOne)
        } else if is_text(v, "D-1") {
            Some(Comp::DMinusOne)
        } else if is_text(v, "A-1") {
            Some(Comp::AMinusOne)
        } else if is_text(v, "D+A") {
            Some(Comp::DPlusA)
        } else if is_text(v, "D-A") {
            Some(Comp::DMinusA)
        } else if is_text(v, "A-D") {
            Some(Comp::AMinusD)
        } else if is_text(v, "D&A") {
            Some(Comp::DAndA)
        } else if is_text(v, "D|A") {
            Some(Comp::DOrA)
        } else if is_text(v, "M") {
            Some(Comp::M)
        } else if is_text(v, "!M") {
            Some(Comp::NotM)
        } else if is_text(v, "-M") {
            Some(Comp::MinusM)
        } else if is_text(v, "M+1") {
            Some(Comp::MPlusOne)
        } else if is_text(v, "M-1") {
            Some(Comp::MMinusOne)
        } else if is_text(v, "D+M") {
            Some(Comp::DPlusM)
        } else if is_text(v, "D-M") {
            Some(Comp::DMinusM)
        } else if is_text(v, "M-D") {
            Some(Comp::MMinusD)
        } else if is_text(v, "D&M") {
            Some(Comp::DAndM)
        } else if is_text(v, "D|M") {
            Some(Comp::DOrM)
        } else {
            None
        }
    }

    /// The computation that a mnemonic names.
    pub fn from_str(s: &str) -> (r: Option<Comp>)
        ensures
            r == Comp::parse(s@),
    {
        let v = to_chars(s);
        Comp::from_chars(&v)
    }

    /// The mnemonic of the computation.
    pub fn as_str(&self) -> (r: &'static str)
        ensures
            r@ == self.text(),
    {
        match self {
            Comp::Zero => "0",
            Comp::One => "1",
            Comp::MinusOne => "-1",
            Comp::D => "D",
            Comp::A => "A",
            Comp::NotD => "!D",
            Comp::NotA => "!A",
            Comp::MinusD => "-D",
            Comp::MinusA => "-A",
            Comp::DPlusOne => "D+1",
            Comp::APlusOne => "A+1",
            Comp::DMinusOne => "D-1",
            Comp::AMinusOne => "A-1",
            Comp::DPlusA => "D+A",
            Comp::DMinusA => "D-A",
            Comp::AMinusD => "A-D",
            Comp::DAndA => "D&A",
            Comp::DOrA => "D|A",
            Comp::M => "M",
            Comp::NotM => "!M",
            Comp::MinusM => "-M",
            Comp::MPlusOne => "M+1",
            Comp::MMinusOne => "M-1",
            Comp::DPlusM => "D+M",
            Comp::DMinusM => "D-M",
            Comp::MMinusD => "M-D",
            Comp::DAndM => "D&M",
            Comp::DOrM => "D|M",
        }
    }
}

/// Where a compute instruction stores its result: any of M, D and A, or nowhere.
#[derive(Debug, PartialEq, Eq, Copy, Clone, Structural)]
pub enum Dest {
    Null,
    M,
    D,
    MD,
    A,
    AM,
    AD,
    AMD,
}

impl Dest {
    /// The mnemonic of the destination in assembly text; empty for none.
    pub open spec fn text(self) -> Seq<char> {
        match self {
            Dest::Null => ""@,
            Dest::M => "M"@,
            Dest::D => "D"@,
            Dest::MD => "MD"@,
            Dest::A => "A"@,
            Dest::AM => "AM"@,
            Dest::AD => "AD"@,
            Dest::AMD => "AMD"@,
        }
    }

    /// The destination that a mnemonic names, if it names one.
    pub open spec fn parse(s: Seq<char>) -> Option<Dest> {
        if s == ""@ {
            Some(Dest::Null)
        } else if s == "M"@ {
            Some(Dest::M)
        } else if s == "D"@ {
            Some(Dest::D)
        } else if s == "MD"@ {
            Some(Dest::MD)
        } else if s == "A"@ {
            Some(Dest::A)
        } else if s == "AM"@ {
            Some(Dest::AM)
        } else if s == "AD"@ {
            Some(Dest::AD)
        } else if s == "AMD"@ {
            Some(Dest::AMD)
        } else {
            None
        }
    }

    pub(crate) fn from_chars(v: &Vec<char>) -> (r: Option<Dest>)
        ensures
            r == Dest::parse(v@),
    {
        if is_text(v, "") {
            Some(Dest::Null)
        } else if is_text(v, "M") {
            Some(Dest::M)
        } else if is_text(v, "D") {
            Some(Dest::D)
        } else if is_text(v, "MD") {
            Some(Dest::MD)
        } else if is_text(v, "A") {
            Some(Dest::A)
        } else if is_text(v, "AM") {
            Some(Dest::AM)
        } else if is_text(v, "AD") {
            Some(Dest::AD)
        } else if is_text(v, "AMD") {
            Some(Dest::AMD)
        } else {
            None
        }
    }

    /// The destination that a mnemonic names.
    pub fn from_str(s: &str) -> (r: Option<Dest>)
        ensures
            r == Dest::parse(s@),
    {
        let v = to_chars(s);
        Dest::from_chars(&v)
    }

    /// The mnemonic of the destination.
    pub fn as_str(&self) -> (r: &'static str)
        ensures
            r@ == self.text(),
    {
        match self {
            Dest::Null => "",
            Dest::M => "M",
            Dest::D => "D",
            Dest::MD => "MD",
            Dest::A => "A",
            Dest::AM => "AM",
            Dest::AD => "AD",
            Dest::AMD => "AMD",
        }
    }
}

/// When a compute instruction jumps: on a condition on its result, always, or never.
#[derive(Debug, PartialEq, Eq, Copy, Clone, Structural)]
pub enum Jump {
    Null,
    JGT,
    JEQ,
    JGE,
    JLT,
    JNE,
    JLE,
    JMP,
}

impl Jump {
    /// The mnemonic of the jump in assembly text; empty for none.
    pub open spec fn text(self) -> Seq<char> {
        match self {
            Jump::Null => ""@,
            Jump::JGT => "JGT"@,
            Jump::JEQ => "JEQ"@,
            Jump::JGE => "JGE"@,
            Jump::JLT => "JLT"@,
            Jump::JNE => "JNE"@,
            Jump::JLE => "JLE"@,
            Jump::JMP => "JMP"@,
        }
    }

    /// The jump that a mnemonic names, if it names one.
    pub open spec fn parse(s: Seq<char>) -> Option<Jump> {
        if s == ""@ {
            Some(Jump::Null)
        } else if s == "JGT"@ {
            Some(Jump::JGT)
        } else if s == "JEQ"@ {
            Some(Jump::JEQ)
        } else if s == "JGE"@ {
            Some(Jump::JGE)
        } else if s == "JLT"@ {
            Some(Jump::JLT)
        } else if s == "JNE"@ {
            Some(Jump::JNE)
        } else if s == "JLE"@ {
            Some(Jump::JLE)
        } else if s == "JMP"@ {
            Some(Jump::JMP)
        } else {
            None
        }
    }

    pub(crate) fn from_chars(v: &Vec<char>) -> (r: Option<Jump>)
        ensures
            r == Jump::parse(v@),
    {
        if is_text(v, "") {
            Some(Jump::Null)
        } else if is_text(v, "JGT") {
            Some(Jump::JGT)
        } else if is_text(v, "JEQ") {
            Some(Jump::JEQ)
        } else if is_text(v, "JGE") {
            Some(Jump::JGE)
        } else if is_text(v, "JLT") {
            Some(Jump::JLT)
        } else if is_text(v, "JNE") {
            Some(Jump::JNE)
        } else if is_text(v, "JLE") {
            Some(Jump::JLE)
        } else if is_text(v, "JMP") {
            Some(Jump::JMP)
        } else {
            None
        }
    }

    /// The jump that a mnemonic names.
    pub fn from_str(s: &str) -> (r: Option<Jump>)
        ensures
            r == Jump::parse(s@),
    {
        let v = to_chars(s);
        Jump::from_chars(&v)
    }

    /// The mnemonic of the jump.
    pub fn as_str(&self) -> (r: &'static str)
        ensures
            r@ == self.text(),
    {
        match self {
            Jump::Null => "",
            Jump::JGT => "JGT",
            Jump::JEQ => "JEQ",
            Jump::JGE => "JGE",
            Jump::JLT => "JLT",
            Jump::JNE => "JNE",
            Jump::JLE => "JLE",
            Jump::JMP => "JMP",
        }
    }
}

/// One line of an assembly program: an instruction, or the definition of a
/// label.
#[derive(Debug, PartialEq, Eq, Clone)]
pub enum Command {
    /// Load a number into A.
    A(i16),
    /// Load into A the address that a symbol stands for.
    ALabel(String),
    /// Compute, store and jump.
    C(Dest, Comp, Jump),
    /// Give the address of the next instruction a name.
    Label(String),
}

/// What a command holds, with each name as its characters.
pub enum CommandView {
    A(i16),
    ALabel(Seq<char>),
    C(Dest, Comp, Jump),
    Label(Seq<char>),
}

impl View for Command {
    type V = CommandView;

    open spec fn view(&self) -> CommandView {
        match self {
            Command::A(n) => CommandView::A(*n),
            Command::ALabel(name) => CommandView::ALabel(name@),
            Command::C(dest, comp, jump) => CommandView::C(*dest, *comp, *jump),
            Command::Label(name) => CommandView::Label(name@),
        }
    }
}

/// What each command of a list holds.
pub open spec fn views(cmds: Seq<Command>) -> Seq<CommandView> {
    Seq::new(cmds.len(), |i: int| cmds[i]@)
}

impl CommandView {
    /// The command as a line of assembly text, which the assembler reads
    /// back as this command.
    pub open spec fn text(self) -> Seq<char> {
        match self {
            CommandView::A(n) => seq!['@'] + crate::decimal::dec_int(n as int),
            CommandView::ALabel(name) => seq!['@'] + name,
            CommandView::C(dest, comp, jump) => {
                let d = if dest == Dest::Null {
                    Seq::empty()
                } else {
                    dest.text().push('=')
                };
                let j = if jump == Jump::Null {
                    Seq::empty()
                } else {
                    seq![';'] + jump.text()
                };
                d + comp.text() + j
            },
            CommandView::Label(name) => seq!['('] + name + seq![')'],
        }
    }
}

impl Command {
    /// The command as a line of assembly text.
    pub fn as_str(&self) -> (r: String)
        ensures
            r@ == self@.text(),
    {
        let mut r = String::new();
        self.write_to(&mut r);
        assert(r@ == self@.text());
        r
    }

    /// Appends the command as a line of assembly text, without a line end.
    pub fn write_to(&self, out: &mut String)
        ensures
            final(out)@ == old(out)@ + self@.text(),
    {
        match self {
            Command::A(n) => {
                out.push('@');
                push_int(out, *n as i32);
                assert(out@ == old(out)@ + (seq!['@'] + crate::decimal::dec_int(*n as int)));
            },
            Command::ALabel(label) => {
                out.push('@');
                out.append(label.as_str());
                assert(out@ == old(out)@ + (seq!['@'] + label@));
            },
            Command::C(dest, comp, jump) => {
                if !matches!(dest, Dest::Null) {
                    out.append(dest.as_str());
                    out.push('=');
                }
                out.append(comp.as_str());
                if !matches!(jump, Jump::Null) {
                    out.push(';');
                    out.append(jump.as_str());
                }
                assert(out@ == old(out)@ + self@.text());
            },
            Command::Label(label) => {
                out.push('(');
                out.append(label.as_str());
                out.push(')');
                assert(out@ == old(out)@ + (seq!['('] + label@ + seq![')']));
            },
        }
    }
}


/// What went wrong with an assembly program.
#[derive(Debug, PartialEq, Eq, Copy, Clone, Structural)]
pub enum Fault {
    /// A line opens a label with `(` and does not close it with `)`.
    InvalidLabel,
    /// The text before `=` names no destination.
    InvalidDest,
    /// The text between `=` and `;` names no computation.
    InvalidComp,
    /// The text after `;` names no jump.
    InvalidJump,
    /// A label stands behind more instructions than an address can count.
    AddressOverflow,
    /// A symbol is neither predefined nor the label of any line.
    UnresolvedSymbol,
}

/// An error of the assembler: what went wrong, on which line of the program
/// (counted from 1; 0 where a single line was read by itself), and the text
/// at fault.
#[derive(Debug, PartialEq, Eq, Clone)]
pub struct ParserError {
    pub kind: Fault,
    pub line_num: usize,
    pub code: String,
}

/// What an error of the assembler holds, with its text as characters.
pub struct ParserErrorView {
    pub kind: Fault,
    pub line_num: nat,
    pub code: Seq<char>,
}

impl View for ParserError {
    type V = ParserErrorView;

    open spec fn view(&self) -> ParserErrorView {
        ParserErrorView { kind: self.kind, line_num: self.line_num as nat, code: self.code@ }
    }
}

impl ParserErrorView {
    /// The same error, placed on a line.
    pub open spec fn at_line(self, n: nat) -> ParserErrorView {
        ParserErrorView { kind: self.kind, line_num: n, code: self.code }
    }
}

impl ParserError {
    /// The error as a message for a reader.
    pub fn message(&self) -> (r: String)
        ensures
            r@ == "ParserError: "@ + self.code@,
    {
        let mut r = String::new();
        r.append("ParserError: ");
        r.append(self.code.as_str());
        assert(r@ == "ParserError: "@ + self.code@);
        r
    }
}

/// The instruction that `@` and the text behind it stand for: a number where
/// the text denotes one that fits a register, a symbol otherwise.
pub open spec fn parse_address(rest: Seq<char>) -> CommandView {
    match parse_int(rest, i16::MIN as int, i16::MAX as int) {
        Some(n) => CommandView::A(n as i16),
        None => CommandView::ALabel(rest),
    }
}

/// The compute instruction that a text stands for. What follows the first
/// `;` names the jump; before it, what precedes the first `=` names the
/// destination and the rest names the computation. `st` is the whole line,
/// for the error.
pub open spec fn parse_compute(s: Seq<char>, st: Seq<char>) -> Result<CommandView, ParserErrorView> {
    let semi = find(s, ';') as int;
    let head = s.take(semi);
    let jump_text = if semi < s.len() {
        s.skip(semi + 1)
    } else {
        Seq::empty()
    };
    let eq = find(head, '=') as int;
    let dest_text = if eq < head.len() {
        head.take(eq)
    } else {
        Seq::empty()
    };
    let comp_text = if eq < head.len() {
        head.skip(eq + 1)
    } else {
        head
    };
    match (Jump::parse(jump_text), Dest::parse(dest_text), Comp::parse(comp_text)) {
        (None, _, _) => Err(ParserErrorView { kind: Fault::InvalidJump, line_num: 0, code: st }),
        (Some(_), None, _) => Err(
            ParserErrorView { kind: Fault::InvalidDest, line_num: 0, code: st },
        ),
        (Some(_), Some(_), None) => Err(
            ParserErrorView { kind: Fault::InvalidComp, line_num: 0, code: comp_text },
        ),
        (Some(jump), Some(dest), Some(comp)) => Ok(CommandView::C(dest, comp, jump)),
    }
}

/// What one line of assembly text stands for, once its blanks and its comment
/// are taken out: nothing, a label, or an instruction.
pub open spec fn parse_line(st: Seq<char>) -> Result<Option<CommandView>, ParserErrorView> {
    let s = without_comment(strip_blanks(st));
    if s.len() == 0 {
        Ok(None)
    } else if s[0] == '(' {
        if s.len() < 2 || s.last() != ')' {
            Err(ParserErrorView { kind: Fault::InvalidLabel, line_num: 0, code: st })
        } else {
            Ok(Some(CommandView::Label(s.subrange(1, s.len() - 1))))
        }
    } else if s[0] == '@' {
        if s.len() == 1 {
            Ok(None)
        } else {
            Ok(Some(parse_address(s.skip(1))))
        }
    } else {
        match parse_compute(s, st) {
            Ok(c) => Ok(Some(c)),
            Err(e) => Err(e),
        }
    }
}

/// What the reading of one line gave, with each name as its characters.
pub open spec fn line_view(r: Result<Option<Command>, ParserError>) -> Result<
    Option<CommandView>,
    ParserErrorView,
> {
    match r {
        Ok(None) => Ok(None),
        Ok(Some(c)) => Ok(Some(c@)),
        Err(e) => Err(e@),
    }
}

fn parse_compute_chars(s: &Vec<char>, st: &Vec<char>) -> (r: Result<Command, ParserError>)
    ensures
        match parse_compute(s@, st@) {
            Ok(c) => r is Ok && r->Ok_0@ == c,
            Err(e) => r is Err && r->Err_0@ == e,
        },
{
    let semi = find_char(s, ';');
    let head = slice(s, 0, semi);
    let jump_text = if semi < s.len() {
        slice(s, semi + 1, s.len())
    } else {
        Vec::new()
    };
    let eq = find_char(&head, '=');
    let dest_text = if eq < head.len() {
        slice(&head, 0, eq)
    } else {
        Vec::new()
    };
    let comp_text = if eq < head.len() {
        slice(&head, eq + 1, head.len())
    } else {
        slice(&head, 0, head.len())
    };
    proof {
        assert(head@ == s@.take(semi as int));
        if eq >= head.len() {
            assert(comp_text@ == head@);
        }
    }
    match Jump::from_chars(&jump_text) {
        None => Err(ParserError { kind: Fault::InvalidJump, line_num: 0, code: string_of(st) }),
        Some(jump) => match Dest::from_chars(&dest_text) {
            None => Err(ParserError { kind: Fault::InvalidDest, line_num: 0, code: string_of(st) }),
            Some(dest) => match Comp::from_chars(&comp_text) {
                None => Err(
                    ParserError { kind: Fault::InvalidComp, line_num: 0, code: string_of(&comp_text) },
                ),
                Some(comp) => Ok(Command::C(dest, comp, jump)),
            },
        },
    }
}

pub(crate) fn parse_chars(st: &Vec<char>) -> (r: Result<Option<Command>, ParserError>)
    ensures
        line_view(r) == parse_line(st@),
{
    let stripped = strip(st);
    let k = find_comment(&stripped);
    let s = slice(&stripped, 0, k);
    assert(s@ == without_comment(strip_blanks(st@)));
    if s.len() == 0 {
        Ok(None)
    } else if s[0] == '(' {
        if s.len() < 2 || s[s.len() - 1] != ')' {
            Err(ParserError { kind: Fault::InvalidLabel, line_num: 0, code: string_of(st) })
        } else {
            Ok(Some(Command::Label(to_string(&s, 1, s.len() - 1))))
        }
    } else if s[0] == '@' {
        if s.len() == 1 {
            Ok(None)
        } else {
            let rest = slice(&s, 1, s.len());
            match read_int(&rest, -32768, 32767) {
                Some(n) => Ok(Some(Command::A(n as i16))),
                None => Ok(Some(Command::ALabel(string_of(&rest)))),
            }
        }
    } else {
        match parse_compute_chars(&s, st) {
            Ok(c) => Ok(Some(c)),
            Err(e) => Err(e),
        }
    }
}


/// The predefined symbols: the registers of the stack machine and three
/// scratch registers.
pub open spec fn seed() -> Map<Seq<char>, i16> {
    Map::empty().insert("SP"@, 0i16).insert("LCL"@, 1i16).insert("ARG"@, 2i16).insert(
        "THIS"@,
        3i16,
    ).insert("THAT"@, 4i16).insert("R13"@, 13i16).insert("R14"@, 14i16).insert("R15"@, 15i16)
}

/// What the first pass has gathered: the instructions in order, the line
/// that each came from, and the symbol table with the labels met so far.
pub struct FirstPass {
    pub instrs: Seq<CommandView>,
    pub origin: Seq<nat>,
    pub table: Map<Seq<char>, i16>,
}

/// The first pass over the lines of a program. An instruction is appended to
/// the instructions. A label is entered in the table with the number of
/// instructions gathered before it, and takes no place among them. The
/// first line at fault ends the pass.
pub open spec fn first_pass(ls: Seq<Seq<char>>, table: Map<Seq<char>, i16>) -> Result<
    FirstPass,
    ParserErrorView,
>
    decreases ls.len(),
{
    if ls.len() == 0 {
        Ok(FirstPass { instrs: Seq::empty(), origin: Seq::empty(), table })
    } else {
        match first_pass(ls.drop_last(), table) {
            Err(e) => Err(e),
            Ok(p) => match parse_line(ls.last()) {
                Err(e) => Err(e.at_line(ls.len())),
                Ok(None) => Ok(p),
                Ok(Some(CommandView::Label(name))) => if p.instrs.len() > i16::MAX {
                    Err(
                        ParserErrorView {
                            kind: Fault::AddressOverflow,
                            line_num: ls.len(),
                            code: name,
                        },
                    )
                } else {
                    Ok(
                        FirstPass {
                            instrs: p.instrs,
                            origin: p.origin,
                            table: p.table.insert(name, p.instrs.len() as i16),
                        },
                    )
                },
                Ok(Some(c)) => Ok(
                    FirstPass {
                        instrs: p.instrs.push(c),
                        origin: p.origin.push(ls.len()),
                        table: p.table,
                    },
                ),
            },
        }
    }
}

/// Whether the table gives an instruction all it needs.
pub open spec fn resolvable(c: CommandView, table: Map<Seq<char>, i16>) -> bool {
    c is ALabel ==> table.contains_key(c->ALabel_0)
}

/// The instruction with the address of its symbol in the symbol's place.
pub open spec fn resolved(c: CommandView, table: Map<Seq<char>, i16>) -> CommandView {
    match c {
        CommandView::ALabel(name) => CommandView::A(table[name]),
        _ => c,
    }
}

/// The position of the first instruction whose symbol the table lacks, or
/// the number of instructions if there is none.
pub open spec fn first_unresolved(instrs: Seq<CommandView>, table: Map<Seq<char>, i16>) -> nat
    decreases instrs.len(),
{
    if instrs.len() == 0 || !resolvable(instrs[0], table) {
        0
    } else {
        1 + first_unresolved(instrs.drop_first(), table)
    }
}

/// The first unresolved instruction is the one before which all are
/// resolved and which is not, or there is none.
pub proof fn lemma_first_unresolved(instrs: Seq<CommandView>, table: Map<Seq<char>, i16>, k: int)
    requires
        0 <= k <= instrs.len(),
        forall|j: int| 0 <= j < k ==> resolvable(instrs[j], table),
        k == instrs.len() || !resolvable(instrs[k], table),
    ensures
        first_unresolved(instrs, table) == k,
    decreases k,
{
    if k > 0 {
        lemma_first_unresolved(instrs.drop_first(), table, k - 1);
    }
}

/// The second pass: every symbol gives way to its address. The first symbol
/// that the table lacks is an error.
pub open spec fn second_pass(p: FirstPass) -> Result<Seq<CommandView>, ParserErrorView> {
    let k = first_unresolved(p.instrs, p.table) as int;
    if k < p.instrs.len() {
        Err(
            ParserErrorView {
                kind: Fault::UnresolvedSymbol,
                line_num: p.origin[k],
                code: p.instrs[k]->ALabel_0,
            },
        )
    } else {
        Ok(Seq::new(p.instrs.len(), |i: int| resolved(p.instrs[i], p.table)))
    }
}

/// What assembling a program text gives, from a table of the symbols known
/// before: the resolved instructions and the table with the program's
/// labels, or the first error.
pub open spec fn assemble(code: Seq<char>, table: Map<Seq<char>, i16>) -> Result<
    (Seq<CommandView>, Map<Seq<char>, i16>),
    ParserErrorView,
> {
    match first_pass(lines(code), table) {
        Err(e) => Err(e),
        Ok(p) => match second_pass(p) {
            Err(e) => Err(e),
            Ok(prog) => Ok((prog, p.table)),
        },
    }
}

/// The assembler: a symbol table that maps each known name to its address.
pub struct Asm {
    syms: StringHashMap<i16>,
}

impl View for Asm {
    type V = Map<Seq<char>, i16>;

    closed spec fn view(&self) -> Map<Seq<char>, i16> {
        self.syms@
    }
}

impl Asm {
    /// An assembler that knows the predefined symbols.
    pub fn new() -> (r: Asm)
        ensures
            r@ == seed(),
    {
        let mut syms: StringHashMap<i16> = StringHashMap::new();
        syms.insert(String::from_str("SP"), 0);
        syms.insert(String::from_str("LCL"), 1);
        syms.insert(String::from_str("ARG"), 2);
        syms.insert(String::from_str("THIS"), 3);
        syms.insert(String::from_str("THAT"), 4);
        syms.insert(String::from_str("R13"), 13);
        syms.insert(String::from_str("R14"), 14);
        syms.insert(String::from_str("R15"), 15);
        Asm { syms }
    }

    /// The address of a symbol, if the table holds it.
    pub fn lookup(&self, name: &str) -> (r: Option<i16>)
        ensures
            r == (if self@.contains_key(name@) {
                Some(self@[name@])
            } else {
                None
            }),
    {
        match self.syms.get(name) {
            Some(v) => Some(*v),
            None => None,
        }
    }

    /// The address of a symbol that the table holds.
    pub fn get_sym(self, s: &str) -> (r: i16)
        requires
            self@.contains_key(s@),
        ensures
            r == self@[s@],
    {
        match self.lookup(s) {
            Some(v) => v,
            None => 0,
        }
    }

    /// Reads one line of assembly text.
    pub fn parse_cmd(&self, st: &str) -> (r: Result<Option<Command>, ParserError>)
        ensures
            line_view(r) == parse_line(st@),
    {
        let chars = to_chars(st);
        parse_chars(&chars)
    }

    /// Assembles a program text. The labels of the program are added to the
    /// table unless assembling fails, which leaves the table as it was.
    pub fn parse_code_str(&mut self, code: &str) -> (r: Result<Vec<Command>, ParserError>)
        ensures
            match assemble(code@, old(self)@) {
                Ok(out) => r is Ok && views(r->Ok_0@) == out.0 && final(self)@ == out.1,
                Err(e) => r is Err && r->Err_0@ == e && final(self)@ == old(self)@,
            },
    {
        let chars = to_chars(code);
        let ls = split_lines(&chars);
        let mut labels: StringHashMap<i16> = StringHashMap::new();
        let mut prog: Vec<Command> = Vec::new();
        let mut origin: Vec<usize> = Vec::new();
        let mut i: usize = 0;
        assert(self@.union_prefer_right(labels@) == self@);
        assert(rows(ls@).take(0).len() == 0);
        assert(views(prog@) == Seq::<CommandView>::empty());
        assert(Seq::new(origin.len() as nat, |j: int| origin[j] as nat) == Seq::<nat>::empty());
        while i < ls.len()
            invariant
                i <= ls.len(),
                rows(ls@) == lines(code@),
                *self == *old(self),
                prog.len() == origin.len(),
                first_pass(rows(ls@).take(i as int), old(self)@) == Ok::<
                    FirstPass,
                    ParserErrorView,
                >(
                    FirstPass {
                        instrs: views(prog@),
                        origin: Seq::new(origin.len() as nat, |j: int| origin[j] as nat),
                        table: self@.union_prefer_right(labels@),
                    },
                ),
            decreases ls.len() - i,
        {
            let ghost before = rows(ls@).take(i as int);
            let ghost upto = rows(ls@).take(i + 1);
            assert(upto.drop_last() == before);
            assert(upto.last() == ls[i as int]@);
            match parse_chars(&ls[i]) {
                Err(e) => {
                    proof {
                        lemma_first_pass_fails(rows(ls@), i + 1, old(self)@);
                        assert(rows(ls@).take(ls.len() as int) == rows(ls@));
                    }
                    return Err(ParserError { kind: e.kind, line_num: i + 1, code: e.code });
                },
                Ok(None) => {},
                Ok(Some(Command::Label(name))) => {
                    if prog.len() > 32767 {
                        proof {
                            lemma_first_pass_fails(rows(ls@), i + 1, old(self)@);
                            assert(rows(ls@).take(ls.len() as int) == rows(ls@));
                        }
                        return Err(
                            ParserError {
                                kind: Fault::AddressOverflow,
                                line_num: i + 1,
                                code: name,
                            },
                        );
                    }
                    let ghost known = labels@;
                    let ghost key = name@;
                    labels.insert(name, prog.len() as i16);
                    assert(self@.union_prefer_right(known.insert(key, prog.len() as i16))
                        == self@.union_prefer_right(known).insert(key, prog.len() as i16));
                },
                Ok(Some(c)) => {
                    proof {
                        assert(views(prog@.push(c)) == views(prog@).push(c@));
                        assert(Seq::new(
                            origin@.push((i + 1) as usize).len(),
                            |j: int| origin@.push((i + 1) as usize)[j] as nat,
                        ) == Seq::new(origin.len() as nat, |j: int| origin[j] as nat).push(
                            (i + 1) as nat,
                        ));
                    }
                    prog.push(c);
                    origin.push(i + 1);
                },
            }
            i += 1;
        }
        assert(rows(ls@).take(ls.len() as int) == rows(ls@));
        let ghost pass = FirstPass {
            instrs: views(prog@),
            origin: Seq::new(origin.len() as nat, |j: int| origin[j] as nat),
            table: self@.union_prefer_right(labels@),
        };
        let mut k: usize = 0;
        while k < prog.len()
            invariant
                k <= prog.len(),
                prog.len() == pass.instrs.len(),
                prog.len() == origin.len(),
                *self == *old(self),
                pass.table == self@.union_prefer_right(labels@),
                pass.origin == Seq::new(origin.len() as nat, |j: int| origin[j] as nat),
                first_pass(lines(code@), old(self)@) == Ok::<FirstPass, ParserErrorView>(pass),
                forall|j: int| 0 <= j < k ==> resolvable(pass.instrs[j], pass.table),
                forall|j: int| 0 <= j < k ==> prog[j]@ == resolved(pass.instrs[j], pass.table),
                forall|j: int| k <= j < prog.len() ==> prog[j]@ == pass.instrs[j],
            decreases prog.len() - k,
        {
            let found: Option<Option<i16>> = match &prog[k] {
                Command::ALabel(name) => {
                    match labels.get(name.as_str()) {
                        Some(v) => Some(Some(*v)),
                        None => Some(self.lookup(name.as_str())),
                    }
                },
                _ => None,
            };
            match found {
                Some(Some(val)) => {
                    prog.set(k, Command::A(val));
                },
                Some(None) => {
                    let code_text = match &prog[k] {
                        Command::ALabel(name) => name.clone(),
                        _ => String::new(),
                    };
                    proof {
                        lemma_first_unresolved(pass.instrs, pass.table, k as int);
                    }
                    return Err(
                        ParserError {
                            kind: Fault::UnresolvedSymbol,
                            line_num: origin[k],
                            code: code_text,
                        },
                    );
                },
                None => {},
            }
            k += 1;
        }
        proof {
            lemma_first_unresolved(pass.instrs, pass.table, prog.len() as int);
            assert(views(prog@) == Seq::new(
                pass.instrs.len(),
                |i: int| resolved(pass.instrs[i], pass.table),
            ));
        }
        self.syms.union_prefer_right(labels);
        Ok(prog)
    }
}

/// Once the first pass has failed on the first lines of a program, it fails
/// in the same way on the whole program.
pub proof fn lemma_first_pass_fails(ls: Seq<Seq<char>>, n: int, table: Map<Seq<char>, i16>)
    requires
        0 <= n <= ls.len(),
        first_pass(ls.take(n), table) is Err,
    ensures
        first_pass(ls, table) == first_pass(ls.take(n), table),
    decreases ls.len() - n,
{
    if n < ls.len() {
        assert(ls.take(ls.len() - 1).take(n) == ls.take(n));
        lemma_first_pass_fails(ls.take(ls.len() - 1), n, table);
        assert(ls.drop_last() == ls.take(ls.len() - 1));
    } else {
        assert(ls.take(n) == ls);
    }
}

} // verus!
