//! The parser of the VM language: one line of source text at a time.

use vstd::prelude::*;
use vstd::string::StringExecFns;
use crate::decimal::{parse_int, push_int, read_int, dec_int};
use crate::text::{
    find_comment, is_text, rows, slice, split_words, string_of, to_chars, without_comment,
    words,
};
use crate::types::{VMCommand, VMCommandView, VMOp, VMSeg};

verus! {

/// Why a line of VM source is no command.
#[derive(Debug, PartialEq, Eq, Copy, Clone, Structural)]
pub enum Fault {
    /// The first word names no command.
    InvalidCommandName,
    /// The word after `push` or `pop` names no segment.
    InvalidSegmentName,
    /// The command has too few or too many operands, or an operand that
    /// should be a number is none.
    InvalidCommandFormat,
}

impl Fault {
    /// The fault in words.
    pub open spec fn text(self) -> Seq<char> {
        match self {
            Fault::InvalidCommandName => "Invalid command name"@,
            Fault::InvalidSegmentName => "Invalid segment name"@,
            Fault::InvalidCommandFormat => "Invalid command format"@,
        }
    }

    /// The fault in words.
    pub fn as_str(&self) -> (r: &'static str)
        ensures
            r@ == self.text(),
    {
        match self {
            Fault::InvalidCommandName => "Invalid command name",
            Fault::InvalidSegmentName => "Invalid segment name",
            Fault::InvalidCommandFormat => "Invalid command format",
        }
    }
}

/// An error of the parser: the file and the line, counted from 1, what
/// went wrong, and the text of the line.
#[derive(Debug, PartialEq, Eq, Clone)]
pub struct ParserError {
    pub file_name: String,
    pub line_num: i32,
    pub kind: Fault,
    pub description: String,
    pub code: String,
}

/// What an error of the parser holds, with its texts as characters.
pub struct ParserErrorView {
    pub file_name: Seq<char>,
    pub line_num: int,
    pub kind: Fault,
    pub description: Seq<char>,
    pub code: Seq<char>,
}

impl View for ParserError {
    type V = ParserErrorView;

    open spec fn view(&self) -> ParserErrorView {
        ParserErrorView {
            file_name: self.file_name@,
            line_num: self.line_num as int,
            kind: self.kind,
            description: self.description@,
            code: self.code@,
        }
    }
}

impl ParserErrorView {
    /// The error as a message for a reader.
    pub open spec fn message(self) -> Seq<char> {
        "ParserError: File: "@ + self.file_name + ", Line: "@ + dec_int(self.line_num)
            + ",  Error: "@ + self.description + ", Code: "@ + self.code + "\n"@
    }
}

impl ParserError {
    /// The error as a message for a reader.
    pub fn message(&self) -> (r: String)
        ensures
            r@ == self@.message(),
    {
        let mut r = String::new();
        r.append("ParserError: File: ");
        r.append(self.file_name.as_str());
        r.append(", Line: ");
        push_int(&mut r, self.line_num);
        r.append(",  Error: ");
        r.append(self.description.as_str());
        r.append(", Code: ");
        r.append(self.code.as_str());
        r.append("\n");
        assert(r@ == self@.message());
        r
    }
}

/// The operand that a word denotes: a whole number that is not negative.
pub open spec fn parse_operand(w: Seq<char>) -> Option<i32> {
    match parse_int(w, 0, i32::MAX as int) {
        Some(n) => Some(n as i32),
        None => None,
    }
}

/// What the words of a line stand for: nothing if there are none, else the
/// command that the first word names, with its operands.
pub open spec fn parse_words(ws: Seq<Seq<char>>) -> Result<Option<VMCommandView>, Fault> {
    if ws.len() == 0 {
        Ok(None)
    } else if VMOp::parse(ws[0]) is Some {
        if ws.len() == 1 {
            Ok(Some(VMCommandView::Arithmetic(VMOp::parse(ws[0])->0)))
        } else {
            Err(Fault::InvalidCommandFormat)
        }
    } else if ws[0] == "push"@ || ws[0] == "pop"@ {
        if ws.len() != 3 {
            Err(Fault::InvalidCommandFormat)
        } else {
            match (VMSeg::parse(ws[1]), parse_operand(ws[2])) {
                (None, _) => Err(Fault::InvalidSegmentName),
                (Some(_), None) => Err(Fault::InvalidCommandFormat),
                (Some(seg), Some(n)) => if ws[0] == "push"@ {
                    Ok(Some(VMCommandView::Push(seg, n)))
                } else {
                    Ok(Some(VMCommandView::Pop(seg, n)))
                },
            }
        }
    } else if ws[0] == "label"@ || ws[0] == "goto"@ || ws[0] == "if-goto"@ {
        if ws.len() != 2 {
            Err(Fault::InvalidCommandFormat)
        } else if ws[0] == "label"@ {
            Ok(Some(VMCommandView::Label(ws[1])))
        } else if ws[0] == "goto"@ {
            Ok(Some(VMCommandView::Goto(ws[1])))
        } else {
            Ok(Some(VMCommandView::IfGoto(ws[1])))
        }
    } else if ws[0] == "function"@ || ws[0] == "call"@ {
        if ws.len() != 3 {
            Err(Fault::InvalidCommandFormat)
        } else {
            match parse_operand(ws[2]) {
                None => Err(Fault::InvalidCommandFormat),
                Some(n) => if ws[0] == "function"@ {
                    Ok(Some(VMCommandView::Function(ws[1], n)))
                } else {
                    Ok(Some(VMCommandView::Call(ws[1], n)))
                },
            }
        }
    } else if ws[0] == "return"@ {
        if ws.len() == 1 {
            Ok(Some(VMCommandView::Return))
        } else {
            Err(Fault::InvalidCommandFormat)
        }
    } else {
        Err(Fault::InvalidCommandName)
    }
}

/// What a line of VM source stands for: the words before its comment, if
/// it has one, are read as a command.
pub open spec fn parse_command(line: Seq<char>) -> Result<Option<VMCommandView>, Fault> {
    parse_words(words(without_comment(line)))
}

fn read_operand(w: &Vec<char>) -> (r: Option<i32>)
    ensures
        r == parse_operand(w@),
{
    match read_int(w, 0, 0x7fff_ffff) {
        Some(n) => Some(n as i32),
        None => None,
    }
}

fn parse_chars(line: &Vec<char>) -> (r: Result<Option<VMCommand>, Fault>)
    ensures
        match parse_command(line@) {
            Ok(None) => r == Ok::<Option<VMCommand>, Fault>(None),
            Ok(Some(c)) => r is Ok && r->Ok_0 is Some && r->Ok_0->0@ == c,
            Err(e) => r == Err::<Option<VMCommand>, Fault>(e),
        },
{
    let k = find_comment(line);
    let body = slice(line, 0, k);
    assert(body@ == without_comment(line@));
    let ws = split_words(&body);
    assert(ws@.len() == rows(ws@).len());
    if ws.len() == 0 {
        return Ok(None);
    }
    assert(ws[0]@ == rows(ws@)[0]);
    if let Some(op) = VMOp::from_chars(&ws[0]) {
        if ws.len() == 1 {
            Ok(Some(VMCommand::Arithmetic(op)))
        } else {
            Err(Fault::InvalidCommandFormat)
        }
    } else if is_text(&ws[0], "push") || is_text(&ws[0], "pop") {
        if ws.len() != 3 {
            Err(Fault::InvalidCommandFormat)
        } else {
            assert(ws[1]@ == rows(ws@)[1]);
            assert(ws[2]@ == rows(ws@)[2]);
            match VMSeg::from_chars(&ws[1]) {
                None => Err(Fault::InvalidSegmentName),
                Some(seg) => match read_operand(&ws[2]) {
                    None => Err(Fault::InvalidCommandFormat),
                    Some(n) => if is_text(&ws[0], "push") {
                        Ok(Some(VMCommand::Push(seg, n)))
                    } else {
                        Ok(Some(VMCommand::Pop(seg, n)))
                    },
                },
            }
        }
    } else if is_text(&ws[0], "label") || is_text(&ws[0], "goto") || is_text(&ws[0], "if-goto") {
        if ws.len() != 2 {
            Err(Fault::InvalidCommandFormat)
        } else {
            assert(ws[1]@ == rows(ws@)[1]);
            let name = string_of(&ws[1]);
            if is_text(&ws[0], "label") {
                Ok(Some(VMCommand::Label(name)))
            } else if is_text(&ws[0], "goto") {
                Ok(Some(VMCommand::Goto(name)))
            } else {
                Ok(Some(VMCommand::IfGoto(name)))
            }
        }
    } else if is_text(&ws[0], "function") || is_text(&ws[0], "call") {
        if ws.len() != 3 {
            Err(Fault::InvalidCommandFormat)
        } else {
            assert(ws[1]@ == rows(ws@)[1]);
            assert(ws[2]@ == rows(ws@)[2]);
            match read_operand(&ws[2]) {
                None => Err(Fault::InvalidCommandFormat),
                Some(n) => {
                    let name = string_of(&ws[1]);
                    if is_text(&ws[0], "function") {
                        Ok(Some(VMCommand::Function(name, n)))
                    } else {
                        Ok(Some(VMCommand::Call(name, n)))
                    }
                },
            }
        }
    } else if is_text(&ws[0], "return") {
        if ws.len() == 1 {
            Ok(Some(VMCommand::Return))
        } else {
            Err(Fault::InvalidCommandFormat)
        }
    } else {
        Err(Fault::InvalidCommandName)
    }
}

/// The command on a line of VM source, if the line holds one and nothing
/// is wrong with it.
pub fn parse_str(cmd_str: &str) -> (r: Option<VMCommand>)
    ensures
        match parse_command(cmd_str@) {
            Ok(Some(c)) => r is Some && r->0@ == c,
            _ => r is None,
        },
{
    let line = to_chars(cmd_str);
    match parse_chars(&line) {
        Ok(c) => c,
        Err(_) => None,
    }
}

/// The parser of one source file. It counts the lines that it is given.
pub struct Parser {
    file_name: String,
    line_num: i32,
}

/// What a parser remembers: the name of its file and the number of lines
/// that it has been given.
pub struct ParserView {
    pub file_name: Seq<char>,
    pub line_num: int,
}

impl View for Parser {
    type V = ParserView;

    closed spec fn view(&self) -> ParserView {
        ParserView { file_name: self.file_name@, line_num: self.line_num as int }
    }
}

/// The number of the line after line `n`; the count stays where a
/// machine integer ends.
pub open spec fn next_line(n: int) -> int {
    if n < i32::MAX {
        n + 1
    } else {
        n
    }
}

/// What parsing a line gives, with each name as its characters.
pub open spec fn result_view(r: Result<Option<VMCommand>, ParserError>) -> Result<
    Option<VMCommandView>,
    ParserErrorView,
> {
    match r {
        Ok(None) => Ok(None),
        Ok(Some(c)) => Ok(Some(c@)),
        Err(e) => Err(e@),
    }
}

/// What a parser in state `p` answers to a line: the command on it, or an
/// error that carries the parser's file, the number of this line, the fault
/// and the line's text.
pub open spec fn parse_outcome(p: ParserView, line: Seq<char>) -> Result<
    Option<VMCommandView>,
    ParserErrorView,
> {
    match parse_command(line) {
        Ok(c) => Ok(c),
        Err(kind) => Err(
            ParserErrorView {
                file_name: p.file_name,
                line_num: next_line(p.line_num),
                kind,
                description: kind.text(),
                code: line,
            },
        ),
    }
}

impl Parser {
    /// A parser for the file of the given name, before its first line.
    pub fn new(fname: &str) -> (r: Parser)
        ensures
            r@ == (ParserView { file_name: fname@, line_num: 0 }),
    {
        Parser { file_name: String::from_str(fname), line_num: 0 }
    }

    fn parser_error(&self, kind: Fault, code: &str) -> (r: ParserError)
        ensures
            r@ == (ParserErrorView {
                file_name: self@.file_name,
                line_num: self@.line_num,
                kind,
                description: kind.text(),
                code: code@,
            }),
    {
        ParserError {
            file_name: self.file_name.clone(),
            line_num: self.line_num,
            kind,
            description: String::from_str(kind.as_str()),
            code: String::from_str(code),
        }
    }

    /// Parses the next line of the file. Every line counts, also one that
    /// holds no command.
    pub fn parse_str(&mut self, cmd_str: &str) -> (r: Result<Option<VMCommand>, ParserError>)
        ensures
            final(self)@ == (ParserView {
                file_name: old(self)@.file_name,
                line_num: next_line(old(self)@.line_num),
            }),
            result_view(r) == parse_outcome(old(self)@, cmd_str@),
    {
        if self.line_num < i32::MAX {
            self.line_num += 1;
        }
        let line = to_chars(cmd_str);
        match parse_chars(&line) {
            Ok(c) => Ok(c),
            Err(kind) => Err(self.parser_error(kind, cmd_str)),
        }
    }
}

} // verus!
