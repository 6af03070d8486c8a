use vmtrans::parser::{parse_str, Fault, Parser, ParserError};
use vmtrans::types::{VMCommand, VMOp, VMSeg};

fn check_err(r: Result<Option<VMCommand>, ParserError>, desc: &str) -> bool {
    if let Err(pe) = r {
        pe.description == desc
    } else {
        false
    }
}

#[test]
fn parser_simple_parse_str_test() {
    let mut p = Parser::new("foo.vm");
    assert_eq!(p.parse_str(""), Ok(None));
    assert_eq!(p.parse_str("// foo bar"), Ok(None));
    assert_eq!(p.parse_str("add"), Ok(Some(VMCommand::Arithmetic(VMOp::ADD))));
    assert!(check_err(p.parse_str("pop foo 19"),"Invalid segment name"));
    assert!(check_err(p.parse_str("pop temp bar"),"Invalid command format"));
    assert!(check_err(p.parse_str("push splat 22"),"Invalid segment name"));
    assert!(check_err(p.parse_str("sblot temp 22"),"Invalid command name"));
    assert_eq!(p.parse_str("push constant 33"), Ok(Some(VMCommand::Push(VMSeg::CONSTANT, 33))));
    assert_eq!(p.parse_str("pop local 3"), Ok(Some(VMCommand::Pop(VMSeg::LOCAL, 3))));
    assert_eq!(p.parse_str("label foo"), Ok(Some(VMCommand::Label("foo".to_string()))));
    assert_eq!(p.parse_str("goto foo"), Ok(Some(VMCommand::Goto("foo".to_string()))));
    assert_eq!(p.parse_str("if-goto foo"), Ok(Some(VMCommand::IfGoto("foo".to_string()))));
    assert_eq!(p.parse_str("function foo 2"), Ok(Some(VMCommand::Function("foo".to_string(), 2))));
    assert_eq!(p.parse_str("call foo 3"), Ok(Some(VMCommand::Call("foo".to_string(), 3))));
    assert_eq!(p.parse_str("return"), Ok(Some(VMCommand::Return)));
}

#[test]
fn main_simple_parse_str_test() {
    assert_eq!(parse_str(""), None);
    assert_eq!(parse_str("// foo bar"), None);
    assert_eq!(parse_str("add"), Some(VMCommand::Arithmetic(VMOp::ADD)));
    assert_eq!(parse_str("pop foo bar"), None);
    assert_eq!(parse_str("push splat bar"), None);
    assert_eq!(parse_str("push constant 33"), Some(VMCommand::Push(VMSeg::CONSTANT, 33)));
}

#[test]
fn vmtrans_simple_parse_str_test() {
    assert_eq!(parse_str(""), None);
    assert_eq!(parse_str("// foo bar"), None);
    assert_eq!(parse_str("add"), Some(VMCommand::Arithmetic(VMOp::ADD)));
    assert_eq!(parse_str("pop foo bar"), None);
    assert_eq!(parse_str("push splat bar"), None);
    assert_eq!(parse_str("push constant 33"), Some(VMCommand::Push(VMSeg::CONSTANT, 33)));
    assert_eq!(parse_str("pop local 3"), Some(VMCommand::Pop(VMSeg::LOCAL, 3)));
}

fn fault_of(r: Result<Option<VMCommand>, ParserError>) -> Fault {
    r.unwrap_err().kind
}

#[test]
fn words_round_trip() {
    for text in ["add", "sub", "neg", "eq", "gt", "lt", "and", "or", "not"] {
        assert_eq!(VMOp::from_str(text).unwrap().as_str(), text);
    }
    for text in ["local", "argument", "this", "that", "constant", "static", "temp", "pointer"] {
        assert_eq!(VMSeg::from_str(text).unwrap().as_str(), text);
    }
    assert_eq!(VMOp::from_str("ADD"), None);
    assert_eq!(VMOp::from_str(""), None);
    assert_eq!(VMSeg::from_str("locals"), None);
    assert_eq!(VMSeg::LOCAL.base_var_str(), "LCL");
    assert_eq!(VMSeg::ARGUMENT.base_var_str(), "ARG");
    assert_eq!(VMSeg::THIS.base_var_str(), "THIS");
    assert_eq!(VMSeg::THAT.base_var_str(), "THAT");
    assert_eq!(VMSeg::TEMP.base_var_str(), "5");
}

#[test]
fn every_line_counts() {
    let mut p = Parser::new("Main.vm");
    assert_eq!(p.parse_str(""), Ok(None));
    assert_eq!(p.parse_str("// c"), Ok(None));
    assert_eq!(p.parse_str("add"), Ok(Some(VMCommand::Arithmetic(VMOp::ADD))));
    let e = p.parse_str("pop foo 19").unwrap_err();
    assert_eq!(e.file_name, "Main.vm");
    assert_eq!(e.line_num, 4);
    assert_eq!(e.kind, Fault::InvalidSegmentName);
    assert_eq!(e.description, "Invalid segment name");
    assert_eq!(e.code, "pop foo 19");
    assert_eq!(
        e.message(),
        "ParserError: File: Main.vm, Line: 4,  Error: Invalid segment name, Code: pop foo 19\n"
    );
    let e = p.parse_str("  jump  ").unwrap_err();
    assert_eq!((e.line_num, e.kind, e.code.as_str()), (5, Fault::InvalidCommandName, "  jump  "));
    assert_eq!(e.description, "Invalid command name");
    let e = p.parse_str("call f").unwrap_err();
    assert_eq!((e.line_num, e.kind), (6, Fault::InvalidCommandFormat));
    assert_eq!(e.description, "Invalid command format");
}

#[test]
fn fault_words() {
    assert_eq!(Fault::InvalidCommandName.as_str(), "Invalid command name");
    assert_eq!(Fault::InvalidSegmentName.as_str(), "Invalid segment name");
    assert_eq!(Fault::InvalidCommandFormat.as_str(), "Invalid command format");
}

#[test]
fn comments_and_blanks() {
    let mut p = Parser::new("f");
    assert_eq!(p.parse_str("   \t "), Ok(None));
    assert_eq!(p.parse_str("//"), Ok(None));
    assert_eq!(p.parse_str("//push constant 1"), Ok(None));
    assert_eq!(p.parse_str("\tpush   constant\t7   // seven"), Ok(Some(VMCommand::Push(VMSeg::CONSTANT, 7))));
    assert_eq!(p.parse_str("add// sum"), Ok(Some(VMCommand::Arithmetic(VMOp::ADD))));
    assert_eq!(p.parse_str("return // done"), Ok(Some(VMCommand::Return)));
    assert_eq!(p.parse_str("goto a/b"), Ok(Some(VMCommand::Goto("a/b".to_string()))));
    assert_eq!(p.parse_str("label\u{a0}x\u{3000}"), Ok(Some(VMCommand::Label("x".to_string()))));
}

#[test]
fn operands() {
    let mut p = Parser::new("f");
    assert_eq!(p.parse_str("push constant 0"), Ok(Some(VMCommand::Push(VMSeg::CONSTANT, 0))));
    assert_eq!(p.parse_str("push constant +5"), Ok(Some(VMCommand::Push(VMSeg::CONSTANT, 5))));
    assert_eq!(p.parse_str("push constant 007"), Ok(Some(VMCommand::Push(VMSeg::CONSTANT, 7))));
    assert_eq!(p.parse_str("push constant 2147483647"), Ok(Some(VMCommand::Push(VMSeg::CONSTANT, 2147483647))));
    assert_eq!(p.parse_str("pop constant 3"), Ok(Some(VMCommand::Pop(VMSeg::CONSTANT, 3))));
    assert_eq!(p.parse_str("push temp 99"), Ok(Some(VMCommand::Push(VMSeg::TEMP, 99))));
    assert_eq!(fault_of(p.parse_str("push constant 2147483648")), Fault::InvalidCommandFormat);
    assert_eq!(fault_of(p.parse_str("push constant 99999999999999999999999")), Fault::InvalidCommandFormat);
    assert_eq!(fault_of(p.parse_str("push constant -3")), Fault::InvalidCommandFormat);
    assert_eq!(fault_of(p.parse_str("push constant 3x")), Fault::InvalidCommandFormat);
    assert_eq!(fault_of(p.parse_str("push constant +")), Fault::InvalidCommandFormat);
    assert_eq!(fault_of(p.parse_str("push constant 1.5")), Fault::InvalidCommandFormat);
    assert_eq!(fault_of(p.parse_str("function f -1")), Fault::InvalidCommandFormat);
    assert_eq!(fault_of(p.parse_str("call f x")), Fault::InvalidCommandFormat);
}

#[test]
fn arity() {
    let mut p = Parser::new("f");
    assert_eq!(fault_of(p.parse_str("add 1")), Fault::InvalidCommandFormat);
    assert_eq!(fault_of(p.parse_str("return 1")), Fault::InvalidCommandFormat);
    assert_eq!(fault_of(p.parse_str("push constant")), Fault::InvalidCommandFormat);
    assert_eq!(fault_of(p.parse_str("push constant 1 2")), Fault::InvalidCommandFormat);
    assert_eq!(fault_of(p.parse_str("push foo")), Fault::InvalidCommandFormat);
    assert_eq!(fault_of(p.parse_str("pop")), Fault::InvalidCommandFormat);
    assert_eq!(fault_of(p.parse_str("label")), Fault::InvalidCommandFormat);
    assert_eq!(fault_of(p.parse_str("goto a b")), Fault::InvalidCommandFormat);
    assert_eq!(fault_of(p.parse_str("if-goto")), Fault::InvalidCommandFormat);
    assert_eq!(fault_of(p.parse_str("function f")), Fault::InvalidCommandFormat);
    assert_eq!(fault_of(p.parse_str("call f 1 2")), Fault::InvalidCommandFormat);
    assert_eq!(fault_of(p.parse_str("push foo bar")), Fault::InvalidSegmentName);
    assert_eq!(fault_of(p.parse_str("Push constant 1")), Fault::InvalidCommandName);
}

#[test]
fn free_parse_str_gives_what_the_parser_gives() {
    assert_eq!(parse_str("call foo 3"), Some(VMCommand::Call("foo".to_string(), 3)));
    assert_eq!(parse_str("if-goto L1 // go"), Some(VMCommand::IfGoto("L1".to_string())));
    assert_eq!(parse_str("call foo"), None);
    assert_eq!(parse_str("sblot temp 22"), None);
}
