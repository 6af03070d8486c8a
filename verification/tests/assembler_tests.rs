use vmtrans::assembler::{Asm, Command, Comp, Dest, Fault, Jump, ParserError};

#[test]
fn test_a() {
    let assembler = Asm::new();
    assert_eq!(assembler.parse_cmd(""), Ok(None));
    assert_eq!(assembler.parse_cmd("// foo"), Ok(None));
    assert_eq!(assembler.parse_cmd("@23"), Ok(Some(Command::A(23))));
    assert_eq!(assembler.parse_cmd("@F34"), Ok(Some(Command::ALabel("F34".to_string()))));
    assert_eq!(assembler.parse_cmd("M+1"), Ok(Some(Command::C(Dest::Null, Comp::MPlusOne, Jump::Null))));
    assert!(assembler.parse_cmd("M1").is_err());
    assert_eq!(assembler.parse_cmd("0;JMP"), Ok(Some(Command::C(Dest::Null, Comp::Zero, Jump::JMP))));
    assert_eq!(assembler.parse_cmd("AM=M+1;JGE"), Ok(Some(Command::C(Dest::AM, Comp::MPlusOne, Jump::JGE))));
}

#[test]
fn test_parse_code_str() {
    let mut assembler = Asm::new();
    assert_eq!(assembler.parse_code_str("@32\n// foo\n0;JMP\n"), Ok(vec![Command::A(32), Command::C(Dest::Null, Comp::Zero, Jump::JMP)]));
    assert!(assembler.parse_code_str("@32\nxyx\nM=1\n").is_err());
    assert_eq!(assembler.parse_code_str("@FOO\n0;JMP\n(FOO)\n"), Ok(vec![Command::A(2), Command::C(Dest::Null, Comp::Zero, Jump::JMP)]));
    assert_eq!(assembler.parse_code_str("@THIS\nM=1\n"), Ok(vec![Command::A(3), Command::C(Dest::M, Comp::One, Jump::Null)]));
}

fn fault_of(r: Result<Vec<Command>, ParserError>) -> (Fault, usize, String) {
    let e = r.unwrap_err();
    (e.kind, e.line_num, e.code)
}

#[test]
fn mnemonics_round_trip() {
    let comps = [
        "0", "1", "-1", "D", "A", "!D", "!A", "-D", "-A", "D+1", "A+1", "D-1", "A-1", "D+A",
        "D-A", "A-D", "D&A", "D|A", "M", "!M", "-M", "M+1", "M-1", "D+M", "D-M", "M-D", "D&M",
        "D|M",
    ];
    for text in comps {
        let comp = Comp::from_str(text).unwrap();
        assert_eq!(comp.as_str(), text);
    }
    for text in ["", "M", "D", "MD", "A", "AM", "AD", "AMD"] {
        assert_eq!(Dest::from_str(text).unwrap().as_str(), text);
    }
    for text in ["", "JGT", "JEQ", "JGE", "JLT", "JNE", "JLE", "JMP"] {
        assert_eq!(Jump::from_str(text).unwrap().as_str(), text);
    }
    assert_eq!(Comp::from_str("M+D"), None);
    assert_eq!(Comp::from_str(""), None);
    assert_eq!(Dest::from_str("DM"), None);
    assert_eq!(Jump::from_str("jmp"), None);
}

#[test]
fn every_computation_is_written_as_it_is_read() {
    assert_eq!(Comp::NotD.as_str(), "!D");
    assert_eq!(Comp::NotA.as_str(), "!A");
    assert_eq!(Comp::NotM.as_str(), "!M");
    assert_eq!(Comp::DAndA.as_str(), "D&A");
    assert_eq!(Comp::DOrA.as_str(), "D|A");
    assert_eq!(Comp::DAndM.as_str(), "D&M");
    assert_eq!(Comp::DOrM.as_str(), "D|M");
    assert_eq!(Comp::MinusOne.as_str(), "-1");
    assert_eq!(Comp::DPlusM.as_str(), "D+M");
    assert_eq!(Comp::from_str(Comp::NotD.as_str()), Some(Comp::NotD));
    assert_eq!(Comp::from_str("notD"), None);
}

#[test]
fn command_as_str() {
    assert_eq!(Command::A(23).as_str(), "@23");
    assert_eq!(Command::A(-7).as_str(), "@-7");
    assert_eq!(Command::A(-32768).as_str(), "@-32768");
    assert_eq!(Command::ALabel("LOOP".to_string()).as_str(), "@LOOP");
    assert_eq!(Command::Label("LOOP".to_string()).as_str(), "(LOOP)");
    assert_eq!(Command::C(Dest::AM, Comp::MPlusOne, Jump::JGE).as_str(), "AM=M+1;JGE");
    assert_eq!(Command::C(Dest::Null, Comp::Zero, Jump::JMP).as_str(), "0;JMP");
    assert_eq!(Command::C(Dest::M, Comp::NotM, Jump::Null).as_str(), "M=!M");
    assert_eq!(Command::C(Dest::D, Comp::DOrA, Jump::JNE).as_str(), "D=D|A;JNE");
    let a = Asm::new();
    for c in [
        Command::A(-7),
        Command::ALabel("LOOP".to_string()),
        Command::Label("LOOP".to_string()),
        Command::C(Dest::AMD, Comp::DAndM, Jump::JLE),
        Command::C(Dest::Null, Comp::NotA, Jump::Null),
    ] {
        assert_eq!(a.parse_cmd(&c.as_str()), Ok(Some(c)));
    }
    assert_eq!(Command::C(Dest::Null, Comp::D, Jump::Null).as_str(), "D");
}

#[test]
fn command_write_to() {
    let mut out = String::from("x");
    Command::C(Dest::M, Comp::NotM, Jump::Null).write_to(&mut out);
    Command::A(0).write_to(&mut out);
    Command::C(Dest::D, Comp::DOrM, Jump::JNE).write_to(&mut out);
    assert_eq!(out, "xM=!M@0D=D|M;JNE");
}

#[test]
fn lines_are_stripped_of_blanks_and_comments() {
    let a = Asm::new();
    assert_eq!(a.parse_cmd("   @ 2 3  "), Ok(Some(Command::A(23))));
    assert_eq!(a.parse_cmd("\tD = M ; JGT\t// jump"), Ok(Some(Command::C(Dest::D, Comp::M, Jump::JGT))));
    assert_eq!(a.parse_cmd("D=M//x"), Ok(Some(Command::C(Dest::D, Comp::M, Jump::Null))));
    assert_eq!(a.parse_cmd("   "), Ok(None));
    assert_eq!(a.parse_cmd("@"), Ok(None));
    assert_eq!(a.parse_cmd("( LOOP )"), Ok(Some(Command::Label("LOOP".to_string()))));
    assert_eq!(a.parse_cmd("@+5"), Ok(Some(Command::A(5))));
    assert_eq!(a.parse_cmd("@-5"), Ok(Some(Command::A(-5))));
    assert_eq!(a.parse_cmd("@32767"), Ok(Some(Command::A(32767))));
    assert_eq!(a.parse_cmd("@32768"), Ok(Some(Command::ALabel("32768".to_string()))));
    assert_eq!(a.parse_cmd("@-"), Ok(Some(Command::ALabel("-".to_string()))));
    assert_eq!(a.parse_cmd("D;"), Ok(Some(Command::C(Dest::Null, Comp::D, Jump::Null))));
    assert_eq!(a.parse_cmd("=D"), Ok(Some(Command::C(Dest::Null, Comp::D, Jump::Null))));
}

#[test]
fn line_faults() {
    let a = Asm::new();
    let e = a.parse_cmd("(").unwrap_err();
    assert_eq!((e.kind, e.line_num, e.code.as_str()), (Fault::InvalidLabel, 0, "("));
    for text in ["(FOO", "(FOO)x", "()(", "( // )"] {
        let e = a.parse_cmd(text).unwrap_err();
        assert_eq!((e.kind, e.line_num, e.code.as_str()), (Fault::InvalidLabel, 0, text));
    }
    assert_eq!(a.parse_cmd("()"), Ok(Some(Command::Label("".to_string()))));
    assert_eq!(a.parse_cmd("((X))"), Ok(Some(Command::Label("(X)".to_string()))));
    let e = a.parse_cmd("X = D").unwrap_err();
    assert_eq!((e.kind, e.line_num, e.code.as_str()), (Fault::InvalidDest, 0, "X = D"));
    let e = a.parse_cmd("D = M1").unwrap_err();
    assert_eq!((e.kind, e.line_num, e.code.as_str()), (Fault::InvalidComp, 0, "M1"));
    let e = a.parse_cmd("D;JXX").unwrap_err();
    assert_eq!((e.kind, e.line_num, e.code.as_str()), (Fault::InvalidJump, 0, "D;JXX"));
    let e = a.parse_cmd("D;JMP;JMP").unwrap_err();
    assert_eq!(e.kind, Fault::InvalidJump);
    let e = a.parse_cmd("A=D=M").unwrap_err();
    assert_eq!((e.kind, e.code.as_str()), (Fault::InvalidComp, "D=M"));
    assert_eq!(e.message(), "ParserError: D=M");
}

#[test]
fn program_faults_carry_their_line() {
    let mut a = Asm::new();
    assert_eq!(fault_of(a.parse_code_str("@32\nxyx\nM=1\n")), (Fault::InvalidComp, 2, "xyx".to_string()));
    assert_eq!(fault_of(a.parse_code_str("\n\n\n(\n")), (Fault::InvalidLabel, 4, "(".to_string()));
    assert_eq!(fault_of(a.parse_code_str("D=M\n// c\n@NOWHERE\n@SP\n")), (Fault::UnresolvedSymbol, 3, "NOWHERE".to_string()));
    assert_eq!(fault_of(a.parse_code_str("@A1\n@B2\n(B2)\n")), (Fault::UnresolvedSymbol, 1, "A1".to_string()));
}

#[test]
fn unresolved_symbol_is_an_error() {
    let mut a = Asm::new();
    let e = a.parse_code_str("@FOO\n0;JMP\n").unwrap_err();
    assert_eq!(e.kind, Fault::UnresolvedSymbol);
    assert_eq!(e.code, "FOO");
}

#[test]
fn labels_forward_backward_and_redefined() {
    let mut a = Asm::new();
    let jmp = || Command::C(Dest::Null, Comp::Zero, Jump::JMP);
    assert_eq!(
        a.parse_code_str("(TOP)\n@END\n0;JMP\n@TOP\n0;JMP\n(END)\n"),
        Ok(vec![Command::A(4), jmp(), Command::A(0), jmp()])
    );
    let mut b = Asm::new();
    assert_eq!(
        b.parse_code_str("(X)\n@X\n(X)\nD=A\n(SP)\n@SP\n"),
        Ok(vec![Command::A(1), Command::C(Dest::D, Comp::A, Jump::Null), Command::A(2)])
    );
}

#[test]
fn labels_stay_in_the_table_after_success_only() {
    let mut a = Asm::new();
    assert!(a.parse_code_str("D=A\n(KEPT)\n").is_ok());
    assert_eq!(a.parse_code_str("@KEPT\n"), Ok(vec![Command::A(1)]));
    assert!(a.parse_code_str("(LOST)\nxyz\n").is_err());
    assert!(a.parse_code_str("@LOST\n").is_err());
    assert!(a.parse_code_str("(GONE)\n@NOWHERE\n").is_err());
    assert!(a.parse_code_str("@GONE\n").is_err());
}

#[test]
fn line_ends() {
    let mut a = Asm::new();
    let want = vec![Command::A(1), Command::C(Dest::D, Comp::A, Jump::Null)];
    assert_eq!(a.parse_code_str("@1\r\nD=A\r\n"), Ok(want.clone()));
    assert_eq!(a.parse_code_str("@1\nD=A"), Ok(want.clone()));
    assert_eq!(a.parse_code_str("\n\n@1\n\nD=A\n\n"), Ok(want));
    assert_eq!(a.parse_code_str(""), Ok(vec![]));
}

#[test]
fn predefined_symbols() {
    for (name, addr) in [("SP", 0), ("LCL", 1), ("ARG", 2), ("THIS", 3), ("THAT", 4), ("R13", 13), ("R14", 14), ("R15", 15)] {
        assert_eq!(Asm::new().get_sym(name), addr);
        assert_eq!(Asm::new().lookup(name), Some(addr));
    }
    assert_eq!(Asm::new().lookup("R0"), None);
    assert_eq!(Asm::new().lookup(""), None);
}

#[test]
fn label_behind_too_many_instructions() {
    let mut text = String::new();
    for _ in 0..32767 {
        text.push_str("D=A\n");
    }
    let mut a = Asm::new();
    let ok = a.parse_code_str(&(text.clone() + "(LAST)\n@LAST\n")).unwrap();
    assert_eq!(ok.len(), 32768);
    assert_eq!(ok[32767], Command::A(32767));
    let mut b = Asm::new();
    let e = b.parse_code_str(&(text + "D=A\n(OVER)\n")).unwrap_err();
    assert_eq!((e.kind, e.line_num, e.code.as_str()), (Fault::AddressOverflow, 32769, "OVER"));
}
