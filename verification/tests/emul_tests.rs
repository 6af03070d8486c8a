use vmtrans::assembler::{Command, Comp, Dest, Fault, Jump};
use vmtrans::emul::{Emul, EmulError, RunError};

#[test]
fn test_simple() {
    let mut em = Emul::new();
    em.run_code("@33\nD=A\nA=1\nM=D\n", 50).unwrap();
    assert_eq!(em.ram[1], 33);
}

#[test]
fn new_machine_is_zero() {
    let em = Emul::new();
    assert_eq!((em.a, em.d, em.pc), (0, 0, 0));
    assert_eq!(em.ram.len(), 32768);
    assert!(em.ram.iter().all(|c| *c == 0));
}

#[test]
fn set_ram_in_order() {
    let mut em = Emul::new();
    em.set_ram(&[(0, 258), (256, 3), (0, 7), (32767, -1)]);
    assert_eq!(em.ram[0], 7);
    assert_eq!(em.ram[256], 3);
    assert_eq!(em.ram[32767], -1);
    assert_eq!(em.ram[1], 0);
}

#[test]
fn arithmetic_wraps() {
    let mut em = Emul::new();
    em.run_code("@32767\nD=A\nD=D+1\n@1\nM=D\nD=D-1\n@2\nM=D\n@3\nM=-D\n", 50).unwrap();
    assert_eq!(em.ram[1], -32768);
    assert_eq!(em.ram[2], 32767);
    assert_eq!(em.ram[3], -32767);
    let mut em = Emul::new();
    em.set_ram(&[(5, -32768)]);
    em.run_code("@5\nM=-M\n", 50).unwrap();
    assert_eq!(em.ram[5], -32768);
}

#[test]
fn every_computation() {
    let table: [(&str, i16); 28] = [
        ("0", 0), ("1", 1), ("-1", -1), ("D", 12), ("A", 10), ("!D", -13), ("!A", -11),
        ("-D", -12), ("-A", -10), ("D+1", 13), ("A+1", 11), ("D-1", 11), ("A-1", 9),
        ("D+A", 22), ("D-A", 2), ("A-D", -2), ("D&A", 8), ("D|A", 14), ("M", 6), ("!M", -7),
        ("-M", -6), ("M+1", 7), ("M-1", 5), ("D+M", 18), ("D-M", 6), ("M-D", -6), ("D&M", 4),
        ("D|M", 14),
    ];
    for (text, expected) in table {
        let mut em = Emul::new();
        em.a = 10;
        em.d = 12;
        em.set_ram(&[(10, 6)]);
        em.run(vec![Command::C(Dest::D, Comp::from_str(text).unwrap(), Jump::Null)], 5).unwrap();
        assert_eq!(em.d, expected, "{}", text);
    }
}

#[test]
fn destinations_are_written_memory_first() {
    let mut em = Emul::new();
    em.a = 5;
    assert_eq!(em.do_dest(&Dest::AMD, 9), Ok(()));
    assert_eq!((em.ram[5], em.ram[9], em.d, em.a), (9, 0, 9, 9));
    let mut em = Emul::new();
    em.a = 5;
    em.do_dest(&Dest::Null, 9).unwrap();
    assert_eq!((em.ram[5], em.d, em.a), (0, 0, 5));
    em.do_dest(&Dest::MD, 4).unwrap();
    assert_eq!((em.ram[5], em.d, em.a), (4, 4, 5));
    em.do_dest(&Dest::AD, 3).unwrap();
    assert_eq!((em.ram[5], em.d, em.a), (4, 3, 3));
    em.a = -1;
    assert_eq!(em.do_dest(&Dest::AM, 1), Err(EmulError::NegativeAddress));
    assert_eq!((em.d, em.a), (3, -1));
    assert_eq!(em.do_dest(&Dest::A, 1), Ok(()));
}

#[test]
fn jumps_test_the_result() {
    let table = [
        (Jump::Null, [false, false, false]),
        (Jump::JGT, [false, false, true]),
        (Jump::JEQ, [false, true, false]),
        (Jump::JGE, [false, true, true]),
        (Jump::JLT, [true, false, false]),
        (Jump::JNE, [true, false, true]),
        (Jump::JLE, [true, true, false]),
        (Jump::JMP, [true, true, true]),
    ];
    for (jump, taken) in table {
        for (k, res) in [-3i16, 0, 3].iter().enumerate() {
            let mut em = Emul::new();
            em.a = 40;
            em.pc = 7;
            assert_eq!(em.do_jump(&jump, *res), Ok(()));
            assert_eq!(em.pc, if taken[k] { 40 } else { 8 });
        }
    }
    let mut em = Emul::new();
    em.a = -2;
    em.pc = 7;
    assert_eq!(em.do_jump(&Jump::JMP, 0), Err(EmulError::PcOutOfRange));
    assert_eq!(em.pc, 7);
    assert_eq!(em.do_jump(&Jump::JGT, 0), Ok(()));
    assert_eq!(em.pc, 8);
}

#[test]
fn jump_goes_to_the_address_in_a() {
    let mut em = Emul::new();
    em.set_ram(&[(4, -1)]);
    em.run_code("@4\nD=M;JLT\n@7\nM=1\n@9\nM=1\n", 50).unwrap();
    assert_eq!((em.ram[7], em.ram[9], em.d), (0, 1, -1));
    // the jump is decided on the result, D - 1 = -1, and goes to the new A
    let mut em = Emul::new();
    assert_eq!(
        em.run(vec![Command::C(Dest::A, Comp::DMinusOne, Jump::JLT)], 5),
        Err(EmulError::PcOutOfRange)
    );
    assert_eq!((em.a, em.d, em.pc), (-1, 0, 0));
}

#[test]
fn emulation_errors() {
    let mut em = Emul::new();
    assert_eq!(em.run_code("@0\nA=A-1\nD=M\n", 50), Err(RunError::Emulator(EmulError::NegativeAddress)));
    assert_eq!((em.a, em.pc), (-1, 2));
    let mut em = Emul::new();
    assert_eq!(em.run_code("@0\nA=A-1\nM=1\n", 50), Err(RunError::Emulator(EmulError::NegativeAddress)));
    let mut em = Emul::new();
    assert_eq!(em.run_code("@100\n0;JMP\n", 50), Err(RunError::Emulator(EmulError::PcOutOfRange)));
    assert_eq!(em.pc, 100);
    let mut em = Emul::new();
    assert_eq!(em.run_code("(L)\n@L\n0;JMP\n", 10), Err(RunError::Emulator(EmulError::TickBudgetExhausted)));
    let mut em = Emul::new();
    assert_eq!(em.run(vec![Command::A(1), Command::Label("X".to_string())], 10), Err(EmulError::NotAnInstruction));
    assert_eq!((em.a, em.pc), (1, 1));
    let mut em = Emul::new();
    assert_eq!(em.run(vec![Command::ALabel("X".to_string())], 10), Err(EmulError::NotAnInstruction));
    let mut em = Emul::new();
    match em.run_code("@1\nD=Q\n", 10) {
        Err(RunError::Assembler(e)) => assert_eq!((e.kind, e.line_num), (Fault::InvalidComp, 2)),
        other => panic!("{:?}", other),
    }
    assert_eq!((em.a, em.pc), (0, 0));
    let mut em = Emul::new();
    match em.run_code("@NOWHERE\n", 10) {
        Err(RunError::Assembler(e)) => assert_eq!(e.kind, Fault::UnresolvedSymbol),
        other => panic!("{:?}", other),
    }
}

#[test]
fn tick_budget_is_exact() {
    let code = "@33\nD=A\nA=1\nM=D\n";
    let mut em = Emul::new();
    assert_eq!(em.run_code(code, 4), Ok(()));
    assert_eq!(em.ram[1], 33);
    let mut em = Emul::new();
    assert_eq!(em.run_code(code, 3), Err(RunError::Emulator(EmulError::TickBudgetExhausted)));
    assert_eq!((em.ram[1], em.a, em.pc), (0, 1, 3));
    let mut em = Emul::new();
    assert_eq!(em.run_code(code, -1), Err(RunError::Emulator(EmulError::TickBudgetExhausted)));
    assert_eq!(em.pc, 0);
    let mut em = Emul::new();
    assert_eq!(em.run_code("", 0), Ok(()));
    assert_eq!(em.run_code("// nothing\n", -5), Ok(()));
}

#[test]
fn jump_to_the_end_is_a_good_end() {
    let mut em = Emul::new();
    assert_eq!(em.run_code("@END\n0;JMP\nD=D+1\n(END)\n", 50), Ok(()));
    assert_eq!((em.d, em.pc), (0, 3));
}
