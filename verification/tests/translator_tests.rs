use vmtrans::assembler::{Asm, Command, Comp, Dest, Jump};
use vmtrans::emul::Emul;
use vmtrans::translator::{GenError, Translator};
use vmtrans::types::{VMCommand, VMOp, VMSeg};

#[test]
fn trans_bin_asm_test() {
    let table = vec![
        ((3,7,VMOp::ADD), 10),
        ((3,7,VMOp::SUB), -4),
        ((3,7,VMOp::AND), 3),
        ((3,7,VMOp::OR), 7),
        ((3,7,VMOp::EQ), 0),
        ((7,7,VMOp::EQ), -1),
        ((3,7,VMOp::LT), -1),
        ((3,7,VMOp::GT), 0),
        ((7,1,VMOp::GT), -1),
    ];

    for ((a,b,op), expected) in table {
        let mut tr = Translator::new("foo");
        let code = tr.trans_cmd(&VMCommand::Arithmetic(op));
        let mut em = Emul::new();
        em.set_ram(&[(0,258), (256, a), (257, b)]);
        em.run_code(&code, 50).unwrap();
        assert_eq!(em.ram[0], 257, "SP wrong");
        assert_eq!(em.ram[256], expected, "Wrong result from operation");
    }
}

#[test]
fn trans_unary_asm_test() {
    let table = vec![
        ((3,VMOp::NEG), -3),
        ((-1,VMOp::NOT), 0),
    ];

    for ((a,op), expected) in table {
        let mut tr = Translator::new("foo");
        let code = tr.trans_cmd(&VMCommand::Arithmetic(op));
        let mut em = Emul::new();
        em.set_ram(&[(0,257), (256, a)]);
        em.run_code(&code, 50).unwrap();
        assert_eq!(em.ram[0], 257, "SP wrong");
        assert_eq!(em.ram[256], expected, "Wrong result from operation");
    }
}

#[test]
fn trans_push_asm_test() {
    /* Scenario:
     * Assume a 2-argument, 2 local function has been called, starting from SP=256.
     * This means ARG=256, then there are 2 spots for arguments (256,257) and 5 spots
     * for saved RA,ARG,LCL,THIS,THAT (258,259,260,261,262).  So LCL should point to 263.
     * With two local variables, SP should then point to 265.  During the test, we push 9
     * items on the stack and check that they are where they should be, and that the SP
     * is correct.
     */
    let table = &[
        (VMSeg::CONSTANT, 33),
        (VMSeg::CONSTANT, 77),
        (VMSeg::LOCAL, 0),
        (VMSeg::LOCAL, 1),
        (VMSeg::ARGUMENT, 0),
        (VMSeg::ARGUMENT, 1),
        (VMSeg::POINTER, 0),
        (VMSeg::POINTER, 1),
        (VMSeg::TEMP, 1),
        //(VMSeg::STATIC, 9),
    ];

    let mut tr = Translator::new("Foo");
    let mut code = String::new();
    for (seg,n) in table {
        code += &tr.trans_cmd(&VMCommand::Push(*seg, *n));
    }
    let mut em = Emul::new();
    em.set_ram(&[
               (0, 265),
               (1, 263),
               (2, 256),
               (3, -3),
               (4, -4),
               (6, -5),
               //(16, -6),
               (256, 17),
               (257, 18),
               (263, 97),
               (264, 98),
    ]);

    em.run_code(&code, 100).unwrap();
    assert_eq!(em.ram[0], 265+table.len() as i16, "SP wrong");
    assert_eq!(em.ram[265], 33, "Wrong result from push constant 33");
    assert_eq!(em.ram[266], 77, "Wrong result from push constant 77");
    assert_eq!(em.ram[267], 97, "Wrong result from push local 0");
    assert_eq!(em.ram[268], 98, "Wrong result from push local 1");
    assert_eq!(em.ram[269], 17, "Wrong result from push argument 0");
    assert_eq!(em.ram[270], 18, "Wrong result from push argument 1");
    assert_eq!(em.ram[271], -3, "Wrong result from push pointer 0");
    assert_eq!(em.ram[272], -4, "Wrong result from push pointer 1");
    assert_eq!(em.ram[273], -5, "Wrong result from push temp 0");
    //assert_eq!(em.ram[270], -6, "Wrong result from static 9");
}

#[test]
fn translator_trans_push_test() {
    let mut tr = Translator::new("Splat");
    assert_eq!(tr.trans_cmd(&VMCommand::Push(VMSeg::STATIC, 9)), 
        "// push static 9\n@Splat.9\nD=M\n".to_owned() +
                "@SP\nA=M\nM=D\n@SP\nM=M+1\n");
}

#[test]
fn trans_pop_asm_test() {
    /* Scenario:
     * Assume a 2-argument, 2 local function has been called, starting from SP=256.
     * This means ARG=256, then there are 2 spots for arguments (256,257) and 5 spots
     * for saved RA,ARG,LCL,THIS,THAT (258,259,260,261,262).  So LCL should point to 263.
     * With two local variables, SP should then point to 265.  We load the stack with
     * 9 values, and pop them into various places, and check that SP and popped values
     * are correct.
     */
    let table = &[
        (VMSeg::ARGUMENT, 0),
        (VMSeg::ARGUMENT, 1),
        (VMSeg::LOCAL, 0),
        (VMSeg::LOCAL, 1),
        (VMSeg::POINTER, 0),
        (VMSeg::POINTER, 1),
        (VMSeg::TEMP, 1),
        //(VMSeg::STATIC, 9),
    ];

    let mut tr = Translator::new("Foo");
    let mut code = String::new();
    for (seg,n) in table {
        code += &tr.trans_cmd(&VMCommand::Pop(*seg, *n));
    }
    let mut em = Emul::new();
    // everything in RAM is preset to zero
    em.set_ram(&[
               (0, 272),
               (1, 262),
               (2, 256),
               (265, -7),
               (266, -6),
               (267, -5),
               (268, -4),
               (269, -3),
               (270, -2),
               (271, -1),

    ]);

    em.run_code(&code, 100).unwrap();
    assert_eq!(em.ram[0], 265, "SP wrong");
    assert_eq!(em.ram[256], -1, "Wrong result from pop argument 0");
    assert_eq!(em.ram[257], -2, "Wrong result from pop argument 1");
    assert_eq!(em.ram[262], -3, "Wrong result from pop argument 0");
    assert_eq!(em.ram[263], -4, "Wrong result from pop argument 1");
    assert_eq!(em.ram[3], -5, "Wrong result from pop pointer 0");
    assert_eq!(em.ram[4], -6, "Wrong result from pop pointer 1");
    assert_eq!(em.ram[6], -7, "Wrong result from pop temp 1");
    //assert_eq!(em.ram[270], -6, "Wrong result from static 9");
}

#[test]
fn translator_trans_pop_test() {
    let mut tr = Translator::new("Splat");
    assert_eq!(tr.trans_cmd(&VMCommand::Pop(VMSeg::STATIC, 9)),
        "// pop static 9\n@Splat.9\nD=A\n@R15\nM=D\n".to_owned() + 
        "@SP\nAM=M-1\nD=M\n" + 
        "@R15\nA=M\nM=D\n");
}

#[test]
fn trans_goto_test() {
    let mut tr = Translator::new("Splat");
    assert_eq!(tr.trans_cmd(&VMCommand::Label("foo".to_string())), "// label foo\n(foo)\n");
    assert_eq!(tr.trans_cmd(&VMCommand::Goto("foo".to_string())), "// goto foo\n@foo\n0;JMP\n");
    assert_eq!(tr.trans_cmd(&VMCommand::IfGoto("foo".to_string())), "// if-goto foo\n@SP\nAM=M-1\nD=M\n@foo\nD;JNE\n");
}

#[test]
fn trans_call_test() {
    /* Test a basic call with 2 arguments.  LCL, ARG, THIS, THAT are set
     * to nonsense values just to check that they are stored properly.
     * */
    let mut tr = Translator::new("Foo");
    let code = tr.trans_cmd(&VMCommand::Call("BAR".to_string(), 2))
        + &tr.trans_cmd(&VMCommand::Label("BAR".to_string()));
    let mut em = Emul::new();
    em.set_ram(&[
               (0, 258),
               (1, -1),
               (2, -2),
               (3, -3),
               (4, -4),
               (256, 11),
               (257, 22),
    ]);

    em.run_code(&code, 100).unwrap();
    assert_eq!(em.ram[0], 263, "SP wrong");
    assert_eq!(em.ram[1], 263, "LCL wrong");
    assert_eq!(em.ram[2], 256, "ARG wrong");
    assert_eq!(em.ram[256], 11, "Argument 0 wrong");
    assert_eq!(em.ram[257], 22, "Argument 1 wrong");
    assert_eq!(em.ram[258], 47, "RA incorrect");
    assert_eq!(em.ram[259], -1, "SavedLCL incorrect");
    assert_eq!(em.ram[260], -2, "SavedARG incorrect");
    assert_eq!(em.ram[261], -3, "SavedThis incorrect");
    assert_eq!(em.ram[262], -4, "SavedThat incorrect");
    //assert_eq!(em.ram[270], -6, "Wrong result from static 9");
}

#[test]
fn trans_function_test() {
    /* Test a basic "function" with 2 arguments.  Assumes CALL FOO 2 has
     * already been executed (the scenario from previous test).
     * */
    let mut tr = Translator::new("Foo");
    let code = tr.trans_cmd(&VMCommand::Function("BAR".to_string(), 2));
    let mut em = Emul::new();
    em.set_ram(&[
               (0, 263),
               (1, 263),
               (2, 256),
               (256, 11),
               (257, 22),
               (258, 47), // not right
               (259, -1),
               (260, -2),
               (261, -3),
               (262, -4),
    ]);

    em.run_code(&code, 100).unwrap();
    assert_eq!(em.ram[0], 265, "SP wrong");
    assert_eq!(em.ram[1], 263, "LCL wrong");
    assert_eq!(em.ram[2], 256, "ARG wrong");
    assert_eq!(em.ram[256], 11, "Argument 0 wrong");
    assert_eq!(em.ram[257], 22, "Argument 1 wrong");
    assert_eq!(em.ram[258], 47, "RA incorrect");
    assert_eq!(em.ram[259], -1, "SavedLCL incorrect");
    assert_eq!(em.ram[260], -2, "SavedARG incorrect");
    assert_eq!(em.ram[261], -3, "SavedThis incorrect");
    assert_eq!(em.ram[262], -4, "SavedThat incorrect");
    assert_eq!(em.ram[263], 0, "Arg0 incorrect");
    assert_eq!(em.ram[264], 0, "Arg1 incorrect");
}

#[test]
fn trans_return_test() {
    /* Test a basic "function" with 2 arguments.  Assumes CALL FOO 2 has
     * already been executed and then function FOO 2 has been executed.
     * */
    let mut tr = Translator::new("Foo");
    let code = tr.trans_cmd(&VMCommand::Return)
        + &tr.trans_cmd(&VMCommand::Label("RET1".to_string()));

    let mut assembler = Asm::new();
    let cmds = assembler.parse_code_str(&code).unwrap();

    let mut em = Emul::new();
    em.set_ram(&[
               (0, 266),
               (1, 263),
               (2, 256),
               (256, 11),
               (257, 22),
               (258, assembler.get_sym("RET1")),
               (259, -1),
               (260, -2),
               (261, -3),
               (262, -4),
               (263, 0),
               (264, 0),
               (265, 99),
    ]);


    em.run(cmds, 100).unwrap();
    assert_eq!(em.ram[0], 257, "SP wrong");
    assert_eq!(em.ram[1], -1, "LCL wrong");
    assert_eq!(em.ram[2], -2, "ARG wrong");
    assert_eq!(em.ram[3], -3, "THIS wrong");
    assert_eq!(em.ram[4], -4, "THAT wrong");
    assert_eq!(em.ram[256], 99, "Return val wrong");
}

#[test]
fn trans_callret_test() {
    /* Test full round trip call/function/return with 2 arguments.
     * LCL, ARG, THIS, THAT are set to nonsense values just to check
     * that they are stored and restored properly.
     * */
    let table = vec![
        VMCommand::Push(VMSeg::CONSTANT, 3),
        VMCommand::Push(VMSeg::CONSTANT, 7),
        VMCommand::Call("ADD".to_string(), 2),
        VMCommand::Goto("END".to_string()),
        VMCommand::Function("ADD".to_string(), 1),
        VMCommand::Push(VMSeg::ARGUMENT, 0),
        VMCommand::Push(VMSeg::ARGUMENT, 1),
        VMCommand::Arithmetic(VMOp::ADD),
        VMCommand::Pop(VMSeg::LOCAL, 0),
        VMCommand::Push(VMSeg::LOCAL, 0),
        VMCommand::Return,
        VMCommand::Label("END".to_string()),
    ];

    let mut tr = Translator::new("Foo");
    let mut code = String::new();
    for cmd in &table {
        code += &tr.trans_cmd(cmd);
    }

    let mut em = Emul::new();
    em.set_ram(&[
               (0, 256),
               (1, -1),
               (2, -2),
               (3, -3),
               (4, -4),
    ]);

    em.run_code(&code, 1000).unwrap();
    assert_eq!(em.ram[0], 257, "SP wrong");
    assert_eq!(em.ram[1], -1, "LCL wrong");
    assert_eq!(em.ram[2], -2, "LCL wrong");
    assert_eq!(em.ram[3], -3, "LCL wrong");
    assert_eq!(em.ram[4], -4, "LCL wrong");
    assert_eq!(em.ram[256], 10, "Result wrong");
}

#[test]
fn trans_callcallretret_test() {
    /* Test full round trip call/function/return with 2 arguments.
     * LCL, ARG, THIS, THAT are set to nonsense values just to check
     * that they are stored and restored properly.
     * */
    let table = vec![
        VMCommand::Push(VMSeg::CONSTANT, 3),
        VMCommand::Push(VMSeg::CONSTANT, 7),
        VMCommand::Call("ADD".to_string(), 2),
        VMCommand::Goto("END".to_string()),
        VMCommand::Function("ADD".to_string(), 1),
        VMCommand::Push(VMSeg::ARGUMENT, 0),
        VMCommand::Push(VMSeg::ARGUMENT, 1),
        VMCommand::Arithmetic(VMOp::ADD),
        VMCommand::Pop(VMSeg::LOCAL, 0),
        VMCommand::Push(VMSeg::LOCAL, 0),
        VMCommand::Push(VMSeg::CONSTANT, 9),
        VMCommand::Call("SUB".to_string(), 2),
        VMCommand::Return,
        VMCommand::Function("SUB".to_string(), 1),
        VMCommand::Push(VMSeg::ARGUMENT, 0),
        VMCommand::Push(VMSeg::ARGUMENT, 1),
        VMCommand::Arithmetic(VMOp::SUB),
        VMCommand::Pop(VMSeg::LOCAL, 0),
        VMCommand::Push(VMSeg::LOCAL, 0),
        VMCommand::Return,
        VMCommand::Label("END".to_string()),
    ];

    let mut tr = Translator::new("Foo");
    let mut code = String::new();
    for cmd in &table {
        code += &tr.trans_cmd(cmd);
    }

    let mut em = Emul::new();
    em.set_ram(&[
               (0, 256),
               (1, -1),
               (2, -2),
               (3, -3),
               (4, -4),
    ]);

    em.run_code(&code, 1000).unwrap();
    assert_eq!(em.ram[0], 257, "SP wrong");
    assert_eq!(em.ram[1], -1, "LCL wrong");
    assert_eq!(em.ram[2], -2, "LCL wrong");
    assert_eq!(em.ram[3], -3, "LCL wrong");
    assert_eq!(em.ram[4], -4, "LCL wrong");
    assert_eq!(em.ram[256], 1, "Result wrong");
}

#[test]
fn trans_pushconst_test() {
    let mut tr = Translator::new("");
    assert_eq!(tr.trans_cmd(&VMCommand::Push(VMSeg::CONSTANT, 33)),
        "// push constant 33\n@33\nD=A\n@SP\nA=M\nM=D\n@SP\nM=M+1\n");
}

#[test]
fn trans_unary_test() {
    let mut tr = Translator::new("Splat");
    assert_eq!(tr.trans_cmd(&VMCommand::Arithmetic(VMOp::NEG)), "// neg\n@SP\nA=M-1\nM=-M\n");
    assert_eq!(tr.trans_cmd(&VMCommand::Arithmetic(VMOp::NOT)), "// not\n@SP\nA=M-1\nM=!M\n");
}

#[test]
fn trans_cmp_test() {
    let mut tr = Translator::new("Splat");
    assert_eq!(tr.trans_cmd(&VMCommand::Arithmetic(VMOp::EQ)),
               "// eq\n@SP\nAM=M-1\nD=M\n@SP\nAM=M-1\nD=M-D\nM=-1\n".to_owned() +
               "@TST.0\nD;JEQ\n@SP\nA=M\nM=0\n" +
               "(TST.0)\n@SP\nM=M+1\n"
               );
    assert_eq!(tr.trans_cmd(&VMCommand::Arithmetic(VMOp::LT)),
               "// lt\n@SP\nAM=M-1\nD=M\n@SP\nAM=M-1\nD=M-D\nM=-1\n".to_owned() +
               "@TST.1\nD;JLT\n@SP\nA=M\nM=0\n" +
               "(TST.1)\n@SP\nM=M+1\n"
               );
    assert_eq!(tr.trans_cmd(&VMCommand::Arithmetic(VMOp::GT)),
               "// gt\n@SP\nAM=M-1\nD=M\n@SP\nAM=M-1\nD=M-D\nM=-1\n".to_owned() +
               "@TST.2\nD;JGT\n@SP\nA=M\nM=0\n" +
               "(TST.2)\n@SP\nM=M+1\n"
               );
}

#[test]
fn vmtrans_trans_pop_test() {
    let mut tr = Translator::new("Splat");
    assert_eq!(tr.trans_cmd(&VMCommand::Pop(VMSeg::LOCAL, 3)),
        "// pop local 3\n@LCL\nD=M\n@3\nD=D+A\n@R15\nM=D\n".to_owned() +
        "@SP\nAM=M-1\nD=M\n" +
        "@R15\nA=M\nM=D\n");
    assert_eq!(tr.trans_cmd(&VMCommand::Pop(VMSeg::TEMP, 7)),
        "// pop temp 7\n@5\nD=A\n@7\nD=D+A\n@R15\nM=D\n".to_owned() +
        "@SP\nAM=M-1\nD=M\n" +
        "@R15\nA=M\nM=D\n");
    assert_eq!(tr.trans_cmd(&VMCommand::Pop(VMSeg::POINTER, 0)),
        "// pop pointer 0\n@THIS\nD=A\n@R15\nM=D\n".to_owned() +
        "@SP\nAM=M-1\nD=M\n" +
        "@R15\nA=M\nM=D\n");
    assert_eq!(tr.trans_cmd(&VMCommand::Pop(VMSeg::POINTER, 1)),
        "// pop pointer 1\n@THAT\nD=A\n@R15\nM=D\n".to_owned() +
        "@SP\nAM=M-1\nD=M\n" +
        "@R15\nA=M\nM=D\n");
    assert_eq!(tr.trans_cmd(&VMCommand::Pop(VMSeg::STATIC, 9)),
        "// pop static 9\n@Splat.9\nD=A\n@R15\nM=D\n".to_owned() +
        "@SP\nAM=M-1\nD=M\n" +
        "@R15\nA=M\nM=D\n");
}

#[test]
fn bootstrap_text() {
    assert_eq!(
        Translator::gen_bootstrap(),
        "@256\nD=A\n@SP\nM=D\n".to_owned()
            + "// call Sys.init 0\n"
            + "@BOOTSTRAP.RETURN\nD=A\n@SP\nA=M\nM=D\n@SP\nM=M+1\n"
            + "@LCL\nD=M\n@SP\nA=M\nM=D\n@SP\nM=M+1\n"
            + "@ARG\nD=M\n@SP\nA=M\nM=D\n@SP\nM=M+1\n"
            + "@THIS\nD=M\n@SP\nA=M\nM=D\n@SP\nM=M+1\n"
            + "@THAT\nD=M\n@SP\nA=M\nM=D\n@SP\nM=M+1\n"
            + "@SP\nD=M\n@5\nD=D-A\n@ARG\nM=D\n"
            + "@SP\nD=M\n@LCL\nM=D\n"
            + "@Sys.init\n0;JMP\n"
            + "(BOOTSTRAP.RETURN)\n"
    );
}

#[test]
fn bootstrap_sets_the_stack_and_calls() {
    let code = Translator::gen_bootstrap() + "(Sys.init)\n";
    let mut em = Emul::new();
    em.set_ram(&[(1, -1), (2, -2), (3, -3), (4, -4)]);
    em.run_code(&code, 100).unwrap();
    assert_eq!(em.ram[0], 261);
    assert_eq!(em.ram[1], 261);
    assert_eq!(em.ram[2], 256);
    assert_eq!(&em.ram[256..261], &[51, -1, -2, -3, -4]);
    assert_eq!(em.pc, 51);
}

#[test]
fn function_text() {
    let mut tr = Translator::new("Foo");
    assert_eq!(
        tr.trans_cmd(&VMCommand::Function("Foo.bar".to_string(), 2)),
        "// function Foo.bar 2\n(Foo.bar)\n@SP\nA=M\nM=0\nA=A+1\nM=0\nA=A+1\nD=A\n@SP\nM=D\n"
    );
    assert_eq!(
        tr.trans_cmd(&VMCommand::Function("f".to_string(), 0)),
        "// function f 0\n(f)\n@SP\nA=M\nD=A\n@SP\nM=D\n"
    );
    assert_eq!(
        tr.trans_cmd(&VMCommand::Function("f".to_string(), -4)),
        "// function f -4\n(f)\n@SP\nA=M\nD=A\n@SP\nM=D\n"
    );
}

#[test]
fn return_text() {
    let mut tr = Translator::new("Foo");
    assert_eq!(
        tr.trans_cmd(&VMCommand::Return),
        "// return\n".to_owned()
            + "@SP\nAM=M-1\nD=M\n@ARG\nA=M\nM=D\n"
            + "@ARG\nD=M\n@R15\nM=D\n"
            + "@LCL\nD=M\n@SP\nM=D\n"
            + "@SP\nAM=M-1\nD=M\n@THAT\nM=D\n"
            + "@SP\nAM=M-1\nD=M\n@THIS\nM=D\n"
            + "@SP\nAM=M-1\nD=M\n@ARG\nM=D\n"
            + "@SP\nAM=M-1\nD=M\n@LCL\nM=D\n"
            + "@SP\nAM=M-1\nD=M\n@R14\nM=D\n"
            + "@R15\nD=M\n@SP\nM=D+1\n"
            + "@R14\nA=M\n0;JMP\n"
    );
}

#[test]
fn binary_and_push_texts() {
    let mut tr = Translator::new("Splat");
    assert_eq!(tr.trans_cmd(&VMCommand::Arithmetic(VMOp::ADD)), "// add\n@SP\nAM=M-1\nD=M\n@SP\nA=M-1\nM=D+M\n");
    assert_eq!(tr.trans_cmd(&VMCommand::Arithmetic(VMOp::SUB)), "// sub\n@SP\nAM=M-1\nD=M\n@SP\nA=M-1\nM=M-D\n");
    assert_eq!(tr.trans_cmd(&VMCommand::Arithmetic(VMOp::AND)), "// and\n@SP\nAM=M-1\nD=M\n@SP\nA=M-1\nM=D&M\n");
    assert_eq!(tr.trans_cmd(&VMCommand::Arithmetic(VMOp::OR)), "// or\n@SP\nAM=M-1\nD=M\n@SP\nA=M-1\nM=D|M\n");
    let tail = "@SP\nA=M\nM=D\n@SP\nM=M+1\n";
    assert_eq!(tr.trans_cmd(&VMCommand::Push(VMSeg::LOCAL, 3)), "// push local 3\n@3\nD=A\n@LCL\nA=D+M\nD=M\n".to_owned() + tail);
    assert_eq!(tr.trans_cmd(&VMCommand::Push(VMSeg::THAT, 0)), "// push that 0\n@0\nD=A\n@THAT\nA=D+M\nD=M\n".to_owned() + tail);
    assert_eq!(tr.trans_cmd(&VMCommand::Push(VMSeg::TEMP, 3)), "// push temp 3\n@8\nD=M\n".to_owned() + tail);
    assert_eq!(tr.trans_cmd(&VMCommand::Push(VMSeg::TEMP, 7)), "// push temp 7\n@12\nD=M\n".to_owned() + tail);
    assert_eq!(tr.trans_cmd(&VMCommand::Push(VMSeg::POINTER, 1)), "// push pointer 1\n@THAT\nD=M\n".to_owned() + tail);
    assert_eq!(tr.trans_cmd(&VMCommand::Push(VMSeg::CONSTANT, -5)), "// push constant -5\n@-5\nD=A\n".to_owned() + tail);
    assert_eq!(tr.trans_cmd(&VMCommand::Push(VMSeg::CONSTANT, 40000)), "// push constant 40000\n@40000\nD=A\n".to_owned() + tail);
    assert_eq!(tr.trans_cmd(&VMCommand::Push(VMSeg::CONSTANT, -2147483648)), "// push constant -2147483648\n@-2147483648\nD=A\n".to_owned() + tail);
    assert_eq!(tr.trans_cmd(&VMCommand::Pop(VMSeg::ARGUMENT, 12)),
        "// pop argument 12\n@ARG\nD=M\n@12\nD=D+A\n@R15\nM=D\n@SP\nAM=M-1\nD=M\n@R15\nA=M\nM=D\n");
}

#[test]
fn what_cannot_be_translated() {
    use_check(VMCommand::Push(VMSeg::TEMP, 8), Some(GenError::TempOffset));
    use_check(VMCommand::Push(VMSeg::TEMP, -1), Some(GenError::TempOffset));
    use_check(VMCommand::Pop(VMSeg::TEMP, 8), Some(GenError::TempOffset));
    use_check(VMCommand::Push(VMSeg::POINTER, 2), Some(GenError::PointerOffset));
    use_check(VMCommand::Pop(VMSeg::POINTER, -1), Some(GenError::PointerOffset));
    use_check(VMCommand::Pop(VMSeg::CONSTANT, 0), Some(GenError::PopConstant));
    use_check(VMCommand::Call("f".to_string(), 2147483643), Some(GenError::ArgumentCount));
    use_check(VMCommand::Call("f".to_string(), 2147483642), None);
    use_check(VMCommand::Push(VMSeg::TEMP, 0), None);
    use_check(VMCommand::Push(VMSeg::TEMP, 7), None);
    use_check(VMCommand::Pop(VMSeg::POINTER, 1), None);
    use_check(VMCommand::Push(VMSeg::LOCAL, -3), None);
    use_check(VMCommand::Push(VMSeg::CONSTANT, 2147483647), None);
    use_check(VMCommand::Return, None);
}

fn use_check(cmd: VMCommand, fault: Option<GenError>) {
    let mut tr = Translator::new("Foo");
    match fault {
        Some(e) => {
            assert_eq!(tr.check(&cmd), Err(e));
            assert_eq!(tr.try_trans_cmd(&cmd), Err(e));
        }
        None => {
            assert_eq!(tr.check(&cmd), Ok(()));
            let mut other = Translator::new("Foo");
            assert_eq!(tr.try_trans_cmd(&cmd), Ok(other.trans_cmd(&cmd)));
        }
    }
}

#[test]
fn a_failed_command_uses_no_number() {
    let mut tr = Translator::new("Foo");
    assert_eq!(tr.try_trans_cmd(&VMCommand::Call("f".to_string(), 2147483647)), Err(GenError::ArgumentCount));
    assert!(tr.trans_cmd(&VMCommand::Call("f".to_string(), 1)).contains("(RETURN.0)\n"));
    assert!(tr.trans_cmd(&VMCommand::Call("f".to_string(), 1)).contains("(RETURN.1)\n"));
}

#[test]
fn labels_are_never_used_twice() {
    let mut tr = Translator::new("Foo");
    let mut seen: Vec<String> = Vec::new();
    let mut assembler = Asm::new();
    let ops = [VMOp::EQ, VMOp::ADD, VMOp::LT, VMOp::GT, VMOp::EQ, VMOp::NOT, VMOp::EQ];
    for round in 0..4 {
        for op in ops {
            let mut texts = vec![tr.trans_cmd(&VMCommand::Arithmetic(op))];
            if round % 2 == 1 {
                texts.push(tr.trans_cmd(&VMCommand::Call("f".to_string(), 0)));
            }
            for text in texts {
                for line in text.lines() {
                    if let Ok(Some(Command::Label(name))) = assembler.parse_cmd(line) {
                        assert!(!seen.contains(&name), "{}", name);
                        seen.push(name);
                    }
                }
            }
        }
    }
    assert_eq!(seen.len(), 4 * 5 + 2 * 7);
    assert!(seen.contains(&"TST.19".to_string()));
    assert!(seen.contains(&"RETURN.13".to_string()));
}

#[test]
fn push_constant_leaves_the_number_on_the_stack() {
    for n in [0, 1, 33, 255, 32767, -1, -32768] {
        for sp in [1i16, 256, 2047, 32766] {
            let mut tr = Translator::new("Foo");
            let code = tr.trans_cmd(&VMCommand::Push(VMSeg::CONSTANT, n));
            let mut em = Emul::new();
            em.set_ram(&[(0, sp)]);
            em.run_code(&code, 7).unwrap();
            assert_eq!(em.ram[sp as usize], n as i16);
            assert_eq!(em.ram[0], sp + 1);
        }
    }
}

#[test]
fn push_constant_beyond_a_register_is_not_assembled() {
    let mut tr = Translator::new("Foo");
    let code = tr.trans_cmd(&VMCommand::Push(VMSeg::CONSTANT, 40000));
    let mut em = Emul::new();
    em.set_ram(&[(0, 256)]);
    match em.run_code(&code, 50) {
        Err(vmtrans::emul::RunError::Assembler(e)) => {
            assert_eq!(e.kind, vmtrans::assembler::Fault::UnresolvedSymbol);
            assert_eq!(e.code, "40000");
        }
        other => panic!("{:?}", other),
    }
}

#[test]
fn binary_operations_on_the_edges() {
    let table = [
        (32767i16, 1i16, VMOp::ADD, -32768i16),
        (-32768, 1, VMOp::SUB, 32767),
        (-32768, -32768, VMOp::ADD, 0),
        (100, -100, VMOp::ADD, 0),
        (0x0f0f, 0x00ff, VMOp::AND, 0x000f),
        (0x0f0f, 0x00ff, VMOp::OR, 0x0fff),
        (-1, 0, VMOp::AND, 0),
        (-1, 0, VMOp::OR, -1),
        (5, 5, VMOp::EQ, -1),
        (-32768, 32767, VMOp::EQ, 0),
        (-5, 3, VMOp::LT, -1),
        (3, -5, VMOp::LT, 0),
        (3, 3, VMOp::LT, 0),
        (3, 3, VMOp::GT, 0),
        (3, -5, VMOp::GT, -1),
    ];
    for (a, b, op, expected) in table {
        let mut tr = Translator::new("foo");
        let code = tr.trans_cmd(&VMCommand::Arithmetic(op));
        let mut em = Emul::new();
        em.set_ram(&[(0, 3), (1, a), (2, b)]);
        em.run_code(&code, 14).unwrap();
        assert_eq!(em.ram[0], 2);
        assert_eq!(em.ram[1], expected);
        assert_eq!(em.ram[2], b);
    }
}

#[test]
fn unary_operations_on_the_edges() {
    for (a, op, expected) in [(0i16, VMOp::NEG, 0i16), (-32768, VMOp::NEG, -32768), (32767, VMOp::NEG, -32767), (0, VMOp::NOT, -1), (0x00ff, VMOp::NOT, -256)] {
        let mut tr = Translator::new("foo");
        let code = tr.trans_cmd(&VMCommand::Arithmetic(op));
        let mut em = Emul::new();
        em.set_ram(&[(0, 2), (1, a)]);
        em.run_code(&code, 3).unwrap();
        assert_eq!(em.ram[0], 2);
        assert_eq!(em.ram[1], expected);
    }
}

#[test]
fn static_variables_belong_to_their_file() {
    let mut a = Translator::new("A");
    let mut b = Translator::new("B");
    let code = a.trans_cmd(&VMCommand::Push(VMSeg::CONSTANT, 11))
        + &a.trans_cmd(&VMCommand::Pop(VMSeg::STATIC, 3))
        + &b.trans_cmd(&VMCommand::Push(VMSeg::CONSTANT, 22))
        + &b.trans_cmd(&VMCommand::Pop(VMSeg::STATIC, 3))
        + &a.trans_cmd(&VMCommand::Push(VMSeg::STATIC, 3))
        + "(A.3)\n(B.3)\n";
    assert!(code.contains("@A.3\n") && code.contains("@B.3\n"));
    let mut assembler = Asm::new();
    assert!(assembler.parse_code_str(&code).is_ok());
}

#[test]
fn if_goto_jumps_on_what_is_not_zero() {
    for (top, expected) in [(0i16, 1i16), (-1, 0), (7, 0)] {
        let mut tr = Translator::new("foo");
        let code = tr.trans_cmd(&VMCommand::IfGoto("SKIP".to_string()))
            + "@9\nM=1\n"
            + &tr.trans_cmd(&VMCommand::Label("SKIP".to_string()));
        let mut em = Emul::new();
        em.set_ram(&[(0, 257), (256, top)]);
        em.run_code(&code, 50).unwrap();
        assert_eq!(em.ram[0], 256);
        assert_eq!(em.ram[9], expected);
    }
}

#[test]
fn the_assembler_reads_back_what_the_translator_writes() {
    use_read_back(VMCommand::Arithmetic(VMOp::NEG), vec![
        Command::A(0),
        Command::C(Dest::A, Comp::MMinusOne, Jump::Null),
        Command::C(Dest::M, Comp::MinusM, Jump::Null),
    ]);
    use_read_back(VMCommand::Goto("SP".to_string()), vec![
        Command::A(0),
        Command::C(Dest::Null, Comp::Zero, Jump::JMP),
    ]);
    use_read_back(VMCommand::Push(VMSeg::POINTER, 0), vec![
        Command::A(3),
        Command::C(Dest::D, Comp::M, Jump::Null),
        Command::A(0),
        Command::C(Dest::A, Comp::M, Jump::Null),
        Command::C(Dest::M, Comp::D, Jump::Null),
        Command::A(0),
        Command::C(Dest::M, Comp::MPlusOne, Jump::Null),
    ]);
}

fn use_read_back(cmd: VMCommand, program: Vec<Command>) {
    let mut tr = Translator::new("foo");
    let mut assembler = Asm::new();
    assert_eq!(assembler.parse_code_str(&tr.trans_cmd(&cmd)), Ok(program));
}

#[test]
fn listing_and_source() {
    let mut out = String::new();
    vmtrans::translator::write_listing(
        &vec![Command::A(7), Command::Label("X".to_string()), Command::C(Dest::D, Comp::NotM, Jump::JEQ)],
        &mut out,
    );
    assert_eq!(out, "@7\n(X)\nD=!M;JEQ\n");
    let mut out = String::from("> ");
    vmtrans::translator::write_source(&VMCommand::Call("f".to_string(), -2), &mut out);
    vmtrans::translator::write_source(&VMCommand::IfGoto("L".to_string()), &mut out);
    assert_eq!(out, "> call f -2if-goto L");
}

fn labels_of(text: &str) -> Vec<String> {
    let assembler = Asm::new();
    let mut out = Vec::new();
    for line in text.lines() {
        if let Ok(Some(Command::Label(name))) = assembler.parse_cmd(line) {
            out.push(name);
        }
    }
    out
}

#[test]
fn the_bootstrap_shares_no_label_with_a_translator() {
    let boot = labels_of(&Translator::gen_bootstrap());
    assert_eq!(boot, vec!["BOOTSTRAP.RETURN".to_string()]);
    let mut tr = Translator::new("Main");
    for _ in 0..12 {
        for cmd in [VMCommand::Call("f".to_string(), 1), VMCommand::Arithmetic(VMOp::EQ)] {
            for name in labels_of(&tr.trans_cmd(&cmd)) {
                assert!(!boot.contains(&name));
            }
        }
    }
}

#[test]
fn the_next_file_goes_on_with_the_numbers() {
    let mut tr = Translator::new("A");
    let mut seen: Vec<String> = Vec::new();
    for file in ["A", "B", "C"] {
        tr.next_file(file);
        let text = tr.trans_cmd(&VMCommand::Arithmetic(VMOp::LT))
            + &tr.trans_cmd(&VMCommand::Call("f".to_string(), 0))
            + &tr.trans_cmd(&VMCommand::Push(VMSeg::STATIC, 2));
        assert!(text.contains(&format!("@{}.2\n", file)));
        for name in labels_of(&text) {
            assert!(!seen.contains(&name), "{}", name);
            seen.push(name);
        }
    }
    assert_eq!(seen, vec!["TST.0", "RETURN.0", "TST.1", "RETURN.1", "TST.2", "RETURN.2"]);
    let whole = Translator::gen_bootstrap() + "(Sys.init)\n(f)\n";
    let mut assembler = Asm::new();
    assert!(assembler.parse_code_str(&whole).is_ok());
}
