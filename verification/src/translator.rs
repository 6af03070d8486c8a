//! The translator from VM commands to assembly text.
//!
//! Each command becomes a block of text on its own: a comment that repeats
//! the command, and under it the instructions that carry it out, one to a
//! line. What the instructions are is stated as a list of commands of the
//! assembler, and the text is that list written out.

use vstd::prelude::*;
use vstd::string::StringExecFns;
use crate::assembler::{Command, CommandView, Comp, Dest, Jump, views};
use crate::decimal::{dec_int, push_int};
use crate::types::{VMCommand, VMCommandView, VMOp, VMSeg};

verus! {

/// The instruction `@name`.
pub open spec fn sym(name: Seq<char>) -> CommandView {
    CommandView::ALabel(name)
}

/// The instruction `@n`. A number that fits no register is written out all
/// the same, and is a symbol to the assembler.
pub open spec fn load(n: int) -> CommandView {
    if i16::MIN <= n <= i16::MAX {
        CommandView::A(n as i16)
    } else {
        CommandView::ALabel(dec_int(n))
    }
}

/// The instruction `dest=comp`.
pub open spec fn assign(dest: Dest, comp: Comp) -> CommandView {
    CommandView::C(dest, comp, Jump::Null)
}

/// The instruction `comp;jump`.
pub open spec fn jump_on(comp: Comp, jump: Jump) -> CommandView {
    CommandView::C(Dest::Null, comp, jump)
}

/// The label that the `n`th comparison of a program jumps to.
pub open spec fn branch_label(n: int) -> Seq<char> {
    "TST."@ + dec_int(n)
}

/// The label at which the `n`th call of a program is resumed.
pub open spec fn return_label(n: int) -> Seq<char> {
    "RETURN."@ + dec_int(n)
}

/// The symbol of a static variable of a file.
pub open spec fn static_name(file: Seq<char>, n: int) -> Seq<char> {
    file + seq!['.'] + dec_int(n)
}

/// Stores D on top of the stack: `*SP = D; SP = SP + 1`.
pub open spec fn push_d() -> Seq<CommandView> {
    seq![
        sym("SP"@),
        assign(Dest::A, Comp::M),
        assign(Dest::M, Comp::D),
        sym("SP"@),
        assign(Dest::M, Comp::MPlusOne),
    ]
}

/// Takes the top of the stack into D: `SP = SP - 1; D = *SP`. A is left at
/// the new top.
pub open spec fn pop_d() -> Seq<CommandView> {
    seq![sym("SP"@), assign(Dest::AM, Comp::MMinusOne), assign(Dest::D, Comp::M)]
}

/// Combines the two topmost values in place of the lower one.
pub open spec fn binary(comp: Comp) -> Seq<CommandView> {
    pop_d() + seq![sym("SP"@), assign(Dest::A, Comp::MMinusOne), assign(Dest::M, comp)]
}

/// Changes the topmost value in place.
pub open spec fn unary(comp: Comp) -> Seq<CommandView> {
    seq![sym("SP"@), assign(Dest::A, Comp::MMinusOne), assign(Dest::M, comp)]
}

/// Compares the two topmost values: their difference goes to D, the lower
/// cell is set to true, and unless the jump is taken on D it is set to
/// false. `label` names the place behind that correction.
pub open spec fn comparison(jump: Jump, label: Seq<char>) -> Seq<CommandView> {
    pop_d() + seq![
        sym("SP"@),
        assign(Dest::AM, Comp::MMinusOne),
        assign(Dest::D, Comp::MMinusD),
        assign(Dest::M, Comp::MinusOne),
        sym(label),
        jump_on(Comp::D, jump),
        sym("SP"@),
        assign(Dest::A, Comp::M),
        assign(Dest::M, Comp::Zero),
        CommandView::Label(label),
        sym("SP"@),
        assign(Dest::M, Comp::MPlusOne),
    ]
}

/// The instructions of an arithmetic command; `n` numbers the comparisons.
pub open spec fn arithmetic(op: VMOp, n: int) -> Seq<CommandView> {
    match op {
        VMOp::ADD => binary(Comp::DPlusM),
        VMOp::SUB => binary(Comp::MMinusD),
        VMOp::AND => binary(Comp::DAndM),
        VMOp::OR => binary(Comp::DOrM),
        VMOp::NEG => unary(Comp::MinusM),
        VMOp::NOT => unary(Comp::NotM),
        VMOp::EQ => comparison(Jump::JEQ, branch_label(n)),
        VMOp::LT => comparison(Jump::JLT, branch_label(n)),
        VMOp::GT => comparison(Jump::JGT, branch_label(n)),
    }
}

/// Loads into D the value that a segment holds at an index.
pub open spec fn fetch(file: Seq<char>, seg: VMSeg, n: int) -> Seq<CommandView> {
    match seg {
        VMSeg::CONSTANT => seq![load(n), assign(Dest::D, Comp::A)],
        VMSeg::LOCAL | VMSeg::ARGUMENT | VMSeg::THIS | VMSeg::THAT => seq![
            load(n),
            assign(Dest::D, Comp::A),
            sym(seg.base_text()),
            assign(Dest::A, Comp::DPlusM),
            assign(Dest::D, Comp::M),
        ],
        VMSeg::TEMP => seq![load(n + 5), assign(Dest::D, Comp::M)],
        VMSeg::POINTER => seq![
            sym(
                if n == 0 {
                    "THIS"@
                } else {
                    "THAT"@
                },
            ),
            assign(Dest::D, Comp::M),
        ],
        VMSeg::STATIC => seq![sym(static_name(file, n)), assign(Dest::D, Comp::M)],
    }
}

/// Stores in the scratch register R15 the address of a segment's cell at an
/// index.
pub open spec fn locate(file: Seq<char>, seg: VMSeg, n: int) -> Seq<CommandView> {
    match seg {
        VMSeg::LOCAL | VMSeg::ARGUMENT | VMSeg::THIS | VMSeg::THAT => seq![
            sym(seg.base_text()),
            assign(Dest::D, Comp::M),
            load(n),
            assign(Dest::D, Comp::DPlusA),
            sym("R15"@),
            assign(Dest::M, Comp::D),
        ],
        VMSeg::TEMP => seq![
            load(5),
            assign(Dest::D, Comp::A),
            load(n),
            assign(Dest::D, Comp::DPlusA),
            sym("R15"@),
            assign(Dest::M, Comp::D),
        ],
        VMSeg::POINTER => seq![
            sym(
                if n == 0 {
                    "THIS"@
                } else {
                    "THAT"@
                },
            ),
            assign(Dest::D, Comp::A),
            sym("R15"@),
            assign(Dest::M, Comp::D),
        ],
        _ => seq![
            sym(static_name(file, n)),
            assign(Dest::D, Comp::A),
            sym("R15"@),
            assign(Dest::M, Comp::D),
        ],
    }
}

/// Stores D in the cell whose address R15 holds.
pub open spec fn store_at_r15() -> Seq<CommandView> {
    seq![sym("R15"@), assign(Dest::A, Comp::M), assign(Dest::M, Comp::D)]
}

/// Pushes the value of a register.
pub open spec fn save(reg: Seq<char>) -> Seq<CommandView> {
    seq![sym(reg), assign(Dest::D, Comp::M)] + push_d()
}

/// Pops the top of the stack into a register.
pub open spec fn restore(reg: Seq<char>) -> Seq<CommandView> {
    pop_d() + seq![sym(reg), assign(Dest::M, Comp::D)]
}

/// A call: the return address and the caller's LCL, ARG, THIS and THAT are
/// pushed in this order, ARG is set to the first of the `n` arguments and
/// LCL to the top of the stack, and the callee is jumped to. `ret` is the
/// label that names the return address, which lies behind the jump.
pub open spec fn call(name: Seq<char>, n: int, ret: Seq<char>) -> Seq<CommandView> {
    seq![sym(ret), assign(Dest::D, Comp::A)] + push_d() + save("LCL"@) + save("ARG"@) + save(
        "THIS"@,
    ) + save("THAT"@) + seq![
        sym("SP"@),
        assign(Dest::D, Comp::M),
        load(n + 5),
        assign(Dest::D, Comp::DMinusA),
        sym("ARG"@),
        assign(Dest::M, Comp::D),
        sym("SP"@),
        assign(Dest::D, Comp::M),
        sym("LCL"@),
        assign(Dest::M, Comp::D),
        sym(name),
        jump_on(Comp::Zero, Jump::JMP),
        CommandView::Label(ret),
    ]
}

/// Sets `k` cells from A on to zero and leaves A behind them.
pub open spec fn zero_cells(k: int) -> Seq<CommandView>
    decreases k,
{
    if k <= 0 {
        Seq::empty()
    } else {
        zero_cells(k - 1) + seq![assign(Dest::M, Comp::Zero), assign(Dest::A, Comp::APlusOne)]
    }
}

/// The entry of a function: its label, then `k` local variables set to zero
/// on top of the stack.
pub open spec fn function(name: Seq<char>, k: int) -> Seq<CommandView> {
    seq![CommandView::Label(name), sym("SP"@), assign(Dest::A, Comp::M)] + zero_cells(k) + seq![
        assign(Dest::D, Comp::A),
        sym("SP"@),
        assign(Dest::M, Comp::D),
    ]
}

/// A return: the topmost value goes to the cell that ARG addresses, R15
/// keeps ARG, the stack is cut down to LCL, THAT, THIS, ARG and LCL are
/// popped in this order, the return address is popped into R14, SP is set
/// just behind the returned value, and the return address is jumped to.
pub open spec fn ret() -> Seq<CommandView> {
    pop_d() + seq![
        sym("ARG"@),
        assign(Dest::A, Comp::M),
        assign(Dest::M, Comp::D),
        sym("ARG"@),
        assign(Dest::D, Comp::M),
        sym("R15"@),
        assign(Dest::M, Comp::D),
        sym("LCL"@),
        assign(Dest::D, Comp::M),
        sym("SP"@),
        assign(Dest::M, Comp::D),
    ] + restore("THAT"@) + restore("THIS"@) + restore("ARG"@) + restore("LCL"@) + restore(
        "R14"@,
    ) + seq![
        sym("R15"@),
        assign(Dest::D, Comp::M),
        sym("SP"@),
        assign(Dest::M, Comp::DPlusOne),
        sym("R14"@),
        assign(Dest::A, Comp::M),
        jump_on(Comp::Zero, Jump::JMP),
    ]
}

/// What a translator remembers between commands: the name of the source
/// file, and how many comparisons and how many calls it has translated.
pub struct TranslatorView {
    pub file_name: Seq<char>,
    pub label_num: int,
    pub return_num: int,
}

/// Why a command cannot be translated.
#[derive(Debug, PartialEq, Eq, Copy, Clone, Structural)]
pub enum GenError {
    /// `temp` has the cells 0 to 7.
    TempOffset,
    /// `pointer` has the cells 0 and 1.
    PointerOffset,
    /// Nothing can be popped into `constant`.
    PopConstant,
    /// With the five cells of the frame, the arguments of a call are more
    /// than a machine integer counts.
    ArgumentCount,
    /// The comparisons or the calls are more than a machine integer counts.
    LabelsExhausted,
}

impl TranslatorView {
    /// The instructions that carry out a command.
    pub open spec fn instructions(self, cmd: VMCommandView) -> Seq<CommandView> {
        match cmd {
            VMCommandView::Arithmetic(op) => arithmetic(op, self.label_num),
            VMCommandView::Push(seg, n) => fetch(self.file_name, seg, n as int) + push_d(),
            VMCommandView::Pop(seg, n) => locate(self.file_name, seg, n as int) + pop_d()
                + store_at_r15(),
            VMCommandView::Label(name) => seq![CommandView::Label(name)],
            VMCommandView::Goto(name) => seq![sym(name), jump_on(Comp::Zero, Jump::JMP)],
            VMCommandView::IfGoto(name) => pop_d() + seq![sym(name), jump_on(Comp::D, Jump::JNE)],
            VMCommandView::Call(name, n) => call(name, n as int, return_label(self.return_num)),
            VMCommandView::Function(name, k) => function(name, k as int),
            VMCommandView::Return => ret(),
        }
    }

    /// What the translator remembers after a command: a comparison and a
    /// call each use up one number.
    pub open spec fn after(self, cmd: VMCommandView) -> TranslatorView {
        match cmd {
            VMCommandView::Arithmetic(op) => if op.is_comparison() {
                TranslatorView { label_num: self.label_num + 1, ..self }
            } else {
                self
            },
            VMCommandView::Call(_, _) => TranslatorView {
                return_num: self.return_num + 1,
                ..self
            },
            _ => self,
        }
    }

    /// What is wrong with a command, if anything is.
    pub open spec fn check(self, cmd: VMCommandView) -> Option<GenError> {
        match cmd {
            VMCommandView::Arithmetic(op) => if op.is_comparison() && self.label_num
                >= i32::MAX {
                Some(GenError::LabelsExhausted)
            } else {
                None
            },
            VMCommandView::Push(seg, n) => offset_fault(seg, n as int),
            VMCommandView::Pop(seg, n) => if seg == VMSeg::CONSTANT {
                Some(GenError::PopConstant)
            } else {
                offset_fault(seg, n as int)
            },
            VMCommandView::Call(_, n) => if n > i32::MAX - 5 {
                Some(GenError::ArgumentCount)
            } else if self.return_num >= i32::MAX {
                Some(GenError::LabelsExhausted)
            } else {
                None
            },
            _ => None,
        }
    }

    /// The block of assembly text for a command: a comment with the
    /// command, then its instructions.
    pub open spec fn block(self, cmd: VMCommandView) -> Seq<char> {
        seq!['/', '/', ' '] + cmd.source() + seq!['\n'] + listing(self.instructions(cmd))
    }
}

/// What is wrong with an index into a segment, if anything is.
pub open spec fn offset_fault(seg: VMSeg, n: int) -> Option<GenError> {
    if seg == VMSeg::TEMP && !(0 <= n <= 7) {
        Some(GenError::TempOffset)
    } else if seg == VMSeg::POINTER && !(0 <= n <= 1) {
        Some(GenError::PointerOffset)
    } else {
        None
    }
}

impl VMCommandView {
    /// The command as it is written in VM source.
    pub open spec fn source(self) -> Seq<char> {
        match self {
            VMCommandView::Arithmetic(op) => op.text(),
            VMCommandView::Push(seg, n) => "push "@ + seg.text() + seq![' '] + dec_int(n as int),
            VMCommandView::Pop(seg, n) => "pop "@ + seg.text() + seq![' '] + dec_int(n as int),
            VMCommandView::Label(name) => "label "@ + name,
            VMCommandView::Goto(name) => "goto "@ + name,
            VMCommandView::IfGoto(name) => "if-goto "@ + name,
            VMCommandView::Call(name, n) => "call "@ + name + seq![' '] + dec_int(n as int),
            VMCommandView::Function(name, n) => "function "@ + name + seq![' '] + dec_int(
                n as int,
            ),
            VMCommandView::Return => "return"@,
        }
    }
}

/// A list of commands as assembly text, one to a line.
pub open spec fn listing(cmds: Seq<CommandView>) -> Seq<char>
    decreases cmds.len(),
{
    if cmds.len() == 0 {
        Seq::empty()
    } else {
        listing(cmds.drop_last()) + cmds.last().text() + seq!['\n']
    }
}

/// The label at which the call of the bootstrap would be resumed. No
/// translator makes this label up.
pub open spec fn bootstrap_label() -> Seq<char> {
    "BOOTSTRAP.RETURN"@
}

/// The prologue of a whole program: SP is set to 256, the first cell of the
/// stack, and `Sys.init` is called without arguments.
pub open spec fn bootstrap() -> Seq<char> {
    listing(stack_start()) + seq!['/', '/', ' '] + VMCommandView::Call("Sys.init"@, 0).source()
        + seq!['\n'] + listing(call("Sys.init"@, 0, bootstrap_label()))
}

/// Sets SP to 256.
pub open spec fn stack_start() -> Seq<CommandView> {
    seq![CommandView::A(256), assign(Dest::D, Comp::A), sym("SP"@), assign(Dest::M, Comp::D)]
}


fn sym_cmd(name: &str) -> (c: Command)
    ensures
        c@ == sym(name@),
{
    Command::ALabel(String::from_str(name))
}

fn name_cmd(name: &String) -> (c: Command)
    ensures
        c@ == sym(name@),
{
    Command::ALabel(name.clone())
}

fn mark_cmd(name: &String) -> (c: Command)
    ensures
        c@ == CommandView::Label(name@),
{
    Command::Label(name.clone())
}

fn load_cmd(n: i32) -> (c: Command)
    ensures
        c@ == load(n as int),
{
    if -32768 <= n && n <= 32767 {
        Command::A(n as i16)
    } else {
        let mut s = String::new();
        push_int(&mut s, n);
        assert(s@ == dec_int(n as int));
        Command::ALabel(s)
    }
}

fn set_cmd(dest: Dest, comp: Comp) -> (c: Command)
    ensures
        c@ == assign(dest, comp),
{
    Command::C(dest, comp, Jump::Null)
}

fn jump_cmd(comp: Comp, jump: Jump) -> (c: Command)
    ensures
        c@ == jump_on(comp, jump),
{
    Command::C(Dest::Null, comp, jump)
}

fn join(a: Vec<Command>, b: Vec<Command>) -> (r: Vec<Command>)
    ensures
        views(r@) == views(a@) + views(b@),
{
    let mut r = a;
    let mut rest = b;
    r.append(&mut rest);
    assert(views(r@) == views(a@) + views(b@));
    r
}

fn gen_push_d() -> (r: Vec<Command>)
    ensures
        views(r@) == push_d(),
{
    let r = vec![
        sym_cmd("SP"),
        set_cmd(Dest::A, Comp::M),
        set_cmd(Dest::M, Comp::D),
        sym_cmd("SP"),
        set_cmd(Dest::M, Comp::MPlusOne),
    ];
    assert(views(r@) == push_d());
    r
}

fn gen_pop_d() -> (r: Vec<Command>)
    ensures
        views(r@) == pop_d(),
{
    let r = vec![sym_cmd("SP"), set_cmd(Dest::AM, Comp::MMinusOne), set_cmd(Dest::D, Comp::M)];
    assert(views(r@) == pop_d());
    r
}


fn gen_binary(comp: Comp) -> (r: Vec<Command>)
    ensures
        views(r@) == binary(comp),
{
    let tail = vec![sym_cmd("SP"), set_cmd(Dest::A, Comp::MMinusOne), set_cmd(Dest::M, comp)];
    assert(views(tail@) == seq![
        sym("SP"@),
        assign(Dest::A, Comp::MMinusOne),
        assign(Dest::M, comp),
    ]);
    join(gen_pop_d(), tail)
}

fn gen_unary(comp: Comp) -> (r: Vec<Command>)
    ensures
        views(r@) == unary(comp),
{
    let r = vec![sym_cmd("SP"), set_cmd(Dest::A, Comp::MMinusOne), set_cmd(Dest::M, comp)];
    assert(views(r@) == unary(comp));
    r
}

fn gen_comparison(jump: Jump, label: &String) -> (r: Vec<Command>)
    ensures
        views(r@) == comparison(jump, label@),
{
    let tail = vec![
        sym_cmd("SP"),
        set_cmd(Dest::AM, Comp::MMinusOne),
        set_cmd(Dest::D, Comp::MMinusD),
        set_cmd(Dest::M, Comp::MinusOne),
        name_cmd(label),
        jump_cmd(Comp::D, jump),
        sym_cmd("SP"),
        set_cmd(Dest::A, Comp::M),
        set_cmd(Dest::M, Comp::Zero),
        mark_cmd(label),
        sym_cmd("SP"),
        set_cmd(Dest::M, Comp::MPlusOne),
    ];
    assert(views(tail@) == seq![
        sym("SP"@),
        assign(Dest::AM, Comp::MMinusOne),
        assign(Dest::D, Comp::MMinusD),
        assign(Dest::M, Comp::MinusOne),
        sym(label@),
        jump_on(Comp::D, jump),
        sym("SP"@),
        assign(Dest::A, Comp::M),
        assign(Dest::M, Comp::Zero),
        CommandView::Label(label@),
        sym("SP"@),
        assign(Dest::M, Comp::MPlusOne),
    ]);
    join(gen_pop_d(), tail)
}

fn numbered(prefix: &str, n: i32) -> (r: String)
    ensures
        r@ == prefix@ + dec_int(n as int),
{
    let mut r = String::from_str(prefix);
    push_int(&mut r, n);
    r
}

fn gen_arithmetic(op: VMOp, n: i32) -> (r: Vec<Command>)
    ensures
        views(r@) == arithmetic(op, n as int),
{
    match op {
        VMOp::ADD => gen_binary(Comp::DPlusM),
        VMOp::SUB => gen_binary(Comp::MMinusD),
        VMOp::AND => gen_binary(Comp::DAndM),
        VMOp::OR => gen_binary(Comp::DOrM),
        VMOp::NEG => gen_unary(Comp::MinusM),
        VMOp::NOT => gen_unary(Comp::NotM),
        VMOp::EQ => gen_comparison(Jump::JEQ, &numbered("TST.", n)),
        VMOp::LT => gen_comparison(Jump::JLT, &numbered("TST.", n)),
        VMOp::GT => gen_comparison(Jump::JGT, &numbered("TST.", n)),
    }
}

fn static_cmd(file: &String, n: i32) -> (c: Command)
    ensures
        c@ == sym(static_name(file@, n as int)),
{
    let mut name = file.clone();
    name.push('.');
    push_int(&mut name, n);
    assert(name@ == static_name(file@, n as int));
    Command::ALabel(name)
}

fn gen_fetch(file: &String, seg: VMSeg, n: i32) -> (r: Vec<Command>)
    requires
        offset_fault(seg, n as int) is None,
    ensures
        views(r@) == fetch(file@, seg, n as int),
{
    let r = match seg {
        VMSeg::CONSTANT => vec![load_cmd(n), set_cmd(Dest::D, Comp::A)],
        VMSeg::LOCAL | VMSeg::ARGUMENT | VMSeg::THIS | VMSeg::THAT => vec![
            load_cmd(n),
            set_cmd(Dest::D, Comp::A),
            sym_cmd(seg.base_var_str()),
            set_cmd(Dest::A, Comp::DPlusM),
            set_cmd(Dest::D, Comp::M),
        ],
        VMSeg::TEMP => vec![load_cmd(n + 5), set_cmd(Dest::D, Comp::M)],
        VMSeg::POINTER => vec![
            sym_cmd(
                if n == 0 {
                    "THIS"
                } else {
                    "THAT"
                },
            ),
            set_cmd(Dest::D, Comp::M),
        ],
        VMSeg::STATIC => vec![static_cmd(file, n), set_cmd(Dest::D, Comp::M)],
    };
    assert(views(r@) == fetch(file@, seg, n as int));
    r
}

fn gen_locate(file: &String, seg: VMSeg, n: i32) -> (r: Vec<Command>)
    requires
        seg != VMSeg::CONSTANT,
    ensures
        views(r@) == locate(file@, seg, n as int),
{
    let r = match seg {
        VMSeg::LOCAL | VMSeg::ARGUMENT | VMSeg::THIS | VMSeg::THAT => vec![
            sym_cmd(seg.base_var_str()),
            set_cmd(Dest::D, Comp::M),
            load_cmd(n),
            set_cmd(Dest::D, Comp::DPlusA),
            sym_cmd("R15"),
            set_cmd(Dest::M, Comp::D),
        ],
        VMSeg::TEMP => vec![
            load_cmd(5),
            set_cmd(Dest::D, Comp::A),
            load_cmd(n),
            set_cmd(Dest::D, Comp::DPlusA),
            sym_cmd("R15"),
            set_cmd(Dest::M, Comp::D),
        ],
        VMSeg::POINTER => vec![
            sym_cmd(
                if n == 0 {
                    "THIS"
                } else {
                    "THAT"
                },
            ),
            set_cmd(Dest::D, Comp::A),
            sym_cmd("R15"),
            set_cmd(Dest::M, Comp::D),
        ],
        _ => vec![
            static_cmd(file, n),
            set_cmd(Dest::D, Comp::A),
            sym_cmd("R15"),
            set_cmd(Dest::M, Comp::D),
        ],
    };
    assert(views(r@) == locate(file@, seg, n as int));
    r
}

fn gen_store_at_r15() -> (r: Vec<Command>)
    ensures
        views(r@) == store_at_r15(),
{
    let r = vec![sym_cmd("R15"), set_cmd(Dest::A, Comp::M), set_cmd(Dest::M, Comp::D)];
    assert(views(r@) == store_at_r15());
    r
}

fn gen_save(reg: &str) -> (r: Vec<Command>)
    ensures
        views(r@) == save(reg@),
{
    let head = vec![sym_cmd(reg), set_cmd(Dest::D, Comp::M)];
    assert(views(head@) == seq![sym(reg@), assign(Dest::D, Comp::M)]);
    join(head, gen_push_d())
}

fn gen_restore(reg: &str) -> (r: Vec<Command>)
    ensures
        views(r@) == restore(reg@),
{
    let tail = vec![sym_cmd(reg), set_cmd(Dest::M, Comp::D)];
    assert(views(tail@) == seq![sym(reg@), assign(Dest::M, Comp::D)]);
    join(gen_pop_d(), tail)
}

fn gen_call(name: &String, n: i32, ret: &String) -> (r: Vec<Command>)
    requires
        n <= i32::MAX - 5,
    ensures
        views(r@) == call(name@, n as int, ret@),
{
    let head = vec![name_cmd(ret), set_cmd(Dest::D, Comp::A)];
    assert(views(head@) == seq![sym(ret@), assign(Dest::D, Comp::A)]);
    let tail = vec![
        sym_cmd("SP"),
        set_cmd(Dest::D, Comp::M),
        load_cmd(n + 5),
        set_cmd(Dest::D, Comp::DMinusA),
        sym_cmd("ARG"),
        set_cmd(Dest::M, Comp::D),
        sym_cmd("SP"),
        set_cmd(Dest::D, Comp::M),
        sym_cmd("LCL"),
        set_cmd(Dest::M, Comp::D),
        name_cmd(name),
        jump_cmd(Comp::Zero, Jump::JMP),
        mark_cmd(ret),
    ];
    assert(views(tail@) == seq![
        sym("SP"@),
        assign(Dest::D, Comp::M),
        load(n + 5),
        assign(Dest::D, Comp::DMinusA),
        sym("ARG"@),
        assign(Dest::M, Comp::D),
        sym("SP"@),
        assign(Dest::D, Comp::M),
        sym("LCL"@),
        assign(Dest::M, Comp::D),
        sym(name@),
        jump_on(Comp::Zero, Jump::JMP),
        CommandView::Label(ret@),
    ]);
    let r = join(head, gen_push_d());
    let r = join(r, gen_save("LCL"));
    let r = join(r, gen_save("ARG"));
    let r = join(r, gen_save("THIS"));
    let r = join(r, gen_save("THAT"));
    join(r, tail)
}

fn gen_function(name: &String, k: i32) -> (r: Vec<Command>)
    ensures
        views(r@) == function(name@, k as int),
{
    let mut cells: Vec<Command> = Vec::new();
    let mut i: i32 = 0;
    assert(views(cells@) == zero_cells(0));
    while i < k
        invariant
            0 <= i,
            k >= 0 ==> i <= k,
            k < 0 ==> i == 0,
            views(cells@) == zero_cells(i as int),
        decreases k - i,
    {
        let pair = vec![set_cmd(Dest::M, Comp::Zero), set_cmd(Dest::A, Comp::APlusOne)];
        assert(views(pair@) == seq![assign(Dest::M, Comp::Zero), assign(Dest::A, Comp::APlusOne)]);
        cells = join(cells, pair);
        i += 1;
    }
    assert(views(cells@) == zero_cells(k as int));
    let head = vec![mark_cmd(name), sym_cmd("SP"), set_cmd(Dest::A, Comp::M)];
    assert(views(head@) == seq![CommandView::Label(name@), sym("SP"@), assign(Dest::A, Comp::M)]);
    let tail = vec![set_cmd(Dest::D, Comp::A), sym_cmd("SP"), set_cmd(Dest::M, Comp::D)];
    assert(views(tail@) == seq![assign(Dest::D, Comp::A), sym("SP"@), assign(Dest::M, Comp::D)]);
    join(join(head, cells), tail)
}

fn gen_ret() -> (r: Vec<Command>)
    ensures
        views(r@) == ret(),
{
    let head = vec![
        sym_cmd("ARG"),
        set_cmd(Dest::A, Comp::M),
        set_cmd(Dest::M, Comp::D),
        sym_cmd("ARG"),
        set_cmd(Dest::D, Comp::M),
        sym_cmd("R15"),
        set_cmd(Dest::M, Comp::D),
        sym_cmd("LCL"),
        set_cmd(Dest::D, Comp::M),
        sym_cmd("SP"),
        set_cmd(Dest::M, Comp::D),
    ];
    assert(views(head@) == seq![
        sym("ARG"@),
        assign(Dest::A, Comp::M),
        assign(Dest::M, Comp::D),
        sym("ARG"@),
        assign(Dest::D, Comp::M),
        sym("R15"@),
        assign(Dest::M, Comp::D),
        sym("LCL"@),
        assign(Dest::D, Comp::M),
        sym("SP"@),
        assign(Dest::M, Comp::D),
    ]);
    let tail = vec![
        sym_cmd("R15"),
        set_cmd(Dest::D, Comp::M),
        sym_cmd("SP"),
        set_cmd(Dest::M, Comp::DPlusOne),
        sym_cmd("R14"),
        set_cmd(Dest::A, Comp::M),
        jump_cmd(Comp::Zero, Jump::JMP),
    ];
    assert(views(tail@) == seq![
        sym("R15"@),
        assign(Dest::D, Comp::M),
        sym("SP"@),
        assign(Dest::M, Comp::DPlusOne),
        sym("R14"@),
        assign(Dest::A, Comp::M),
        jump_on(Comp::Zero, Jump::JMP),
    ]);
    let r = join(gen_pop_d(), head);
    let r = join(r, gen_restore("THAT"));
    let r = join(r, gen_restore("THIS"));
    let r = join(r, gen_restore("ARG"));
    let r = join(r, gen_restore("LCL"));
    let r = join(r, gen_restore("R14"));
    join(r, tail)
}

/// Appends a list of commands as assembly text, one to a line.
pub fn write_listing(cmds: &Vec<Command>, out: &mut String)
    ensures
        final(out)@ == old(out)@ + listing(views(cmds@)),
{
    let mut i: usize = 0;
    assert(views(cmds@).take(0).len() == 0);
    while i < cmds.len()
        invariant
            i <= cmds.len(),
            out@ == old(out)@ + listing(views(cmds@).take(i as int)),
        decreases cmds.len() - i,
    {
        let ghost upto = views(cmds@).take(i + 1);
        assert(upto.drop_last() == views(cmds@).take(i as int));
        assert(upto.last() == cmds[i as int]@);
        cmds[i].write_to(out);
        out.push('\n');
        assert(out@ == old(out)@ + listing(upto));
        i += 1;
    }
    assert(views(cmds@).take(cmds.len() as int) == views(cmds@));
}

/// Appends a command as it is written in VM source.
pub fn write_source(cmd: &VMCommand, out: &mut String)
    ensures
        final(out)@ == old(out)@ + cmd@.source(),
{
    match cmd {
        VMCommand::Arithmetic(op) => {
            out.append(op.as_str());
        },
        VMCommand::Push(seg, n) => {
            out.append("push ");
            out.append(seg.as_str());
            out.push(' ');
            push_int(out, *n);
            assert(out@ == old(out)@ + cmd@.source());
        },
        VMCommand::Pop(seg, n) => {
            out.append("pop ");
            out.append(seg.as_str());
            out.push(' ');
            push_int(out, *n);
            assert(out@ == old(out)@ + cmd@.source());
        },
        VMCommand::Label(name) => {
            out.append("label ");
            out.append(name.as_str());
            assert(out@ == old(out)@ + cmd@.source());
        },
        VMCommand::Goto(name) => {
            out.append("goto ");
            out.append(name.as_str());
            assert(out@ == old(out)@ + cmd@.source());
        },
        VMCommand::IfGoto(name) => {
            out.append("if-goto ");
            out.append(name.as_str());
            assert(out@ == old(out)@ + cmd@.source());
        },
        VMCommand::Call(name, n) => {
            out.append("call ");
            out.append(name.as_str());
            out.push(' ');
            push_int(out, *n);
            assert(out@ == old(out)@ + cmd@.source());
        },
        VMCommand::Function(name, n) => {
            out.append("function ");
            out.append(name.as_str());
            out.push(' ');
            push_int(out, *n);
            assert(out@ == old(out)@ + cmd@.source());
        },
        VMCommand::Return => {
            out.append("return");
        },
    }
}

/// The translator of one source file.
pub struct Translator {
    file_name: String,
    label_num: i32,
    return_num: i32,
}

impl View for Translator {
    type V = TranslatorView;

    closed spec fn view(&self) -> TranslatorView {
        TranslatorView {
            file_name: self.file_name@,
            label_num: self.label_num as int,
            return_num: self.return_num as int,
        }
    }
}

impl Translator {
    /// A translator for the file of the given name, which has translated
    /// nothing yet.
    pub fn new(fname: &str) -> (r: Translator)
        ensures
            r@ == (TranslatorView { file_name: fname@, label_num: 0, return_num: 0 }),
    {
        Translator { file_name: String::from_str(fname), label_num: 0, return_num: 0 }
    }

    /// The prologue of a whole program.
    pub fn gen_bootstrap() -> (r: String)
        ensures
            r@ == bootstrap(),
    {
        let head = vec![
            Command::A(256),
            set_cmd(Dest::D, Comp::A),
            sym_cmd("SP"),
            set_cmd(Dest::M, Comp::D),
        ];
        assert(views(head@) == stack_start());
        let cmd = VMCommand::Call(String::from_str("Sys.init"), 0);
        let body = gen_call(
            &String::from_str("Sys.init"),
            0,
            &String::from_str("BOOTSTRAP.RETURN"),
        );
        let mut r = String::new();
        write_listing(&head, &mut r);
        r.append("// ");
        proof {
            reveal_strlit("// ");
            assert("// "@ == seq!['/', '/', ' ']);
        }
        write_source(&cmd, &mut r);
        r.push('\n');
        write_listing(&body, &mut r);
        assert(r@ == bootstrap());
        r
    }

    /// Goes on to the next source file of a program. The numbers of the
    /// comparisons and of the calls go on from where they are, so that no
    /// label of one file is a label of another.
    pub fn next_file(&mut self, fname: &str)
        ensures
            final(self)@ == (TranslatorView { file_name: fname@, ..old(self)@ }),
    {
        self.file_name = String::from_str(fname);
    }

    fn get_return_address(&mut self) -> (r: String)
        requires
            old(self)@.return_num < i32::MAX,
        ensures
            r@ == return_label(old(self)@.return_num),
            final(self)@ == (TranslatorView {
                return_num: old(self)@.return_num + 1,
                ..old(self)@
            }),
    {
        self.return_num += 1;
        numbered("RETURN.", self.return_num - 1)
    }

    /// Whether a command can be translated, and why not if it cannot.
    pub fn check(&self, cmd: &VMCommand) -> (r: Result<(), GenError>)
        ensures
            match self@.check(cmd@) {
                None => r is Ok,
                Some(e) => r == Err::<(), GenError>(e),
            },
    {
        match cmd {
            VMCommand::Arithmetic(op) => {
                if matches!(op, VMOp::EQ | VMOp::LT | VMOp::GT) && self.label_num == i32::MAX {
                    Err(GenError::LabelsExhausted)
                } else {
                    Ok(())
                }
            },
            VMCommand::Push(seg, n) => check_offset(*seg, *n),
            VMCommand::Pop(seg, n) => {
                if matches!(seg, VMSeg::CONSTANT) {
                    Err(GenError::PopConstant)
                } else {
                    check_offset(*seg, *n)
                }
            },
            VMCommand::Call(_, n) => {
                if *n > i32::MAX - 5 {
                    Err(GenError::ArgumentCount)
                } else if self.return_num == i32::MAX {
                    Err(GenError::LabelsExhausted)
                } else {
                    Ok(())
                }
            },
            _ => Ok(()),
        }
    }

    fn gen(&mut self, cmd: &VMCommand) -> (r: Vec<Command>)
        requires
            old(self)@.check(cmd@) is None,
        ensures
            views(r@) == old(self)@.instructions(cmd@),
            final(self)@ == old(self)@.after(cmd@),
    {
        match cmd {
            VMCommand::Arithmetic(op) => {
                let r = gen_arithmetic(*op, self.label_num);
                if matches!(op, VMOp::EQ | VMOp::LT | VMOp::GT) {
                    self.label_num += 1;
                }
                r
            },
            VMCommand::Push(seg, n) => join(gen_fetch(&self.file_name, *seg, *n), gen_push_d()),
            VMCommand::Pop(seg, n) => join(
                join(gen_locate(&self.file_name, *seg, *n), gen_pop_d()),
                gen_store_at_r15(),
            ),
            VMCommand::Label(name) => {
                let r = vec![mark_cmd(name)];
                assert(views(r@) == seq![CommandView::Label(name@)]);
                r
            },
            VMCommand::Goto(name) => {
                let r = vec![name_cmd(name), jump_cmd(Comp::Zero, Jump::JMP)];
                assert(views(r@) == seq![sym(name@), jump_on(Comp::Zero, Jump::JMP)]);
                r
            },
            VMCommand::IfGoto(name) => {
                let tail = vec![name_cmd(name), jump_cmd(Comp::D, Jump::JNE)];
                assert(views(tail@) == seq![sym(name@), jump_on(Comp::D, Jump::JNE)]);
                join(gen_pop_d(), tail)
            },
            VMCommand::Call(name, n) => {
                let ret = self.get_return_address();
                gen_call(name, *n, &ret)
            },
            VMCommand::Function(name, k) => gen_function(name, *k),
            VMCommand::Return => gen_ret(),
        }
    }

    /// Translates a command that can be translated.
    pub fn trans_cmd(&mut self, cmd: &VMCommand) -> (r: String)
        requires
            old(self)@.check(cmd@) is None,
        ensures
            r@ == old(self)@.block(cmd@),
            final(self)@ == old(self)@.after(cmd@),
    {
        let mut r = String::new();
        r.append("// ");
        proof {
            reveal_strlit("// ");
            assert(r@ == seq!['/', '/', ' ']);
        }
        write_source(cmd, &mut r);
        r.push('\n');
        let cmds = self.gen(cmd);
        write_listing(&cmds, &mut r);
        r
    }

    /// Translates a command, or says why it cannot be translated; the
    /// translator then remembers what it did before.
    pub fn try_trans_cmd(&mut self, cmd: &VMCommand) -> (r: Result<String, GenError>)
        ensures
            match old(self)@.check(cmd@) {
                None => r is Ok && r->Ok_0@ == old(self)@.block(cmd@) && final(self)@ == old(
                    self,
                )@.after(cmd@),
                Some(e) => r == Err::<String, GenError>(e) && final(self)@ == old(self)@,
            },
    {
        match self.check(cmd) {
            Ok(_) => Ok(self.trans_cmd(cmd)),
            Err(e) => Err(e),
        }
    }
}

fn check_offset(seg: VMSeg, n: i32) -> (r: Result<(), GenError>)
    ensures
        match offset_fault(seg, n as int) {
            None => r is Ok,
            Some(e) => r == Err::<(), GenError>(e),
        },
{
    match seg {
        VMSeg::TEMP => if n < 0 || n > 7 {
            Err(GenError::TempOffset)
        } else {
            Ok(())
        },
        VMSeg::POINTER => if n < 0 || n > 1 {
            Err(GenError::PointerOffset)
        } else {
            Ok(())
        },
        _ => Ok(()),
    }
}

} // verus!
