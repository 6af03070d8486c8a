//! What holds of the translator, the assembler and the emulator together:
//! the text that the translator writes for a command, assembled and run,
//! does to the stack what the command says.

use vstd::prelude::*;
use crate::assembler::{assemble, seed, CommandView, Comp, Dest, Jump};
use crate::decimal::{dec_int, is_digit, lemma_dec_int_chars, lemma_parse_dec_int, parse_int};
use crate::effects::{
    after_push, binary_result, comparison_result, holds_at, lemma_binary, lemma_comparison,
    lemma_program_holds, lemma_push, lemma_run_from, lemma_unary, unary_result,
};
use crate::emul::{run_text, wrap, Machine, RunErrorView};
use crate::readback::{
    block_lines, closed, codes, commands, instrs, lacks, lemma_append_no_labels,
    lemma_assemble_page, lemma_block_page, lemma_listing_page, lemma_no_labels,
    lemma_page_concat, no_blank, page, program, readable, symbols, Line,
};
use crate::text::comment_at;
use crate::translator::{
    assign, bootstrap, bootstrap_label, branch_label, call, comparison, jump_on, return_label,
    stack_start, sym, TranslatorView,
};
use crate::types::{VMCommandView, VMOp, VMSeg};

verus! {

/// Whether a character can stand in a name that the translator makes up: a
/// letter, a digit, a full stop or a minus sign.
pub open spec fn is_name_char(c: char) -> bool {
    ('A' <= c && c <= 'Z') || ('a' <= c && c <= 'z') || is_digit(c) || c == '.' || c == '-'
}

/// A name of such characters that begins with a letter is read back by the
/// assembler, as a symbol and as a label.
pub proof fn lemma_name_readable(name: Seq<char>)
    requires
        name.len() > 0,
        forall|i: int| 0 <= i < name.len() ==> is_name_char(#[trigger] name[i]),
        !is_digit(name[0]),
        name[0] != '-',
    ensures
        readable(CommandView::ALabel(name)),
        readable(CommandView::Label(name)),
{
    assert(no_blank(name));
    assert forall|i: int| !comment_at(name, i) by {
        if 0 <= i < name.len() {
            assert(is_name_char(name[i]));
        }
    }
    assert(parse_int(name, i16::MIN as int, i16::MAX as int) is None);
}

/// The predefined symbols and their addresses.
pub proof fn lemma_seed()
    ensures
        seed().contains_key("SP"@) && seed()["SP"@] == 0,
        seed().contains_key("LCL"@) && seed()["LCL"@] == 1,
        seed().contains_key("ARG"@) && seed()["ARG"@] == 2,
        seed().contains_key("THIS"@) && seed()["THIS"@] == 3,
        seed().contains_key("THAT"@) && seed()["THAT"@] == 4,
        seed().contains_key("R13"@) && seed()["R13"@] == 13,
        seed().contains_key("R14"@) && seed()["R14"@] == 14,
        seed().contains_key("R15"@) && seed()["R15"@] == 15,
        readable(sym("SP"@)),
        readable(sym("LCL"@)),
        readable(sym("ARG"@)),
        readable(sym("THIS"@)),
        readable(sym("THAT"@)),
        readable(sym("R13"@)),
        readable(sym("R14"@)),
        readable(sym("R15"@)),
{
    reveal_strlit("SP");
    reveal_strlit("LCL");
    reveal_strlit("ARG");
    reveal_strlit("THIS");
    reveal_strlit("THAT");
    reveal_strlit("R13");
    reveal_strlit("R14");
    reveal_strlit("R15");
    assert("SP"@[0] == 'S' && "SP"@[1] == 'P');
    assert("LCL"@[0] == 'L' && "LCL"@[1] == 'C' && "LCL"@[2] == 'L');
    assert("ARG"@[0] == 'A' && "ARG"@[1] == 'R' && "ARG"@[2] == 'G');
    assert("THIS"@[0] == 'T' && "THIS"@[1] == 'H' && "THIS"@[2] == 'I' && "THIS"@[3] == 'S');
    assert("THAT"@[0] == 'T' && "THAT"@[1] == 'H' && "THAT"@[2] == 'A' && "THAT"@[3] == 'T');
    assert("R13"@[0] == 'R' && "R13"@[1] == '1' && "R13"@[2] == '3');
    assert("R14"@[0] == 'R' && "R14"@[1] == '1' && "R14"@[2] == '4');
    assert("R15"@[0] == 'R' && "R15"@[1] == '1' && "R15"@[2] == '5');
    lemma_name_readable("SP"@);
    lemma_name_readable("LCL"@);
    lemma_name_readable("ARG"@);
    lemma_name_readable("THIS"@);
    lemma_name_readable("THAT"@);
    lemma_name_readable("R13"@);
    lemma_name_readable("R14"@);
    lemma_name_readable("R15"@);
}

/// Assembling the block that the translator writes for a command gives the
/// program that the command's instructions describe, if the names in them
/// are readable, the program fits the address space and all its symbols
/// are known.
pub proof fn lemma_assemble_block(
    t: TranslatorView,
    cmd: VMCommandView,
    table: Map<Seq<char>, i16>,
)
    requires
        lacks(cmd.source(), '\n'),
        forall|i: int|
            0 <= i < t.instructions(cmd).len() ==> readable(#[trigger] t.instructions(cmd)[i]),
        instrs(t.instructions(cmd)).len() <= i16::MAX,
        closed(t.instructions(cmd), table),
    ensures
        assemble(t.block(cmd), table) == Ok::<
            (Seq<CommandView>, Map<Seq<char>, i16>),
            crate::assembler::ParserErrorView,
        >((program(t.instructions(cmd), table), symbols(t.instructions(cmd), table))),
{
    let cmds = t.instructions(cmd);
    let ls = block_lines(cmd.source(), cmds);
    lemma_block_page(cmd.source(), cmds);
    assert forall|i: int| 0 <= i < ls.len() implies (#[trigger] ls[i]).printable() by {
        if i > 0 {
            assert(ls[i] == Line::Code(cmds[i - 1]));
            assert(readable(cmds[i - 1]));
        }
    }
    lemma_assemble_page(ls, table);
}

/// The word of an operation fits on a line.
pub proof fn lemma_op_text(op: VMOp)
    ensures
        lacks(op.text(), '\n'),
{
    reveal_strlit("add");
    reveal_strlit("sub");
    reveal_strlit("neg");
    reveal_strlit("eq");
    reveal_strlit("gt");
    reveal_strlit("lt");
    reveal_strlit("and");
    reveal_strlit("or");
    reveal_strlit("not");
}

/// The label of a comparison is read back by the assembler and is none of
/// the predefined symbols.
pub proof fn lemma_branch_label(n: int)
    ensures
        readable(CommandView::ALabel(branch_label(n))),
        readable(CommandView::Label(branch_label(n))),
        !seed().contains_key(branch_label(n)),
{
    reveal_strlit("TST.");
    lemma_dec_int_chars(n);
    let name = branch_label(n);
    assert(name[0] == 'T');
    assert(name[3] == '.');
    assert forall|i: int| 0 <= i < name.len() implies is_name_char(#[trigger] name[i]) by {
        if i >= 4 {
            assert(name[i] == dec_int(n)[i - 4]);
        }
    }
    lemma_name_readable(name);
    reveal_strlit("SP");
    reveal_strlit("LCL");
    reveal_strlit("ARG");
    reveal_strlit("THIS");
    reveal_strlit("THAT");
    reveal_strlit("R13");
    reveal_strlit("R14");
    reveal_strlit("R15");
    assert("THIS"@[3] == 'S');
    assert("THAT"@[3] == 'T');
}

/// Different numbers are written differently, with or without a sign.
pub proof fn lemma_dec_int_injective(m: int, n: int)
    requires
        dec_int(m) == dec_int(n),
    ensures
        m == n,
{
    let lo = if m < n {
        m
    } else {
        n
    };
    let hi = if m < n {
        n
    } else {
        m
    };
    lemma_parse_dec_int(m, lo, hi);
    lemma_parse_dec_int(n, lo, hi);
}

/// Two comparisons with different numbers have different labels, two calls
/// with different numbers have different labels, and no label of a
/// comparison is the label of a call.
pub proof fn lemma_labels_differ(m: int, n: int)
    ensures
        m != n ==> branch_label(m) != branch_label(n),
        m != n ==> return_label(m) != return_label(n),
        branch_label(m) != return_label(n),
{
    reveal_strlit("TST.");
    reveal_strlit("RETURN.");
    if branch_label(m) == branch_label(n) {
        assert(branch_label(m).skip(4) == dec_int(m));
        assert(branch_label(n).skip(4) == dec_int(n));
        lemma_dec_int_injective(m, n);
    }
    if return_label(m) == return_label(n) {
        assert(return_label(m).skip(7) == dec_int(m));
        assert(return_label(n).skip(7) == dec_int(n));
        lemma_dec_int_injective(m, n);
    }
    assert(branch_label(m)[0] == 'T');
    assert(return_label(n)[0] == 'R');
}

/// One piece of a translator's work: a command to translate, or going on
/// to the next source file.
pub enum Work {
    Translate(VMCommandView),
    NextFile(Seq<char>),
}

impl Work {
    /// Whether the piece is a comparison to translate.
    pub open spec fn is_comparison(self) -> bool {
        self is Translate && self->Translate_0 is Arithmetic
            && self->Translate_0->Arithmetic_0.is_comparison()
    }

    /// Whether the piece is a call to translate.
    pub open spec fn is_call(self) -> bool {
        self is Translate && self->Translate_0 is Call
    }
}

/// What a translator remembers after a list of work, done in order.
pub open spec fn after_all(t: TranslatorView, work: Seq<Work>) -> TranslatorView
    decreases work.len(),
{
    if work.len() == 0 {
        t
    } else {
        let before = after_all(t, work.drop_last());
        match work.last() {
            Work::Translate(cmd) => before.after(cmd),
            Work::NextFile(name) => TranslatorView { file_name: name, ..before },
        }
    }
}

/// The numbers of a translator never go down, and the number of
/// comparisons goes up with every comparison, the number of calls with
/// every call.
pub proof fn lemma_numbers_grow(t: TranslatorView, work: Seq<Work>, i: int, j: int)
    requires
        0 <= i <= j <= work.len(),
    ensures
        after_all(t, work.take(i)).label_num <= after_all(t, work.take(j)).label_num,
        after_all(t, work.take(i)).return_num <= after_all(t, work.take(j)).return_num,
        i < j && work[i].is_comparison() ==> after_all(t, work.take(i)).label_num < after_all(
            t,
            work.take(j),
        ).label_num,
        i < j && work[i].is_call() ==> after_all(t, work.take(i)).return_num < after_all(
            t,
            work.take(j),
        ).return_num,
    decreases j - i,
{
    if i < j {
        lemma_numbers_grow(t, work, i, j - 1);
        assert(work.take(j).drop_last() == work.take(j - 1));
        assert(work.take(j).last() == work[j - 1]);
    }
}

/// In one program, whatever its commands and however many source files
/// they come from, no two comparisons get the same label: the label of
/// the command at `i` and that of the command at `j` differ where both are
/// comparisons. The same holds of the return labels of two calls.
pub proof fn lemma_labels_unique(t: TranslatorView, work: Seq<Work>, i: int, j: int)
    requires
        0 <= i < j < work.len(),
    ensures
        work[i].is_comparison() && work[j].is_comparison() ==> branch_label(
            after_all(t, work.take(i)).label_num,
        ) != branch_label(after_all(t, work.take(j)).label_num),
        work[i].is_call() && work[j].is_call() ==> return_label(
            after_all(t, work.take(i)).return_num,
        ) != return_label(after_all(t, work.take(j)).return_num),
{
    lemma_numbers_grow(t, work, i, j);
    lemma_labels_differ(
        after_all(t, work.take(i)).label_num,
        after_all(t, work.take(j)).label_num,
    );
    lemma_labels_differ(
        after_all(t, work.take(i)).return_num,
        after_all(t, work.take(j)).return_num,
    );
}

/// The program that a list of commands describes by itself holds the
/// instructions of the list from address 0 on, and nothing else.
pub proof fn lemma_program_of_block(cmds: Seq<CommandView>, table: Map<Seq<char>, i16>)
    ensures
        holds_at(program(cmds, table), 0, instrs(cmds), symbols(cmds, table)),
        program(cmds, table).len() == instrs(cmds).len(),
{
    let none = Seq::<CommandView>::empty();
    lemma_program_holds(none, cmds, none, table);
    assert(none + cmds + none == cmds);
    assert(instrs(none).len() == 0);
}

/// The text for `neg` or `not`, assembled and run on a stack that is not
/// empty, puts the negated number in place of the topmost number and leaves
/// the stack pointer and every other cell as they were.
pub proof fn lemma_unary_operation(t: TranslatorView, op: VMOp, m: Machine, ticks: nat)
    requires
        op.is_unary(),
        m.wf(),
        m.pc == 0,
        m.ram[0] >= 2,
        ticks >= 3,
    ensures
        ({
            let sp = m.ram[0] as int;
            let out = run_text(m, t.block(VMCommandView::Arithmetic(op)), ticks);
            &&& out.1 == Ok::<(), RunErrorView>(())
            &&& out.0.ram == m.ram.update(sp - 1, unary_result(op, m.ram[sp - 1]))
        }),
{
    let cmd = VMCommandView::Arithmetic(op);
    let cmds = t.instructions(cmd);
    lemma_seed();
    lemma_op_text(op);
    lemma_no_labels(cmds, seed());
    lemma_assemble_block(t, cmd, seed());
    let prog = program(cmds, seed());
    lemma_program_of_block(cmds, seed());
    lemma_unary(t, op, m, prog, seed());
    let sp = m.ram[0] as int;
    let end = Machine {
        a: (sp - 1) as i16,
        pc: 3,
        ram: m.ram.update(sp - 1, unary_result(op, m.ram[sp - 1])),
        ..m
    };
    lemma_run_from(m, prog, 3, end, ticks);
}

/// The text for `add`, `sub`, `and` or `or`, assembled and run on a stack
/// of two numbers or more, puts the result in place of the lower of the two
/// topmost numbers and takes one from the stack pointer. A sum or a
/// difference that fits 16 bits is exact.
pub proof fn lemma_binary_operation(t: TranslatorView, op: VMOp, m: Machine, ticks: nat)
    requires
        op.is_binary(),
        m.wf(),
        m.pc == 0,
        m.ram[0] >= 3,
        ticks >= 6,
    ensures
        ({
            let sp = m.ram[0] as int;
            let x = m.ram[sp - 2];
            let y = m.ram[sp - 1];
            let out = run_text(m, t.block(VMCommandView::Arithmetic(op)), ticks);
            &&& out.1 == Ok::<(), RunErrorView>(())
            &&& out.0.ram == m.ram.update(0, (sp - 1) as i16).update(
                sp - 2,
                binary_result(op, x, y),
            )
            &&& op == VMOp::ADD && i16::MIN <= x + y <= i16::MAX ==> binary_result(op, x, y) == x
                + y
            &&& op == VMOp::SUB && i16::MIN <= x - y <= i16::MAX ==> binary_result(op, x, y) == x
                - y
        }),
{
    let cmd = VMCommandView::Arithmetic(op);
    let cmds = t.instructions(cmd);
    lemma_seed();
    lemma_op_text(op);
    lemma_no_labels(cmds, seed());
    lemma_assemble_block(t, cmd, seed());
    let prog = program(cmds, seed());
    lemma_program_of_block(cmds, seed());
    lemma_binary(t, op, m, prog, seed());
    let sp = m.ram[0] as int;
    let end = Machine {
        a: (sp - 2) as i16,
        d: m.ram[sp - 1],
        pc: 6,
        ram: m.ram.update(0, (sp - 1) as i16).update(
            sp - 2,
            binary_result(op, m.ram[sp - 2], m.ram[sp - 1]),
        ),
    };
    lemma_run_from(m, prog, 6, end, ticks);
}

/// The text for `push constant n`, assembled and run, puts `n` in the cell
/// that the stack pointer addresses and adds one to the stack pointer, for
/// every `n` that fits a register.
pub proof fn lemma_push_constant(t: TranslatorView, n: i32, m: Machine, ticks: nat)
    requires
        i16::MIN <= n <= i16::MAX,
        m.wf(),
        m.pc == 0,
        0 < m.ram[0] < i16::MAX,
        ticks >= 7,
    ensures
        ({
            let sp = m.ram[0] as int;
            let out = run_text(m, t.block(VMCommandView::Push(VMSeg::CONSTANT, n)), ticks);
            &&& out.1 == Ok::<(), RunErrorView>(())
            &&& out.0.ram == m.ram.update(sp, n as i16).update(0, (sp + 1) as i16)
        }),
{
    let cmd = VMCommandView::Push(VMSeg::CONSTANT, n);
    let cmds = t.instructions(cmd);
    lemma_seed();
    assert(lacks(cmd.source(), '\n')) by {
        reveal_strlit("push ");
        reveal_strlit("constant");
        lemma_dec_int_chars(n as int);
        let src = cmd.source();
        assert forall|i: int| 0 <= i < src.len() implies #[trigger] src[i] != '\n' by {
            if i >= 14 {
                assert(src[i] == dec_int(n as int)[i - 14]);
            }
        }
    }
    lemma_no_labels(cmds, seed());
    lemma_assemble_block(t, cmd, seed());
    let prog = program(cmds, seed());
    lemma_program_of_block(cmds, seed());
    lemma_push(t, VMSeg::CONSTANT, n, m, prog, seed());
    lemma_run_from(m, prog, 7, after_push(t.file_name, VMSeg::CONSTANT, n, m, seed()), ticks);
}

/// The text for `eq`, `lt` or `gt`, assembled and run on a stack of two
/// numbers or more, puts -1 or 0 in place of the lower of the two topmost
/// numbers and takes one from the stack pointer. For `eq` the result is -1
/// exactly where the numbers are equal; for `lt` and `gt` it is -1 exactly
/// where the lower number is less or greater than the topmost, as long as
/// their difference fits 16 bits.
pub proof fn lemma_comparison_operation(t: TranslatorView, op: VMOp, m: Machine, ticks: nat)
    requires
        op.is_comparison(),
        m.wf(),
        m.pc == 0,
        m.ram[0] >= 3,
        ticks >= 14,
    ensures
        ({
            let sp = m.ram[0] as int;
            let x = m.ram[sp - 2];
            let y = m.ram[sp - 1];
            let r = comparison_result(op, x, y);
            let out = run_text(m, t.block(VMCommandView::Arithmetic(op)), ticks);
            &&& out.1 == Ok::<(), RunErrorView>(())
            &&& out.0.ram == m.ram.update(0, (sp - 1) as i16).update(sp - 2, r)
            &&& r == -1 || r == 0
            &&& op == VMOp::EQ ==> (r == -1 <==> x == y)
            &&& op == VMOp::LT && i16::MIN <= x - y <= i16::MAX ==> (r == -1 <==> x < y)
            &&& op == VMOp::GT && i16::MIN <= x - y <= i16::MAX ==> (r == -1 <==> x > y)
        }),
{
    let cmd = VMCommandView::Arithmetic(op);
    let jump = match op {
        VMOp::EQ => Jump::JEQ,
        VMOp::LT => Jump::JLT,
        _ => Jump::JGT,
    };
    let label = branch_label(t.label_num);
    let cmds = t.instructions(cmd);
    assert(cmds == comparison(jump, label));
    lemma_seed();
    lemma_op_text(op);
    lemma_branch_label(t.label_num);
    let a = seq![
        sym("SP"@),
        assign(Dest::AM, Comp::MMinusOne),
        assign(Dest::D, Comp::M),
        sym("SP"@),
        assign(Dest::AM, Comp::MMinusOne),
        assign(Dest::D, Comp::MMinusD),
        assign(Dest::M, Comp::MinusOne),
        sym(label),
        jump_on(Comp::D, jump),
        sym("SP"@),
        assign(Dest::A, Comp::M),
        assign(Dest::M, Comp::Zero),
    ];
    let b = seq![sym("SP"@), assign(Dest::M, Comp::MPlusOne)];
    let al = a.push(CommandView::Label(label));
    assert(cmds == al + b);
    lemma_no_labels(a, seed());
    assert(al.drop_last() == a);
    lemma_append_no_labels(al, b, seed());
    assert(instrs(cmds) == a + b);
    assert(symbols(cmds, seed()) == seed().insert(label, 12i16));
    lemma_assemble_block(t, cmd, seed());
    let prog = program(cmds, seed());
    lemma_program_of_block(cmds, seed());
    lemma_comparison(t, op, m, prog, symbols(cmds, seed()));
    let sp = m.ram[0] as int;
    let x = m.ram[sp - 2];
    let y = m.ram[sp - 1];
    let end = Machine {
        a: 0,
        d: wrap(x - y),
        pc: 14,
        ram: m.ram.update(0, (sp - 1) as i16).update(sp - 2, comparison_result(op, x, y)),
    };
    let n: nat = if crate::effects::holds(op, wrap(x - y)) {
        11
    } else {
        14
    };
    lemma_run_from(m, prog, n, end, ticks);
}


/// The bootstrap is a page: the commands that set SP, then the block of the
/// call of `Sys.init`.
pub proof fn lemma_bootstrap_page()
    ensures
        ({
            let cmd = VMCommandView::Call("Sys.init"@, 0);
            let ls = codes(stack_start()) + block_lines(
                cmd.source(),
                call("Sys.init"@, 0, bootstrap_label()),
            );
            &&& bootstrap() == page(ls)
            &&& commands(ls) == stack_start() + call("Sys.init"@, 0, bootstrap_label())
        }),
{
    let cmd = VMCommandView::Call("Sys.init"@, 0);
    let cmds = call("Sys.init"@, 0, bootstrap_label());
    lemma_listing_page(stack_start());
    lemma_block_page(cmd.source(), cmds);
    lemma_page_concat(codes(stack_start()), block_lines(cmd.source(), cmds));
    let head = crate::translator::listing(stack_start());
    let mid = seq!['/', '/', ' '] + cmd.source() + seq!['\n'];
    let tail = crate::translator::listing(cmds);
    assert(head + seq!['/', '/', ' '] + cmd.source() + seq!['\n'] + tail == head + (mid + tail));
}

/// The return label of the bootstrap is the label of no comparison and of
/// no call of any translator, and the assembler reads it back.
pub proof fn lemma_bootstrap_label(n: int)
    ensures
        bootstrap_label() != return_label(n),
        bootstrap_label() != branch_label(n),
        readable(CommandView::ALabel(bootstrap_label())),
        readable(CommandView::Label(bootstrap_label())),
{
    reveal_strlit("BOOTSTRAP.RETURN");
    reveal_strlit("TST.");
    reveal_strlit("RETURN.");
    let name = bootstrap_label();
    assert(name[0] == 'B' && name[1] == 'O' && name[2] == 'O' && name[3] == 'T' && name[4]
        == 'S' && name[5] == 'T' && name[6] == 'R' && name[7] == 'A' && name[8] == 'P'
        && name[9] == '.' && name[10] == 'R' && name[11] == 'E' && name[12] == 'T' && name[13]
        == 'U' && name[14] == 'R' && name[15] == 'N');
    assert(return_label(n)[0] == 'R');
    assert(branch_label(n)[0] == 'T');
    lemma_name_readable(name);
}

} // verus!
