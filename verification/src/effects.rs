//! What the instructions of each VM command do to the machine, wherever
//! they stand in a program.

use vstd::prelude::*;
use crate::assembler::{resolved, CommandView, Comp, Dest, Jump};
use crate::emul::{wrap, EmulError, Machine, Outcome};
use crate::readback::{
    instrs, lemma_append_no_labels, lemma_instrs_concat, lemma_no_labels, lemma_program_part,
    no_labels, program, symbols,
};
use crate::translator::{
    assign, binary, bootstrap_label, branch_label, call, comparison, fetch, function, jump_on,
    load, locate,
    offset_fault, pop_d, push_d, restore, ret, return_label, save, static_name, store_at_r15,
    stack_start, sym, unary, zero_cells, TranslatorView,
};
use crate::types::{VMCommandView, VMOp, VMSeg};

verus! {

/// The machine after exactly `n` instructions of a program, none of which
/// fails, or the error of the first that does.
pub open spec fn steps(m: Machine, prog: Seq<CommandView>, n: nat) -> Outcome
    decreases n,
{
    if n == 0 {
        Outcome { machine: m, status: Ok(()) }
    } else if m.pc >= prog.len() {
        Outcome { machine: m, status: Err(EmulError::PcOutOfRange) }
    } else {
        let o = m.step(prog[m.pc as int]);
        if o.status is Err {
            o
        } else {
            steps(o.machine, prog, (n - 1) as nat)
        }
    }
}

/// Whether the machine gets from one state to another in exactly `n`
/// instructions.
pub open spec fn reaches(m: Machine, prog: Seq<CommandView>, n: nat, to: Machine) -> bool {
    steps(m, prog, n) == (Outcome { machine: to, status: Ok(()) })
}

/// A run that has ticks for the next `n` instructions goes on from the
/// state behind them with the ticks that are left.
pub proof fn lemma_run_from(m: Machine, prog: Seq<CommandView>, n: nat, to: Machine, ticks: nat)
    requires
        reaches(m, prog, n, to),
        ticks >= n,
    ensures
        m.run(prog, ticks) == to.run(prog, (ticks - n) as nat),
    decreases n,
{
    if n > 0 {
        let o = m.step(prog[m.pc as int]);
        lemma_run_from(o.machine, prog, (n - 1) as nat, to, (ticks - 1) as nat);
    }
}

/// Getting somewhere in `a` instructions and on from there in `b` is
/// getting there in `a + b`.
pub proof fn lemma_reaches_then(
    m: Machine,
    prog: Seq<CommandView>,
    a: nat,
    via: Machine,
    b: nat,
    to: Machine,
)
    requires
        reaches(m, prog, a, via),
        reaches(via, prog, b, to),
    ensures
        reaches(m, prog, a + b, to),
    decreases a,
{
    if a > 0 {
        let o = m.step(prog[m.pc as int]);
        lemma_reaches_then(o.machine, prog, (a - 1) as nat, via, b, to);
    }
}

/// Whether a program holds, from an address on, the instructions of a
/// list, each with the address of its symbol as a table gives it.
pub open spec fn holds_at(
    prog: Seq<CommandView>,
    at: int,
    code: Seq<CommandView>,
    table: Map<Seq<char>, i16>,
) -> bool {
    &&& 0 <= at
    &&& at + code.len() <= prog.len()
    &&& forall|i: int| 0 <= i < code.len() ==> prog[at + i] == resolved(#[trigger] code[i], table)
}

/// The program that a list of commands describes holds the instructions of
/// each part of the list, behind those of the commands before the part and
/// with the symbols of the whole list.
pub proof fn lemma_program_holds(
    before: Seq<CommandView>,
    part: Seq<CommandView>,
    behind: Seq<CommandView>,
    table: Map<Seq<char>, i16>,
)
    ensures
        holds_at(
            program(before + part + behind, table),
            instrs(before).len() as int,
            instrs(part),
            symbols(before + part + behind, table),
        ),
{
    let prog = program(before + part + behind, table);
    let all = symbols(before + part + behind, table);
    let at = instrs(before).len() as int;
    if instrs(part).len() > 0 {
        lemma_program_part(before, part, behind, table, 0);
    }
    assert forall|i: int| 0 <= i < instrs(part).len() implies prog[at + i] == resolved(
        #[trigger] instrs(part)[i],
        all,
    ) by {
        lemma_program_part(before, part, behind, table, i);
    }
    lemma_instrs_concat(before + part, behind);
    lemma_instrs_concat(before, part);
}

/// A program that holds two lists in a row holds each of them.
pub proof fn lemma_holds_split(
    prog: Seq<CommandView>,
    at: int,
    a: Seq<CommandView>,
    b: Seq<CommandView>,
    table: Map<Seq<char>, i16>,
)
    requires
        holds_at(prog, at, a + b, table),
    ensures
        holds_at(prog, at, a, table),
        holds_at(prog, at + a.len(), b, table),
{
    assert forall|i: int| 0 <= i < a.len() implies prog[at + i] == resolved(
        #[trigger] a[i],
        table,
    ) by {
        assert((a + b)[i] == a[i]);
    }
    assert forall|i: int| 0 <= i < b.len() implies prog[at + a.len() + i] == resolved(
        #[trigger] b[i],
        table,
    ) by {
        assert((a + b)[a.len() + i] == b[i]);
    }
}

/// Whether a table gives the registers of the stack machine and the scratch
/// registers their addresses.
pub open spec fn knows_registers(table: Map<Seq<char>, i16>) -> bool {
    &&& table["SP"@] == 0
    &&& table["LCL"@] == 1
    &&& table["ARG"@] == 2
    &&& table["THIS"@] == 3
    &&& table["THAT"@] == 4
    &&& table["R13"@] == 13
    &&& table["R14"@] == 14
    &&& table["R15"@] == 15
}

/// The machine after D is pushed: D goes to the cell that SP addresses,
/// then one is added to SP. A is left at 0.
pub open spec fn after_push_d(m: Machine) -> Machine {
    let stored = m.ram.update(m.ram[0] as int, m.d);
    Machine { a: 0, pc: m.pc + 5, ram: stored.update(0, wrap(stored[0] + 1)), ..m }
}

/// Pushing D takes five instructions.
pub proof fn lemma_push_d(m: Machine, prog: Seq<CommandView>, table: Map<Seq<char>, i16>)
    requires
        m.wf(),
        holds_at(prog, m.pc as int, push_d(), table),
        table["SP"@] == 0,
        m.ram[0] >= 0,
    ensures
        reaches(m, prog, 5, after_push_d(m)),
        after_push_d(m).wf(),
{
    let at = m.pc as int;
    let code = push_d();
    assert(prog[at + 0] == resolved(code[0], table));
    assert(prog[at + 1] == resolved(code[1], table));
    assert(prog[at + 2] == resolved(code[2], table));
    assert(prog[at + 3] == resolved(code[3], table));
    assert(prog[at + 4] == resolved(code[4], table));
    let stored = m.ram.update(m.ram[0] as int, m.d);
    let m1 = Machine { a: 0, pc: m.pc + 1, ..m };
    let m2 = Machine { a: m.ram[0], pc: m.pc + 2, ..m };
    let m3 = Machine { ram: stored, pc: m.pc + 3, ..m2 };
    let m4 = Machine { a: 0, pc: m.pc + 4, ..m3 };
    let m5 = after_push_d(m);
    assert(m.step(prog[at]) == Outcome { machine: m1, status: Ok(()) });
    assert(m1.step(prog[at + 1]) == Outcome { machine: m2, status: Ok(()) });
    assert(m2.step(prog[at + 2]) == Outcome { machine: m3, status: Ok(()) });
    assert(m3.step(prog[at + 3]) == Outcome { machine: m4, status: Ok(()) });
    assert(m4.step(prog[at + 4]) == Outcome { machine: m5, status: Ok(()) });
    assert(reaches(m5, prog, 0, m5));
    assert(reaches(m4, prog, 1, m5));
    assert(reaches(m3, prog, 2, m5));
    assert(reaches(m2, prog, 3, m5));
    assert(reaches(m1, prog, 4, m5));
}

/// The machine after the top of the stack is popped into D: one is taken
/// from SP, and D gets the cell that SP then addresses, as does A its
/// address.
pub open spec fn after_pop_d(m: Machine) -> Machine {
    let top = wrap(m.ram[0] - 1);
    let ram = m.ram.update(0, top);
    Machine { a: top, d: ram[top as int], pc: m.pc + 3, ram }
}

/// Popping into D takes three instructions.
pub proof fn lemma_pop_d(m: Machine, prog: Seq<CommandView>, table: Map<Seq<char>, i16>)
    requires
        m.wf(),
        holds_at(prog, m.pc as int, pop_d(), table),
        table["SP"@] == 0,
        wrap(m.ram[0] - 1) >= 0,
    ensures
        reaches(m, prog, 3, after_pop_d(m)),
        after_pop_d(m).wf(),
{
    let at = m.pc as int;
    let code = pop_d();
    assert(prog[at + 0] == resolved(code[0], table));
    assert(prog[at + 1] == resolved(code[1], table));
    assert(prog[at + 2] == resolved(code[2], table));
    let top = wrap(m.ram[0] - 1);
    let m1 = Machine { a: 0, pc: m.pc + 1, ..m };
    let m2 = Machine { a: top, pc: m.pc + 2, ram: m.ram.update(0, top), ..m };
    let m3 = after_pop_d(m);
    assert(m.step(prog[at]) == Outcome { machine: m1, status: Ok(()) });
    assert(m1.step(prog[at + 1]) == Outcome { machine: m2, status: Ok(()) });
    assert(m2.step(prog[at + 2]) == Outcome { machine: m3, status: Ok(()) });
    assert(reaches(m3, prog, 0, m3));
    assert(reaches(m2, prog, 1, m3));
    assert(reaches(m1, prog, 2, m3));
}


/// The address of a segment's cell at an index: `local`, `argument`, `this`
/// and `that` lie where LCL, ARG, THIS and THAT point, `temp` begins at 5,
/// `pointer` at 3, and a static variable lies where its symbol says.
pub open spec fn segment_address(
    file: Seq<char>,
    seg: VMSeg,
    n: i32,
    ram: Seq<i16>,
    table: Map<Seq<char>, i16>,
) -> i16 {
    match seg {
        VMSeg::LOCAL => wrap(ram[1] + n),
        VMSeg::ARGUMENT => wrap(ram[2] + n),
        VMSeg::THIS => wrap(ram[3] + n),
        VMSeg::THAT => wrap(ram[4] + n),
        VMSeg::TEMP => (5 + n) as i16,
        VMSeg::POINTER => (3 + n) as i16,
        _ => table[static_name(file, n as int)],
    }
}

/// Whether a `push` or `pop` can be followed through: the index is one that
/// the segment has and that fits a register, and the cell's address is not
/// negative.
pub open spec fn addressable(
    file: Seq<char>,
    seg: VMSeg,
    n: i32,
    ram: Seq<i16>,
    table: Map<Seq<char>, i16>,
) -> bool {
    &&& offset_fault(seg, n as int) is None
    &&& seg != VMSeg::STATIC ==> i16::MIN <= n <= i16::MAX
    &&& seg != VMSeg::CONSTANT ==> segment_address(file, seg, n, ram, table) >= 0
}

/// The number of instructions that load a segment's value into D.
pub open spec fn fetch_len(seg: VMSeg) -> nat {
    match seg {
        VMSeg::LOCAL | VMSeg::ARGUMENT | VMSeg::THIS | VMSeg::THAT => 5,
        _ => 2,
    }
}

/// The machine once the value to push is in D: the number itself for
/// `constant`, else what the segment's cell holds.
pub open spec fn after_fetch(
    file: Seq<char>,
    seg: VMSeg,
    n: i32,
    m: Machine,
    table: Map<Seq<char>, i16>,
) -> Machine {
    if seg == VMSeg::CONSTANT {
        Machine { a: n as i16, d: n as i16, pc: m.pc + 2, ..m }
    } else {
        let addr = segment_address(file, seg, n, m.ram, table);
        Machine { a: addr, d: m.ram[addr as int], pc: m.pc + fetch_len(seg), ..m }
    }
}

proof fn lemma_fetch(
    file: Seq<char>,
    seg: VMSeg,
    n: i32,
    m: Machine,
    prog: Seq<CommandView>,
    table: Map<Seq<char>, i16>,
)
    requires
        m.wf(),
        holds_at(prog, m.pc as int, fetch(file, seg, n as int), table),
        knows_registers(table),
        addressable(file, seg, n, m.ram, table),
    ensures
        reaches(m, prog, fetch_len(seg), after_fetch(file, seg, n, m, table)),
        fetch(file, seg, n as int).len() == fetch_len(seg),
{
    let at = m.pc as int;
    let code = fetch(file, seg, n as int);
    let end = after_fetch(file, seg, n, m, table);
    assert(prog[at + 0] == resolved(code[0], table));
    assert(prog[at + 1] == resolved(code[1], table));
    match seg {
        VMSeg::LOCAL | VMSeg::ARGUMENT | VMSeg::THIS | VMSeg::THAT => {
            assert(prog[at + 2] == resolved(code[2], table));
            assert(prog[at + 3] == resolved(code[3], table));
            assert(prog[at + 4] == resolved(code[4], table));
            let base: i16 = match seg {
                VMSeg::LOCAL => 1,
                VMSeg::ARGUMENT => 2,
                VMSeg::THIS => 3,
                _ => 4,
            };
            let m1 = Machine { a: n as i16, pc: m.pc + 1, ..m };
            let m2 = Machine { d: n as i16, pc: m.pc + 2, ..m1 };
            let m3 = Machine { a: base, pc: m.pc + 3, ..m2 };
            let m4 = Machine { a: end.a, pc: m.pc + 4, ..m3 };
            assert(m.step(prog[at]) == Outcome { machine: m1, status: Ok(()) });
            assert(m1.step(prog[at + 1]) == Outcome { machine: m2, status: Ok(()) });
            assert(m2.step(prog[at + 2]) == Outcome { machine: m3, status: Ok(()) });
            assert(m3.step(prog[at + 3]) == Outcome { machine: m4, status: Ok(()) });
            assert(m4.step(prog[at + 4]) == Outcome { machine: end, status: Ok(()) });
            assert(reaches(end, prog, 0, end));
            assert(reaches(m4, prog, 1, end));
            assert(reaches(m3, prog, 2, end));
            assert(reaches(m2, prog, 3, end));
            assert(reaches(m1, prog, 4, end));
        },
        _ => {
            let m1 = Machine { a: end.a, pc: m.pc + 1, ..m };
            assert(m.step(prog[at]) == Outcome { machine: m1, status: Ok(()) });
            assert(m1.step(prog[at + 1]) == Outcome { machine: end, status: Ok(()) });
            assert(reaches(end, prog, 0, end));
            assert(reaches(m1, prog, 1, end));
        },
    }
}

/// The machine after `push`: the value is fetched and pushed.
pub open spec fn after_push(
    file: Seq<char>,
    seg: VMSeg,
    n: i32,
    m: Machine,
    table: Map<Seq<char>, i16>,
) -> Machine {
    after_push_d(after_fetch(file, seg, n, m, table))
}

/// The instructions of `push`, wherever they stand in a program, put the
/// number, or what the segment's cell holds, in the cell that SP addresses
/// and add one to SP.
pub proof fn lemma_push(
    t: TranslatorView,
    seg: VMSeg,
    n: i32,
    m: Machine,
    prog: Seq<CommandView>,
    table: Map<Seq<char>, i16>,
)
    requires
        m.wf(),
        holds_at(prog, m.pc as int, t.instructions(VMCommandView::Push(seg, n)), table),
        knows_registers(table),
        addressable(t.file_name, seg, n, m.ram, table),
        m.ram[0] >= 0,
    ensures
        reaches(m, prog, fetch_len(seg) + 5, after_push(t.file_name, seg, n, m, table)),
        ({
            let value = after_fetch(t.file_name, seg, n, m, table).d;
            let end = after_push(t.file_name, seg, n, m, table);
            &&& end.pc == m.pc + fetch_len(seg) + 5
            &&& end.ram == m.ram.update(m.ram[0] as int, value).update(
                0,
                if m.ram[0] == 0 {
                    wrap(value + 1)
                } else {
                    wrap(m.ram[0] + 1)
                },
            )
            &&& seg == VMSeg::CONSTANT ==> value == n
            &&& seg != VMSeg::CONSTANT ==> value == m.ram[segment_address(
                t.file_name,
                seg,
                n,
                m.ram,
                table,
            ) as int]
        }),
{
    let first = fetch(t.file_name, seg, n as int);
    lemma_holds_split(prog, m.pc as int, first, push_d(), table);
    lemma_fetch(t.file_name, seg, n, m, prog, table);
    let mid = after_fetch(t.file_name, seg, n, m, table);
    lemma_push_d(mid, prog, table);
    lemma_reaches_then(m, prog, fetch_len(seg), mid, 5, after_push_d(mid));
}


/// The number of instructions that store a segment cell's address in R15.
pub open spec fn locate_len(seg: VMSeg) -> nat {
    match seg {
        VMSeg::POINTER | VMSeg::STATIC => 4,
        _ => 6,
    }
}

/// The machine once R15 holds the address of the cell to pop into.
pub open spec fn after_locate(
    file: Seq<char>,
    seg: VMSeg,
    n: i32,
    m: Machine,
    table: Map<Seq<char>, i16>,
) -> Machine {
    let addr = segment_address(file, seg, n, m.ram, table);
    Machine { a: 15, d: addr, pc: m.pc + locate_len(seg), ram: m.ram.update(15, addr) }
}

proof fn lemma_locate(
    file: Seq<char>,
    seg: VMSeg,
    n: i32,
    m: Machine,
    prog: Seq<CommandView>,
    table: Map<Seq<char>, i16>,
)
    requires
        m.wf(),
        seg != VMSeg::CONSTANT,
        holds_at(prog, m.pc as int, locate(file, seg, n as int), table),
        knows_registers(table),
        offset_fault(seg, n as int) is None,
        seg != VMSeg::STATIC ==> i16::MIN <= n <= i16::MAX,
    ensures
        reaches(m, prog, locate_len(seg), after_locate(file, seg, n, m, table)),
        locate(file, seg, n as int).len() == locate_len(seg),
{
    let at = m.pc as int;
    let code = locate(file, seg, n as int);
    let end = after_locate(file, seg, n, m, table);
    let addr = end.d;
    assert(prog[at + 0] == resolved(code[0], table));
    assert(prog[at + 1] == resolved(code[1], table));
    assert(prog[at + 2] == resolved(code[2], table));
    assert(prog[at + 3] == resolved(code[3], table));
    match seg {
        VMSeg::POINTER | VMSeg::STATIC => {
            let m1 = Machine { a: addr, pc: m.pc + 1, ..m };
            let m2 = Machine { d: addr, pc: m.pc + 2, ..m1 };
            let m3 = Machine { a: 15, pc: m.pc + 3, ..m2 };
            assert(m.step(prog[at]) == Outcome { machine: m1, status: Ok(()) });
            assert(m1.step(prog[at + 1]) == Outcome { machine: m2, status: Ok(()) });
            assert(m2.step(prog[at + 2]) == Outcome { machine: m3, status: Ok(()) });
            assert(m3.step(prog[at + 3]) == Outcome { machine: end, status: Ok(()) });
            assert(reaches(end, prog, 0, end));
            assert(reaches(m3, prog, 1, end));
            assert(reaches(m2, prog, 2, end));
            assert(reaches(m1, prog, 3, end));
        },
        _ => {
            assert(prog[at + 4] == resolved(code[4], table));
            assert(prog[at + 5] == resolved(code[5], table));
            let base: i16 = match seg {
                VMSeg::LOCAL => 1,
                VMSeg::ARGUMENT => 2,
                VMSeg::THIS => 3,
                VMSeg::THAT => 4,
                _ => 5,
            };
            let first: i16 = if seg == VMSeg::TEMP {
                5
            } else {
                m.ram[base as int]
            };
            let m1 = Machine { a: base, pc: m.pc + 1, ..m };
            let m2 = Machine { d: first, pc: m.pc + 2, ..m1 };
            let m3 = Machine { a: n as i16, pc: m.pc + 3, ..m2 };
            let m4 = Machine { d: addr, pc: m.pc + 4, ..m3 };
            let m5 = Machine { a: 15, pc: m.pc + 5, ..m4 };
            assert(m.step(prog[at]) == Outcome { machine: m1, status: Ok(()) });
            assert(m1.step(prog[at + 1]) == Outcome { machine: m2, status: Ok(()) });
            assert(m2.step(prog[at + 2]) == Outcome { machine: m3, status: Ok(()) });
            assert(m3.step(prog[at + 3]) == Outcome { machine: m4, status: Ok(()) });
            assert(m4.step(prog[at + 4]) == Outcome { machine: m5, status: Ok(()) });
            assert(m5.step(prog[at + 5]) == Outcome { machine: end, status: Ok(()) });
            assert(reaches(end, prog, 0, end));
            assert(reaches(m5, prog, 1, end));
            assert(reaches(m4, prog, 2, end));
            assert(reaches(m3, prog, 3, end));
            assert(reaches(m2, prog, 4, end));
            assert(reaches(m1, prog, 5, end));
        },
    }
}

/// The machine after D is stored in the cell whose address R15 holds.
pub open spec fn after_store_at_r15(m: Machine) -> Machine {
    Machine { a: m.ram[15], pc: m.pc + 3, ram: m.ram.update(m.ram[15] as int, m.d), ..m }
}

proof fn lemma_store_at_r15(m: Machine, prog: Seq<CommandView>, table: Map<Seq<char>, i16>)
    requires
        m.wf(),
        holds_at(prog, m.pc as int, store_at_r15(), table),
        table["R15"@] == 15,
        m.ram[15] >= 0,
    ensures
        reaches(m, prog, 3, after_store_at_r15(m)),
{
    let at = m.pc as int;
    let code = store_at_r15();
    let end = after_store_at_r15(m);
    assert(prog[at + 0] == resolved(code[0], table));
    assert(prog[at + 1] == resolved(code[1], table));
    assert(prog[at + 2] == resolved(code[2], table));
    let m1 = Machine { a: 15, pc: m.pc + 1, ..m };
    let m2 = Machine { a: m.ram[15], pc: m.pc + 2, ..m };
    assert(m.step(prog[at]) == Outcome { machine: m1, status: Ok(()) });
    assert(m1.step(prog[at + 1]) == Outcome { machine: m2, status: Ok(()) });
    assert(m2.step(prog[at + 2]) == Outcome { machine: end, status: Ok(()) });
    assert(reaches(end, prog, 0, end));
    assert(reaches(m2, prog, 1, end));
    assert(reaches(m1, prog, 2, end));
}

/// The machine after `pop`: R15 gets the address of the segment's cell, the
/// top of the stack is popped, and its value goes to that cell.
pub open spec fn after_pop(
    file: Seq<char>,
    seg: VMSeg,
    n: i32,
    m: Machine,
    table: Map<Seq<char>, i16>,
) -> Machine {
    after_store_at_r15(after_pop_d(after_locate(file, seg, n, m, table)))
}

/// The instructions of `pop`, wherever they stand in a program, take one
/// from SP and store what the cell there holds in the segment's cell. On a
/// stack that lies above the scratch registers nothing else changes but
/// R15, which is left with the cell's address.
pub proof fn lemma_pop(
    t: TranslatorView,
    seg: VMSeg,
    n: i32,
    m: Machine,
    prog: Seq<CommandView>,
    table: Map<Seq<char>, i16>,
)
    requires
        m.wf(),
        seg != VMSeg::CONSTANT,
        holds_at(prog, m.pc as int, t.instructions(VMCommandView::Pop(seg, n)), table),
        knows_registers(table),
        addressable(t.file_name, seg, n, m.ram, table),
        m.ram[0] >= 1,
    ensures
        reaches(m, prog, locate_len(seg) + 6, after_pop(t.file_name, seg, n, m, table)),
        ({
            let addr = segment_address(t.file_name, seg, n, m.ram, table);
            let end = after_pop(t.file_name, seg, n, m, table);
            &&& end.pc == m.pc + locate_len(seg) + 6
            &&& m.ram[0] > 16 ==> end.ram == m.ram.update(15, addr).update(
                0,
                (m.ram[0] - 1) as i16,
            ).update(addr as int, m.ram[m.ram[0] - 1])
        }),
{
    let file = t.file_name;
    let first = locate(file, seg, n as int);
    lemma_holds_split(prog, m.pc as int, first + pop_d(), store_at_r15(), table);
    lemma_holds_split(prog, m.pc as int, first, pop_d(), table);
    lemma_locate(file, seg, n, m, prog, table);
    let m1 = after_locate(file, seg, n, m, table);
    lemma_pop_d(m1, prog, table);
    let m2 = after_pop_d(m1);
    lemma_store_at_r15(m2, prog, table);
    let m3 = after_store_at_r15(m2);
    lemma_reaches_then(m, prog, locate_len(seg), m1, 3, m2);
    lemma_reaches_then(m, prog, locate_len(seg) + 3, m2, 3, m3);
}

/// The instructions of `goto`, wherever they stand in a program, take the
/// machine to the address of the label.
pub proof fn lemma_goto(
    t: TranslatorView,
    name: Seq<char>,
    m: Machine,
    prog: Seq<CommandView>,
    table: Map<Seq<char>, i16>,
)
    requires
        holds_at(prog, m.pc as int, t.instructions(VMCommandView::Goto(name)), table),
        table[name] >= 0,
    ensures
        reaches(m, prog, 2, Machine { a: table[name], pc: table[name] as nat, ..m }),
{
    let at = m.pc as int;
    let code = t.instructions(VMCommandView::Goto(name));
    assert(prog[at + 0] == resolved(code[0], table));
    assert(prog[at + 1] == resolved(code[1], table));
    let m1 = Machine { a: table[name], pc: m.pc + 1, ..m };
    let end = Machine { a: table[name], pc: table[name] as nat, ..m };
    assert(m.step(prog[at]) == Outcome { machine: m1, status: Ok(()) });
    assert(m1.step(prog[at + 1]) == Outcome { machine: end, status: Ok(()) });
    assert(reaches(end, prog, 0, end));
    assert(reaches(m1, prog, 1, end));
}

/// The machine after `if-goto`: the top of the stack is popped, and the
/// machine is at the label if the value is not zero, behind the command if
/// it is.
pub open spec fn after_if_goto(m: Machine, target: i16) -> Machine {
    let popped = after_pop_d(m);
    Machine {
        a: target,
        pc: if popped.d != 0 {
            target as nat
        } else {
            m.pc + 5
        },
        ..popped
    }
}

/// The instructions of `if-goto`, wherever they stand in a program, pop
/// the top of the stack and jump to the label if it is not zero.
pub proof fn lemma_if_goto(
    t: TranslatorView,
    name: Seq<char>,
    m: Machine,
    prog: Seq<CommandView>,
    table: Map<Seq<char>, i16>,
)
    requires
        m.wf(),
        holds_at(prog, m.pc as int, t.instructions(VMCommandView::IfGoto(name)), table),
        table["SP"@] == 0,
        table[name] >= 0,
        m.ram[0] >= 1,
    ensures
        reaches(m, prog, 5, after_if_goto(m, table[name])),
        after_if_goto(m, table[name]).ram == m.ram.update(0, (m.ram[0] - 1) as i16),
{
    let tail = seq![sym(name), jump_on(Comp::D, Jump::JNE)];
    lemma_holds_split(prog, m.pc as int, pop_d(), tail, table);
    lemma_pop_d(m, prog, table);
    let m1 = after_pop_d(m);
    let at = m1.pc as int;
    assert(prog[at + 0] == resolved(tail[0], table));
    assert(prog[at + 1] == resolved(tail[1], table));
    let m2 = Machine { a: table[name], pc: m1.pc + 1, ..m1 };
    let end = after_if_goto(m, table[name]);
    assert(m1.step(prog[at]) == Outcome { machine: m2, status: Ok(()) });
    assert(m2.step(prog[at + 1]) == Outcome { machine: end, status: Ok(()) });
    assert(reaches(end, prog, 0, end));
    assert(reaches(m2, prog, 1, end));
    assert(reaches(m1, prog, 2, end));
    lemma_reaches_then(m, prog, 3, m1, 2, end);
}


/// The memory with `k` cells from an address on set to zero.
pub open spec fn zeroed(ram: Seq<i16>, from: int, k: int) -> Seq<i16> {
    Seq::new(
        ram.len(),
        |i: int|
            if from <= i < from + k {
                0i16
            } else {
                ram[i]
            },
    )
}

/// Setting cells to zero takes two instructions a cell and holds no label.
proof fn lemma_zero_cells_len(k: int)
    requires
        k >= 0,
    ensures
        zero_cells(k).len() == 2 * k,
        no_labels(zero_cells(k)),
    decreases k,
{
    if k > 0 {
        lemma_zero_cells_len(k - 1);
        let front = zero_cells(k - 1);
        let pair = seq![assign(Dest::M, Comp::Zero), assign(Dest::A, Comp::APlusOne)];
        assert forall|i: int| 0 <= i < zero_cells(k).len() implies !((#[trigger] zero_cells(
            k,
        )[i]) is Label) by {
            if i < front.len() {
                assert(zero_cells(k)[i] == front[i]);
            } else {
                assert(zero_cells(k)[i] == pair[i - front.len()]);
            }
        }
    }
}

/// The instructions that set `k` cells to zero, wherever they stand in a
/// program, zero the cells from A on and leave A behind them.
proof fn lemma_zero_cells(m: Machine, prog: Seq<CommandView>, table: Map<Seq<char>, i16>, k: int)
    requires
        m.wf(),
        k >= 0,
        holds_at(prog, m.pc as int, zero_cells(k), table),
        m.a >= 0,
        m.a + k <= i16::MAX,
    ensures
        reaches(
            m,
            prog,
            (2 * k) as nat,
            Machine {
                a: (m.a + k) as i16,
                pc: (m.pc + 2 * k) as nat,
                ram: zeroed(m.ram, m.a as int, k),
                ..m
            },
        ),
    decreases k,
{
    if k == 0 {
        assert(zeroed(m.ram, m.a as int, 0) == m.ram);
    } else {
        let front = zero_cells(k - 1);
        let pair = seq![assign(Dest::M, Comp::Zero), assign(Dest::A, Comp::APlusOne)];
        lemma_zero_cells_len(k - 1);
        lemma_holds_split(prog, m.pc as int, front, pair, table);
        lemma_zero_cells(m, prog, table, k - 1);
        let m1 = Machine {
            a: (m.a + k - 1) as i16,
            pc: (m.pc + 2 * (k - 1)) as nat,
            ram: zeroed(m.ram, m.a as int, k - 1),
            ..m
        };
        let at = m1.pc as int;
        assert(prog[at + 0] == resolved(pair[0], table));
        assert(prog[at + 1] == resolved(pair[1], table));
        let m2 = Machine { pc: m1.pc + 1, ram: m1.ram.update(m1.a as int, 0i16), ..m1 };
        let end = Machine {
            a: (m.a + k) as i16,
            pc: (m.pc + 2 * k) as nat,
            ram: zeroed(m.ram, m.a as int, k),
            ..m
        };
        assert(m2.ram == end.ram);
        assert(m1.step(prog[at]) == Outcome { machine: m2, status: Ok(()) });
        assert(m2.step(prog[at + 1]) == Outcome { machine: end, status: Ok(()) });
        assert(reaches(end, prog, 0, end));
        assert(reaches(m2, prog, 1, end));
        assert(reaches(m1, prog, 2, end));
        lemma_reaches_then(m, prog, (2 * (k - 1)) as nat, m1, 2, end);
    }
}

/// The instructions of `function`, wherever they stand in a program, set
/// `k` cells on top of the stack to zero and move SP behind them.
pub proof fn lemma_function(
    t: TranslatorView,
    name: Seq<char>,
    k: i32,
    m: Machine,
    prog: Seq<CommandView>,
    table: Map<Seq<char>, i16>,
)
    requires
        m.wf(),
        k >= 0,
        holds_at(
            prog,
            m.pc as int,
            instrs(t.instructions(VMCommandView::Function(name, k))),
            table,
        ),
        table["SP"@] == 0,
        m.ram[0] >= 0,
        m.ram[0] + k <= i16::MAX,
    ensures
        reaches(
            m,
            prog,
            (5 + 2 * k) as nat,
            Machine {
                a: 0,
                d: (m.ram[0] + k) as i16,
                pc: (m.pc + 5 + 2 * k) as nat,
                ram: zeroed(m.ram, m.ram[0] as int, k as int).update(0, (m.ram[0] + k) as i16),
            },
        ),
{
    let sp = m.ram[0];
    let head = seq![sym("SP"@), assign(Dest::A, Comp::M)];
    let cells = zero_cells(k as int);
    let tail = seq![assign(Dest::D, Comp::A), sym("SP"@), assign(Dest::M, Comp::D)];
    let mark = seq![CommandView::Label(name)];
    lemma_zero_cells_len(k as int);
    let body = head + cells + tail;
    assert(function(name, k as int) == mark + body);
    assert(no_labels(body)) by {
        assert forall|i: int| 0 <= i < body.len() implies !((#[trigger] body[i]) is Label) by {
            if i < 2 {
                assert(body[i] == head[i]);
            } else if i < 2 + cells.len() {
                assert(body[i] == cells[i - 2]);
            } else {
                assert(body[i] == tail[i - 2 - cells.len()]);
            }
        }
    }
    assert(mark.drop_last() == Seq::<CommandView>::empty());
    assert(instrs(mark.drop_last()).len() == 0);
    assert(instrs(mark) == Seq::<CommandView>::empty());
    lemma_append_no_labels(mark, body, table);
    assert(instrs(mark) + body == body);
    lemma_holds_split(prog, m.pc as int, head + cells, tail, table);
    lemma_holds_split(prog, m.pc as int, head, cells, table);
    let at = m.pc as int;
    assert(prog[at + 0] == resolved(head[0], table));
    assert(prog[at + 1] == resolved(head[1], table));
    let m1 = Machine { a: 0, pc: m.pc + 1, ..m };
    let m2 = Machine { a: sp, pc: m.pc + 2, ..m };
    assert(m.step(prog[at]) == Outcome { machine: m1, status: Ok(()) });
    assert(m1.step(prog[at + 1]) == Outcome { machine: m2, status: Ok(()) });
    assert(reaches(m2, prog, 0, m2));
    assert(reaches(m1, prog, 1, m2));
    assert(reaches(m, prog, 2, m2));
    lemma_zero_cells(m2, prog, table, k as int);
    let m3 = Machine {
        a: (sp + k) as i16,
        pc: (m.pc + 2 + 2 * k) as nat,
        ram: zeroed(m.ram, sp as int, k as int),
        ..m
    };
    lemma_reaches_then(m, prog, 2, m2, (2 * k) as nat, m3);
    let to = m3.pc as int;
    assert(prog[to + 0] == resolved(tail[0], table));
    assert(prog[to + 1] == resolved(tail[1], table));
    assert(prog[to + 2] == resolved(tail[2], table));
    let m4 = Machine { d: (sp + k) as i16, pc: m3.pc + 1, ..m3 };
    let m5 = Machine { a: 0, pc: m3.pc + 2, ..m4 };
    let end = Machine { pc: m3.pc + 3, ram: m3.ram.update(0, (sp + k) as i16), ..m5 };
    assert(m3.step(prog[to]) == Outcome { machine: m4, status: Ok(()) });
    assert(m4.step(prog[to + 1]) == Outcome { machine: m5, status: Ok(()) });
    assert(m5.step(prog[to + 2]) == Outcome { machine: end, status: Ok(()) });
    assert(reaches(end, prog, 0, end));
    assert(reaches(m5, prog, 1, end));
    assert(reaches(m4, prog, 2, end));
    assert(reaches(m3, prog, 3, end));
    lemma_reaches_then(m, prog, (2 + 2 * k) as nat, m3, 3, end);
}


/// The machine after a register is pushed.
pub open spec fn after_save(m: Machine, reg: i16) -> Machine {
    after_push_d(Machine { a: reg, d: m.ram[reg as int], pc: m.pc + 2, ..m })
}

proof fn lemma_save(
    m: Machine,
    prog: Seq<CommandView>,
    table: Map<Seq<char>, i16>,
    name: Seq<char>,
)
    requires
        m.wf(),
        holds_at(prog, m.pc as int, save(name), table),
        table["SP"@] == 0,
        table[name] >= 0,
        m.ram[0] >= 0,
    ensures
        reaches(m, prog, 7, after_save(m, table[name])),
        after_save(m, table[name]).wf(),
{
    let head = seq![sym(name), assign(Dest::D, Comp::M)];
    lemma_holds_split(prog, m.pc as int, head, push_d(), table);
    let at = m.pc as int;
    assert(prog[at + 0] == resolved(head[0], table));
    assert(prog[at + 1] == resolved(head[1], table));
    let reg = table[name];
    let m1 = Machine { a: reg, pc: m.pc + 1, ..m };
    let m2 = Machine { a: reg, d: m.ram[reg as int], pc: m.pc + 2, ..m };
    assert(m.step(prog[at]) == Outcome { machine: m1, status: Ok(()) });
    assert(m1.step(prog[at + 1]) == Outcome { machine: m2, status: Ok(()) });
    assert(reaches(m2, prog, 0, m2));
    assert(reaches(m1, prog, 1, m2));
    lemma_push_d(m2, prog, table);
    lemma_reaches_then(m, prog, 2, m2, 5, after_push_d(m2));
}

/// The machine after the top of the stack is popped into a register.
pub open spec fn after_restore(m: Machine, reg: i16) -> Machine {
    let p = after_pop_d(m);
    Machine { a: reg, pc: m.pc + 5, ram: p.ram.update(reg as int, p.d), ..p }
}

proof fn lemma_restore(
    m: Machine,
    prog: Seq<CommandView>,
    table: Map<Seq<char>, i16>,
    name: Seq<char>,
)
    requires
        m.wf(),
        holds_at(prog, m.pc as int, restore(name), table),
        table["SP"@] == 0,
        table[name] >= 0,
        m.ram[0] >= 1,
    ensures
        reaches(m, prog, 5, after_restore(m, table[name])),
        after_restore(m, table[name]).wf(),
{
    let tail = seq![sym(name), assign(Dest::M, Comp::D)];
    lemma_holds_split(prog, m.pc as int, pop_d(), tail, table);
    lemma_pop_d(m, prog, table);
    let p = after_pop_d(m);
    let at = p.pc as int;
    assert(prog[at + 0] == resolved(tail[0], table));
    assert(prog[at + 1] == resolved(tail[1], table));
    let reg = table[name];
    let m1 = Machine { a: reg, pc: p.pc + 1, ..p };
    let end = after_restore(m, reg);
    assert(p.step(prog[at]) == Outcome { machine: m1, status: Ok(()) });
    assert(m1.step(prog[at + 1]) == Outcome { machine: end, status: Ok(()) });
    assert(reaches(end, prog, 0, end));
    assert(reaches(m1, prog, 1, end));
    assert(reaches(p, prog, 2, end));
    lemma_reaches_then(m, prog, 3, p, 2, end);
}

/// The machine after a call with `n` arguments on a stack that lies above
/// the registers: the return address and LCL, ARG, THIS and THAT stand on
/// the stack in this order, ARG addresses the first argument, LCL and SP
/// the cell above the saved frame, and the machine is at the callee.
pub open spec fn after_call(m: Machine, n: i32, ret: i16, callee: i16) -> Machine {
    let sp = m.ram[0] as int;
    Machine {
        a: callee,
        d: (sp + 5) as i16,
        pc: callee as nat,
        ram: m.ram.update(sp, ret).update(sp + 1, m.ram[1]).update(sp + 2, m.ram[2]).update(
            sp + 3,
            m.ram[3],
        ).update(sp + 4, m.ram[4]).update(0, (sp + 5) as i16).update(2, wrap(sp - n)).update(
            1,
            (sp + 5) as i16,
        ),
    }
}

/// The instructions of a call with any return label, wherever they stand
/// in a program, save the caller's frame on the stack, set ARG and LCL for
/// the callee and jump to it, in 47 instructions.
pub proof fn lemma_call_code(
    name: Seq<char>,
    n: i32,
    label: Seq<char>,
    m: Machine,
    prog: Seq<CommandView>,
    table: Map<Seq<char>, i16>,
)
    requires
        m.wf(),
        holds_at(prog, m.pc as int, instrs(call(name, n as int, label)), table),
        knows_registers(table),
        5 <= m.ram[0] <= i16::MAX - 5,
        i16::MIN <= n + 5 <= i16::MAX,
        table[name] >= 0,
    ensures
        reaches(m, prog, 47, after_call(m, n, table[label], table[name])),
{
    let ret = table[label];
    let callee = table[name];
    let sp = m.ram[0] as int;
    let head = seq![sym(label), assign(Dest::D, Comp::A)];
    let tail = seq![
        sym("SP"@),
        assign(Dest::D, Comp::M),
        load(n + 5),
        assign(Dest::D, Comp::DMinusA),
        sym("ARG"@),
        assign(Dest::M, Comp::D),
        sym("SP"@),
        assign(Dest::D, Comp::M),
        sym("LCL"@),
        assign(Dest::M, Comp::D),
        sym(name),
        jump_on(Comp::Zero, Jump::JMP),
    ];
    let c1 = head + push_d();
    let c2 = c1 + save("LCL"@);
    let c3 = c2 + save("ARG"@);
    let c4 = c3 + save("THIS"@);
    let c5 = c4 + save("THAT"@);
    let body = c5 + tail;
    assert(call(name, n as int, label) == body.push(CommandView::Label(label)));
    assert(no_labels(body)) by {
        assert forall|i: int| 0 <= i < body.len() implies !((#[trigger] body[i]) is Label) by {
            if i < 2 {
                assert(body[i] == head[i]);
            } else if i < 7 {
                assert(body[i] == push_d()[i - 2]);
            } else if i < 14 {
                assert(body[i] == save("LCL"@)[i - 7]);
            } else if i < 21 {
                assert(body[i] == save("ARG"@)[i - 14]);
            } else if i < 28 {
                assert(body[i] == save("THIS"@)[i - 21]);
            } else if i < 35 {
                assert(body[i] == save("THAT"@)[i - 28]);
            } else {
                assert(body[i] == tail[i - 35]);
            }
        }
    }
    lemma_no_labels(body, table);
    assert(body.push(CommandView::Label(label)).drop_last() == body);
    assert(instrs(call(name, n as int, label)) == body);
    lemma_holds_split(prog, m.pc as int, c5, tail, table);
    lemma_holds_split(prog, m.pc as int, c4, save("THAT"@), table);
    lemma_holds_split(prog, m.pc as int, c3, save("THIS"@), table);
    lemma_holds_split(prog, m.pc as int, c2, save("ARG"@), table);
    lemma_holds_split(prog, m.pc as int, c1, save("LCL"@), table);
    lemma_holds_split(prog, m.pc as int, head, push_d(), table);
    // the return address
    let at = m.pc as int;
    assert(prog[at + 0] == resolved(head[0], table));
    assert(prog[at + 1] == resolved(head[1], table));
    let m1 = Machine { a: ret, pc: m.pc + 1, ..m };
    let m2 = Machine { a: ret, d: ret, pc: m.pc + 2, ..m };
    assert(m.step(prog[at]) == Outcome { machine: m1, status: Ok(()) });
    assert(m1.step(prog[at + 1]) == Outcome { machine: m2, status: Ok(()) });
    assert(reaches(m2, prog, 0, m2));
    assert(reaches(m1, prog, 1, m2));
    lemma_push_d(m2, prog, table);
    let p1 = after_push_d(m2);
    lemma_reaches_then(m, prog, 2, m2, 5, p1);
    // the frame
    lemma_save(p1, prog, table, "LCL"@);
    let p2 = after_save(p1, 1);
    lemma_reaches_then(m, prog, 7, p1, 7, p2);
    lemma_save(p2, prog, table, "ARG"@);
    let p3 = after_save(p2, 2);
    lemma_reaches_then(m, prog, 14, p2, 7, p3);
    lemma_save(p3, prog, table, "THIS"@);
    let p4 = after_save(p3, 3);
    lemma_reaches_then(m, prog, 21, p3, 7, p4);
    lemma_save(p4, prog, table, "THAT"@);
    let p5 = after_save(p4, 4);
    lemma_reaches_then(m, prog, 28, p4, 7, p5);
    let saved = m.ram.update(sp, ret).update(sp + 1, m.ram[1]).update(sp + 2, m.ram[2]).update(
        sp + 3,
        m.ram[3],
    ).update(sp + 4, m.ram[4]).update(0, (sp + 5) as i16);
    assert(p5.ram == saved);
    assert(p5.pc == m.pc + 35);
    // ARG, LCL and the jump
    let to = p5.pc as int;
    assert(prog[to + 0] == resolved(tail[0], table));
    assert(prog[to + 1] == resolved(tail[1], table));
    assert(prog[to + 2] == resolved(tail[2], table));
    assert(prog[to + 3] == resolved(tail[3], table));
    assert(prog[to + 4] == resolved(tail[4], table));
    assert(prog[to + 5] == resolved(tail[5], table));
    assert(prog[to + 6] == resolved(tail[6], table));
    assert(prog[to + 7] == resolved(tail[7], table));
    assert(prog[to + 8] == resolved(tail[8], table));
    assert(prog[to + 9] == resolved(tail[9], table));
    assert(prog[to + 10] == resolved(tail[10], table));
    assert(prog[to + 11] == resolved(tail[11], table));
    let top = (sp + 5) as i16;
    let args = saved.update(2, wrap(sp - n));
    let q1 = Machine { a: 0, pc: p5.pc + 1, ..p5 };
    let q2 = Machine { d: top, pc: p5.pc + 2, ..q1 };
    let q3 = Machine { a: (n + 5) as i16, pc: p5.pc + 3, ..q2 };
    let q4 = Machine { d: wrap(sp - n), pc: p5.pc + 4, ..q3 };
    let q5 = Machine { a: 2, pc: p5.pc + 5, ..q4 };
    let q6 = Machine { ram: args, pc: p5.pc + 6, ..q5 };
    let q7 = Machine { a: 0, pc: p5.pc + 7, ..q6 };
    let q8 = Machine { d: top, pc: p5.pc + 8, ..q7 };
    let q9 = Machine { a: 1, pc: p5.pc + 9, ..q8 };
    let q10 = Machine { ram: args.update(1, top), pc: p5.pc + 10, ..q9 };
    let q11 = Machine { a: callee, pc: p5.pc + 11, ..q10 };
    let end = after_call(m, n, ret, callee);
    assert(p5.step(prog[to]) == Outcome { machine: q1, status: Ok(()) });
    assert(q1.step(prog[to + 1]) == Outcome { machine: q2, status: Ok(()) });
    assert(q2.step(prog[to + 2]) == Outcome { machine: q3, status: Ok(()) });
    assert(q3.step(prog[to + 3]) == Outcome { machine: q4, status: Ok(()) });
    assert(q4.step(prog[to + 4]) == Outcome { machine: q5, status: Ok(()) });
    assert(q5.step(prog[to + 5]) == Outcome { machine: q6, status: Ok(()) });
    assert(q6.step(prog[to + 6]) == Outcome { machine: q7, status: Ok(()) });
    assert(q7.step(prog[to + 7]) == Outcome { machine: q8, status: Ok(()) });
    assert(q8.step(prog[to + 8]) == Outcome { machine: q9, status: Ok(()) });
    assert(q9.step(prog[to + 9]) == Outcome { machine: q10, status: Ok(()) });
    assert(q10.step(prog[to + 10]) == Outcome { machine: q11, status: Ok(()) });
    assert(q11.step(prog[to + 11]) == Outcome { machine: end, status: Ok(()) });
    assert(reaches(end, prog, 0, end));
    assert(reaches(q11, prog, 1, end));
    assert(reaches(q10, prog, 2, end));
    assert(reaches(q9, prog, 3, end));
    assert(reaches(q8, prog, 4, end));
    assert(reaches(q7, prog, 5, end));
    assert(reaches(q6, prog, 6, end));
    assert(reaches(q5, prog, 7, end));
    assert(reaches(q4, prog, 8, end));
    assert(reaches(q3, prog, 9, end));
    assert(reaches(q2, prog, 10, end));
    assert(reaches(q1, prog, 11, end));
    assert(reaches(p5, prog, 12, end));
    lemma_reaches_then(m, prog, 35, p5, 12, end);
}


/// Whether the machine stands in a called function that can return: ARG
/// lies above the scratch registers, the saved frame of five cells lies
/// just below LCL and above the first argument, the stack holds a value to
/// return above LCL, and the saved return address is an address.
pub open spec fn in_frame(m: Machine) -> bool {
    let sp = m.ram[0] as int;
    let lcl = m.ram[1] as int;
    let arg = m.ram[2] as int;
    &&& 16 <= arg
    &&& arg < lcl - 5
    &&& lcl < sp
    &&& m.ram[lcl - 5] >= 0
}

/// The machine after a return from a frame: the returned value stands in
/// the cell of the first argument with SP just above it, THAT, THIS, ARG
/// and LCL are what the frame held, R14 holds the return address and R15
/// the old ARG, and the machine is at the return address.
pub open spec fn after_return(m: Machine) -> Machine {
    let sp = m.ram[0] as int;
    let lcl = m.ram[1] as int;
    let arg = m.ram[2] as int;
    let back = m.ram[lcl - 5];
    Machine {
        a: back,
        d: arg as i16,
        pc: back as nat,
        ram: m.ram.update(arg, m.ram[sp - 1]).update(15, arg as i16).update(
            4,
            m.ram[lcl - 1],
        ).update(3, m.ram[lcl - 2]).update(2, m.ram[lcl - 3]).update(1, m.ram[lcl - 4]).update(
            14,
            back,
        ).update(0, (arg + 1) as i16),
    }
}

/// The instructions of `return`, wherever they stand in a program, hand
/// the top of the stack to the caller, restore the caller's frame and jump
/// to the return address, in 46 instructions.
pub proof fn lemma_return(
    t: TranslatorView,
    m: Machine,
    prog: Seq<CommandView>,
    table: Map<Seq<char>, i16>,
)
    requires
        m.wf(),
        holds_at(prog, m.pc as int, t.instructions(VMCommandView::Return), table),
        knows_registers(table),
        in_frame(m),
    ensures
        reaches(m, prog, 46, after_return(m)),
{
    let sp = m.ram[0] as int;
    let lcl = m.ram[1] as int;
    let arg = m.ram[2] as int;
    let back = m.ram[lcl - 5];
    let value = m.ram[sp - 1];
    let mid = seq![
        sym("ARG"@),
        assign(Dest::A, Comp::M),
        assign(Dest::M, Comp::D),
        sym("ARG"@),
        assign(Dest::D, Comp::M),
        sym("R15"@),
        assign(Dest::M, Comp::D),
        sym("LCL"@),
        assign(Dest::D, Comp::M),
        sym("SP"@),
        assign(Dest::M, Comp::D),
    ];
    let tail = seq![
        sym("R15"@),
        assign(Dest::D, Comp::M),
        sym("SP"@),
        assign(Dest::M, Comp::DPlusOne),
        sym("R14"@),
        assign(Dest::A, Comp::M),
        jump_on(Comp::Zero, Jump::JMP),
    ];
    let c1 = pop_d() + mid;
    let c2 = c1 + restore("THAT"@);
    let c3 = c2 + restore("THIS"@);
    let c4 = c3 + restore("ARG"@);
    let c5 = c4 + restore("LCL"@);
    let c6 = c5 + restore("R14"@);
    assert(ret() == c6 + tail);
    lemma_holds_split(prog, m.pc as int, c6, tail, table);
    lemma_holds_split(prog, m.pc as int, c5, restore("R14"@), table);
    lemma_holds_split(prog, m.pc as int, c4, restore("LCL"@), table);
    lemma_holds_split(prog, m.pc as int, c3, restore("ARG"@), table);
    lemma_holds_split(prog, m.pc as int, c2, restore("THIS"@), table);
    lemma_holds_split(prog, m.pc as int, c1, restore("THAT"@), table);
    lemma_holds_split(prog, m.pc as int, pop_d(), mid, table);
    // the value goes to the caller, R15 keeps ARG, the stack is cut to LCL
    lemma_pop_d(m, prog, table);
    let p = after_pop_d(m);
    let at = p.pc as int;
    assert(prog[at + 0] == resolved(mid[0], table));
    assert(prog[at + 1] == resolved(mid[1], table));
    assert(prog[at + 2] == resolved(mid[2], table));
    assert(prog[at + 3] == resolved(mid[3], table));
    assert(prog[at + 4] == resolved(mid[4], table));
    assert(prog[at + 5] == resolved(mid[5], table));
    assert(prog[at + 6] == resolved(mid[6], table));
    assert(prog[at + 7] == resolved(mid[7], table));
    assert(prog[at + 8] == resolved(mid[8], table));
    assert(prog[at + 9] == resolved(mid[9], table));
    assert(prog[at + 10] == resolved(mid[10], table));
    let ram1 = m.ram.update(0, (sp - 1) as i16).update(arg, value);
    let ram2 = ram1.update(15, arg as i16);
    let ram3 = ram2.update(0, lcl as i16);
    let m1 = Machine { a: 2, pc: p.pc + 1, ..p };
    let m2 = Machine { a: arg as i16, pc: p.pc + 2, ..m1 };
    let m3 = Machine { ram: ram1, pc: p.pc + 3, ..m2 };
    let m4 = Machine { a: 2, pc: p.pc + 4, ..m3 };
    let m5 = Machine { d: arg as i16, pc: p.pc + 5, ..m4 };
    let m6 = Machine { a: 15, pc: p.pc + 6, ..m5 };
    let m7 = Machine { ram: ram2, pc: p.pc + 7, ..m6 };
    let m8 = Machine { a: 1, pc: p.pc + 8, ..m7 };
    let m9 = Machine { d: lcl as i16, pc: p.pc + 9, ..m8 };
    let m10 = Machine { a: 0, pc: p.pc + 10, ..m9 };
    let m11 = Machine { ram: ram3, pc: p.pc + 11, ..m10 };
    assert(p.step(prog[at]) == Outcome { machine: m1, status: Ok(()) });
    assert(m1.step(prog[at + 1]) == Outcome { machine: m2, status: Ok(()) });
    assert(m2.step(prog[at + 2]) == Outcome { machine: m3, status: Ok(()) });
    assert(m3.step(prog[at + 3]) == Outcome { machine: m4, status: Ok(()) });
    assert(m4.step(prog[at + 4]) == Outcome { machine: m5, status: Ok(()) });
    assert(m5.step(prog[at + 5]) == Outcome { machine: m6, status: Ok(()) });
    assert(m6.step(prog[at + 6]) == Outcome { machine: m7, status: Ok(()) });
    assert(m7.step(prog[at + 7]) == Outcome { machine: m8, status: Ok(()) });
    assert(m8.step(prog[at + 8]) == Outcome { machine: m9, status: Ok(()) });
    assert(m9.step(prog[at + 9]) == Outcome { machine: m10, status: Ok(()) });
    assert(m10.step(prog[at + 10]) == Outcome { machine: m11, status: Ok(()) });
    assert(reaches(m11, prog, 0, m11));
    assert(reaches(m10, prog, 1, m11));
    assert(reaches(m9, prog, 2, m11));
    assert(reaches(m8, prog, 3, m11));
    assert(reaches(m7, prog, 4, m11));
    assert(reaches(m6, prog, 5, m11));
    assert(reaches(m5, prog, 6, m11));
    assert(reaches(m4, prog, 7, m11));
    assert(reaches(m3, prog, 8, m11));
    assert(reaches(m2, prog, 9, m11));
    assert(reaches(m1, prog, 10, m11));
    assert(reaches(p, prog, 11, m11));
    lemma_reaches_then(m, prog, 3, p, 11, m11);
    // the frame
    lemma_restore(m11, prog, table, "THAT"@);
    let r1 = after_restore(m11, 4);
    lemma_reaches_then(m, prog, 14, m11, 5, r1);
    lemma_restore(r1, prog, table, "THIS"@);
    let r2 = after_restore(r1, 3);
    lemma_reaches_then(m, prog, 19, r1, 5, r2);
    lemma_restore(r2, prog, table, "ARG"@);
    let r3 = after_restore(r2, 2);
    lemma_reaches_then(m, prog, 24, r2, 5, r3);
    lemma_restore(r3, prog, table, "LCL"@);
    let r4 = after_restore(r3, 1);
    lemma_reaches_then(m, prog, 29, r3, 5, r4);
    lemma_restore(r4, prog, table, "R14"@);
    let r5 = after_restore(r4, 14);
    lemma_reaches_then(m, prog, 34, r4, 5, r5);
    let ram4 = m.ram.update(arg, value).update(15, arg as i16).update(4, m.ram[lcl - 1]).update(
        3,
        m.ram[lcl - 2],
    ).update(2, m.ram[lcl - 3]).update(1, m.ram[lcl - 4]).update(14, back).update(
        0,
        (lcl - 5) as i16,
    );
    assert(r5.ram == ram4);
    assert(r5.pc == m.pc + 39);
    // SP and the jump
    let to = r5.pc as int;
    assert(prog[to + 0] == resolved(tail[0], table));
    assert(prog[to + 1] == resolved(tail[1], table));
    assert(prog[to + 2] == resolved(tail[2], table));
    assert(prog[to + 3] == resolved(tail[3], table));
    assert(prog[to + 4] == resolved(tail[4], table));
    assert(prog[to + 5] == resolved(tail[5], table));
    assert(prog[to + 6] == resolved(tail[6], table));
    let end = after_return(m);
    let q1 = Machine { a: 15, pc: r5.pc + 1, ..r5 };
    let q2 = Machine { d: arg as i16, pc: r5.pc + 2, ..q1 };
    let q3 = Machine { a: 0, pc: r5.pc + 3, ..q2 };
    let q4 = Machine { ram: end.ram, pc: r5.pc + 4, ..q3 };
    let q5 = Machine { a: 14, pc: r5.pc + 5, ..q4 };
    let q6 = Machine { a: back, pc: r5.pc + 6, ..q5 };
    assert(ram4.update(0, (arg + 1) as i16) == end.ram);
    assert(r5.step(prog[to]) == Outcome { machine: q1, status: Ok(()) });
    assert(q1.step(prog[to + 1]) == Outcome { machine: q2, status: Ok(()) });
    assert(q2.step(prog[to + 2]) == Outcome { machine: q3, status: Ok(()) });
    assert(q3.step(prog[to + 3]) == Outcome { machine: q4, status: Ok(()) });
    assert(q4.step(prog[to + 4]) == Outcome { machine: q5, status: Ok(()) });
    assert(q5.step(prog[to + 5]) == Outcome { machine: q6, status: Ok(()) });
    assert(q6.step(prog[to + 6]) == Outcome { machine: end, status: Ok(()) });
    assert(reaches(end, prog, 0, end));
    assert(reaches(q6, prog, 1, end));
    assert(reaches(q5, prog, 2, end));
    assert(reaches(q4, prog, 3, end));
    assert(reaches(q3, prog, 4, end));
    assert(reaches(q2, prog, 5, end));
    assert(reaches(q1, prog, 6, end));
    assert(reaches(r5, prog, 7, end));
    lemma_reaches_then(m, prog, 39, r5, 7, end);
}


/// What a unary operation makes of a number.
pub open spec fn unary_result(op: VMOp, x: i16) -> i16 {
    if op == VMOp::NEG {
        wrap(-x)
    } else {
        !x
    }
}

/// What a binary operation makes of two numbers, the second being the
/// topmost. A sum or a difference that does not fit 16 bits wraps around.
pub open spec fn binary_result(op: VMOp, x: i16, y: i16) -> i16 {
    match op {
        VMOp::ADD => wrap(x + y),
        VMOp::SUB => wrap(x - y),
        VMOp::AND => x & y,
        _ => x | y,
    }
}

/// Whether a comparison holds of a difference.
pub open spec fn holds(op: VMOp, diff: i16) -> bool {
    match op {
        VMOp::EQ => diff == 0,
        VMOp::LT => diff < 0,
        _ => diff > 0,
    }
}

/// What a comparison makes of two numbers, the second being the topmost:
/// -1, which has every bit set, where it holds of their difference in 16
/// bits, and 0 where it does not.
pub open spec fn comparison_result(op: VMOp, x: i16, y: i16) -> i16 {
    if holds(op, wrap(x - y)) {
        -1i16
    } else {
        0i16
    }
}

/// The instructions of `neg` and `not`, wherever they stand in a program,
/// change the topmost number in place.
pub proof fn lemma_unary(
    t: TranslatorView,
    op: VMOp,
    m: Machine,
    prog: Seq<CommandView>,
    table: Map<Seq<char>, i16>,
)
    requires
        op.is_unary(),
        m.wf(),
        holds_at(prog, m.pc as int, t.instructions(VMCommandView::Arithmetic(op)), table),
        table["SP"@] == 0,
        m.ram[0] >= 2,
    ensures
        reaches(
            m,
            prog,
            3,
            Machine {
                a: (m.ram[0] - 1) as i16,
                pc: m.pc + 3,
                ram: m.ram.update(m.ram[0] - 1, unary_result(op, m.ram[m.ram[0] - 1])),
                ..m
            },
        ),
{
    let comp = if op == VMOp::NEG {
        Comp::MinusM
    } else {
        Comp::NotM
    };
    let code = unary(comp);
    let at = m.pc as int;
    let sp = m.ram[0] as int;
    assert(prog[at + 0] == resolved(code[0], table));
    assert(prog[at + 1] == resolved(code[1], table));
    assert(prog[at + 2] == resolved(code[2], table));
    let m1 = Machine { a: 0, pc: m.pc + 1, ..m };
    let m2 = Machine { a: (sp - 1) as i16, pc: m.pc + 2, ..m1 };
    let end = Machine {
        pc: m.pc + 3,
        ram: m.ram.update(sp - 1, unary_result(op, m.ram[sp - 1])),
        ..m2
    };
    assert(m.step(prog[at]) == Outcome { machine: m1, status: Ok(()) });
    assert(m1.step(prog[at + 1]) == Outcome { machine: m2, status: Ok(()) });
    assert(m2.step(prog[at + 2]) == Outcome { machine: end, status: Ok(()) });
    assert(reaches(end, prog, 0, end));
    assert(reaches(m2, prog, 1, end));
    assert(reaches(m1, prog, 2, end));
}

/// The instructions of `add`, `sub`, `and` and `or`, wherever they stand
/// in a program, put the result in place of the lower of the two topmost
/// numbers and take one from SP.
pub proof fn lemma_binary(
    t: TranslatorView,
    op: VMOp,
    m: Machine,
    prog: Seq<CommandView>,
    table: Map<Seq<char>, i16>,
)
    requires
        op.is_binary(),
        m.wf(),
        holds_at(prog, m.pc as int, t.instructions(VMCommandView::Arithmetic(op)), table),
        table["SP"@] == 0,
        m.ram[0] >= 3,
    ensures
        reaches(
            m,
            prog,
            6,
            Machine {
                a: (m.ram[0] - 2) as i16,
                d: m.ram[m.ram[0] - 1],
                pc: m.pc + 6,
                ram: m.ram.update(0, (m.ram[0] - 1) as i16).update(
                    m.ram[0] - 2,
                    binary_result(op, m.ram[m.ram[0] - 2], m.ram[m.ram[0] - 1]),
                ),
            },
        ),
{
    let comp = match op {
        VMOp::ADD => Comp::DPlusM,
        VMOp::SUB => Comp::MMinusD,
        VMOp::AND => Comp::DAndM,
        _ => Comp::DOrM,
    };
    let tail = seq![sym("SP"@), assign(Dest::A, Comp::MMinusOne), assign(Dest::M, comp)];
    lemma_holds_split(prog, m.pc as int, pop_d(), tail, table);
    lemma_pop_d(m, prog, table);
    let p = after_pop_d(m);
    let at = p.pc as int;
    let sp = m.ram[0] as int;
    let x = m.ram[sp - 2];
    let y = m.ram[sp - 1];
    assert(y & x == x & y) by (bit_vector);
    assert(y | x == x | y) by (bit_vector);
    assert(prog[at + 0] == resolved(tail[0], table));
    assert(prog[at + 1] == resolved(tail[1], table));
    assert(prog[at + 2] == resolved(tail[2], table));
    let m1 = Machine { a: 0, pc: p.pc + 1, ..p };
    let m2 = Machine { a: (sp - 2) as i16, pc: p.pc + 2, ..p };
    let end = Machine {
        pc: p.pc + 3,
        ram: p.ram.update(sp - 2, binary_result(op, x, y)),
        ..m2
    };
    assert(p.step(prog[at]) == Outcome { machine: m1, status: Ok(()) });
    assert(m1.step(prog[at + 1]) == Outcome { machine: m2, status: Ok(()) });
    assert(m2.step(prog[at + 2]) == Outcome { machine: end, status: Ok(()) });
    assert(reaches(end, prog, 0, end));
    assert(reaches(m2, prog, 1, end));
    assert(reaches(m1, prog, 2, end));
    assert(reaches(p, prog, 3, end));
    lemma_reaches_then(m, prog, 3, p, 3, end);
}

/// The instructions of a comparison are all its commands but the label,
/// which stands behind the twelfth.
pub proof fn lemma_comparison_instrs(jump: Jump, label: Seq<char>, table: Map<Seq<char>, i16>)
    ensures
        instrs(comparison(jump, label)).len() == 14,
        instrs(comparison(jump, label)) == comparison(jump, label).take(12) + comparison(
            jump,
            label,
        ).skip(13),
        instrs(comparison(jump, label).take(12)).len() == 12,
        comparison(jump, label)[12] == CommandView::Label(label),
        forall|k: int|
            0 <= k < 15 && k != 12 ==> !((#[trigger] comparison(jump, label)[k]) is Label),
{
    let cmds = comparison(jump, label);
    let a = cmds.take(12);
    let b = cmds.skip(13);
    let al = a.push(CommandView::Label(label));
    assert(cmds == al + b);
    lemma_no_labels(a, table);
    assert(al.drop_last() == a);
    lemma_append_no_labels(al, b, table);
}

/// The instructions of `eq`, `lt` and `gt`, wherever they stand in a
/// program in which the label of the comparison names the place behind its
/// twelfth instruction, put -1 or 0 in place of the lower of the two
/// topmost numbers and take one from SP.
pub proof fn lemma_comparison(
    t: TranslatorView,
    op: VMOp,
    m: Machine,
    prog: Seq<CommandView>,
    table: Map<Seq<char>, i16>,
)
    requires
        op.is_comparison(),
        m.wf(),
        holds_at(
            prog,
            m.pc as int,
            instrs(t.instructions(VMCommandView::Arithmetic(op))),
            table,
        ),
        table["SP"@] == 0,
        table[branch_label(t.label_num)] == m.pc + 12,
        m.ram[0] >= 3,
    ensures
        ({
            let sp = m.ram[0] as int;
            let x = m.ram[sp - 2];
            let y = m.ram[sp - 1];
            reaches(
                m,
                prog,
                if holds(op, wrap(x - y)) {
                    11
                } else {
                    14
                },
                Machine {
                    a: 0,
                    d: wrap(x - y),
                    pc: m.pc + 14,
                    ram: m.ram.update(0, (sp - 1) as i16).update(
                        sp - 2,
                        comparison_result(op, x, y),
                    ),
                },
            )
        }),
{
    let jump = match op {
        VMOp::EQ => Jump::JEQ,
        VMOp::LT => Jump::JLT,
        _ => Jump::JGT,
    };
    let label = branch_label(t.label_num);
    let cmds = comparison(jump, label);
    lemma_comparison_instrs(jump, label, table);
    let code = instrs(cmds);
    let at = m.pc as int;
    assert(prog[at + 0] == resolved(code[0], table));
    assert(prog[at + 1] == resolved(code[1], table));
    assert(prog[at + 2] == resolved(code[2], table));
    assert(prog[at + 3] == resolved(code[3], table));
    assert(prog[at + 4] == resolved(code[4], table));
    assert(prog[at + 5] == resolved(code[5], table));
    assert(prog[at + 6] == resolved(code[6], table));
    assert(prog[at + 7] == resolved(code[7], table));
    assert(prog[at + 8] == resolved(code[8], table));
    assert(prog[at + 9] == resolved(code[9], table));
    assert(prog[at + 10] == resolved(code[10], table));
    assert(prog[at + 11] == resolved(code[11], table));
    assert(prog[at + 12] == resolved(code[12], table));
    assert(prog[at + 13] == resolved(code[13], table));
    let sp = m.ram[0] as int;
    let x = m.ram[sp - 2];
    let y = m.ram[sp - 1];
    let diff = wrap(x - y);
    let r = comparison_result(op, x, y);
    let target = (m.pc + 12) as i16;
    let ram1 = m.ram.update(0, (sp - 1) as i16);
    let ram2 = ram1.update(0, (sp - 2) as i16);
    let ram3 = ram2.update(sp - 2, -1i16);
    let m1 = Machine { a: 0, pc: m.pc + 1, ..m };
    let m2 = Machine { a: (sp - 1) as i16, pc: m.pc + 2, ram: ram1, ..m1 };
    let m3 = Machine { d: y, pc: m.pc + 3, ..m2 };
    let m4 = Machine { a: 0, pc: m.pc + 4, ..m3 };
    let m5 = Machine { a: (sp - 2) as i16, pc: m.pc + 5, ram: ram2, ..m4 };
    let m6 = Machine { d: diff, pc: m.pc + 6, ..m5 };
    let m7 = Machine { ram: ram3, pc: m.pc + 7, ..m6 };
    let m8 = Machine { a: target, pc: m.pc + 8, ..m7 };
    assert(m.step(prog[at]) == Outcome { machine: m1, status: Ok(()) });
    assert(m1.step(prog[at + 1]) == Outcome { machine: m2, status: Ok(()) });
    assert(m2.step(prog[at + 2]) == Outcome { machine: m3, status: Ok(()) });
    assert(m3.step(prog[at + 3]) == Outcome { machine: m4, status: Ok(()) });
    assert(m4.step(prog[at + 4]) == Outcome { machine: m5, status: Ok(()) });
    assert(m5.step(prog[at + 5]) == Outcome { machine: m6, status: Ok(()) });
    assert(m6.step(prog[at + 6]) == Outcome { machine: m7, status: Ok(()) });
    assert(m7.step(prog[at + 7]) == Outcome { machine: m8, status: Ok(()) });
    assert(jump.taken(diff) == holds(op, diff));
    let ram_c = if holds(op, diff) {
        ram3
    } else {
        ram3.update(sp - 2, 0i16)
    };
    let c12 = Machine {
        a: if holds(op, diff) {
            target
        } else {
            (sp - 2) as i16
        },
        pc: m.pc + 12,
        ram: ram_c,
        ..m8
    };
    let c13 = Machine { a: 0, pc: m.pc + 13, ..c12 };
    let end = Machine { pc: m.pc + 14, ram: ram_c.update(0, (sp - 1) as i16), ..c13 };
    assert(end.ram == m.ram.update(0, (sp - 1) as i16).update(sp - 2, r));
    assert(c12.step(prog[at + 12]) == Outcome { machine: c13, status: Ok(()) });
    assert(c13.step(prog[at + 13]) == Outcome { machine: end, status: Ok(()) });
    assert(reaches(end, prog, 0, end));
    assert(reaches(c13, prog, 1, end));
    assert(reaches(c12, prog, 2, end));
    if holds(op, diff) {
        assert(m8.step(prog[at + 8]) == Outcome { machine: c12, status: Ok(()) });
        assert(reaches(m8, prog, 3, end));
    } else {
        let m9 = Machine { pc: m.pc + 9, ..m8 };
        let m10 = Machine { a: 0, pc: m.pc + 10, ..m9 };
        let m11 = Machine { a: (sp - 2) as i16, pc: m.pc + 11, ..m10 };
        assert(m8.step(prog[at + 8]) == Outcome { machine: m9, status: Ok(()) });
        assert(m9.step(prog[at + 9]) == Outcome { machine: m10, status: Ok(()) });
        assert(m10.step(prog[at + 10]) == Outcome { machine: m11, status: Ok(()) });
        assert(m11.step(prog[at + 11]) == Outcome { machine: c12, status: Ok(()) });
        assert(reaches(m11, prog, 3, end));
        assert(reaches(m10, prog, 4, end));
        assert(reaches(m9, prog, 5, end));
        assert(reaches(m8, prog, 6, end));
    }
    let n: nat = if holds(op, diff) {
        3
    } else {
        6
    };
    assert(reaches(m8, prog, n, end));
    assert(reaches(m7, prog, n + 1, end));
    assert(reaches(m6, prog, n + 2, end));
    assert(reaches(m5, prog, n + 3, end));
    assert(reaches(m4, prog, n + 4, end));
    assert(reaches(m3, prog, n + 5, end));
    assert(reaches(m2, prog, n + 6, end));
    assert(reaches(m1, prog, n + 7, end));
    assert(reaches(m, prog, n + 8, end));
}


/// The instructions of `call`, wherever they stand in a program, save the
/// caller's frame on the stack, set ARG and LCL for the callee and jump to
/// it, in 47 instructions.
pub proof fn lemma_call(
    t: TranslatorView,
    name: Seq<char>,
    n: i32,
    m: Machine,
    prog: Seq<CommandView>,
    table: Map<Seq<char>, i16>,
)
    requires
        m.wf(),
        holds_at(prog, m.pc as int, instrs(t.instructions(VMCommandView::Call(name, n))), table),
        knows_registers(table),
        5 <= m.ram[0] <= i16::MAX - 5,
        i16::MIN <= n + 5 <= i16::MAX,
        table[name] >= 0,
    ensures
        reaches(
            m,
            prog,
            47,
            after_call(m, n, table[return_label(t.return_num)], table[name]),
        ),
{
    lemma_call_code(name, n, return_label(t.return_num), m, prog, table);
}

/// The instructions of the bootstrap, wherever they stand in a program,
/// set SP to 256 and call `Sys.init` without arguments.
pub proof fn lemma_bootstrap(m: Machine, prog: Seq<CommandView>, table: Map<Seq<char>, i16>)
    requires
        m.wf(),
        holds_at(
            prog,
            m.pc as int,
            stack_start() + instrs(call("Sys.init"@, 0, bootstrap_label())),
            table,
        ),
        knows_registers(table),
        table["Sys.init"@] >= 0,
    ensures
        reaches(
            m,
            prog,
            51,
            after_call(
                Machine { pc: m.pc + 4, ram: m.ram.update(0, 256i16), ..m },
                0,
                table[bootstrap_label()],
                table["Sys.init"@],
            ),
        ),
{
    let head = stack_start();
    lemma_holds_split(
        prog,
        m.pc as int,
        head,
        instrs(call("Sys.init"@, 0, bootstrap_label())),
        table,
    );
    let at = m.pc as int;
    assert(prog[at + 0] == resolved(head[0], table));
    assert(prog[at + 1] == resolved(head[1], table));
    assert(prog[at + 2] == resolved(head[2], table));
    assert(prog[at + 3] == resolved(head[3], table));
    let m1 = Machine { a: 256, pc: m.pc + 1, ..m };
    let m2 = Machine { d: 256, pc: m.pc + 2, ..m1 };
    let m3 = Machine { a: 0, pc: m.pc + 3, ..m2 };
    let m4 = Machine { pc: m.pc + 4, ram: m.ram.update(0, 256i16), ..m3 };
    assert(m.step(prog[at]) == Outcome { machine: m1, status: Ok(()) });
    assert(m1.step(prog[at + 1]) == Outcome { machine: m2, status: Ok(()) });
    assert(m2.step(prog[at + 2]) == Outcome { machine: m3, status: Ok(()) });
    assert(m3.step(prog[at + 3]) == Outcome { machine: m4, status: Ok(()) });
    assert(reaches(m4, prog, 0, m4));
    assert(reaches(m3, prog, 1, m4));
    assert(reaches(m2, prog, 2, m4));
    assert(reaches(m1, prog, 3, m4));
    lemma_call_code("Sys.init"@, 0, bootstrap_label(), m4, prog, table);
    let end = after_call(m4, 0, table[bootstrap_label()], table["Sys.init"@]);
    lemma_reaches_then(m, prog, 4, m4, 47, end);
    assert(end == after_call(
        Machine { pc: m.pc + 4, ram: m.ram.update(0, 256i16), ..m },
        0,
        table[bootstrap_label()],
        table["Sys.init"@],
    ));
}

/// A return undoes a call. Let a function be called with `n` arguments,
/// one or more, from a stack on which they lie above the scratch
/// registers. Whatever the function does, if at its return LCL, ARG and
/// the saved frame are as the call left them and a value lies on the stack
/// above LCL, then after the return that value stands in place of the
/// first argument with SP just above it, LCL, ARG, THIS and THAT are what
/// they were before the call, and the machine is at the return address.
pub proof fn lemma_return_undoes_call(
    m: Machine,
    n: i32,
    ret: i16,
    callee: i16,
    body: Machine,
)
    requires
        m.wf(),
        body.wf(),
        1 <= n,
        16 + n <= m.ram[0] <= i16::MAX - 5,
        ret >= 0,
        body.ram[1] == after_call(m, n, ret, callee).ram[1],
        body.ram[2] == after_call(m, n, ret, callee).ram[2],
        forall|i: int|
            m.ram[0] <= i < m.ram[0] + 5 ==> body.ram[i] == after_call(m, n, ret, callee).ram[i],
        body.ram[0] > body.ram[1],
    ensures
        in_frame(body),
        after_return(body).pc == ret,
        after_return(body).ram[0] == m.ram[0] - n + 1,
        after_return(body).ram[m.ram[0] - n] == body.ram[body.ram[0] - 1],
        after_return(body).ram[1] == m.ram[1],
        after_return(body).ram[2] == m.ram[2],
        after_return(body).ram[3] == m.ram[3],
        after_return(body).ram[4] == m.ram[4],
{
    let sp = m.ram[0] as int;
    assert(body.ram[sp] == ret);
    assert(body.ram[sp + 1] == m.ram[1]);
    assert(body.ram[sp + 2] == m.ram[2]);
    assert(body.ram[sp + 3] == m.ram[3]);
    assert(body.ram[sp + 4] == m.ram[4]);
}

} // verus!
