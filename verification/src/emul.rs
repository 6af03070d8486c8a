//! An emulator of the target machine: two registers, a program counter and
//! a memory of 32768 cells of 16 bits, driven by resolved instructions.

use vstd::prelude::*;
use crate::assembler::{
    assemble, seed, views, Asm, Command, CommandView, Comp, Dest, Jump, ParserError,
    ParserErrorView,
};

verus! {

/// The number of memory cells.
pub const RAM_SIZE: usize = 32768;

/// Why the machine stopped before the end of its program.
#[derive(Debug, PartialEq, Eq, Copy, Clone, Structural)]
pub enum EmulError {
    /// An instruction read or wrote memory while A was negative.
    NegativeAddress,
    /// The program counter left the program other than by reaching its end.
    PcOutOfRange,
    /// The program was still running when its ticks were used up.
    TickBudgetExhausted,
    /// The program counter met a symbol or a label, which cannot be executed.
    NotAnInstruction,
}

/// Why a program text could not be run to its end.
#[derive(Debug, PartialEq, Eq, Clone)]
pub enum RunError {
    Assembler(ParserError),
    Emulator(EmulError),
}

/// What an error of a run holds, with its text as characters.
pub enum RunErrorView {
    Assembler(ParserErrorView),
    Emulator(EmulError),
}

impl View for RunError {
    type V = RunErrorView;

    open spec fn view(&self) -> RunErrorView {
        match self {
            RunError::Assembler(e) => RunErrorView::Assembler(e@),
            RunError::Emulator(e) => RunErrorView::Emulator(*e),
        }
    }
}

/// The state of the machine.
pub struct Machine {
    pub a: i16,
    pub d: i16,
    pub pc: nat,
    pub ram: Seq<i16>,
}

/// A state of the machine and whether it was reached without error.
pub struct Outcome {
    pub machine: Machine,
    pub status: Result<(), EmulError>,
}

/// A number brought into 16 bits, as two's complement arithmetic does with
/// a sum or a difference of two registers.
pub open spec fn wrap(x: int) -> i16 {
    if x > i16::MAX {
        (x - 0x1_0000) as i16
    } else if x < i16::MIN {
        (x + 0x1_0000) as i16
    } else {
        x as i16
    }
}

impl Comp {
    /// Whether the computation reads M, the memory cell that A addresses.
    pub open spec fn reads_memory(self) -> bool {
        match self {
            Comp::M
            | Comp::NotM
            | Comp::MinusM
            | Comp::MPlusOne
            | Comp::MMinusOne
            | Comp::DPlusM
            | Comp::DMinusM
            | Comp::MMinusD
            | Comp::DAndM
            | Comp::DOrM => true,
            _ => false,
        }
    }

    /// The result of the computation from the values of A, D and M.
    pub open spec fn value(self, a: i16, d: i16, m: i16) -> i16 {
        match self {
            Comp::Zero => 0i16,
            Comp::One => 1i16,
            Comp::MinusOne => (-1i16) as i16,
            Comp::D => d,
            Comp::A => a,
            Comp::NotD => !d,
            Comp::NotA => !a,
            Comp::MinusD => wrap(-d),
            Comp::MinusA => wrap(-a),
            Comp::DPlusOne => wrap(d + 1),
            Comp::APlusOne => wrap(a + 1),
            Comp::DMinusOne => wrap(d - 1),
            Comp::AMinusOne => wrap(a - 1),
            Comp::DPlusA => wrap(d + a),
            Comp::DMinusA => wrap(d - a),
            Comp::AMinusD => wrap(a - d),
            Comp::DAndA => d & a,
            Comp::DOrA => d | a,
            Comp::M => m,
            Comp::NotM => !m,
            Comp::MinusM => wrap(-m),
            Comp::MPlusOne => wrap(m + 1),
            Comp::MMinusOne => wrap(m - 1),
            Comp::DPlusM => wrap(d + m),
            Comp::DMinusM => wrap(d - m),
            Comp::MMinusD => wrap(m - d),
            Comp::DAndM => d & m,
            Comp::DOrM => d | m,
        }
    }
}

impl Dest {
    /// Whether the destination takes in M.
    pub open spec fn writes_m(self) -> bool {
        self == Dest::M || self == Dest::MD || self == Dest::AM || self == Dest::AMD
    }

    /// Whether the destination takes in D.
    pub open spec fn writes_d(self) -> bool {
        self == Dest::D || self == Dest::MD || self == Dest::AD || self == Dest::AMD
    }

    /// Whether the destination takes in A.
    pub open spec fn writes_a(self) -> bool {
        self == Dest::A || self == Dest::AM || self == Dest::AD || self == Dest::AMD
    }
}

impl Jump {
    /// Whether the jump is taken on a result.
    pub open spec fn taken(self, res: i16) -> bool {
        match self {
            Jump::Null => false,
            Jump::JGT => res > 0,
            Jump::JEQ => res == 0,
            Jump::JGE => res >= 0,
            Jump::JLT => res < 0,
            Jump::JNE => res != 0,
            Jump::JLE => res <= 0,
            Jump::JMP => true,
        }
    }
}

impl Machine {
    /// Whether the memory has all its cells.
    pub open spec fn wf(self) -> bool {
        self.ram.len() == RAM_SIZE
    }

    /// The result of a computation, which needs A to be an address if it
    /// reads memory.
    pub open spec fn eval(self, comp: Comp) -> Result<i16, EmulError> {
        if !comp.reads_memory() {
            Ok(comp.value(self.a, self.d, 0))
        } else if self.a < 0 {
            Err(EmulError::NegativeAddress)
        } else {
            Ok(comp.value(self.a, self.d, self.ram[self.a as int]))
        }
    }

    /// The machine after a result is stored: first in memory, at the
    /// address that A holds before it is written itself, then in D, then
    /// in A.
    pub open spec fn store(self, dest: Dest, res: i16) -> Result<Machine, EmulError> {
        if dest.writes_m() && self.a < 0 {
            Err(EmulError::NegativeAddress)
        } else {
            Ok(
                Machine {
                    ram: if dest.writes_m() {
                        self.ram.update(self.a as int, res)
                    } else {
                        self.ram
                    },
                    d: if dest.writes_d() {
                        res
                    } else {
                        self.d
                    },
                    a: if dest.writes_a() {
                        res
                    } else {
                        self.a
                    },
                    pc: self.pc,
                },
            )
        }
    }

    /// The machine after the jump is decided: at the address in A if the
    /// jump is taken on the result, at the next instruction if it is not.
    pub open spec fn branch(self, jump: Jump, res: i16) -> Result<Machine, EmulError> {
        if !jump.taken(res) {
            Ok(Machine { pc: self.pc + 1, ..self })
        } else if self.a < 0 {
            Err(EmulError::PcOutOfRange)
        } else {
            Ok(Machine { pc: self.a as nat, ..self })
        }
    }

    /// One instruction. On an error the machine stays as the part of the
    /// instruction that was done has left it.
    pub open spec fn step(self, ins: CommandView) -> Outcome {
        match ins {
            CommandView::A(n) => Outcome {
                machine: Machine { a: n, pc: self.pc + 1, ..self },
                status: Ok(()),
            },
            CommandView::C(dest, comp, jump) => match self.eval(comp) {
                Err(e) => Outcome { machine: self, status: Err(e) },
                Ok(res) => match self.store(dest, res) {
                    Err(e) => Outcome { machine: self, status: Err(e) },
                    Ok(stored) => match stored.branch(jump, res) {
                        Err(e) => Outcome { machine: stored, status: Err(e) },
                        Ok(next) => Outcome { machine: next, status: Ok(()) },
                    },
                },
            },
            _ => Outcome { machine: self, status: Err(EmulError::NotAnInstruction) },
        }
    }

    /// The run of a program for at most `ticks` instructions. It ends well
    /// when the program counter stands just behind the last instruction.
    pub open spec fn run(self, prog: Seq<CommandView>, ticks: nat) -> Outcome
        decreases ticks,
    {
        if self.pc > prog.len() {
            Outcome { machine: self, status: Err(EmulError::PcOutOfRange) }
        } else if self.pc == prog.len() {
            Outcome { machine: self, status: Ok(()) }
        } else if ticks == 0 {
            Outcome { machine: self, status: Err(EmulError::TickBudgetExhausted) }
        } else {
            let o = self.step(prog[self.pc as int]);
            if o.status is Err {
                o
            } else {
                o.machine.run(prog, (ticks - 1) as nat)
            }
        }
    }

    /// The memory after each cell of a list was set to its value, in the
    /// order of the list.
    pub open spec fn poke(ram: Seq<i16>, cells: Seq<(usize, i16)>) -> Seq<i16>
        decreases cells.len(),
    {
        if cells.len() == 0 {
            ram
        } else {
            Machine::poke(ram, cells.drop_last()).update(
                cells.last().0 as int,
                cells.last().1,
            )
        }
    }
}

/// The number of ticks that a budget allows.
pub open spec fn ticks_of(maxticks: i32) -> nat {
    if maxticks < 0 {
        0
    } else {
        maxticks as nat
    }
}

/// What running a program text gives: the text is assembled with the
/// predefined symbols and run from the given state.
pub open spec fn run_text(m: Machine, code: Seq<char>, ticks: nat) -> (
    Machine,
    Result<(), RunErrorView>,
) {
    match assemble(code, seed()) {
        Err(e) => (m, Err(RunErrorView::Assembler(e))),
        Ok(out) => {
            let o = m.run(out.0, ticks);
            (
                o.machine,
                match o.status {
                    Ok(_) => Ok(()),
                    Err(e) => Err(RunErrorView::Emulator(e)),
                },
            )
        },
    }
}

/// What a run gave, with the text of its error as characters.
pub open spec fn run_result_view(r: Result<(), RunError>) -> Result<(), RunErrorView> {
    match r {
        Ok(_) => Ok(()),
        Err(e) => Err(e@),
    }
}

/// The emulator.
pub struct Emul {
    pub a: i16,
    pub d: i16,
    pub pc: usize,
    pub ram: [i16; 32768],
}

impl View for Emul {
    type V = Machine;

    open spec fn view(&self) -> Machine {
        Machine { a: self.a, d: self.d, pc: self.pc as nat, ram: self.ram@ }
    }
}

impl Emul {
    /// A machine with every register and every cell at zero.
    pub fn new() -> (r: Emul)
        ensures
            r@ == (Machine { a: 0, d: 0, pc: 0, ram: Seq::new(RAM_SIZE as nat, |i: int| 0i16) }),
    {
        let r = Emul { a: 0, d: 0, pc: 0, ram: [0i16;32768] };
        assert(r.ram@ =~= Seq::new(RAM_SIZE as nat, |i: int| 0i16));
        r
    }

    /// Sets memory cells, each given by its address and its value.
    pub fn set_ram(&mut self, cells: &[(usize, i16)])
        requires
            forall|i: int| 0 <= i < cells@.len() ==> cells@[i].0 < RAM_SIZE,
        ensures
            final(self)@ == (Machine { ram: Machine::poke(old(self)@.ram, cells@), ..old(self)@ }),
    {
        let mut i: usize = 0;
        assert(cells@.take(0).len() == 0);
        while i < cells.len()
            invariant
                i <= cells.len(),
                forall|i: int| 0 <= i < cells@.len() ==> cells@[i].0 < RAM_SIZE,
                self@ == (Machine {
                    ram: Machine::poke(old(self)@.ram, cells@.take(i as int)),
                    ..old(self)@
                }),
            decreases cells.len() - i,
        {
            assert(cells@.take(i + 1).drop_last() == cells@.take(i as int));
            let (addr, val) = cells[i];
            self.ram[addr] = val;
            i += 1;
        }
        assert(cells@.take(cells.len() as int) == cells@);
    }

    fn m(&self) -> (r: Result<i16, EmulError>)
        ensures
            r == (if self.a < 0 {
                Err::<i16, EmulError>(EmulError::NegativeAddress)
            } else {
                Ok(self.ram@[self.a as int])
            }),
    {
        if self.a < 0 {
            Err(EmulError::NegativeAddress)
        } else {
            Ok(self.ram[self.a as usize])
        }
    }

    fn do_comp(&self, comp: &Comp) -> (r: Result<i16, EmulError>)
        ensures
            r == self@.eval(*comp),
    {
        let m: i16 = match comp {
            Comp::M
            | Comp::NotM
            | Comp::MinusM
            | Comp::MPlusOne
            | Comp::MMinusOne
            | Comp::DPlusM
            | Comp::DMinusM
            | Comp::MMinusD
            | Comp::DAndM
            | Comp::DOrM => match self.m() {
                Ok(v) => v,
                Err(e) => {
                    return Err(e);
                },
            },
            _ => 0,
        };
        let a = self.a;
        let d = self.d;
        Ok(
            match comp {
                Comp::Zero => 0,
                Comp::One => 1,
                Comp::MinusOne => -1,
                Comp::D => d,
                Comp::A => a,
                Comp::NotD => !d,
                Comp::NotA => !a,
                Comp::MinusD => 0i16.wrapping_sub(d),
                Comp::MinusA => 0i16.wrapping_sub(a),
                Comp::DPlusOne => d.wrapping_add(1),
                Comp::APlusOne => a.wrapping_add(1),
                Comp::DMinusOne => d.wrapping_sub(1),
                Comp::AMinusOne => a.wrapping_sub(1),
                Comp::DPlusA => d.wrapping_add(a),
                Comp::DMinusA => d.wrapping_sub(a),
                Comp::AMinusD => a.wrapping_sub(d),
                Comp::DAndA => d & a,
                Comp::DOrA => d | a,
                Comp::M => m,
                Comp::NotM => !m,
                Comp::MinusM => 0i16.wrapping_sub(m),
                Comp::MPlusOne => m.wrapping_add(1),
                Comp::MMinusOne => m.wrapping_sub(1),
                Comp::DPlusM => d.wrapping_add(m),
                Comp::DMinusM => d.wrapping_sub(m),
                Comp::MMinusD => m.wrapping_sub(d),
                Comp::DAndM => d & m,
                Comp::DOrM => d | m,
            },
        )
    }

    /// Stores a result where the destination says.
    pub fn do_dest(&mut self, dest: &Dest, res: i16) -> (r: Result<(), EmulError>)
        ensures
            match old(self)@.store(*dest, res) {
                Ok(m) => r is Ok && final(self)@ == m,
                Err(e) => r == Err::<(), EmulError>(e) && final(self)@ == old(self)@,
            },
    {
        let to_m = matches!(dest, Dest::M | Dest::MD | Dest::AM | Dest::AMD);
        let to_d = matches!(dest, Dest::D | Dest::MD | Dest::AD | Dest::AMD);
        let to_a = matches!(dest, Dest::A | Dest::AM | Dest::AD | Dest::AMD);
        if to_m {
            if self.a < 0 {
                return Err(EmulError::NegativeAddress);
            }
            let addr = self.a as usize;
            self.ram[addr] = res;
        }
        if to_d {
            self.d = res;
        }
        if to_a {
            self.a = res;
        }
        Ok(())
    }

    /// Moves the program counter: to the address in A if the jump is taken
    /// on the result, to the next instruction if it is not.
    pub fn do_jump(&mut self, jump: &Jump, res: i16) -> (r: Result<(), EmulError>)
        requires
            old(self).pc < usize::MAX,
        ensures
            match old(self)@.branch(*jump, res) {
                Ok(m) => r is Ok && final(self)@ == m,
                Err(e) => r == Err::<(), EmulError>(e) && final(self)@ == old(self)@,
            },
    {
        let jmp: bool = match jump {
            Jump::Null => false,
            Jump::JGT => res > 0,
            Jump::JEQ => res == 0,
            Jump::JGE => res >= 0,
            Jump::JLT => res < 0,
            Jump::JNE => res != 0,
            Jump::JLE => res <= 0,
            Jump::JMP => true,
        };
        if jmp {
            if self.a < 0 {
                return Err(EmulError::PcOutOfRange);
            }
            self.pc = self.a as usize;
        } else {
            self.pc += 1;
        }
        Ok(())
    }

    /// Runs a program from the machine's state for at most `maxticks`
    /// instructions.
    pub fn run(&mut self, prog: Vec<Command>, maxticks: i32) -> (r: Result<(), EmulError>)
        ensures
            (Outcome { machine: final(self)@, status: r }) == old(self)@.run(
                views(prog@),
                ticks_of(maxticks),
            ),
    {
        let mut n_ticks: i32 = 0;
        while self.pc < prog.len()
            invariant
                0 <= n_ticks,
                n_ticks <= maxticks || n_ticks == 0,
                old(self)@.run(views(prog@), ticks_of(maxticks)) == self@.run(
                    views(prog@),
                    (ticks_of(maxticks) - n_ticks) as nat,
                ),
            decreases ticks_of(maxticks) - n_ticks,
        {
            if n_ticks >= maxticks {
                return Err(EmulError::TickBudgetExhausted);
            }
            match &prog[self.pc] {
                Command::A(n) => {
                    self.a = *n;
                    self.pc += 1;
                },
                Command::C(dest, comp, jump) => {
                    let res = match self.do_comp(comp) {
                        Ok(v) => v,
                        Err(e) => {
                            return Err(e);
                        },
                    };
                    match self.do_dest(dest, res) {
                        Ok(_) => {},
                        Err(e) => {
                            return Err(e);
                        },
                    }
                    match self.do_jump(jump, res) {
                        Ok(_) => {},
                        Err(e) => {
                            return Err(e);
                        },
                    }
                },
                _ => {
                    return Err(EmulError::NotAnInstruction);
                },
            }
            n_ticks += 1;
        }
        if self.pc > prog.len() {
            Err(EmulError::PcOutOfRange)
        } else {
            Ok(())
        }
    }

    /// Assembles a program text and runs it.
    pub fn run_code(&mut self, code: &str, maxticks: i32) -> (r: Result<(), RunError>)
        ensures
            (final(self)@, run_result_view(r)) == run_text(old(self)@, code@, ticks_of(maxticks)),
    {
        let mut assembler = Asm::new();
        match assembler.parse_code_str(code) {
            Err(e) => Err(RunError::Assembler(e)),
            Ok(cmds) => match self.run(cmds, maxticks) {
                Ok(_) => Ok(()),
                Err(e) => Err(RunError::Emulator(e)),
            },
        }
    }
}

} // verus!
