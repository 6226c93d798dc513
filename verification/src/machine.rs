//! The abstract machine: what executing an instruction sequence means.
//!
//! A [`Machine`] is the tape with its two cursors. A [`Config`] adds the
//! machine's dealings with the outside world: how much input it has consumed
//! and what it has emitted. [`Config::step`] is one turn of the
//! fetch-decode-execute cycle, and a run is a chain of steps that ends in a
//! configuration that cannot move: the instruction pointer has left the code,
//! or the next instruction would take the memory pointer off the tape.
//!
//! Reading past the end of the input stores zero in the current cell.

use vstd::prelude::*;
use crate::compile::Instruction;

verus! {

/// The tape and its two cursors.
pub struct Machine {
    /// The cells.
    pub tape: Seq<u8>,
    /// Index of the current cell.
    pub ptr: int,
    /// Index of the next instruction.
    pub ip: int,
}

/// What the machine needs from its driver after an instruction.
#[derive(Debug, Clone, Copy, PartialEq, Eq, Structural)]
pub enum Action {
    /// Nothing: go on with the next instruction.
    Proceed,
    /// A byte of input, to be stored in the current cell.
    Input,
    /// This byte is to be written to the output.
    Output(u8),
    /// Nothing more: the instruction pointer has left the code.
    Halt,
}

/// The sum of two cell values, modulo 256.
pub open spec fn wrapping_sum(a: u8, b: u8) -> u8 {
    ((a + b) % 256) as u8
}

/// The byte that a read yields once `consumed` bytes of `input` are gone:
/// the next byte, or zero at the end of the input.
pub open spec fn next_byte(input: Seq<u8>, consumed: int) -> u8 {
    if 0 <= consumed < input.len() {
        input[consumed]
    } else {
        0
    }
}

impl Machine {
    /// A fresh machine with `cells` zeroed cells, both cursors at zero.
    pub open spec fn start(cells: nat) -> Machine {
        Machine { tape: Seq::new(cells, |i: int| 0u8), ptr: 0, ip: 0 }
    }

    /// The memory pointer is on the tape.
    pub open spec fn wf(self) -> bool {
        0 <= self.ptr < self.tape.len() && 0 <= self.ip
    }

    /// The value of the current cell.
    pub open spec fn cell(self) -> u8 {
        self.tape[self.ptr]
    }

    /// The machine with `value` in the current cell.
    pub open spec fn with_cell(self, value: u8) -> Machine {
        Machine { tape: self.tape.update(self.ptr, value), ..self }
    }

    /// The machine with its instruction pointer at `target`.
    pub open spec fn at(self, target: int) -> Machine {
        Machine { ip: target, ..self }
    }

    /// The instruction pointer has left the code: the run is complete.
    pub open spec fn halted(self, code: Seq<Instruction>) -> bool {
        self.ip >= code.len()
    }

    /// The next instruction would move the memory pointer off the tape.
    pub open spec fn faults(self, code: Seq<Instruction>) -> bool {
        &&& !self.halted(code)
        &&& code[self.ip] matches Instruction::MovePtr(by)
        &&& !(0 <= self.ptr + by < self.tape.len())
    }

    /// The machine after the instruction `instr`, taken from index `ip`,
    /// apart from input and output: a read leaves the cell as it is, for the
    /// driver to fill.
    pub open spec fn after(self, instr: Instruction) -> Machine {
        let next = self.at(self.ip + 1);
        match instr {
            Instruction::MovePtr(by) => Machine { ptr: self.ptr + by, ..next },
            Instruction::Add(amount) => next.with_cell(wrapping_sum(self.cell(), amount)),
            Instruction::Read => next,
            Instruction::Write => next,
            Instruction::LoopStart(target) => if self.cell() == 0 {
                self.at(target as int)
            } else {
                next
            },
            Instruction::LoopEnd(target) => if self.cell() != 0 {
                self.at(target as int)
            } else {
                next
            },
        }
    }

    /// What the driver has to do for the instruction `instr`.
    pub open spec fn request(self, instr: Instruction) -> Action {
        match instr {
            Instruction::Read => Action::Input,
            Instruction::Write => Action::Output(self.cell()),
            _ => Action::Proceed,
        }
    }
}

/// A machine together with its input and output so far.
pub struct Config {
    /// The machine.
    pub machine: Machine,
    /// How many bytes of the input have been consumed.
    pub consumed: int,
    /// The bytes written so far, in order.
    pub emitted: Seq<u8>,
}

impl Config {
    /// The configuration that every run starts from.
    pub open spec fn start(cells: nat) -> Config {
        Config { machine: Machine::start(cells), consumed: 0, emitted: Seq::empty() }
    }

    /// The run is over, one way or the other.
    pub open spec fn stuck(self, code: Seq<Instruction>) -> bool {
        self.machine.halted(code) || self.machine.faults(code)
    }

    /// One turn of the cycle. A configuration that is stuck stays as it is.
    pub open spec fn step(self, code: Seq<Instruction>, input: Seq<u8>) -> Config {
        if self.stuck(code) {
            self
        } else {
            let instr = code[self.machine.ip];
            let machine = self.machine.after(instr);
            match instr {
                Instruction::Read => Config {
                    machine: machine.with_cell(next_byte(input, self.consumed)),
                    consumed: if self.consumed < input.len() {
                        self.consumed + 1
                    } else {
                        self.consumed
                    },
                    ..self
                },
                Instruction::Write => Config {
                    machine,
                    emitted: self.emitted.push(self.machine.cell()),
                    ..self
                },
                _ => Config { machine, ..self },
            }
        }
    }

    /// The same configuration with `earlier` in front of what it emitted.
    pub open spec fn following(self, earlier: Seq<u8>) -> Config {
        Config { emitted: earlier + self.emitted, ..self }
    }

    /// The configuration `n` steps on.
    pub open spec fn steps(self, code: Seq<Instruction>, input: Seq<u8>, n: nat) -> Config
        decreases n,
    {
        if n == 0 {
            self
        } else {
            self.steps(code, input, (n - 1) as nat).step(code, input)
        }
    }
}

/// The run of `code` on `input`, with a tape of `cells` cells, is over after
/// `n` steps.
pub open spec fn halts_within(code: Seq<Instruction>, input: Seq<u8>, cells: nat, n: nat) -> bool {
    Config::start(cells).steps(code, input, n).stuck(code)
}

/// The run of `code` on `input`, with a tape of `cells` cells, comes to an
/// end.
pub open spec fn halts(code: Seq<Instruction>, input: Seq<u8>, cells: nat) -> bool {
    exists|n: nat| halts_within(code, input, cells, n)
}

/// A number of steps after which the run is over, if it ever is.
pub open spec fn halting_time(code: Seq<Instruction>, input: Seq<u8>, cells: nat) -> nat {
    choose|n: nat| halts_within(code, input, cells, n)
}

/// The configuration in which the run ends, if it ever does.
pub open spec fn last_config(code: Seq<Instruction>, input: Seq<u8>, cells: nat) -> Config {
    Config::start(cells).steps(code, input, halting_time(code, input, cells))
}

/// Cell arithmetic wraps, and never fails: an `Add` takes the current cell
/// to the sum modulo 256, so that 255 and 1 make 0, and changes nothing else
/// but the instruction pointer.
pub proof fn lemma_add_wraps(c: Config, code: Seq<Instruction>, input: Seq<u8>, amount: u8)
    requires
        c.machine.wf(),
        c.machine.ip < code.len(),
        code[c.machine.ip] == Instruction::Add(amount),
    ensures
        !c.stuck(code),
        c.step(code, input).machine.cell() == (c.machine.cell() + amount) % 256,
        c.machine.cell() == 255 && amount == 1 ==> c.step(code, input).machine.cell() == 0,
        c.step(code, input) == (Config {
            machine: c.machine.at(c.machine.ip + 1).with_cell(
                wrapping_sum(c.machine.cell(), amount),
            ),
            ..c
        }),
{
}

/// What was emitted earlier has no bearing on a run: it is carried along in
/// front of what the run emits.
pub proof fn lemma_emitted_is_framed(
    c: Config,
    code: Seq<Instruction>,
    input: Seq<u8>,
    earlier: Seq<u8>,
    n: nat,
)
    ensures
        c.following(earlier).steps(code, input, n) == c.steps(code, input, n).following(earlier),
    decreases n,
{
    if n > 0 {
        lemma_emitted_is_framed(c, code, input, earlier, (n - 1) as nat);
        let d = c.steps(code, input, (n - 1) as nat);
        assert(d.following(earlier).step(code, input).emitted =~= d.step(code, input).following(
            earlier,
        ).emitted);
    }
}

/// Once a run is over, further steps change nothing.
pub proof fn lemma_stuck_stays(c: Config, code: Seq<Instruction>, input: Seq<u8>, n: nat, m: nat)
    requires
        c.steps(code, input, n).stuck(code),
        n <= m,
    ensures
        c.steps(code, input, m) == c.steps(code, input, n),
    decreases m,
{
    if n < m {
        lemma_stuck_stays(c, code, input, n, (m - 1) as nat);
    }
}

/// A run ends in one configuration only: whenever it is over, it is in its
/// last configuration.
pub proof fn lemma_last_config(code: Seq<Instruction>, input: Seq<u8>, cells: nat, n: nat)
    requires
        halts_within(code, input, cells, n),
    ensures
        halts(code, input, cells),
        last_config(code, input, cells) == Config::start(cells).steps(code, input, n),
        last_config(code, input, cells).stuck(code),
{
    let t = halting_time(code, input, cells);
    if t <= n {
        lemma_stuck_stays(Config::start(cells), code, input, t, n);
    } else {
        lemma_stuck_stays(Config::start(cells), code, input, n, t);
    }
}

/// A run that is not over after `n` steps has a later halting time.
pub proof fn lemma_not_yet(code: Seq<Instruction>, input: Seq<u8>, cells: nat, n: nat)
    requires
        halts(code, input, cells),
        !halts_within(code, input, cells, n),
    ensures
        n < halting_time(code, input, cells),
{
    let t = halting_time(code, input, cells);
    if t <= n {
        lemma_stuck_stays(Config::start(cells), code, input, t, n);
    }
}

} // verus!
