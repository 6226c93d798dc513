//! The virtual machine: executes an instruction sequence against a tape of
//! byte cells, reading from and writing to byte buffers.
//!
//! [`State::step`] performs one instruction and says what it needs from the
//! outside world; a driver carries that out and steps again. [`execute`] and
//! [`run`] are such drivers for input and output held in memory. A driver for
//! other streams is a loop of the same shape around [`State::step`].

use vstd::prelude::*;
use vstd::string::StringExecFns;
use crate::compile::{self, compile, compile_spec, Instruction};
use crate::machine::{
    halting_time, halts, halts_within, last_config, lemma_emitted_is_framed, lemma_last_config,
    lemma_not_yet, next_byte, wrapping_sum, Action, Config, Machine,
};

verus! {

/// Number of cells on the tape of [`execute`] and [`run`].
pub const TAPE_LEN: usize = 65536;

/// `std::io::Error`, the failure of a stream. The library only carries such
/// a value from the driver that met it to the caller, and never looks inside.
#[verifier::external_type_specification]
#[verifier::external_body]
pub struct ExIoError(std::io::Error);

/// Why a program did not run to completion.
#[derive(Debug)]
pub enum Error {
    /// The memory pointer was about to leave the tape.
    CellOutOfBounds,
    /// A stream failed. Buffers in memory never do: this is for drivers that
    /// read and write elsewhere.
    IoError(std::io::Error),
    /// The program text did not compile.
    CompileError(compile::Error),
}

impl From<std::io::Error> for Error {
    fn from(err: std::io::Error) -> (e: Error) {
        Error::IoError(err)
    }
}

impl vstd::std_specs::convert::FromSpecImpl<std::io::Error> for Error {
    open spec fn obeys_from_spec() -> bool {
        true
    }

    open spec fn from_spec(err: std::io::Error) -> Error {
        Error::IoError(err)
    }
}

impl From<compile::Error> for Error {
    fn from(err: compile::Error) -> (e: Error) {
        Error::CompileError(err)
    }
}

impl vstd::std_specs::convert::FromSpecImpl<compile::Error> for Error {
    open spec fn obeys_from_spec() -> bool {
        true
    }

    open spec fn from_spec(err: compile::Error) -> Error {
        Error::CompileError(err)
    }
}

/// The text that `err` displays as, by the `Display` impl of
/// `std::io::Error`. That text depends on the kind of error and on the
/// platform, so nothing is claimed of it.
#[verifier::external_body]
fn io_error_text(err: &std::io::Error) -> String {
    format!("{}", err)
}

impl Error {
    /// Renders the error for display.
    pub fn to_string(&self) -> (s: String)
        ensures
            match *self {
                Error::CellOutOfBounds => s@ == "cell out of bounds"@,
                Error::IoError(_) => "IO error: "@.is_prefix_of(s@),
                Error::CompileError(e) => s@ == "compile error: "@ + e.message(),
            },
    {
        match self {
            Error::CellOutOfBounds => String::from_str("cell out of bounds"),
            Error::IoError(err) => String::from_str("IO error: ").concat(
                io_error_text(err).as_str(),
            ),
            Error::CompileError(err) => String::from_str("compile error: ").concat(
                err.to_string().as_str(),
            ),
        }
    }
}

/// The tape and the two cursors of one execution.
#[derive(Debug)]
pub struct State {
    mem: Vec<u8>,
    mem_ptr: usize,
    instr_ptr: usize,
}

impl View for State {
    type V = Machine;

    closed spec fn view(&self) -> Machine {
        Machine { tape: self.mem@, ptr: self.mem_ptr as int, ip: self.instr_ptr as int }
    }
}

impl State {
    /// A fresh state: `mem_size` zeroed cells, both cursors at zero.
    pub fn new(mem_size: usize) -> (state: State)
        requires
            mem_size > 0,
        ensures
            state@ == Machine::start(mem_size as nat),
            state@.wf(),
    {
        let mem = vec![0u8; mem_size];
        assert(mem@ =~= Seq::new(mem_size as nat, |i: int| 0u8));
        State { mem, mem_ptr: 0, instr_ptr: 0 }
    }

    /// The current cell, to read or to write.
    pub fn cell(&mut self) -> (cell: &mut u8)
        requires
            old(self)@.wf(),
        ensures
            *cell == old(self)@.cell(),
            final(self)@ == old(self)@.with_cell(*final(cell)),
    {
        &mut self.mem[self.mem_ptr]
    }

    /// Adds `v` to the current cell, wrapping around at 256.
    pub fn add_cell(&mut self, v: u8)
        requires
            old(self)@.wf(),
        ensures
            final(self)@ == old(self)@.with_cell(wrapping_sum(old(self)@.cell(), v)),
    {
        self.mem[self.mem_ptr] = self.mem[self.mem_ptr].wrapping_add(v);
    }

    /// Moves the memory pointer by `v` cells, unless that would take it off
    /// the tape at either end: then nothing changes and the result is
    /// `CellOutOfBounds`.
    pub fn move_ptr(&mut self, v: isize) -> (r: Result<(), Error>)
        requires
            old(self)@.wf(),
        ensures
            final(self)@.wf(),
            r is Ok <==> (0 <= old(self)@.ptr + v < old(self)@.tape.len()),
            r is Ok ==> final(self)@ == (Machine { ptr: old(self)@.ptr + v, ..old(self)@ }),
            r is Err ==> r == Err::<(), Error>(Error::CellOutOfBounds) && final(self)@ == old(
                self,
            )@,
    {
        assert(self@.tape.len() == self.mem.len());
        match self.mem_ptr.checked_add_signed(v) {
            Some(ptr) => {
                if ptr >= self.mem.len() {
                    return Err(Error::CellOutOfBounds);
                }
                self.mem_ptr = ptr;
                Ok(())
            },
            None => Err(Error::CellOutOfBounds),
        }
    }

    /// Sets the instruction pointer.
    pub fn jmp(&mut self, v: usize)
        ensures
            final(self)@ == old(self)@.at(v as int),
    {
        self.instr_ptr = v;
    }

    /// Performs the next instruction and says what the driver has to do
    /// before the next step.
    ///
    /// Input and output are the driver's part: after [`Action::Input`] it
    /// stores the byte it read in the current cell, and after
    /// [`Action::Output`] it writes the byte it was given. Past the end of
    /// the code the answer is [`Action::Halt`]. If the instruction would take
    /// the memory pointer off the tape, the result is `CellOutOfBounds`. In
    /// both cases the state is left as it was.
    pub fn step(&mut self, instrs: &[Instruction]) -> (r: Result<Action, Error>)
        requires
            old(self)@.wf(),
        ensures
            final(self)@.wf(),
            old(self)@.halted(instrs@) ==> r == Ok::<Action, Error>(Action::Halt) && final(self)@
                == old(self)@,
            old(self)@.faults(instrs@) ==> r == Err::<Action, Error>(Error::CellOutOfBounds)
                && final(self)@ == old(self)@,
            !old(self)@.halted(instrs@) && !old(self)@.faults(instrs@) ==> r == Ok::<Action, Error>(
                old(self)@.request(instrs@[old(self)@.ip]),
            ) && final(self)@ == old(self)@.after(instrs@[old(self)@.ip]),
    {
        let ghost before = self@;
        let instr = match next_instr(self, instrs) {
            Some(instr) => instr,
            None => {
                return Ok(Action::Halt);
            },
        };
        match instr {
            Instruction::MovePtr(v) => {
                if let Err(e) = self.move_ptr(v) {
                    // The instruction that cannot be performed stays the next one.
                    self.instr_ptr -= 1;
                    return Err(e);
                }
            },
            Instruction::Add(v) => self.add_cell(v),
            Instruction::Read => {
                return Ok(Action::Input);
            },
            Instruction::Write => {
                let byte = *self.cell();
                assert(self@.tape =~= before.tape);
                return Ok(Action::Output(byte));
            },
            Instruction::LoopStart(end) => {
                let byte = *self.cell();
                assert(self@.tape =~= before.tape);
                if byte == 0 {
                    self.jmp(end);
                }
            },
            Instruction::LoopEnd(start) => {
                let byte = *self.cell();
                assert(self@.tape =~= before.tape);
                if byte != 0 {
                    self.jmp(start);
                }
            },
        }
        Ok(Action::Proceed)
    }
}

/// Fetches the next instruction and moves the instruction pointer past it.
/// Past the end of the code there is none, and nothing changes.
pub fn next_instr(state: &mut State, instrs: &[Instruction]) -> (r: Option<Instruction>)
    ensures
        old(state)@.halted(instrs@) ==> r is None && final(state)@ == old(state)@,
        !old(state)@.halted(instrs@) ==> r == Some(instrs@[old(state)@.ip]) && final(state)@ == old(
            state,
        )@.at(old(state)@.ip + 1),
{
    if state.instr_ptr >= instrs.len() {
        return None;
    }
    let instr = instrs[state.instr_ptr];
    state.instr_ptr += 1;
    Some(instr)
}

/// Takes the next byte of `input`, counting it in `consumed`. At the end of
/// the input the byte is zero and nothing is counted.
pub fn read_byte(input: &[u8], consumed: &mut usize) -> (byte: u8)
    ensures
        byte == next_byte(input@, *old(consumed) as int),
        *final(consumed) == if *old(consumed) < input@.len() {
            *old(consumed) + 1
        } else {
            *old(consumed) as int
        },
{
    if *consumed < input.len() {
        let byte = input[*consumed];
        *consumed += 1;
        byte
    } else {
        0
    }
}

/// Appends `byte` to `output`.
pub fn write_byte(output: &mut Vec<u8>, byte: u8)
    ensures
        final(output)@ == old(output)@.push(byte),
{
    output.push(byte);
}

/// The configuration that a state, a count of consumed input and an output
/// buffer stand for.
pub open spec fn config_of(state: State, consumed: usize, output: Vec<u8>) -> Config {
    Config { machine: state@, consumed: consumed as int, emitted: output@ }
}

/// One turn of the fetch-decode-execute cycle, on input and output held in
/// memory: [`State::step`], and whatever it asks for.
///
/// The result is `Ok(true)` if the run was complete already, `Ok(false)`
/// after an instruction, and `CellOutOfBounds` if the instruction would take
/// the memory pointer off the tape.
pub fn cycle(
    state: &mut State,
    instrs: &[Instruction],
    input: &[u8],
    consumed: &mut usize,
    output: &mut Vec<u8>,
) -> (r: Result<bool, Error>)
    requires
        old(state)@.wf(),
    ensures
        final(state)@.wf(),
        config_of(*final(state), *final(consumed), *final(output)) == config_of(
            *old(state),
            *old(consumed),
            *old(output),
        ).step(instrs@, input@),
        r == if old(state)@.faults(instrs@) {
            Err::<bool, Error>(Error::CellOutOfBounds)
        } else {
            Ok::<bool, Error>(old(state)@.halted(instrs@))
        },
{
    match state.step(instrs) {
        Err(e) => {
            return Err(e);
        },
        Ok(Action::Halt) => {
            return Ok(true);
        },
        Ok(Action::Input) => {
            *state.cell() = read_byte(input, consumed);
        },
        Ok(Action::Output(byte)) => write_byte(output, byte),
        Ok(Action::Proceed) => {},
    }
    Ok(false)
}

/// How a run that ended in configuration `last` is reported.
pub open spec fn verdict(last: Config, code: Seq<Instruction>) -> Result<(), Error> {
    if last.machine.faults(code) {
        Err(Error::CellOutOfBounds)
    } else {
        Ok(())
    }
}

/// Executes `instrs` on a fresh tape of [`TAPE_LEN`] cells, taking input
/// from `input` and appending what the program writes to `output`.
///
/// A run need not end, and this function returns only if it does: the
/// caller has to know that it will. (One who cannot know calls [`cycle`] for
/// as long as it sees fit.) The result is that of the run's last
/// configuration: `Ok` if the instruction pointer left the code,
/// `CellOutOfBounds` if the memory pointer was about to leave the tape.
/// Either way `output` has gained all that the run emitted.
pub fn execute(instrs: &[Instruction], input: &[u8], output: &mut Vec<u8>) -> (r: Result<(), Error>)
    requires
        halts(instrs@, input@, TAPE_LEN as nat),
    ensures
        r == verdict(last_config(instrs@, input@, TAPE_LEN as nat), instrs@),
        final(output)@ == old(output)@ + last_config(instrs@, input@, TAPE_LEN as nat).emitted,
{
    let ghost code = instrs@;
    let ghost cells = TAPE_LEN as nat;
    let ghost start = Config::start(cells);
    let ghost mut done: nat = 0;
    let mut state = State::new(TAPE_LEN);
    let mut consumed: usize = 0;
    assert(config_of(state, consumed, *output) =~= start.following(old(output)@));
    loop
        invariant
            code == instrs@,
            cells == TAPE_LEN as nat,
            start == Config::start(cells),
            halts(code, input@, cells),
            state@.wf(),
            config_of(state, consumed, *output) == start.following(old(output)@).steps(
                code,
                input@,
                done,
            ),
        decreases halting_time(code, input@, cells) - done,
    {
        proof {
            lemma_emitted_is_framed(start, code, input@, old(output)@, done);
            if halts_within(code, input@, cells, done) {
                lemma_last_config(code, input@, cells, done);
            } else {
                lemma_not_yet(code, input@, cells, done);
            }
        }
        match cycle(&mut state, instrs, input, &mut consumed, output) {
            Err(e) => {
                return Err(e);
            },
            Ok(true) => {
                return Ok(());
            },
            Ok(false) => {},
        }
        proof {
            done = done + 1;
        }
    }
}

/// Compiles `prog` and executes it on a fresh tape of [`TAPE_LEN`] cells,
/// taking input from `input` and appending what the program writes to
/// `output`.
///
/// A text that does not compile is reported as `CompileError` and leaves
/// `output` alone. Otherwise this is [`execute`] on the compiled text, and
/// like it returns only if the run ends.
pub fn run(prog: &str, input: &[u8], output: &mut Vec<u8>) -> (r: Result<(), Error>)
    requires
        compile_spec(prog@) matches Ok(code) ==> halts(code, input@, TAPE_LEN as nat),
    ensures
        match compile_spec(prog@) {
            Ok(code) => {
                &&& r == verdict(last_config(code, input@, TAPE_LEN as nat), code)
                &&& final(output)@ == old(output)@ + last_config(
                    code,
                    input@,
                    TAPE_LEN as nat,
                ).emitted
            },
            Err(e) => {
                &&& r == Err::<(), Error>(Error::CompileError(e))
                &&& final(output)@ == old(output)@
            },
        },
{
    let instrs = match compile(prog) {
        Ok(instrs) => instrs,
        Err(e) => {
            return Err(Error::from(e));
        },
    };
    execute(instrs.as_slice(), input, output)
}

} // verus!
