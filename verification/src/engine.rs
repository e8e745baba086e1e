//! The execution engine: a program-counter loop over the resolved
//! instruction sequence.
//!
//! The machine owns a fresh tape and an output buffer. Each step dispatches
//! the instruction under the program counter: a tape operation, an output
//! byte, a conditional jump through the jump map, or a pause for input. The
//! read instruction consumes the whole remaining input stream, so the caller
//! is asked once for the parsed input value; a second read finds the stream
//! exhausted and faults, as does an unparseable input. The engine halts by
//! the program counter falling off the end of the program; out-of-range
//! cursor positions and a loop-open without a recorded partner fault
//! explicitly.

use vstd::prelude::*;
use vstd::string::*;

use crate::parser::{instr_of, jump_map_of, pair_words, program_of, split_on_space, Instr, Parsed,
    TokenSet, TokenSetModel};
use crate::tape::{Tape, TapeModel};

verus! {

/// The explicit faults of a run.
#[derive(Clone, Copy, Debug, PartialEq, Eq, Structural)]
pub enum EngineError {
    /// A cell was read or written while the cursor sat outside the tape, or
    /// the cursor counter itself left its representable range.
    PositionOutOfRange,
    /// A taken jump had no partner recorded in the jump map.
    MissingJumpTarget,
    /// The input stream held no parseable integer, or was already exhausted.
    BadInput,
}

/// What the machine is doing.
#[derive(Clone, Copy, Debug, PartialEq, Eq, Structural)]
pub enum Status {
    /// The next step executes the instruction under the program counter.
    Running,
    /// A read instruction waits for the input value.
    AwaitingInput,
    /// The program counter fell off the end of the program.
    Halted,
    /// A fault ended the run.
    Faulted(EngineError),
}

/// What one step did, for the caller that performs the machine's I/O.
#[derive(Clone, Copy, Debug, PartialEq, Eq, Structural)]
pub enum StepEvent {
    /// An instruction ran with nothing for the caller to do.
    Ran,
    /// The step emitted this byte.
    Output(u8),
    /// The machine waits for the input value.
    NeedInput,
    /// The machine halted normally.
    Halted,
    /// The machine faulted.
    Faulted(EngineError),
}

/// The low eight bits of a cell, as the byte the print instruction emits.
pub open spec fn low_byte(v: i64) -> u8 {
    (v % 256) as u8
}

/// Mathematical model of a machine mid-run.
pub struct MachineModel {
    pub tokens: Seq<Instr>,
    pub jumps: Seq<Option<usize>>,
    pub pc: int,
    pub tape: TapeModel,
    pub output: Seq<u8>,
    pub status: Status,
}

impl MachineModel {
    /// Well-formedness: the tape invariant, one jump slot per instruction,
    /// recorded jump targets inside the program, and a waiting machine's
    /// program counter still on its read instruction.
    pub open spec fn inv(self) -> bool {
        &&& self.tape.inv()
        &&& self.jumps.len() == self.tokens.len()
        &&& forall|i: int|
            0 <= i < self.jumps.len() ==> (#[trigger] self.jumps[i] matches Some(t) ==> t
                < self.tokens.len())
        &&& 0 <= self.pc
        &&& self.status is AwaitingInput ==> self.pc < self.tokens.len()
    }

    /// A copy of this machine with the given status.
    pub open spec fn with_status(self, status: Status) -> MachineModel {
        MachineModel { status, ..self }
    }
}

/// The machine a run starts from: program counter at zero, fresh tape,
/// empty output.
pub open spec fn initial_machine(tokens: Seq<Instr>, jumps: Seq<Option<usize>>) -> MachineModel {
    MachineModel {
        tokens,
        jumps,
        pc: 0,
        tape: TapeModel::initial(),
        output: Seq::empty(),
        status: Status::Running,
    }
}

/// One step of a running machine: dispatch of the instruction under the
/// program counter. After every executed instruction the program counter
/// moves one past the instruction — also one past the jump target of a
/// taken jump, so a loop's bracket is re-tested only when it is reached
/// again, not re-executed at the target itself.
pub open spec fn step_model(m: MachineModel) -> MachineModel {
    if m.pc >= m.tokens.len() {
        m.with_status(Status::Halted)
    } else {
        match m.tokens[m.pc] {
            Instr::Advance => {
                if m.tape.position + 2 <= i64::MAX {
                    MachineModel { pc: m.pc + 1, tape: m.tape.move_right(), ..m }
                } else {
                    m.with_status(Status::Faulted(EngineError::PositionOutOfRange))
                }
            },
            Instr::Devance => {
                if m.tape.position > i64::MIN {
                    MachineModel { pc: m.pc + 1, tape: m.tape.move_left(), ..m }
                } else {
                    m.with_status(Status::Faulted(EngineError::PositionOutOfRange))
                }
            },
            Instr::Increment => {
                if m.tape.cursor_readable() {
                    MachineModel { pc: m.pc + 1, tape: m.tape.increment(), ..m }
                } else {
                    m.with_status(Status::Faulted(EngineError::PositionOutOfRange))
                }
            },
            Instr::Decrement => {
                if m.tape.cursor_readable() {
                    MachineModel { pc: m.pc + 1, tape: m.tape.decrement(), ..m }
                } else {
                    m.with_status(Status::Faulted(EngineError::PositionOutOfRange))
                }
            },
            Instr::Print => {
                if m.tape.cursor_readable() {
                    MachineModel {
                        pc: m.pc + 1,
                        output: m.output.push(low_byte(m.tape.current())),
                        ..m
                    }
                } else {
                    m.with_status(Status::Faulted(EngineError::PositionOutOfRange))
                }
            },
            Instr::SetFromInput => m.with_status(Status::AwaitingInput),
            Instr::JumpForward => {
                if m.tape.cursor_readable() {
                    if m.tape.current() == 0 {
                        match m.jumps[m.pc] {
                            Some(t) => MachineModel { pc: t + 1, ..m },
                            None => m.with_status(
                                Status::Faulted(EngineError::MissingJumpTarget),
                            ),
                        }
                    } else {
                        MachineModel { pc: m.pc + 1, ..m }
                    }
                } else {
                    m.with_status(Status::Faulted(EngineError::PositionOutOfRange))
                }
            },
            Instr::JumpBack => {
                if m.tape.cursor_readable() {
                    if m.tape.current() != 0 {
                        match m.jumps[m.pc] {
                            Some(t) => MachineModel { pc: t + 1, ..m },
                            None => m.with_status(
                                Status::Faulted(EngineError::MissingJumpTarget),
                            ),
                        }
                    } else {
                        MachineModel { pc: m.pc + 1, ..m }
                    }
                } else {
                    m.with_status(Status::Faulted(EngineError::PositionOutOfRange))
                }
            },
        }
    }
}

/// The input value arrives at a waiting machine: nothing parseable faults
/// the run; a value is written to the current cell and the run resumes.
pub open spec fn input_model(m: MachineModel, v: Option<i64>) -> MachineModel {
    match v {
        None => m.with_status(Status::Faulted(EngineError::BadInput)),
        Some(x) => {
            if m.tape.cursor_readable() {
                MachineModel {
                    pc: m.pc + 1,
                    tape: m.tape.write(x),
                    status: Status::Running,
                    ..m
                }
            } else {
                m.with_status(Status::Faulted(EngineError::PositionOutOfRange))
            }
        },
    }
}

/// What one step hands the caller, read off the step's result.
pub open spec fn step_event_of(m: MachineModel) -> StepEvent {
    let m2 = step_model(m);
    match m2.status {
        Status::Halted => StepEvent::Halted,
        Status::AwaitingInput => StepEvent::NeedInput,
        Status::Faulted(e) => StepEvent::Faulted(e),
        Status::Running => if m2.output.len() > m.output.len() {
            StepEvent::Output(m2.output.last())
        } else {
            StepEvent::Ran
        },
    }
}

/// A whole run of at most `fuel` steps: step while running, hand over the
/// input value the first time the machine asks and nothing the next time,
/// stop at a halt or fault. The run is deterministic in the start state and
/// the input value.
pub open spec fn drive(m: MachineModel, input: Option<i64>, given: bool, fuel: nat) -> MachineModel
    decreases fuel,
{
    if fuel == 0 {
        m
    } else if m.status is Running {
        drive(step_model(m), input, given, (fuel - 1) as nat)
    } else if m.status is AwaitingInput {
        drive(
            input_model(m, if given { None } else { input }),
            input,
            true,
            (fuel - 1) as nat,
        )
    } else {
        m
    }
}

/// A machine that neither runs nor waits never changes again.
pub proof fn lemma_drive_stopped(m: MachineModel, input: Option<i64>, given: bool, fuel: nat)
    requires
        !(m.status is Running),
        !(m.status is AwaitingInput),
    ensures
        drive(m, input, given, fuel) == m,
{
}

/// The program and the jump map are built once per run and never change
/// afterwards: a run of any length leaves both exactly as they started.
pub proof fn lemma_run_keeps_program(
    m: MachineModel,
    input: Option<i64>,
    given: bool,
    fuel: nat,
)
    ensures
        drive(m, input, given, fuel).tokens == m.tokens,
        drive(m, input, given, fuel).jumps == m.jumps,
    decreases fuel,
{
    if fuel > 0 {
        if m.status is Running {
            lemma_run_keeps_program(step_model(m), input, given, (fuel - 1) as nat);
        } else if m.status is AwaitingInput {
            lemma_run_keeps_program(
                input_model(m, if given { None } else { input }),
                input,
                true,
                (fuel - 1) as nat,
            );
        }
    }
}

/// The machine: the resolved program with its jump map, the program
/// counter, the tape, the output emitted so far, and the status.
pub struct Machine {
    pub tokens: Vec<Instr>,
    pub bracket_map: Vec<Option<usize>>,
    pub pc: usize,
    pub tape: Tape,
    pub output: Vec<u8>,
    pub status: Status,
}

impl View for Machine {
    type V = MachineModel;

    open spec fn view(&self) -> MachineModel {
        MachineModel {
            tokens: self.tokens@,
            jumps: self.bracket_map@,
            pc: self.pc as int,
            tape: self.tape@,
            output: self.output@,
            status: self.status,
        }
    }
}

/// The low eight bits of a cell value, computed without the cursor's sign
/// getting in the way.
fn take_low_byte(v: i64) -> (b: u8)
    ensures
        b == low_byte(v),
{
    if v >= 0 {
        ((v as u64) % 256) as u8
    } else {
        let a: u64 = (-(v + 1)) as u64;
        let r: u64 = a % 256;
        proof {
            vstd::arithmetic::div_mod::lemma_fundamental_div_mod(a as int, 256);
            vstd::arithmetic::div_mod::lemma_fundamental_div_mod_converse(
                v as int,
                256,
                -(a as int / 256) - 1,
                255 - (r as int),
            );
        }
        (255 - r) as u8
    }
}

impl Machine {
    /// Well-formedness of the stored representation.
    pub open spec fn wf(self) -> bool {
        self@.inv()
    }

    /// A machine ready to run the resolved program.
    pub fn new(parsed: Parsed) -> (m: Machine)
        requires
            parsed.wf(),
        ensures
            m@ == initial_machine(parsed.tokens@, parsed.bracket_map@),
            m.wf(),
    {
        let m = Machine {
            tokens: parsed.tokens,
            bracket_map: parsed.bracket_map,
            pc: 0,
            tape: Tape::new(),
            output: Vec::new(),
            status: Status::Running,
        };
        proof {
            assert(m@.output =~= Seq::<u8>::empty());
        }
        m
    }

    /// Execute the instruction under the program counter.
    pub fn step(&mut self) -> (e: StepEvent)
        requires
            old(self).wf(),
            old(self)@.status is Running,
        ensures
            final(self)@ == step_model(old(self)@),
            final(self).wf(),
            e == step_event_of(old(self)@),
    {
        let pc: usize = self.pc;
        if pc >= self.tokens.len() {
            self.status = Status::Halted;
            return StepEvent::Halted;
        }
        match self.tokens[pc] {
            Instr::Advance => {
                if self.tape.position > i64::MAX - 2 {
                    self.status = Status::Faulted(EngineError::PositionOutOfRange);
                    StepEvent::Faulted(EngineError::PositionOutOfRange)
                } else {
                    self.tape.advance();
                    self.pc = pc + 1;
                    StepEvent::Ran
                }
            },
            Instr::Devance => {
                if self.tape.position == i64::MIN {
                    self.status = Status::Faulted(EngineError::PositionOutOfRange);
                    StepEvent::Faulted(EngineError::PositionOutOfRange)
                } else {
                    self.tape.devance();
                    self.pc = pc + 1;
                    StepEvent::Ran
                }
            },
            Instr::Increment => {
                if self.tape.position < 0 {
                    self.status = Status::Faulted(EngineError::PositionOutOfRange);
                    StepEvent::Faulted(EngineError::PositionOutOfRange)
                } else {
                    self.tape.inc();
                    self.pc = pc + 1;
                    StepEvent::Ran
                }
            },
            Instr::Decrement => {
                if self.tape.position < 0 {
                    self.status = Status::Faulted(EngineError::PositionOutOfRange);
                    StepEvent::Faulted(EngineError::PositionOutOfRange)
                } else {
                    self.tape.dec();
                    self.pc = pc + 1;
                    StepEvent::Ran
                }
            },
            Instr::Print => {
                if self.tape.position < 0 {
                    self.status = Status::Faulted(EngineError::PositionOutOfRange);
                    StepEvent::Faulted(EngineError::PositionOutOfRange)
                } else {
                    let v: i64 = self.tape.get();
                    let b: u8 = take_low_byte(v);
                    self.output.push(b);
                    self.pc = pc + 1;
                    StepEvent::Output(b)
                }
            },
            Instr::SetFromInput => {
                self.status = Status::AwaitingInput;
                StepEvent::NeedInput
            },
            Instr::JumpForward => {
                if self.tape.position < 0 {
                    self.status = Status::Faulted(EngineError::PositionOutOfRange);
                    StepEvent::Faulted(EngineError::PositionOutOfRange)
                } else {
                    let v: i64 = self.tape.get();
                    if v == 0 {
                        match self.bracket_map[pc] {
                            Some(t) => {
                                self.pc = t + 1;
                                StepEvent::Ran
                            },
                            None => {
                                self.status = Status::Faulted(EngineError::MissingJumpTarget);
                                StepEvent::Faulted(EngineError::MissingJumpTarget)
                            },
                        }
                    } else {
                        self.pc = pc + 1;
                        StepEvent::Ran
                    }
                }
            },
            Instr::JumpBack => {
                if self.tape.position < 0 {
                    self.status = Status::Faulted(EngineError::PositionOutOfRange);
                    StepEvent::Faulted(EngineError::PositionOutOfRange)
                } else {
                    let v: i64 = self.tape.get();
                    if v != 0 {
                        match self.bracket_map[pc] {
                            Some(t) => {
                                self.pc = t + 1;
                                StepEvent::Ran
                            },
                            None => {
                                self.status = Status::Faulted(EngineError::MissingJumpTarget);
                                StepEvent::Faulted(EngineError::MissingJumpTarget)
                            },
                        }
                    } else {
                        self.pc = pc + 1;
                        StepEvent::Ran
                    }
                }
            },
        }
    }

    /// Hand the waiting machine the parsed input value, or nothing when the
    /// input held no parseable integer or was already exhausted.
    pub fn give_input(&mut self, v: Option<i64>)
        requires
            old(self).wf(),
            old(self)@.status is AwaitingInput,
        ensures
            final(self)@ == input_model(old(self)@, v),
            final(self).wf(),
    {
        proof {
            assert(self.tokens.len() <= usize::MAX);
        }
        match v {
            None => {
                self.status = Status::Faulted(EngineError::BadInput);
            },
            Some(x) => {
                if self.tape.position < 0 {
                    self.status = Status::Faulted(EngineError::PositionOutOfRange);
                } else {
                    self.tape.set(x);
                    self.pc = self.pc + 1;
                    self.status = Status::Running;
                }
            },
        }
    }
}

/// Run a resolved program to completion, a fault, or the step bound,
/// against an input stream already read and parsed: the read instruction is
/// handed `input` the first time and nothing — an exhausted stream — from
/// then on.
pub fn mainloop(parsed: Parsed, input: Option<i64>, max_steps: usize) -> (m: Machine)
    requires
        parsed.wf(),
    ensures
        m@ == drive(
            initial_machine(parsed.tokens@, parsed.bracket_map@),
            input,
            false,
            max_steps as nat,
        ),
        m@.tokens == parsed.tokens@,
        m@.jumps == parsed.bracket_map@,
        m.wf(),
{
    proof {
        lemma_run_keeps_program(
            initial_machine(parsed.tokens@, parsed.bracket_map@),
            input,
            false,
            max_steps as nat,
        );
    }
    let ghost target = drive(
        initial_machine(parsed.tokens@, parsed.bracket_map@),
        input,
        false,
        max_steps as nat,
    );
    let mut m = Machine::new(parsed);
    let mut given: bool = false;
    let mut fuel: usize = max_steps;
    let mut done: bool = false;
    while !done && fuel > 0
        invariant
            m.wf(),
            drive(m@, input, given, fuel as nat) == target,
            done ==> !(m@.status is Running) && !(m@.status is AwaitingInput),
        decreases fuel, !done as int,
    {
        match m.status {
            Status::Running => {
                m.step();
                fuel = fuel - 1;
            },
            Status::AwaitingInput => {
                if given {
                    m.give_input(None);
                } else {
                    m.give_input(input);
                    given = true;
                }
                fuel = fuel - 1;
            },
            _ => {
                done = true;
            },
        }
    }
    proof {
        if !done {
            assert(fuel == 0);
        } else {
            lemma_drive_stopped(m@, input, given, fuel as nat);
        }
    }
    m
}

/// A text with no recognized instruction resolves to the empty program, and
/// on the empty program the machine halts at the first step with no output,
/// no tape change, and no request for input.
pub proof fn lemma_no_instructions_halt_immediately(
    ts: TokenSetModel,
    text: Seq<char>,
    jumps: Seq<Option<usize>>,
    input: Option<i64>,
    fuel: nat,
)
    requires
        forall|i: int|
            0 <= i < pair_words(split_on_space(text)).len() ==> instr_of(
                ts,
                #[trigger] pair_words(split_on_space(text))[i],
            ) is None,
        fuel >= 1,
    ensures
        program_of(ts, pair_words(split_on_space(text))) == Seq::<Instr>::empty(),
        ({
            let m = drive(initial_machine(Seq::<Instr>::empty(), jumps), input, false, fuel);
            &&& m.status is Halted
            &&& m.output == Seq::<u8>::empty()
            &&& m.tape == TapeModel::initial()
        }),
{
    crate::parser::lemma_unrecognized_phrases_drop(ts, pair_words(split_on_space(text)));
    let m0 = initial_machine(Seq::<Instr>::empty(), jumps);
    let m1 = step_model(m0);
    lemma_drive_stopped(m1, input, false, (fuel - 1) as nat);
}

/// The eight phrases of the standard instruction set.
pub open spec fn ook_token_set() -> TokenSetModel {
    TokenSetModel {
        advance: "Ook. Ook?"@,
        devance: "Ook? Ook."@,
        increment: "Ook. Ook."@,
        decrement: "Ook! Ook!"@,
        set: "Ook. Ook!"@,
        print: "Ook! Ook."@,
        jump_forward: "Ook! Ook?"@,
        jump_back: "Ook? Ook!"@,
    }
}

/// The program that a text resolves to under the standard phrases.
pub open spec fn ook_program(text: Seq<char>) -> Seq<Instr> {
    program_of(ook_token_set(), pair_words(split_on_space(text)))
}

/// Interpret a program text under the standard phrases: tokenize, resolve,
/// and run it as [`mainloop`] does.
pub fn run(contents: String, input: Option<i64>, max_steps: usize) -> (m: Machine)
    ensures
        m@ == drive(
            initial_machine(ook_program(contents@), jump_map_of(ook_program(contents@))),
            input,
            false,
            max_steps as nat,
        ),
        m@.tokens == ook_program(contents@),
        m@.jumps == jump_map_of(ook_program(contents@)),
        m.wf(),
{
    let advance = String::from_str("Ook. Ook?");
    let devance = String::from_str("Ook? Ook.");
    let increment = String::from_str("Ook. Ook.");
    let decrement = String::from_str("Ook! Ook!");
    let set = String::from_str("Ook. Ook!");
    let print = String::from_str("Ook! Ook.");
    let jump_forward = String::from_str("Ook! Ook?");
    let jump_back = String::from_str("Ook? Ook!");
    let token_set = TokenSet {
        advance: &advance,
        devance: &devance,
        increment: &increment,
        decrement: &decrement,
        set: &set,
        print: &print,
        jump_forward: &jump_forward,
        jump_back: &jump_back,
    };
    let parsed = crate::parser::parse(&token_set, contents);
    mainloop(parsed, input, max_steps)
}

} // verus!
