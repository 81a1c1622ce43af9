use vstd::prelude::*;
use crate::operation::{Operation, lex};
use crate::program::{Program, Error, jump_table_of, balanced};

verus! {

/// The number of cells on the tape.
pub const MEMORY_SIZE: usize = 30000;

/// The abstract state of a machine.
pub struct MachineView {
    pub memory: Seq<u8>,
    pub cursor: int,
    pub pc: int,
}

/// A fresh machine: a zeroed tape, the cursor on the first cell, the first operation next.
pub open spec fn initial_state() -> MachineView {
    MachineView { memory: Seq::new(MEMORY_SIZE as nat, |i: int| 0u8), cursor: 0, pc: 0 }
}

/// The cell under the cursor.
pub open spec fn current_cell(s: MachineView) -> u8 {
    s.memory[s.cursor]
}

/// The cursor one cell to the right, wrapping past the last cell to the first.
pub open spec fn cursor_right(c: int) -> int {
    (c + 1) % (MEMORY_SIZE as int)
}

/// The cursor one cell to the left, wrapping past the first cell to the last.
pub open spec fn cursor_left(c: int) -> int {
    (c + MEMORY_SIZE - 1) % (MEMORY_SIZE as int)
}

/// A cell value plus one, modulo 256.
pub open spec fn byte_up(b: u8) -> u8 {
    ((b + 1) % 256) as u8
}

/// A cell value minus one, modulo 256.
pub open spec fn byte_down(b: u8) -> u8 {
    ((b + 255) % 256) as u8
}

/// The state after executing the operation at `s.pc`; `input` is what a read
/// of input delivered (`None` at its end), and matters only to `InputByte`.
pub open spec fn next_state(
    ops: Seq<Operation>,
    jump: Map<usize, usize>,
    s: MachineView,
    input: Option<u8>,
) -> MachineView {
    let cell = current_cell(s);
    let next = s.pc + 1;
    match ops[s.pc] {
        Operation::IncrementDp => MachineView { cursor: cursor_right(s.cursor), pc: next, ..s },
        Operation::DecrementDp => MachineView { cursor: cursor_left(s.cursor), pc: next, ..s },
        Operation::IncrementByte => MachineView {
            memory: s.memory.update(s.cursor, byte_up(cell)),
            pc: next,
            ..s
        },
        Operation::DecrementByte => MachineView {
            memory: s.memory.update(s.cursor, byte_down(cell)),
            pc: next,
            ..s
        },
        Operation::OutputByte => MachineView { pc: next, ..s },
        Operation::InputByte => match input {
            Some(b) => MachineView { memory: s.memory.update(s.cursor, b), pc: next, ..s },
            None => MachineView { pc: next, ..s },
        },
        Operation::LeftBracket => if cell == 0 {
            MachineView { pc: jump[s.pc as usize] + 1, ..s }
        } else {
            MachineView { pc: next, ..s }
        },
        Operation::RightBracket => if cell != 0 {
            MachineView { pc: jump[s.pc as usize] + 1, ..s }
        } else {
            MachineView { pc: next, ..s }
        },
    }
}

/// What executing the operation at `s.pc` writes: the current cell for `OutputByte`.
pub open spec fn emitted(ops: Seq<Operation>, s: MachineView) -> Seq<u8> {
    if ops[s.pc] is OutputByte {
        seq![current_cell(s)]
    } else {
        Seq::empty()
    }
}

/// Runs from `s` for at most `fuel` operations, reading from the front of
/// `input`: the final state, the bytes written, and whether the program ended.
pub open spec fn run_spec(
    ops: Seq<Operation>,
    jump: Map<usize, usize>,
    s: MachineView,
    input: Seq<u8>,
    fuel: nat,
) -> (MachineView, Seq<u8>, bool)
    decreases fuel,
{
    if s.pc >= ops.len() {
        (s, Seq::empty(), true)
    } else if fuel == 0 {
        (s, Seq::empty(), false)
    } else {
        let takes = ops[s.pc] is InputByte && input.len() > 0;
        let byte = if takes { Some(input[0]) } else { None };
        let rest = if takes { input.drop_first() } else { input };
        let r = run_spec(ops, jump, next_state(ops, jump, s, byte), rest, (fuel - 1) as nat);
        (r.0, emitted(ops, s) + r.1, r.2)
    }
}

/// What the machine asks of its caller after a step.
#[derive(Debug, Clone, Copy, PartialEq, Eq, Structural)]
pub enum Action {
    /// The program has ended.
    Halt,
    /// An operation ran; nothing is asked.
    Continue,
    /// Write this byte to the output.
    Write(u8),
    /// Read a byte and hand it to `feed`.
    Read,
}

/// A tape of `MEMORY_SIZE` cells, a cursor on it and a program counter.
pub struct Machine {
    memory: Vec<u8>,
    cursor: usize,
    pc: usize,
}

impl View for Machine {
    type V = MachineView;

    closed spec fn view(&self) -> MachineView {
        MachineView { memory: self.memory@, cursor: self.cursor as int, pc: self.pc as int }
    }
}

impl Machine {
    /// The tape has its full length and the cursor lies on it.
    pub open spec fn wf(&self) -> bool {
        &&& self@.memory.len() == MEMORY_SIZE
        &&& 0 <= self@.cursor < MEMORY_SIZE
        &&& 0 <= self@.pc <= usize::MAX
    }

    /// A machine in its initial state.
    pub fn new() -> (r: Machine)
        ensures
            r.wf(),
            r@ == initial_state(),
    {
        let mut memory: Vec<u8> = Vec::new();
        while memory.len() < MEMORY_SIZE
            invariant
                memory.len() <= MEMORY_SIZE,
                forall|i: int| 0 <= i < memory.len() ==> memory@[i] == 0,
            decreases MEMORY_SIZE - memory.len(),
        {
            memory.push(0);
        }
        let r = Machine { memory, cursor: 0, pc: 0 };
        assert(r@.memory =~= initial_state().memory);
        r
    }

    /// The index of the cell under the cursor.
    pub fn cursor(&self) -> (r: usize)
        ensures
            r == self@.cursor,
    {
        self.cursor
    }

    /// The position of the next operation.
    pub fn pc(&self) -> (r: usize)
        ensures
            r == self@.pc,
    {
        self.pc
    }

    /// The value of the cell under the cursor.
    pub fn current(&self) -> (r: u8)
        requires
            self.wf(),
        ensures
            r == current_cell(self@),
    {
        self.memory[self.cursor]
    }

    /// The value of cell `i`.
    pub fn cell(&self, i: usize) -> (r: u8)
        requires
            self.wf(),
            i < MEMORY_SIZE,
        ensures
            r == self@.memory[i as int],
    {
        self.memory[i]
    }

    /// Executes the operation at the program counter, except an `InputByte`,
    /// for which it asks for a byte and leaves the state as it is.
    pub fn step(&mut self, p: &Program) -> (a: Action)
        requires
            old(self).wf(),
            p.wf(),
        ensures
            final(self).wf(),
            old(self)@.pc >= p.ops().len() ==> a == Action::Halt && final(self)@ == old(self)@,
            old(self)@.pc < p.ops().len() && p.ops()[old(self)@.pc] is InputByte ==> a
                == Action::Read && final(self)@ == old(self)@,
            old(self)@.pc < p.ops().len() && !(p.ops()[old(self)@.pc] is InputByte) ==> {
                &&& final(self)@ == next_state(p.ops(), p.jump(), old(self)@, None)
                &&& a == if p.ops()[old(self)@.pc] is OutputByte {
                    Action::Write(current_cell(old(self)@))
                } else {
                    Action::Continue
                }
            },
    {
        if self.pc >= p.len() {
            return Action::Halt;
        }
        let cell = self.memory[self.cursor];
        let mut action = Action::Continue;
        match p.op_at(self.pc) {
            Operation::IncrementDp => {
                self.cursor = if self.cursor == MEMORY_SIZE - 1 {
                    0
                } else {
                    self.cursor + 1
                };
            },
            Operation::DecrementDp => {
                self.cursor = if self.cursor == 0 {
                    MEMORY_SIZE - 1
                } else {
                    self.cursor - 1
                };
            },
            Operation::IncrementByte => {
                let b = if cell == 255 {
                    0
                } else {
                    cell + 1
                };
                self.memory.set(self.cursor, b);
            },
            Operation::DecrementByte => {
                let b = if cell == 0 {
                    255
                } else {
                    cell - 1
                };
                self.memory.set(self.cursor, b);
            },
            Operation::OutputByte => {
                action = Action::Write(cell);
            },
            Operation::InputByte => {
                return Action::Read;
            },
            Operation::LeftBracket => {
                if cell == 0 {
                    self.pc = p.jump_target(self.pc);
                }
            },
            Operation::RightBracket => {
                if cell != 0 {
                    self.pc = p.jump_target(self.pc);
                }
            },
        }
        self.pc = self.pc + 1;
        action
    }

    /// Completes an `InputByte`: stores the byte read, or keeps the cell when
    /// the input had ended (`None`), and moves on.
    pub fn feed(&mut self, p: &Program, input: Option<u8>)
        requires
            old(self).wf(),
            p.wf(),
            old(self)@.pc < p.ops().len(),
            p.ops()[old(self)@.pc] is InputByte,
        ensures
            final(self).wf(),
            final(self)@ == next_state(p.ops(), p.jump(), old(self)@, input),
    {
        if let Some(b) = input {
            self.memory.set(self.cursor, b);
        }
        self.pc = self.pc + 1;
    }
}

/// The outcome of a run against in-memory input and output.
pub struct RunResult {
    /// The bytes written, in order.
    pub output: Vec<u8>,
    /// The machine as the run left it.
    pub machine: Machine,
    /// Whether the program ran to its end within the step budget.
    pub halted: bool,
}

impl Program {
    /// Runs this program on a fresh machine for at most `max_steps`
    /// operations, reading bytes from the front of `input` (the cell is kept
    /// once it is used up) and collecting the bytes written.
    pub fn run_program(&self, input: &[u8], max_steps: usize) -> (r: RunResult)
        requires
            self.wf(),
        ensures
            r.machine.wf(),
            (r.machine@, r.output@, r.halted) == run_spec(
                self.ops(),
                self.jump(),
                initial_state(),
                input@,
                max_steps as nat,
            ),
    {
        let ghost ops = self.ops();
        let ghost jump = self.jump();
        let ghost goal = run_spec(ops, jump, initial_state(), input@, max_steps as nat);
        let mut machine = Machine::new();
        let mut output: Vec<u8> = Vec::new();
        let mut next_in: usize = 0;
        let mut fuel: usize = max_steps;
        assert(input@.subrange(0, input@.len() as int) =~= input@);
        assert(output@ + goal.1 =~= goal.1);
        while fuel > 0 && machine.pc() < self.len()
            invariant
                self.wf(),
                ops == self.ops(),
                jump == self.jump(),
                machine.wf(),
                next_in <= input@.len(),
                ({
                    let r = run_spec(ops, jump, machine@, input@.subrange(next_in as int, input@.len() as int), fuel as nat);
                    goal == (r.0, output@ + r.1, r.2)
                }),
            decreases fuel,
        {
            let ghost before = machine@;
            let ghost rest = input@.subrange(next_in as int, input@.len() as int);
            let ghost out_before = output@;
            match machine.step(self) {
                Action::Read => {
                    if next_in < input.len() {
                        let b = input[next_in];
                        machine.feed(self, Some(b));
                        next_in = next_in + 1;
                        assert(rest.drop_first() =~= input@.subrange(next_in as int, input@.len() as int));
                    } else {
                        machine.feed(self, None);
                    }
                },
                Action::Write(b) => {
                    output.push(b);
                },
                _ => {},
            }
            fuel = fuel - 1;
            proof {
                let r = run_spec(ops, jump, machine@, input@.subrange(next_in as int, input@.len() as int), fuel as nat);
                assert(out_before + (emitted(ops, before) + r.1) =~= output@ + r.1);
            }
        }
        let halted = machine.pc() >= self.len();
        assert(output@ + Seq::<u8>::empty() =~= output@);
        RunResult { output, machine, halted }
    }
}

/// Translates `s` and runs it as `Program::run_program` does; fails, without
/// running anything, exactly when its brackets do not balance.
pub fn run_program(s: &str, input: &[u8], max_steps: usize) -> (r: Result<RunResult, Error>)
    ensures
        r is Ok <==> balanced(lex(s@)),
        r matches Ok(res) ==> res.machine.wf() && (res.machine@, res.output@, res.halted)
            == run_spec(
            lex(s@),
            jump_table_of(lex(s@)),
            initial_state(),
            input@,
            max_steps as nat,
        ),
{
    let prog = Program::try_from(s)?;
    Ok(prog.run_program(input, max_steps))
}

} // verus!
