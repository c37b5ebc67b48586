//! The accumulator machine.
//!
//! A program is a byte stream that a frame scans once, front to back. A start
//! marker switches the frame to capture mode: the bytes that follow are
//! appended to a new function block, unexecuted, until an end marker closes
//! the block. Every other byte is decoded and executed against the frame's
//! accumulator and registers.
//!
//! The machine performs no input or output itself. `Machine::step` executes
//! one byte and tells the host what to do: print a value, read a line and
//! hand it to `Machine::feed_line`, terminate, or just go on.

use std::collections::HashMap;
use vstd::prelude::*;

use crate::error::VmError;
use crate::input::line_value;
use crate::input::parse_line;
use crate::isa::decode;
use crate::isa::immediate_of;
use crate::isa::instruction;
use crate::isa::opcode_of;
use crate::isa::END_MARKER;
use crate::isa::OP_ADD;
use crate::isa::OP_ADDI;
use crate::isa::OP_JUMP;
use crate::isa::OP_LOAD;
use crate::isa::OP_SAVE;
use crate::isa::OP_SKIPEQ;
use crate::isa::OP_SYSCALL;
use crate::isa::START_MARKER;
use crate::isa::SYS_EXIT;
use crate::isa::SYS_INVOKE;
use crate::isa::SYS_NOOP;
use crate::isa::SYS_PRINT;
use crate::isa::SYS_READ;

verus! {

broadcast use vstd::std_specs::hash::group_hash_axioms;

/// Whether a machine can execute further bytes.
#[derive(Clone, Copy, Debug, PartialEq, Eq, Structural)]
pub enum Status {
    /// The next step executes a byte.
    Running,
    /// A read was executed; the machine waits for a line of input.
    AwaitingInput,
    /// The program terminated itself.
    Exited,
    /// The outermost frame ran to the end of its bytes with this accumulator.
    Finished(i32),
    /// The program was stopped by an error.
    Faulted(VmError),
}

/// What the host has to do after a step.
#[derive(Clone, Copy, Debug, PartialEq, Eq, Structural)]
pub enum Action {
    /// Nothing: the machine can take its next step.
    Continue,
    /// Print this value, then go on.
    Print(i32),
    /// Read one line of input and hand it to `Machine::feed_line`.
    Read,
    /// Terminate at once.
    Exit,
    /// The program is over; this is its result.
    Done(i32),
    /// The program was stopped by this error.
    Fault(VmError),
}

/// What one executed byte asks of the machine that holds the frame.
#[derive(Clone, Copy, Debug, PartialEq, Eq, Structural)]
pub enum Signal {
    /// Nothing.
    Next,
    /// The accumulator is to be printed.
    Print(i32),
    /// A line of input is wanted.
    Read,
    /// The program terminates.
    Exit,
    /// The function with this index is to be evaluated.
    Invoke(usize),
    /// The program is stopped.
    Fault(VmError),
}

/// The sum of two accumulator values, wrapped into the range of `i32`.
pub open spec fn wrap_sum(a: i32, b: i32) -> i32 {
    if a + b > i32::MAX {
        (a + b - 0x1_0000_0000) as i32
    } else if a + b < i32::MIN {
        (a + b + 0x1_0000_0000) as i32
    } else {
        (a + b) as i32
    }
}

/// The mathematical state of one frame.
pub struct FrameView {
    /// The bytes that the frame scans.
    pub code: Seq<u8>,
    /// Index of the next byte.
    pub ip: int,
    /// The accumulator.
    pub accumulator: i32,
    /// The registers that have been written.
    pub registers: Map<u8, i32>,
    /// The function blocks closed so far, in the order of their end markers.
    pub functions: Seq<Seq<u8>>,
    /// In capture mode, the bytes of the block that is open.
    pub capture: Option<Seq<u8>>,
}

impl FrameView {
    /// A frame at the start of `code`, with `input` as its accumulator,
    /// register 0 set to 0 and no function.
    pub open spec fn fresh(code: Seq<u8>, input: i32) -> FrameView {
        FrameView {
            code,
            ip: 0,
            accumulator: input,
            registers: Map::<u8, i32>::empty().insert(0u8, 0i32),
            functions: Seq::<Seq<u8>>::empty(),
            capture: None,
        }
    }

    /// The value that a read of register `r` yields: 0 where it is unset.
    pub open spec fn register(self, r: u8) -> i32 {
        if self.registers.contains_key(r) {
            self.registers[r]
        } else {
            0
        }
    }

    /// The frame has scanned all its bytes.
    pub open spec fn at_end(self) -> bool {
        self.ip >= self.code.len()
    }

    /// The frame with its instruction pointer moved to the next byte.
    pub open spec fn advanced(self) -> FrameView {
        FrameView { ip: self.ip + 1, ..self }
    }

    /// The frame after the system call `code`, and what the call asks for.
    ///
    /// An exit and an unknown code leave the frame as it is; the code of an
    /// end marker is unknown here, since no block is open. A call of a
    /// function takes the accumulator as the index into the function table,
    /// and does nothing where the table has no such entry.
    pub open spec fn syscall(self, code: u8) -> (FrameView, Signal) {
        if code == SYS_NOOP {
            (self.advanced(), Signal::Next)
        } else if code == SYS_PRINT {
            (self.advanced(), Signal::Print(self.accumulator))
        } else if code == SYS_READ {
            (self.advanced(), Signal::Read)
        } else if code == SYS_EXIT {
            (self, Signal::Exit)
        } else if code == SYS_INVOKE {
            if 0 <= self.accumulator < self.functions.len() {
                (self.advanced(), Signal::Invoke(self.accumulator as usize))
            } else {
                (self.advanced(), Signal::Next)
            }
        } else {
            (self, Signal::Fault(VmError::InvalidSyscall(code)))
        }
    }

    /// The frame after the instruction `opcode`, `immediate`, and what the
    /// instruction asks for.
    ///
    /// A jump moves back by `immediate` bytes from its own place, not past
    /// the first byte, and execution goes on behind the place reached.
    /// `skipeq` reads its register as `load` does: an unset register counts
    /// as 0. An addition wraps. The opcode 0 does nothing.
    pub open spec fn execute(self, opcode: u8, immediate: u8) -> (FrameView, Signal) {
        let next = self.advanced();
        if opcode == OP_SYSCALL {
            self.syscall(immediate)
        } else if opcode == OP_SAVE {
            (
                FrameView {
                    registers: self.registers.insert(immediate, self.accumulator),
                    ..next
                },
                Signal::Next,
            )
        } else if opcode == OP_LOAD {
            (FrameView { accumulator: self.register(immediate), ..next }, Signal::Next)
        } else if opcode == OP_JUMP {
            let target = if self.ip >= immediate {
                self.ip - immediate
            } else {
                0
            };
            (FrameView { ip: target + 1, ..self }, Signal::Next)
        } else if opcode == OP_ADD {
            (
                FrameView {
                    accumulator: wrap_sum(self.accumulator, self.register(immediate)),
                    ..next
                },
                Signal::Next,
            )
        } else if opcode == OP_ADDI {
            (
                FrameView { accumulator: wrap_sum(self.accumulator, immediate as i32), ..next },
                Signal::Next,
            )
        } else if opcode == OP_SKIPEQ {
            if self.register(immediate) == self.accumulator {
                let behind = if self.ip + 2 <= self.code.len() {
                    self.ip + 2
                } else {
                    self.code.len() as int
                };
                (FrameView { ip: behind, ..self }, Signal::Next)
            } else {
                (next, Signal::Next)
            }
        } else {
            (next, Signal::Next)
        }
    }

    /// The frame after its next byte, and what that byte asks for.
    ///
    /// In capture mode the byte is appended to the open block, or closes it.
    /// Otherwise a start marker opens a block and any other byte is executed.
    pub open spec fn step(self) -> (FrameView, Signal)
        recommends
            0 <= self.ip < self.code.len(),
    {
        let byte = self.code[self.ip];
        let next = self.advanced();
        match self.capture {
            Some(block) => {
                if byte == END_MARKER {
                    (
                        FrameView {
                            functions: self.functions.push(block),
                            capture: None,
                            ..next
                        },
                        Signal::Next,
                    )
                } else {
                    (FrameView { capture: Some(block.push(byte)), ..next }, Signal::Next)
                }
            },
            None => {
                if byte == START_MARKER {
                    (FrameView { capture: Some(Seq::<u8>::empty()), ..next }, Signal::Next)
                } else {
                    self.execute(opcode_of(byte), immediate_of(byte))
                }
            },
        }
    }
}

/// The views of a sequence of function blocks.
pub open spec fn blocks_view(blocks: Seq<Vec<u8>>) -> Seq<Seq<u8>> {
    blocks.map_values(|block: Vec<u8>| block@)
}

/// One evaluation of a byte stream: its own accumulator, registers and
/// function table.
pub struct Frame {
    code: Vec<u8>,
    ip: usize,
    accumulator: i32,
    registers: HashMap<u8, i32>,
    functions: Vec<Vec<u8>>,
    capture: Option<Vec<u8>>,
}

impl View for Frame {
    type V = FrameView;

    closed spec fn view(&self) -> FrameView {
        FrameView {
            code: self.code@,
            ip: self.ip as int,
            accumulator: self.accumulator,
            registers: self.registers@,
            functions: blocks_view(self.functions@),
            capture: match self.capture {
                Some(block) => Some(block@),
                None => None,
            },
        }
    }
}

impl Frame {
    /// The instruction pointer is not behind the end of the bytes.
    pub closed spec fn wf(&self) -> bool {
        self.ip <= self.code.len()
    }

    /// A frame at the start of `code`, with `input` as its accumulator.
    pub fn new(code: Vec<u8>, input: i32) -> (frame: Frame)
        ensures
            frame.wf(),
            frame@ == FrameView::fresh(code@, input),
    {
        let mut registers: HashMap<u8, i32> = HashMap::new();
        registers.insert(0, 0);
        let frame = Frame {
            code,
            ip: 0,
            accumulator: input,
            registers,
            functions: Vec::new(),
            capture: None,
        };
        assert(blocks_view(frame.functions@) =~= Seq::<Seq<u8>>::empty());
        frame
    }

    /// Whether the frame has scanned all its bytes.
    pub fn at_end(&self) -> (r: bool)
        requires
            self.wf(),
        ensures
            r == self@.at_end(),
    {
        self.ip >= self.code.len()
    }

    /// The accumulator.
    pub fn accumulator(&self) -> (r: i32)
        ensures
            r == self@.accumulator,
    {
        self.accumulator
    }

    /// The value of register `r`, if it has been written.
    pub fn register(&self, r: u8) -> (value: Option<i32>)
        ensures
            value == (if self@.registers.contains_key(r) {
                Some(self@.registers[r])
            } else {
                None
            }),
    {
        match self.registers.get(&r) {
            Some(v) => Some(*v),
            None => None,
        }
    }

    /// The number of function blocks closed so far.
    pub fn function_count(&self) -> (n: usize)
        ensures
            n == self@.functions.len(),
    {
        self.functions.len()
    }

    /// A copy of the function block with index `index`.
    pub fn function(&self, index: usize) -> (block: Vec<u8>)
        requires
            index < self@.functions.len(),
        ensures
            block@ == self@.functions[index as int],
    {
        let block = self.functions[index].clone();
        assert(block@ =~= self.functions@[index as int]@);
        block
    }

    /// Executes the system call `code`.
    fn syscall(&mut self, code: u8) -> (signal: Signal)
        requires
            old(self).wf(),
            old(self)@.ip < old(self)@.code.len(),
        ensures
            final(self).wf(),
            (final(self)@, signal) == old(self)@.syscall(code),
    {
        if code == SYS_NOOP {
            self.ip = self.ip + 1;
            Signal::Next
        } else if code == SYS_PRINT {
            self.ip = self.ip + 1;
            Signal::Print(self.accumulator)
        } else if code == SYS_READ {
            self.ip = self.ip + 1;
            Signal::Read
        } else if code == SYS_EXIT {
            Signal::Exit
        } else if code == SYS_INVOKE {
            self.ip = self.ip + 1;
            if 0 <= self.accumulator && (self.accumulator as u32 as usize) < self.functions.len() {
                Signal::Invoke(self.accumulator as u32 as usize)
            } else {
                Signal::Next
            }
        } else {
            Signal::Fault(VmError::InvalidSyscall(code))
        }
    }

    /// Executes the instruction `opcode`, `immediate`.
    fn execute(&mut self, opcode: u8, immediate: u8) -> (signal: Signal)
        requires
            old(self).wf(),
            old(self)@.ip < old(self)@.code.len(),
        ensures
            final(self).wf(),
            (final(self)@, signal) == old(self)@.execute(opcode, immediate),
    {
        if opcode == OP_SYSCALL {
            self.syscall(immediate)
        } else if opcode == OP_SAVE {
            self.registers.insert(immediate, self.accumulator);
            self.ip = self.ip + 1;
            Signal::Next
        } else if opcode == OP_LOAD {
            self.accumulator = match self.registers.get(&immediate) {
                Some(v) => *v,
                None => 0,
            };
            self.ip = self.ip + 1;
            Signal::Next
        } else if opcode == OP_JUMP {
            let target = if self.ip >= immediate as usize {
                self.ip - immediate as usize
            } else {
                0
            };
            self.ip = target + 1;
            Signal::Next
        } else if opcode == OP_ADD {
            let addend = match self.registers.get(&immediate) {
                Some(v) => *v,
                None => 0,
            };
            self.accumulator = self.accumulator.wrapping_add(addend);
            self.ip = self.ip + 1;
            Signal::Next
        } else if opcode == OP_ADDI {
            self.accumulator = self.accumulator.wrapping_add(immediate as i32);
            self.ip = self.ip + 1;
            Signal::Next
        } else if opcode == OP_SKIPEQ {
            let equal = match self.registers.get(&immediate) {
                Some(v) => *v == self.accumulator,
                None => self.accumulator == 0,
            };
            if equal {
                if self.code.len() - self.ip >= 2 {
                    self.ip = self.ip + 2;
                } else {
                    self.ip = self.code.len();
                }
            } else {
                self.ip = self.ip + 1;
            }
            Signal::Next
        } else {
            self.ip = self.ip + 1;
            Signal::Next
        }
    }

    /// Scans the next byte: captures it, or executes it.
    pub fn step(&mut self) -> (signal: Signal)
        requires
            old(self).wf(),
            !old(self)@.at_end(),
        ensures
            final(self).wf(),
            (final(self)@, signal) == old(self)@.step(),
    {
        let byte = self.code[self.ip];
        match self.capture.take() {
            Some(mut block) => {
                self.ip = self.ip + 1;
                if byte == END_MARKER {
                    let ghost before = self.functions@;
                    self.functions.push(block);
                    assert(blocks_view(self.functions@) =~= blocks_view(before).push(block@));
                } else {
                    block.push(byte);
                    self.capture = Some(block);
                }
                Signal::Next
            },
            None => {
                if byte == START_MARKER {
                    self.ip = self.ip + 1;
                    self.capture = Some(Vec::new());
                    Signal::Next
                } else {
                    let (opcode, immediate) = decode(byte);
                    self.execute(opcode, immediate)
                }
            },
        }
    }
}

/// The mathematical state of a machine: its frames, the outermost first,
/// and its status.
pub struct MachineView {
    /// The frames, the outermost first; the last one is being evaluated.
    pub frames: Seq<FrameView>,
    /// Whether the machine can execute further bytes.
    pub status: Status,
}

/// What a machine with the status `status` reports without executing anything.
pub open spec fn action_of(status: Status) -> Action {
    match status {
        Status::Running => Action::Continue,
        Status::AwaitingInput => Action::Read,
        Status::Exited => Action::Exit,
        Status::Finished(result) => Action::Done(result),
        Status::Faulted(error) => Action::Fault(error),
    }
}

impl MachineView {
    /// A machine about to execute the first byte of `code` with `input` as
    /// its accumulator.
    pub open spec fn start(code: Seq<u8>, input: i32) -> MachineView {
        MachineView { frames: seq![FrameView::fresh(code, input)], status: Status::Running }
    }

    /// There is a frame, and no instruction pointer is behind the end of its
    /// frame's bytes.
    pub open spec fn inv(self) -> bool {
        &&& self.frames.len() >= 1
        &&& forall|i: int|
            0 <= i < self.frames.len() ==> 0 <= (#[trigger] self.frames[i]).ip
                <= self.frames[i].code.len()
    }

    /// The frame that is being evaluated.
    pub open spec fn current(self) -> FrameView {
        self.frames.last()
    }

    /// The machine with a new frame that evaluates function `index` of the
    /// current frame on the current accumulator. Where the machine is not
    /// running or the function table has no such entry, nothing changes.
    pub open spec fn call(self, index: int) -> MachineView {
        if self.status == Status::Running && 0 <= index < self.current().functions.len() {
            MachineView {
                frames: self.frames.push(
                    FrameView::fresh(self.current().functions[index], self.current().accumulator),
                ),
                ..self
            }
        } else {
            self
        }
    }

    /// The machine after one step, and what the host has to do.
    ///
    /// A machine that is not running stays as it is. A frame that has scanned
    /// all its bytes returns: its accumulator becomes the accumulator of the
    /// frame that called it, or, for the outermost frame, the result of the
    /// program. Otherwise the current frame scans one byte.
    pub open spec fn step(self) -> (MachineView, Action) {
        if self.status != Status::Running {
            (self, action_of(self.status))
        } else {
            let top = self.frames.last();
            let below = self.frames.drop_last();
            if top.at_end() {
                if below.len() == 0 {
                    (
                        MachineView { status: Status::Finished(top.accumulator), ..self },
                        Action::Done(top.accumulator),
                    )
                } else {
                    let caller = FrameView { accumulator: top.accumulator, ..below.last() };
                    (
                        MachineView { frames: below.drop_last().push(caller), ..self },
                        Action::Continue,
                    )
                }
            } else {
                let (frame, signal) = top.step();
                let stepped = MachineView { frames: below.push(frame), ..self };
                match signal {
                    Signal::Next => (stepped, Action::Continue),
                    Signal::Print(value) => (stepped, Action::Print(value)),
                    Signal::Read => (
                        MachineView { status: Status::AwaitingInput, ..stepped },
                        Action::Read,
                    ),
                    Signal::Exit => (
                        MachineView { status: Status::Exited, ..stepped },
                        Action::Exit,
                    ),
                    Signal::Invoke(index) => (stepped.call(index as int), Action::Continue),
                    Signal::Fault(error) => (
                        MachineView { status: Status::Faulted(error), ..stepped },
                        Action::Fault(error),
                    ),
                }
            }
        }
    }

    /// The machine after the host has handed it the line `line`, and what the
    /// host has to do next.
    ///
    /// A machine that does not wait for input stays as it is. One that does
    /// takes the integer that the line holds as its accumulator and runs
    /// again, or is stopped where the line holds none.
    pub open spec fn feed(self, line: Seq<char>) -> (MachineView, Action) {
        if self.status != Status::AwaitingInput {
            (self, action_of(self.status))
        } else {
            match line_value(line) {
                Some(value) => {
                    let top = FrameView { accumulator: value, ..self.frames.last() };
                    (
                        MachineView {
                            frames: self.frames.drop_last().push(top),
                            status: Status::Running,
                        },
                        Action::Continue,
                    )
                },
                None => (
                    MachineView { status: Status::Faulted(VmError::MalformedInput), ..self },
                    Action::Fault(VmError::MalformedInput),
                ),
            }
        }
    }

    /// The machine after at most `steps` steps with `lines` as its input,
    /// the action that ended the run, and `printed` followed by the values
    /// that the steps printed.
    ///
    /// Each read takes the first line that is left, or an empty line where
    /// none is left. The run ends when the program is over, terminates or is
    /// stopped; `Action::Continue` says that it was cut off after `steps`
    /// steps.
    pub open spec fn replay(self, lines: Seq<Seq<char>>, printed: Seq<i32>, steps: nat) -> (
        MachineView,
        Action,
        Seq<i32>,
    )
        decreases steps,
    {
        if steps == 0 {
            (self, Action::Continue, printed)
        } else {
            let (next, action) = self.step();
            match action {
                Action::Continue => next.replay(lines, printed, (steps - 1) as nat),
                Action::Print(value) => next.replay(lines, printed.push(value), (steps - 1) as nat),
                Action::Read => {
                    let line = if lines.len() > 0 {
                        lines.first()
                    } else {
                        Seq::<char>::empty()
                    };
                    let rest = if lines.len() > 0 {
                        lines.drop_first()
                    } else {
                        lines
                    };
                    let (fed, answer) = next.feed(line);
                    if answer == Action::Continue {
                        fed.replay(rest, printed, (steps - 1) as nat)
                    } else {
                        (fed, answer, printed)
                    }
                },
                _ => (next, action, printed),
            }
        }
    }

    /// The machine after at most `steps` steps, stopping at the first step
    /// that asks something of the host, and what that step asks.
    /// `Action::Continue` says that `steps` steps asked nothing.
    pub open spec fn run(self, steps: nat) -> (MachineView, Action)
        decreases steps,
    {
        if steps == 0 {
            (self, Action::Continue)
        } else {
            let (next, action) = self.step();
            if action == Action::Continue {
                next.run((steps - 1) as nat)
            } else {
                (next, action)
            }
        }
    }
}

/// Saving the accumulator to a register and loading that register at once
/// leaves the accumulator as it was: a running machine whose next two bytes
/// are `save r` and `load r` has, two steps later, the accumulator it had,
/// and holds that value in register `r`.
pub proof fn lemma_save_then_load(m: MachineView, r: u8)
    requires
        m.inv(),
        m.status == Status::Running,
        m.current().capture is None,
        r < 32,
        m.current().ip + 1 < m.current().code.len(),
        m.current().code[m.current().ip] == instruction(OP_SAVE, r),
        m.current().code[m.current().ip + 1] == instruction(OP_LOAD, r),
    ensures
        m.run(2).1 == Action::Continue,
        m.run(2).0.frames.len() == m.frames.len(),
        m.run(2).0.current().accumulator == m.current().accumulator,
        m.run(2).0.current().registers == m.current().registers.insert(r, m.current().accumulator),
        m.run(2).0.current().ip == m.current().ip + 2,
{
    reveal_with_fuel(MachineView::run, 3);
    let (first, _) = m.step();
    assert(first.current().code == m.current().code);
    assert(first.current().ip == m.current().ip + 1);
}

/// Loading a register that was never written gives 0: a running machine
/// whose next byte is `load r`, where register `r` is unset, has the
/// accumulator 0 after its step.
pub proof fn lemma_load_unset(m: MachineView, r: u8)
    requires
        m.inv(),
        m.status == Status::Running,
        m.current().capture is None,
        r < 32,
        m.current().ip < m.current().code.len(),
        m.current().code[m.current().ip] == instruction(OP_LOAD, r),
        !m.current().registers.contains_key(r),
    ensures
        m.step().1 == Action::Continue,
        m.step().0.current().accumulator == 0,
{
}

/// A register that was never written counts as 0 for `skipeq` too: a running
/// machine with the accumulator 0 whose next byte is `skipeq r`, where
/// register `r` is unset, skips the byte behind it, and with any other
/// accumulator it does not.
pub proof fn lemma_skipeq_unset(m: MachineView, r: u8)
    requires
        m.inv(),
        m.status == Status::Running,
        m.current().capture is None,
        r < 32,
        m.current().ip + 1 < m.current().code.len(),
        m.current().code[m.current().ip] == instruction(OP_SKIPEQ, r),
        !m.current().registers.contains_key(r),
    ensures
        m.step().1 == Action::Continue,
        m.step().0.current().accumulator == m.current().accumulator,
        m.step().0.current().registers == m.current().registers,
        m.current().accumulator == 0 ==> m.step().0.current().ip == m.current().ip + 2,
        m.current().accumulator != 0 ==> m.step().0.current().ip == m.current().ip + 1,
{
}

/// A terminating system call stops the machine where it stands: a running
/// machine whose next byte is the exit call changes nothing but its status,
/// and no later step, run or line of input changes it again.
pub proof fn lemma_exit_halts(m: MachineView, lines: Seq<Seq<char>>, printed: Seq<i32>, steps: nat)
    requires
        m.inv(),
        m.status == Status::Running,
        m.current().capture is None,
        m.current().ip < m.current().code.len(),
        m.current().code[m.current().ip] == instruction(OP_SYSCALL, SYS_EXIT),
    ensures
        m.step() == (MachineView { status: Status::Exited, ..m }, Action::Exit),
        m.step().0.step() == (m.step().0, Action::Exit),
        steps > 0 ==> m.step().0.run(steps) == (m.step().0, Action::Exit),
        steps > 0 ==> m.step().0.replay(lines, printed, steps) == (
            m.step().0,
            Action::Exit,
            printed,
        ),
        m.step().0.feed(lines.first()) == (m.step().0, Action::Exit),
{
    let top = m.frames.last();
    assert(m.frames.drop_last().push(top) =~= m.frames);
}

/// The machine `m` with `frame` in the place of its current frame.
pub open spec fn with_current(m: MachineView, frame: FrameView) -> MachineView {
    MachineView { frames: m.frames.drop_last().push(frame), ..m }
}

/// A machine in capture mode appends the bytes up to the next end marker to
/// the open block and then closes the block: where `rest` holds no end
/// marker and an end marker follows it, `rest.len() + 1` steps add the open
/// block with `rest` to the function table and execute nothing.
pub proof fn lemma_capture(m: MachineView, rest: Seq<u8>)
    requires
        m.inv(),
        m.status == Status::Running,
        m.current().capture is Some,
        m.current().ip + rest.len() < m.current().code.len(),
        forall|j: int|
            0 <= j < rest.len() ==> m.current().code[m.current().ip + j] == #[trigger] rest[j]
                && rest[j] != END_MARKER,
        m.current().code[m.current().ip + rest.len()] == END_MARKER,
    ensures
        m.run(rest.len() + 1) == (
            with_current(
                m,
                FrameView {
                    ip: m.current().ip + rest.len() + 1,
                    functions: m.current().functions.push(m.current().capture->0 + rest),
                    capture: None,
                    ..m.current()
                },
            ),
            Action::Continue,
        ),
    decreases rest.len(),
{
    let top = m.current();
    let block = top.capture->0;
    reveal_with_fuel(MachineView::run, 2);
    if rest.len() == 0 {
        assert(block + rest =~= block);
    } else {
        let (next, action) = m.step();
        let tail = rest.drop_first();
        assert(rest[0] != END_MARKER);
        assert(next.current().capture == Some(block.push(rest[0])));
        assert forall|j: int| 0 <= j < tail.len() implies next.current().code[next.current().ip
            + j] == #[trigger] tail[j] && tail[j] != END_MARKER by {
            assert(tail[j] == rest[j + 1]);
        }
        lemma_capture(next, tail);
        assert(block.push(rest[0]) + tail =~= block + rest);
        assert(next.frames.drop_last() =~= m.frames.drop_last());
        assert(m.run(rest.len() + 1) == next.run(tail.len() + 1));
    }
}

/// A function block whose body holds no end marker is set aside whole: a
/// machine that is not in capture mode and stands before the start marker of
/// the block has, `body.len() + 2` steps later, the body as the newest entry
/// of its function table, stands behind the end marker, and has executed
/// nothing.
pub proof fn lemma_block_is_captured(m: MachineView, body: Seq<u8>)
    requires
        m.inv(),
        m.status == Status::Running,
        m.current().capture is None,
        m.current().ip + body.len() + 1 < m.current().code.len(),
        m.current().code[m.current().ip] == START_MARKER,
        forall|j: int|
            0 <= j < body.len() ==> m.current().code[m.current().ip + 1 + j] == #[trigger] body[j]
                && body[j] != END_MARKER,
        m.current().code[m.current().ip + 1 + body.len()] == END_MARKER,
    ensures
        m.run(body.len() + 2) == (
            with_current(
                m,
                FrameView {
                    ip: m.current().ip + body.len() + 2,
                    functions: m.current().functions.push(body),
                    ..m.current()
                },
            ),
            Action::Continue,
        ),
{
    reveal_with_fuel(MachineView::run, 2);
    let (next, action) = m.step();
    lemma_capture(next, body);
    assert(Seq::<u8>::empty() + body =~= body);
    assert(next.frames.drop_last() =~= m.frames.drop_last());
    assert(m.run(body.len() + 2) == next.run(body.len() + 1));
}

/// A frame that returns hands its accumulator to the frame that called it
/// and leaves that frame's registers, function table and place as they were.
pub proof fn lemma_return_keeps_caller(m: MachineView)
    requires
        m.inv(),
        m.status == Status::Running,
        m.frames.len() >= 2,
        m.current().at_end(),
    ensures
        m.step().1 == Action::Continue,
        m.step().0.frames.len() == m.frames.len() - 1,
        m.step().0.current() == (FrameView {
            accumulator: m.current().accumulator,
            ..m.frames[m.frames.len() - 2]
        }),
{
}

/// The views of a sequence of lines.
pub open spec fn lines_view(lines: Seq<String>) -> Seq<Seq<char>> {
    lines.map_values(|line: String| line@)
}

/// The views of a sequence of frames.
pub open spec fn frames_view(frames: Seq<Frame>) -> Seq<FrameView> {
    frames.map_values(|frame: Frame| frame@)
}

/// A program being executed.
pub struct Machine {
    frames: Vec<Frame>,
    status: Status,
}

impl View for Machine {
    type V = MachineView;

    closed spec fn view(&self) -> MachineView {
        MachineView { frames: frames_view(self.frames@), status: self.status }
    }
}

impl Machine {
    /// The machine holds a frame, and every frame is well formed.
    pub closed spec fn wf(&self) -> bool {
        &&& self.frames@.len() >= 1
        &&& forall|i: int| 0 <= i < self.frames@.len() ==> (#[trigger] self.frames@[i]).wf()
    }

    /// The view of a well-formed machine meets the invariant of views.
    pub proof fn lemma_wf(&self)
        requires
            self.wf(),
        ensures
            self@.inv(),
    {
        assert forall|i: int| 0 <= i < self@.frames.len() implies 0 <= (#[trigger] self@.frames[i]).ip
            <= self@.frames[i].code.len() by {
            assert(self.frames@[i].wf());
        }
    }

    /// A machine about to execute the first byte of `bytes` with `input` as
    /// its accumulator.
    pub fn new(bytes: Vec<u8>, input: i32) -> (machine: Machine)
        ensures
            machine.wf(),
            machine@ == MachineView::start(bytes@, input),
    {
        let mut frames: Vec<Frame> = Vec::new();
        frames.push(Frame::new(bytes, input));
        let machine = Machine { frames, status: Status::Running };
        assert(machine@.frames =~= seq![FrameView::fresh(bytes@, input)]);
        machine
    }

    /// Whether the machine can execute further bytes.
    pub fn status(&self) -> (status: Status)
        ensures
            status == self@.status,
    {
        self.status
    }

    /// The number of frames.
    pub fn depth(&self) -> (n: usize)
        ensures
            n == self@.frames.len(),
    {
        self.frames.len()
    }

    /// The accumulator of the frame that is being evaluated.
    pub fn accumulator(&self) -> (value: i32)
        requires
            self.wf(),
        ensures
            value == self@.current().accumulator,
    {
        self.frames[self.frames.len() - 1].accumulator()
    }

    /// The value of register `r` in the frame that is being evaluated, if it
    /// has been written.
    pub fn register(&self, r: u8) -> (value: Option<i32>)
        requires
            self.wf(),
        ensures
            value == (if self@.current().registers.contains_key(r) {
                Some(self@.current().registers[r])
            } else {
                None
            }),
    {
        self.frames[self.frames.len() - 1].register(r)
    }

    /// The number of function blocks that the frame being evaluated has
    /// closed.
    pub fn function_count(&self) -> (n: usize)
        requires
            self.wf(),
        ensures
            n == self@.current().functions.len(),
    {
        self.frames[self.frames.len() - 1].function_count()
    }

    /// A copy of the function block with index `index` of the frame that is
    /// being evaluated.
    pub fn function(&self, index: usize) -> (block: Vec<u8>)
        requires
            self.wf(),
            index < self@.current().functions.len(),
        ensures
            block@ == self@.current().functions[index as int],
    {
        self.frames[self.frames.len() - 1].function(index)
    }

    /// Starts the evaluation of function `index` of the current frame on the
    /// current accumulator. Where the machine is not running or the function
    /// table has no such entry, nothing changes.
    pub fn call(&mut self, index: usize)
        requires
            old(self).wf(),
        ensures
            final(self).wf(),
            final(self)@ == old(self)@.call(index as int),
    {
        if self.status != Status::Running {
            return ;
        }
        let last = self.frames.len() - 1;
        if index < self.frames[last].function_count() {
            let callee = Frame::new(
                self.frames[last].function(index),
                self.frames[last].accumulator(),
            );
            self.frames.push(callee);
            assert(self@.frames =~= old(self)@.call(index as int).frames);
        }
    }

    /// Executes one byte, or lets a frame return, and says what the host has
    /// to do.
    pub fn step(&mut self) -> (action: Action)
        requires
            old(self).wf(),
        ensures
            final(self).wf(),
            (final(self)@, action) == old(self)@.step(),
    {
        match self.status {
            Status::Running => {},
            Status::AwaitingInput => {
                return Action::Read;
            },
            Status::Exited => {
                return Action::Exit;
            },
            Status::Finished(result) => {
                return Action::Done(result);
            },
            Status::Faulted(error) => {
                return Action::Fault(error);
            },
        }
        let ghost below = old(self)@.frames.drop_last();
        let mut top = self.frames.pop().unwrap();
        assert(frames_view(self.frames@) =~= below);
        if top.at_end() {
            let result = top.accumulator();
            if self.frames.len() == 0 {
                self.frames.push(top);
                self.status = Status::Finished(result);
                assert(self@.frames =~= old(self)@.frames);
                return Action::Done(result);
            }
            let mut caller = self.frames.pop().unwrap();
            caller.accumulator = result;
            self.frames.push(caller);
            assert(self@.frames =~= old(self)@.step().0.frames);
            return Action::Continue;
        }
        let signal = top.step();
        self.frames.push(top);
        assert(self@.frames =~= below.push(top@));
        match signal {
            Signal::Next => Action::Continue,
            Signal::Print(value) => Action::Print(value),
            Signal::Read => {
                self.status = Status::AwaitingInput;
                Action::Read
            },
            Signal::Exit => {
                self.status = Status::Exited;
                Action::Exit
            },
            Signal::Invoke(index) => {
                self.call(index);
                Action::Continue
            },
            Signal::Fault(error) => {
                self.status = Status::Faulted(error);
                Action::Fault(error)
            },
        }
    }

    /// Takes at most `max_steps` steps, stopping at the first one that asks
    /// something of the host. `Action::Continue` says that `max_steps` steps
    /// asked nothing.
    pub fn run(&mut self, max_steps: u64) -> (action: Action)
        requires
            old(self).wf(),
        ensures
            final(self).wf(),
            (final(self)@, action) == old(self)@.run(max_steps as nat),
    {
        let mut left = max_steps;
        while left > 0
            invariant
                self.wf(),
                old(self)@.run(max_steps as nat) == self@.run(left as nat),
            decreases left,
        {
            let action = self.step();
            if action != Action::Continue {
                return action;
            }
            left = left - 1;
        }
        Action::Continue
    }

    /// Hands a line of input to a machine that waits for one, and says what
    /// the host has to do next.
    pub fn feed_line(&mut self, line: &str) -> (action: Action)
        requires
            old(self).wf(),
        ensures
            final(self).wf(),
            (final(self)@, action) == old(self)@.feed(line@),
    {
        match self.status {
            Status::AwaitingInput => {},
            Status::Running => {
                return Action::Continue;
            },
            Status::Exited => {
                return Action::Exit;
            },
            Status::Finished(result) => {
                return Action::Done(result);
            },
            Status::Faulted(error) => {
                return Action::Fault(error);
            },
        }
        match parse_line(line) {
            Some(value) => {
                let mut top = self.frames.pop().unwrap();
                top.accumulator = value;
                self.frames.push(top);
                self.status = Status::Running;
                assert(self@.frames =~= old(self)@.feed(line@).0.frames);
                Action::Continue
            },
            None => {
                self.status = Status::Faulted(VmError::MalformedInput);
                Action::Fault(VmError::MalformedInput)
            },
        }
    }

    /// Takes at most `max_steps` steps with `lines` as the input, and
    /// returns the action that ended the run and the values printed.
    pub fn replay(&mut self, lines: &Vec<String>, max_steps: u64) -> (r: (Action, Vec<i32>))
        requires
            old(self).wf(),
        ensures
            final(self).wf(),
            (final(self)@, r.0, r.1@) == old(self)@.replay(
                lines_view(lines@),
                Seq::<i32>::empty(),
                max_steps as nat,
            ),
    {
        let mut printed: Vec<i32> = Vec::new();
        let mut used: usize = 0;
        let mut left: u64 = max_steps;
        assert(lines_view(lines@).skip(0) =~= lines_view(lines@));
        while left > 0
            invariant
                self.wf(),
                used <= lines.len(),
                old(self)@.replay(lines_view(lines@), Seq::<i32>::empty(), max_steps as nat)
                    == self@.replay(lines_view(lines@).skip(used as int), printed@, left as nat),
            decreases left,
        {
            let ghost pending = lines_view(lines@).skip(used as int);
            let action = self.step();
            match action {
                Action::Continue => {},
                Action::Print(value) => {
                    printed.push(value);
                },
                Action::Read => {
                    let answer = if used < lines.len() {
                        assert(pending.first() == lines@[used as int]@);
                        assert(pending.drop_first() =~= lines_view(lines@).skip(used + 1));
                        used = used + 1;
                        self.feed_line(lines[used - 1].as_str())
                    } else {
                        let nothing = String::new();
                        self.feed_line(nothing.as_str())
                    };
                    if answer != Action::Continue {
                        return (answer, printed);
                    }
                },
                _ => {
                    return (action, printed);
                },
            }
            left = left - 1;
        }
        (Action::Continue, printed)
    }
}

/// What a run of a program gave.
pub struct Report {
    /// The action that ended the run: `Action::Done` with the result,
    /// `Action::Exit`, `Action::Fault`, or `Action::Continue` where the run
    /// was cut off.
    pub action: Action,
    /// The accumulator of the frame that was being evaluated at the end.
    pub accumulator: i32,
    /// The values printed, in order.
    pub printed: Vec<i32>,
}

/// Runs the program `bytes` with `input` as its first accumulator and
/// `lines` as its input, for at most `max_steps` steps.
pub fn run_binary(bytes: Vec<u8>, input: i32, lines: &Vec<String>, max_steps: u64) -> (report:
    Report)
    ensures
        ({
            let (machine, action, printed) = MachineView::start(bytes@, input).replay(
                lines_view(lines@),
                Seq::<i32>::empty(),
                max_steps as nat,
            );
            &&& report.action == action
            &&& report.accumulator == machine.current().accumulator
            &&& report.printed@ == printed
        }),
{
    let mut machine = Machine::new(bytes, input);
    let (action, printed) = machine.replay(lines, max_steps);
    Report { action, accumulator: machine.accumulator(), printed }
}

} // verus!
