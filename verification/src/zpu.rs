//! The execution engine: the state of a machine and the transition that one
//! instruction makes.
//!
//! A step never panics. What cannot be executed is reported as a [`Fault`],
//! and a step that faults leaves the machine as it was.
//!
//! Arithmetic on registers is modulo 2^32, shifts by 32 places or more give
//! zero, and a division by zero is a fault. `MemoryMove`, `MemorySet`, `XOr`,
//! `In`, `Push` and `Pop` have a code and an encoding but no effect: they
//! advance the program counter and change nothing else.

use crate::arith::{
    advanced, shift_left, shift_right, shifted_left, shifted_right, wrap, wrapping_difference,
    wrapping_product, wrapping_sum,
};
use crate::encoding::{code_field, first_field, le_word, read_word, second_field, split_word};
pub use crate::isa::{Opcode, Register};
use vstd::prelude::*;
use vstd::slice::slice_subrange;

verus! {

/// What the `Out` instruction hands to the host: a port and a value.
#[derive(Debug, Copy, Clone, PartialEq, Eq, Structural)]
pub struct Output {
    pub port: u32,
    pub data: u32,
}

impl Output {
    pub fn new(port: u32, data: u32) -> (output: Output)
        ensures
            output == (Output { port, data }),
    {
        Output { port: port, data: data }
    }
}

/// What a step reports: whether the machine is still running, and what it
/// put out, if anything.
#[derive(Debug, Copy, Clone, PartialEq, Eq)]
pub struct ZResult {
    pub running: bool,
    pub output: Option<Output>,
}

impl ZResult {
    pub fn new(running: bool, output: Option<Output>) -> (result: ZResult)
        ensures
            result == (ZResult { running, output }),
    {
        ZResult { running: running, output: output }
    }
}

/// Why a program cannot be loaded or an instruction cannot be executed.
#[derive(Debug, Copy, Clone, PartialEq, Eq, Structural)]
pub enum Fault {
    /// The program is not a whole number of words.
    MalformedProgram,
    /// The program counter points behind the program, the immediate word of
    /// the instruction lies behind it, or the counter cannot be advanced.
    ProgramCounterOutOfBounds,
    /// The high half of the instruction word is the code of no operation.
    UnknownOpcode,
    /// The second operand is `Null` and no immediate value was given.
    MissingImmediate,
    /// The operation works on its first operand, and that is `Null`.
    NullRegister,
    /// A division by zero.
    DivisionByZero,
}

/// One decoded instruction: the operation, its two operand fields, and the
/// immediate value where the second operand is `Null`.
#[derive(Debug, Copy, Clone, PartialEq, Eq)]
pub struct Instruction {
    pub op: Opcode,
    pub first: Register,
    pub second: Register,
    pub data: Option<u32>,
}

/// The machine: the loaded program, eight registers, the program counter in
/// words, the two flags that `Compare` sets, and whether it is running.
pub struct ZPU {
    pub program: Vec<u8>,
    pub registers: [u32; 8],
    pub pc: u32,
    pub cmp_flag: i32,
    pub zero_flag: bool,
    pub running: bool,
}

/// The state of a machine as a value.
pub struct Machine {
    pub program: Seq<u8>,
    pub registers: Seq<u32>,
    pub pc: u32,
    pub cmp_flag: i32,
    pub zero_flag: bool,
    pub running: bool,
}

impl View for ZPU {
    type V = Machine;

    open spec fn view(&self) -> Machine {
        Machine {
            program: self.program@,
            registers: self.registers@,
            pc: self.pc,
            cmp_flag: self.cmp_flag,
            zero_flag: self.zero_flag,
            running: self.running,
        }
    }
}

/// Whether `bytes` is a whole number of words.
pub open spec fn whole_words(bytes: Seq<u8>) -> bool {
    bytes.len() % 4 == 0
}

/// The machine as it is after loading `program`: running, at word 0, with
/// every register zero and both flags clear.
pub open spec fn loaded(program: Seq<u8>) -> Machine {
    Machine {
        program,
        registers: Seq::new(8, |i: int| 0u32),
        pc: 0,
        cmp_flag: 0,
        zero_flag: false,
        running: true,
    }
}

/// The word of `program` at word position `index`.
pub open spec fn word_at(program: Seq<u8>, index: int) -> u32
    recommends
        0 <= index,
        4 * index + 4 <= program.len(),
{
    le_word(program.subrange(4 * index, 4 * index + 4))
}

/// The instruction that lies at word `pc` of `program`: the operation and
/// the operand fields from the word there, and the next word as immediate
/// value where the second field stands for `Null`.
pub open spec fn fetch_spec(program: Seq<u8>, pc: u32) -> Result<Instruction, Fault> {
    if 4 * pc + 4 > program.len() {
        Err(Fault::ProgramCounterOutOfBounds)
    } else {
        let word = word_at(program, pc as int);
        let second = Register::of_code(second_field(word));
        match Opcode::decode(code_field(word)) {
            None => Err(Fault::UnknownOpcode),
            Some(op) => if second != Register::Null {
                Ok(Instruction { op, first: Register::of_code(first_field(word)), second, data: None })
            } else if 4 * pc + 8 > program.len() {
                Err(Fault::ProgramCounterOutOfBounds)
            } else {
                Ok(
                    Instruction {
                        op,
                        first: Register::of_code(first_field(word)),
                        second,
                        data: Some(word_at(program, pc + 1)),
                    },
                )
            },
        }
    }
}

/// Whether the operation reads or writes the register named by its first
/// operand.
pub open spec fn uses_first(op: Opcode) -> bool {
    match op {
        Opcode::Move
        | Opcode::Increment
        | Opcode::ShiftRight
        | Opcode::ShiftLeft
        | Opcode::Add
        | Opcode::Subtract
        | Opcode::Multiply
        | Opcode::Divide
        | Opcode::Compare
        | Opcode::Out => true,
        _ => false,
    }
}

/// The machine with the register `target` set to `value`.
pub open spec fn with_register(m: Machine, target: Register, value: u32) -> Machine {
    Machine { registers: m.registers.update(target.slot(), value), ..m }
}

/// The machine with the program counter set to `target`.
pub open spec fn with_pc(m: Machine, target: u32) -> Machine {
    Machine { pc: target, ..m }
}

/// The machine after a comparison of the register `target` with `value`: the
/// zero flag says whether they are equal, the comparison flag is 0 where they
/// are, -1 where the register is less and 1 where it is greater.
pub open spec fn compared(m: Machine, target: Register, value: u32) -> Machine {
    let held = m.registers[target.slot()];
    Machine {
        zero_flag: held == value,
        cmp_flag: if held == value {
            0i32
        } else if held < value {
            -1i32
        } else {
            1i32
        },
        ..m
    }
}

/// Whether the machine takes the branch `op`: always for the jump; for a
/// conditional branch, where the flags of the last comparison say so.
pub open spec fn taken(m: Machine, op: Opcode) -> bool {
    match op {
        Opcode::Jump => true,
        Opcode::IfEqual => m.cmp_flag == 0,
        Opcode::IfNotEqual => m.cmp_flag != 0,
        Opcode::IfGreater => m.cmp_flag > 0,
        Opcode::IfLess => m.cmp_flag < 0,
        Opcode::IfZero => m.zero_flag,
        _ => false,
    }
}

/// What the operation does to a machine whose program counter has been
/// advanced already, with `value` as the value of its second operand.
pub open spec fn effect(m: Machine, op: Opcode, target: Register, value: u32) -> (
    Machine,
    Option<Output>,
) {
    let held = m.registers[target.slot()];
    match op {
        Opcode::Move => (with_register(m, target, value), None),
        Opcode::Increment => (with_register(m, target, wrap(held + 1)), None),
        Opcode::ShiftRight => (with_register(m, target, shifted_right(held, value)), None),
        Opcode::ShiftLeft => (with_register(m, target, shifted_left(held, value)), None),
        Opcode::Add => (with_register(m, target, wrap(held + value)), None),
        Opcode::Subtract => (with_register(m, target, wrap(held - value)), None),
        Opcode::Multiply => (with_register(m, target, wrap(held * value)), None),
        Opcode::Divide => (with_register(m, target, held / value), None),
        Opcode::Compare => (compared(m, target, value), None),
        Opcode::Jump
        | Opcode::IfEqual
        | Opcode::IfNotEqual
        | Opcode::IfGreater
        | Opcode::IfLess
        | Opcode::IfZero => (if taken(m, op) { with_pc(m, value) } else { m }, None),
        Opcode::Out => (m, Some(Output { port: held, data: value })),
        Opcode::Halt => (Machine { running: false, ..m }, None),
        Opcode::NoOp
        | Opcode::MemoryMove
        | Opcode::MemorySet
        | Opcode::XOr
        | Opcode::In
        | Opcode::Push
        | Opcode::Pop => (m, None),
    }
}

/// The number of words that an instruction with this second operand takes.
pub open spec fn width(second: Register) -> int {
    if second == Register::Null {
        2
    } else {
        1
    }
}

/// The fault that keeps the instruction from being executed on `m`, if
/// there is one.
pub open spec fn refusal(
    m: Machine,
    op: Opcode,
    first: Register,
    second: Register,
    data: Option<u32>,
) -> Option<Fault> {
    if second == Register::Null && data is None {
        Some(Fault::MissingImmediate)
    } else if m.pc + width(second) > u32::MAX {
        Some(Fault::ProgramCounterOutOfBounds)
    } else if uses_first(op) && first == Register::Null {
        Some(Fault::NullRegister)
    } else if op == Opcode::Divide && operand(m, second, data) == 0 {
        Some(Fault::DivisionByZero)
    } else {
        None
    }
}

/// The value of the second operand: the immediate value where the operand is
/// `Null`, else what the register holds.
pub open spec fn operand(m: Machine, second: Register, data: Option<u32>) -> u32 {
    if second == Register::Null {
        data.unwrap()
    } else {
        m.registers[second.slot()]
    }
}

/// The machine and the output after executing one instruction: the program
/// counter goes past the instruction first, then the operation has its
/// effect.
pub open spec fn execute_spec(
    m: Machine,
    op: Opcode,
    first: Register,
    second: Register,
    data: Option<u32>,
) -> Result<(Machine, Option<Output>), Fault> {
    match refusal(m, op, first, second, data) {
        Some(fault) => Err(fault),
        None => Ok(
            effect(
                with_pc(m, advanced(m.pc, width(second))),
                op,
                first,
                operand(m, second, data),
            ),
        ),
    }
}

/// The machine and the output after one step. A machine that has halted
/// stays as it is and puts nothing out.
pub open spec fn step_spec(m: Machine) -> Result<(Machine, Option<Output>), Fault> {
    if !m.running {
        Ok((m, None))
    } else {
        match fetch_spec(m.program, m.pc) {
            Err(fault) => Err(fault),
            Ok(i) => execute_spec(m, i.op, i.first, i.second, i.data),
        }
    }
}

/// The machine after `count` steps, or the first fault on the way.
pub open spec fn run_spec(m: Machine, count: nat) -> Result<Machine, Fault>
    decreases count,
{
    if count == 0 {
        Ok(m)
    } else {
        match step_spec(m) {
            Err(fault) => Err(fault),
            Ok((next, _)) => run_spec(next, (count - 1) as nat),
        }
    }
}

/// Reads the instruction at word `pc` of `program`.
pub fn fetch(program: &Vec<u8>, pc: u32) -> (fetched: Result<Instruction, Fault>)
    ensures
        fetched == fetch_spec(program@, pc),
{
    let length: u64 = program.len() as u64;
    let start: u64 = (pc as u64) * 4;
    if start + 4 > length {
        return Err(Fault::ProgramCounterOutOfBounds);
    }
    let at: usize = start as usize;
    let word = read_word(slice_subrange(program.as_slice(), at, at + 4));
    let fields = split_word(word);
    let first = Register::from_value(fields.1);
    let second = Register::from_value(fields.2);
    match Opcode::try_from_value(fields.0) {
        None => Err(Fault::UnknownOpcode),
        Some(op) => {
            if second != Register::Null {
                Ok(Instruction { op, first, second, data: None })
            } else if start + 8 > length {
                Err(Fault::ProgramCounterOutOfBounds)
            } else {
                let data = read_word(slice_subrange(program.as_slice(), at + 4, at + 8));
                Ok(Instruction { op, first, second, data: Some(data) })
            }
        },
    }
}

impl ZPU {
    /// A machine with `program` loaded, or `MalformedProgram` where
    /// `program` is not a whole number of words.
    pub fn new(program: Vec<u8>) -> (made: Result<ZPU, Fault>)
        ensures
            whole_words(program@) ==> made is Ok && made.unwrap()@ == loaded(program@),
            !whole_words(program@) ==> made == Err::<ZPU, Fault>(Fault::MalformedProgram),
    {
        if program.len() % 4 != 0 {
            return Err(Fault::MalformedProgram);
        }
        let machine = ZPU {
            program: program,
            registers: [0, 0, 0, 0, 0, 0, 0, 0],
            pc: 0,
            cmp_flag: 0,
            zero_flag: false,
            running: true,
        };
        assert(machine@.registers =~= loaded(program@).registers);
        Ok(machine)
    }

    fn reset(&mut self)
        ensures
            final(self)@ == loaded(old(self)@.program),
    {
        self.registers = [0, 0, 0, 0, 0, 0, 0, 0];
        self.pc = 0;
        self.cmp_flag = 0;
        self.zero_flag = false;
        self.running = true;
        assert(self@.registers =~= loaded(self@.program).registers);
    }

    /// Installs `program` and resets the machine, all at once. A program that
    /// is not a whole number of words is refused, and the machine stays as
    /// it was.
    pub fn load_program(&mut self, program: Vec<u8>) -> (done: Result<(), Fault>)
        ensures
            whole_words(program@) ==> done is Ok && final(self)@ == loaded(program@),
            !whole_words(program@) ==> done == Err::<(), Fault>(Fault::MalformedProgram)
                && final(self)@ == old(self)@,
    {
        if program.len() % 4 != 0 {
            return Err(Fault::MalformedProgram);
        }
        self.program = program;
        self.reset();
        Ok(())
    }

    fn jump(&mut self, value: u32) -> (output: Option<Output>)
        ensures
            (final(self)@, output) == effect(old(self)@, Opcode::Jump, Register::Null, value),
    {
        self.pc = value;
        None
    }

    fn je(&mut self, value: u32) -> (output: Option<Output>)
        ensures
            (final(self)@, output) == effect(old(self)@, Opcode::IfEqual, Register::Null, value),
    {
        if self.cmp_flag == 0 {
            self.pc = value;
        }
        None
    }

    fn jn(&mut self, value: u32) -> (output: Option<Output>)
        ensures
            (final(self)@, output) == effect(old(self)@, Opcode::IfNotEqual, Register::Null, value),
    {
        if self.cmp_flag != 0 {
            self.pc = value;
        }
        None
    }

    fn jg(&mut self, value: u32) -> (output: Option<Output>)
        ensures
            (final(self)@, output) == effect(old(self)@, Opcode::IfGreater, Register::Null, value),
    {
        if self.cmp_flag > 0 {
            self.pc = value;
        }
        None
    }

    fn jl(&mut self, value: u32) -> (output: Option<Output>)
        ensures
            (final(self)@, output) == effect(old(self)@, Opcode::IfLess, Register::Null, value),
    {
        if self.cmp_flag < 0 {
            self.pc = value;
        }
        None
    }

    fn jz(&mut self, value: u32) -> (output: Option<Output>)
        ensures
            (final(self)@, output) == effect(old(self)@, Opcode::IfZero, Register::Null, value),
    {
        if self.zero_flag {
            self.pc = value;
        }
        None
    }

    fn cmp(&mut self, reg: Register, value: u32) -> (output: Option<Output>)
        requires
            reg != Register::Null,
        ensures
            (final(self)@, output) == effect(old(self)@, Opcode::Compare, reg, value),
    {
        let idx = reg.index().unwrap();
        if self.registers[idx] == value {
            self.zero_flag = true;
            self.cmp_flag = 0;
        } else if self.registers[idx] < value {
            self.zero_flag = false;
            self.cmp_flag = -1;
        } else {
            self.zero_flag = false;
            self.cmp_flag = 1;
        }
        None
    }

    fn inc(&mut self, reg: Register) -> (output: Option<Output>)
        requires
            reg != Register::Null,
        ensures
            forall|value: u32|
                (final(self)@, output) == effect(old(self)@, Opcode::Increment, reg, value),
    {
        let idx = reg.index().unwrap();
        self.registers[idx] = wrapping_sum(self.registers[idx], 1);
        None
    }

    fn shr(&mut self, reg: Register, value: u32) -> (output: Option<Output>)
        requires
            reg != Register::Null,
        ensures
            (final(self)@, output) == effect(old(self)@, Opcode::ShiftRight, reg, value),
    {
        let idx = reg.index().unwrap();
        self.registers[idx] = shift_right(self.registers[idx], value);
        None
    }

    fn shl(&mut self, reg: Register, value: u32) -> (output: Option<Output>)
        requires
            reg != Register::Null,
        ensures
            (final(self)@, output) == effect(old(self)@, Opcode::ShiftLeft, reg, value),
    {
        let idx = reg.index().unwrap();
        self.registers[idx] = shift_left(self.registers[idx], value);
        None
    }

    fn mov(&mut self, reg: Register, value: u32) -> (output: Option<Output>)
        requires
            reg != Register::Null,
        ensures
            (final(self)@, output) == effect(old(self)@, Opcode::Move, reg, value),
    {
        let idx = reg.index().unwrap();
        self.registers[idx] = value;
        None
    }

    fn add(&mut self, reg: Register, value: u32) -> (output: Option<Output>)
        requires
            reg != Register::Null,
        ensures
            (final(self)@, output) == effect(old(self)@, Opcode::Add, reg, value),
    {
        let idx = reg.index().unwrap();
        self.registers[idx] = wrapping_sum(self.registers[idx], value);
        None
    }

    fn sub(&mut self, reg: Register, value: u32) -> (output: Option<Output>)
        requires
            reg != Register::Null,
        ensures
            (final(self)@, output) == effect(old(self)@, Opcode::Subtract, reg, value),
    {
        let idx = reg.index().unwrap();
        self.registers[idx] = wrapping_difference(self.registers[idx], value);
        None
    }

    fn mul(&mut self, reg: Register, value: u32) -> (output: Option<Output>)
        requires
            reg != Register::Null,
        ensures
            (final(self)@, output) == effect(old(self)@, Opcode::Multiply, reg, value),
    {
        let idx = reg.index().unwrap();
        self.registers[idx] = wrapping_product(self.registers[idx], value);
        None
    }

    fn div(&mut self, reg: Register, value: u32) -> (output: Option<Output>)
        requires
            reg != Register::Null,
            value != 0,
        ensures
            (final(self)@, output) == effect(old(self)@, Opcode::Divide, reg, value),
    {
        let idx = reg.index().unwrap();
        self.registers[idx] = self.registers[idx] / value;
        None
    }

    fn out(&mut self, reg: Register, value: u32) -> (output: Option<Output>)
        requires
            reg != Register::Null,
        ensures
            (final(self)@, output) == effect(old(self)@, Opcode::Out, reg, value),
    {
        let idx = reg.index().unwrap();
        let port = self.registers[idx];
        Some(Output::new(port, value))
    }
    /// Lets the operation have its effect, with `val` as the value of the
    /// second operand.
    fn perform(&mut self, inst: Opcode, reg1: Register, val: u32) -> (output: Option<Output>)
        requires
            uses_first(inst) ==> reg1 != Register::Null,
            inst == Opcode::Divide ==> val != 0,
        ensures
            (final(self)@, output) == effect(old(self)@, inst, reg1, val),
    {
        match inst {
            Opcode::NoOp => None,
            Opcode::Move => self.mov(reg1, val),
            Opcode::Increment => self.inc(reg1),
            Opcode::ShiftRight => self.shr(reg1, val),
            Opcode::ShiftLeft => self.shl(reg1, val),
            Opcode::Add => self.add(reg1, val),
            Opcode::Subtract => self.sub(reg1, val),
            Opcode::Multiply => self.mul(reg1, val),
            Opcode::Divide => self.div(reg1, val),
            Opcode::Jump => self.jump(val),
            Opcode::IfEqual => self.je(val),
            Opcode::IfNotEqual => self.jn(val),
            Opcode::IfGreater => self.jg(val),
            Opcode::IfLess => self.jl(val),
            Opcode::IfZero => self.jz(val),
            Opcode::Compare => self.cmp(reg1, val),
            Opcode::Out => self.out(reg1, val),
            Opcode::Halt => {
                self.running = false;
                None
            },
            _ => None,
        }
    }

    /// Executes one instruction that has been decoded already: moves the
    /// program counter past it, one word for a register as second operand
    /// and two for an immediate value, and then lets the operation have its
    /// effect. On a fault the machine stays as it was.
    pub fn execute(&mut self, inst: Opcode, reg1: Register, reg2: Register, data: Option<u32>) -> (done:
        Result<Option<Output>, Fault>)
        ensures
            match execute_spec(old(self)@, inst, reg1, reg2, data) {
                Ok((next, output)) => final(self)@ == next && done == Ok::<Option<Output>, Fault>(
                    output,
                ),
                Err(fault) => final(self)@ == old(self)@ && done == Err::<Option<Output>, Fault>(
                    fault,
                ),
            },
    {
        let val;
        let next;
        match reg2.index() {
            None => {
                match data {
                    None => {
                        return Err(Fault::MissingImmediate);
                    },
                    Some(data) => {
                        val = data;
                        next = self.pc.checked_add(2);
                    },
                }
            },
            Some(idx) => {
                val = self.registers[idx];
                next = self.pc.checked_add(1);
            },
        }
        let next = match next {
            None => {
                return Err(Fault::ProgramCounterOutOfBounds);
            },
            Some(next) => next,
        };
        let works_on_first = match inst {
            Opcode::Move
            | Opcode::Increment
            | Opcode::ShiftRight
            | Opcode::ShiftLeft
            | Opcode::Add
            | Opcode::Subtract
            | Opcode::Multiply
            | Opcode::Divide
            | Opcode::Compare
            | Opcode::Out => true,
            _ => false,
        };
        if works_on_first && reg1 == Register::Null {
            return Err(Fault::NullRegister);
        }
        if inst == Opcode::Divide && val == 0 {
            return Err(Fault::DivisionByZero);
        }
        self.pc = next;
        Ok(self.perform(inst, reg1, val))
    }

    /// Makes one step: where the machine is running, reads the instruction
    /// at the program counter and executes it. A machine that has halted
    /// stays as it is. On a fault the machine stays as it was.
    pub fn step(&mut self) -> (done: Result<ZResult, Fault>)
        ensures
            match step_spec(old(self)@) {
                Ok((next, output)) => final(self)@ == next && done == Ok::<ZResult, Fault>(
                    ZResult { running: next.running, output },
                ),
                Err(fault) => final(self)@ == old(self)@ && done == Err::<ZResult, Fault>(fault),
            },
    {
        if self.running {
            match fetch(&self.program, self.pc) {
                Err(fault) => Err(fault),
                Ok(i) => match self.execute(i.op, i.first, i.second, i.data) {
                    Err(fault) => Err(fault),
                    Ok(output) => Ok(ZResult::new(self.running, output)),
                },
            }
        } else {
            Ok(ZResult::new(self.running, None))
        }
    }
}

} // verus!
