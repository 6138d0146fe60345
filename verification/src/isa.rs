//! The instruction set: the operations, the registers, and the numeric code
//! that each has in a binary program.

use vstd::prelude::*;

verus! {

/// An operation of the machine.
#[derive(Debug, Clone, Copy, PartialEq, Eq, Structural)]
pub enum Opcode {
    NoOp,
    Jump,
    Halt,
    Increment,
    ShiftRight,
    ShiftLeft,
    Move,
    Add,
    Subtract,
    Multiply,
    Divide,
    IfEqual,
    IfNotEqual,
    MemoryMove,
    MemorySet,
    XOr,
    In,
    Out,
    Push,
    Pop,
    IfZero,
    IfGreater,
    IfLess,
    Compare,
}

/// A general-purpose register, or `Null`, which in the second operand field
/// of an instruction says that an immediate word follows.
#[derive(Debug, Clone, Copy, PartialEq, Eq, Structural)]
pub enum Register {
    A,
    B,
    C,
    D,
    E,
    X,
    Y,
    Z,
    Null,
}

impl Register {
    /// The code of the register in an instruction word: 1 to 8, and 0 for
    /// `Null`.
    pub open spec fn code(self) -> u8 {
        match self {
            Register::Null => 0,
            Register::A => 1,
            Register::B => 2,
            Register::C => 3,
            Register::D => 4,
            Register::E => 5,
            Register::X => 6,
            Register::Y => 7,
            Register::Z => 8,
        }
    }

    /// The register that a byte of an instruction word stands for. Every
    /// byte outside 1 to 8 stands for `Null`.
    pub open spec fn of_code(value: u8) -> Register {
        if value == 1 {
            Register::A
        } else if value == 2 {
            Register::B
        } else if value == 3 {
            Register::C
        } else if value == 4 {
            Register::D
        } else if value == 5 {
            Register::E
        } else if value == 6 {
            Register::X
        } else if value == 7 {
            Register::Y
        } else if value == 8 {
            Register::Z
        } else {
            Register::Null
        }
    }

    /// The slot of the register in the register file. `Null` has none; for
    /// it this is 0 by convention, and nothing reads it.
    pub open spec fn slot(self) -> int {
        if self == Register::Null {
            0
        } else {
            self.code() - 1
        }
    }

    pub fn hex_value(&self) -> (code: u8)
        ensures
            code == self.code(),
            code <= 8,
    {
        match *self {
            Register::Null => 0x0,
            Register::A => 0x1,
            Register::B => 0x2,
            Register::C => 0x3,
            Register::D => 0x4,
            Register::E => 0x5,
            Register::X => 0x6,
            Register::Y => 0x7,
            Register::Z => 0x8,
        }
    }

    pub fn from_value(value: u8) -> (register: Register)
        ensures
            register == Register::of_code(value),
    {
        match value {
            0x1 => Register::A,
            0x2 => Register::B,
            0x3 => Register::C,
            0x4 => Register::D,
            0x5 => Register::E,
            0x6 => Register::X,
            0x7 => Register::Y,
            0x8 => Register::Z,
            _ => Register::Null,
        }
    }

    /// The index of the register in the register file, or `None` for `Null`.
    pub fn index(&self) -> (slot: Option<usize>)
        ensures
            *self == Register::Null <==> slot is None,
            slot matches Some(i) ==> i == self.slot() && i < 8,
    {
        match *self {
            Register::Null => None,
            Register::A => Some(0),
            Register::B => Some(1),
            Register::C => Some(2),
            Register::D => Some(3),
            Register::E => Some(4),
            Register::X => Some(5),
            Register::Y => Some(6),
            Register::Z => Some(7),
        }
    }
}

impl Opcode {
    /// The code of the operation in an instruction word.
    pub open spec fn code(self) -> u16 {
        match self {
            Opcode::NoOp => 0x0,
            Opcode::Jump => 0x1,
            Opcode::Halt => 0x2,
            Opcode::Increment => 0x3,
            Opcode::ShiftRight => 0x4,
            Opcode::ShiftLeft => 0x5,
            Opcode::Move => 0x6,
            Opcode::Add => 0x7,
            Opcode::Subtract => 0x8,
            Opcode::Multiply => 0x9,
            Opcode::Divide => 0xA,
            Opcode::IfEqual => 0xB,
            Opcode::IfNotEqual => 0xC,
            Opcode::MemoryMove => 0xD,
            Opcode::MemorySet => 0xE,
            Opcode::XOr => 0xF,
            Opcode::In => 0x10,
            Opcode::Out => 0x11,
            Opcode::Push => 0x12,
            Opcode::Pop => 0x13,
            Opcode::IfZero => 0x14,
            Opcode::IfGreater => 0x15,
            Opcode::IfLess => 0x16,
            Opcode::Compare => 0x17,
        }
    }

    /// Whether `value` is the code of an operation.
    pub open spec fn is_code(value: u16) -> bool {
        value <= 0x17
    }

    /// The operation with the code `value`, if there is one.
    pub open spec fn decode(value: u16) -> Option<Opcode> {
        if Opcode::is_code(value) {
            Some(choose|op: Opcode| op.code() == value)
        } else {
            None
        }
    }

    /// The operation that a code stands for where every value has to stand
    /// for one: a value that is no code stands for `NoOp`.
    pub open spec fn of_code(value: u16) -> Opcode {
        match Opcode::decode(value) {
            Some(op) => op,
            None => Opcode::NoOp,
        }
    }

    /// Whether the operation transfers control: the jump and the five
    /// conditional branches.
    pub open spec fn is_branch(self) -> bool {
        self == Opcode::Jump || self == Opcode::IfEqual || self == Opcode::IfNotEqual || self
            == Opcode::IfZero || self == Opcode::IfGreater || self == Opcode::IfLess
    }

    pub fn hex_value(&self) -> (code: u16)
        ensures
            code == self.code(),
            Opcode::is_code(code),
    {
        match *self {
            Opcode::NoOp => 0x0,
            Opcode::Jump => 0x1,
            Opcode::Halt => 0x2,
            Opcode::Increment => 0x3,
            Opcode::ShiftRight => 0x4,
            Opcode::ShiftLeft => 0x5,
            Opcode::Move => 0x6,
            Opcode::Add => 0x7,
            Opcode::Subtract => 0x8,
            Opcode::Multiply => 0x9,
            Opcode::Divide => 0xA,
            Opcode::IfEqual => 0xB,
            Opcode::IfNotEqual => 0xC,
            Opcode::MemoryMove => 0xD,
            Opcode::MemorySet => 0xE,
            Opcode::XOr => 0xF,
            Opcode::In => 0x10,
            Opcode::Out => 0x11,
            Opcode::Push => 0x12,
            Opcode::Pop => 0x13,
            Opcode::IfZero => 0x14,
            Opcode::IfGreater => 0x15,
            Opcode::IfLess => 0x16,
            Opcode::Compare => 0x17,
        }
    }

    /// The operation with the code `value`, or `None` where no operation has
    /// that code.
    pub fn try_from_value(value: u16) -> (found: Option<Opcode>)
        ensures
            found == Opcode::decode(value),
            found matches Some(op) ==> op.code() == value,
    {
        let found = match value {
            0x0 => Some(Opcode::NoOp),
            0x1 => Some(Opcode::Jump),
            0x2 => Some(Opcode::Halt),
            0x3 => Some(Opcode::Increment),
            0x4 => Some(Opcode::ShiftRight),
            0x5 => Some(Opcode::ShiftLeft),
            0x6 => Some(Opcode::Move),
            0x7 => Some(Opcode::Add),
            0x8 => Some(Opcode::Subtract),
            0x9 => Some(Opcode::Multiply),
            0xA => Some(Opcode::Divide),
            0xB => Some(Opcode::IfEqual),
            0xC => Some(Opcode::IfNotEqual),
            0xD => Some(Opcode::MemoryMove),
            0xE => Some(Opcode::MemorySet),
            0xF => Some(Opcode::XOr),
            0x10 => Some(Opcode::In),
            0x11 => Some(Opcode::Out),
            0x12 => Some(Opcode::Push),
            0x13 => Some(Opcode::Pop),
            0x14 => Some(Opcode::IfZero),
            0x15 => Some(Opcode::IfGreater),
            0x16 => Some(Opcode::IfLess),
            0x17 => Some(Opcode::Compare),
            _ => None,
        };
        proof {
            if let Some(op) = found {
                Opcode::lemma_code_is_injective(op, choose|other: Opcode| other.code() == value);
            }
        }
        found
    }

    pub fn from_value(value: u16) -> (op: Opcode)
        ensures
            op == Opcode::of_code(value),
    {
        match Opcode::try_from_value(value) {
            Some(op) => op,
            None => Opcode::NoOp,
        }
    }

    /// Whether the operation is the jump or a conditional branch.
    pub fn transfers_control(&self) -> (yes: bool)
        ensures
            yes == self.is_branch(),
    {
        match *self {
            Opcode::Jump
            | Opcode::IfEqual
            | Opcode::IfNotEqual
            | Opcode::IfZero
            | Opcode::IfGreater
            | Opcode::IfLess => true,
            _ => false,
        }
    }

    /// Two operations with the same code are the same operation.
    pub proof fn lemma_code_is_injective(a: Opcode, b: Opcode)
        requires
            a.code() == b.code(),
        ensures
            a == b,
    {
    }

    /// Decoding the code of an operation gives the operation back.
    pub proof fn lemma_decode_code(op: Opcode)
        ensures
            Opcode::is_code(op.code()),
            Opcode::decode(op.code()) == Some(op),
            Opcode::of_code(op.code()) == op,
    {
        Opcode::lemma_code_is_injective(op, choose|other: Opcode| other.code() == op.code());
    }
}

impl Register {
    /// Decoding the code of a register gives the register back.
    pub proof fn lemma_of_code_code(register: Register)
        ensures
            register.code() <= 8,
            Register::of_code(register.code()) == register,
    {
    }
}

} // verus!
