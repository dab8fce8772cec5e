//! The instructions of the virtual machine and their byte encoding.
use crate::error::{Error, ErrorType, ErrorView};
use crate::text::decimal;
use vstd::prelude::*;
use vstd::string::*;

verus! {

/// One instruction. Each is written in the code as one byte (see `byte_of`),
/// followed by its operands.
#[derive(Debug, Clone, Copy, PartialEq, Eq, Structural)]
pub enum OpCode {
    // Constants
    Constant,
    Nil,
    True,
    False,
    // Arithmetic
    Add,
    Subtract,
    Multiply,
    Divide,
    Negate,
    // Comparison
    Equal,
    NotEqual,
    LessThan,
    LessEqual,
    GreaterThan,
    GreaterEqual,
    // Logical
    Not,
    And,
    Or,
    // Variables
    DefineGlobal,
    GetGlobal,
    SetGlobal,
    GetLocal,
    SetLocal,
    // Control flow
    Jump,
    JumpIfFalse,
    Loop,
    Break,
    Continue,
    JumpIfTrue,
    // Functions
    Call,
    Return,
    // Stack operations
    Pop,
    Print,
    Dup,
    // Arrays
    Array,
    Index,
    IndexSet,
    // Closures and upvalues
    Closure,
    GetUpvalue,
    SetUpvalue,
}

/// The byte that stands for an instruction.
pub open spec fn byte_of(op: OpCode) -> u8 {
    match op {
        OpCode::Constant => 0,
        OpCode::Nil => 1,
        OpCode::True => 2,
        OpCode::False => 3,
        OpCode::Add => 10,
        OpCode::Subtract => 11,
        OpCode::Multiply => 12,
        OpCode::Divide => 13,
        OpCode::Negate => 14,
        OpCode::Equal => 20,
        OpCode::NotEqual => 21,
        OpCode::LessThan => 22,
        OpCode::LessEqual => 23,
        OpCode::GreaterThan => 24,
        OpCode::GreaterEqual => 25,
        OpCode::Not => 30,
        OpCode::And => 31,
        OpCode::Or => 32,
        OpCode::DefineGlobal => 40,
        OpCode::GetGlobal => 41,
        OpCode::SetGlobal => 42,
        OpCode::GetLocal => 43,
        OpCode::SetLocal => 44,
        OpCode::Jump => 50,
        OpCode::JumpIfFalse => 51,
        OpCode::Loop => 52,
        OpCode::Break => 53,
        OpCode::Continue => 54,
        OpCode::JumpIfTrue => 55,
        OpCode::Call => 60,
        OpCode::Return => 61,
        OpCode::Pop => 70,
        OpCode::Print => 71,
        OpCode::Dup => 72,
        OpCode::Array => 80,
        OpCode::Index => 81,
        OpCode::IndexSet => 82,
        OpCode::Closure => 90,
        OpCode::GetUpvalue => 91,
        OpCode::SetUpvalue => 92,
    }
}

/// The instruction a byte stands for, if any.
pub open spec fn opcode_of(byte: u8) -> Option<OpCode> {
    match byte {
        0 => Some(OpCode::Constant),
        1 => Some(OpCode::Nil),
        2 => Some(OpCode::True),
        3 => Some(OpCode::False),
        10 => Some(OpCode::Add),
        11 => Some(OpCode::Subtract),
        12 => Some(OpCode::Multiply),
        13 => Some(OpCode::Divide),
        14 => Some(OpCode::Negate),
        20 => Some(OpCode::Equal),
        21 => Some(OpCode::NotEqual),
        22 => Some(OpCode::LessThan),
        23 => Some(OpCode::LessEqual),
        24 => Some(OpCode::GreaterThan),
        25 => Some(OpCode::GreaterEqual),
        30 => Some(OpCode::Not),
        31 => Some(OpCode::And),
        32 => Some(OpCode::Or),
        40 => Some(OpCode::DefineGlobal),
        41 => Some(OpCode::GetGlobal),
        42 => Some(OpCode::SetGlobal),
        43 => Some(OpCode::GetLocal),
        44 => Some(OpCode::SetLocal),
        50 => Some(OpCode::Jump),
        51 => Some(OpCode::JumpIfFalse),
        52 => Some(OpCode::Loop),
        53 => Some(OpCode::Break),
        54 => Some(OpCode::Continue),
        55 => Some(OpCode::JumpIfTrue),
        60 => Some(OpCode::Call),
        61 => Some(OpCode::Return),
        70 => Some(OpCode::Pop),
        71 => Some(OpCode::Print),
        72 => Some(OpCode::Dup),
        80 => Some(OpCode::Array),
        81 => Some(OpCode::Index),
        82 => Some(OpCode::IndexSet),
        90 => Some(OpCode::Closure),
        91 => Some(OpCode::GetUpvalue),
        92 => Some(OpCode::SetUpvalue),
        _ => None,
    }
}

/// The name of an instruction, as its `Debug` and `Display` write it.
pub open spec fn opcode_name(op: OpCode) -> Seq<char> {
    match op {
        OpCode::Constant => "Constant"@,
        OpCode::Nil => "Nil"@,
        OpCode::True => "True"@,
        OpCode::False => "False"@,
        OpCode::Add => "Add"@,
        OpCode::Subtract => "Subtract"@,
        OpCode::Multiply => "Multiply"@,
        OpCode::Divide => "Divide"@,
        OpCode::Negate => "Negate"@,
        OpCode::Equal => "Equal"@,
        OpCode::NotEqual => "NotEqual"@,
        OpCode::LessThan => "LessThan"@,
        OpCode::LessEqual => "LessEqual"@,
        OpCode::GreaterThan => "GreaterThan"@,
        OpCode::GreaterEqual => "GreaterEqual"@,
        OpCode::Not => "Not"@,
        OpCode::And => "And"@,
        OpCode::Or => "Or"@,
        OpCode::DefineGlobal => "DefineGlobal"@,
        OpCode::GetGlobal => "GetGlobal"@,
        OpCode::SetGlobal => "SetGlobal"@,
        OpCode::GetLocal => "GetLocal"@,
        OpCode::SetLocal => "SetLocal"@,
        OpCode::Jump => "Jump"@,
        OpCode::JumpIfFalse => "JumpIfFalse"@,
        OpCode::Loop => "Loop"@,
        OpCode::Break => "Break"@,
        OpCode::Continue => "Continue"@,
        OpCode::JumpIfTrue => "JumpIfTrue"@,
        OpCode::Call => "Call"@,
        OpCode::Return => "Return"@,
        OpCode::Pop => "Pop"@,
        OpCode::Print => "Print"@,
        OpCode::Dup => "Dup"@,
        OpCode::Array => "Array"@,
        OpCode::Index => "Index"@,
        OpCode::IndexSet => "IndexSet"@,
        OpCode::Closure => "Closure"@,
        OpCode::GetUpvalue => "GetUpvalue"@,
        OpCode::SetUpvalue => "SetUpvalue"@,
    }
}

/// The error for a byte that is no instruction.
pub open spec fn invalid_opcode_view(byte: u8) -> ErrorView {
    ErrorView {
        error_type: ErrorType::VmRuntime,
        message: "Invalid opcode: "@ + decimal(byte as nat),
        location: None,
        file: None,
    }
}

/// Decoding the byte of an instruction gives the instruction back.
pub proof fn lemma_decode_encode(op: OpCode)
    ensures
        opcode_of(byte_of(op)) == Some(op),
{
}

/// A byte that decodes to an instruction is that instruction's byte.
pub proof fn lemma_encode_decode(byte: u8)
    ensures
        opcode_of(byte) matches Some(op) ==> byte_of(op) == byte,
{
}

/// Distinct instructions have distinct bytes.
pub proof fn lemma_bytes_distinct(a: OpCode, b: OpCode)
    ensures
        byte_of(a) == byte_of(b) ==> a == b,
{
    lemma_decode_encode(a);
    lemma_decode_encode(b);
}

impl OpCode {
    /// The byte that stands for this instruction.
    pub fn to_byte(self) -> (b: u8)
        ensures
            b == byte_of(self),
    {
        match self {
            OpCode::Constant => 0,
            OpCode::Nil => 1,
            OpCode::True => 2,
            OpCode::False => 3,
            OpCode::Add => 10,
            OpCode::Subtract => 11,
            OpCode::Multiply => 12,
            OpCode::Divide => 13,
            OpCode::Negate => 14,
            OpCode::Equal => 20,
            OpCode::NotEqual => 21,
            OpCode::LessThan => 22,
            OpCode::LessEqual => 23,
            OpCode::GreaterThan => 24,
            OpCode::GreaterEqual => 25,
            OpCode::Not => 30,
            OpCode::And => 31,
            OpCode::Or => 32,
            OpCode::DefineGlobal => 40,
            OpCode::GetGlobal => 41,
            OpCode::SetGlobal => 42,
            OpCode::GetLocal => 43,
            OpCode::SetLocal => 44,
            OpCode::Jump => 50,
            OpCode::JumpIfFalse => 51,
            OpCode::Loop => 52,
            OpCode::Break => 53,
            OpCode::Continue => 54,
            OpCode::JumpIfTrue => 55,
            OpCode::Call => 60,
            OpCode::Return => 61,
            OpCode::Pop => 70,
            OpCode::Print => 71,
            OpCode::Dup => 72,
            OpCode::Array => 80,
            OpCode::Index => 81,
            OpCode::IndexSet => 82,
            OpCode::Closure => 90,
            OpCode::GetUpvalue => 91,
            OpCode::SetUpvalue => 92,
        }
    }

    /// The instruction a byte stands for, or an error naming the byte.
    pub fn try_from(byte: u8) -> (r: Result<OpCode, Error>)
        ensures
            match opcode_of(byte) {
                Some(op) => r == Ok::<OpCode, Error>(op),
                None => r matches Err(e) && e@ == invalid_opcode_view(byte),
            },
    {
        match byte {
            0 => Ok(OpCode::Constant),
            1 => Ok(OpCode::Nil),
            2 => Ok(OpCode::True),
            3 => Ok(OpCode::False),
            10 => Ok(OpCode::Add),
            11 => Ok(OpCode::Subtract),
            12 => Ok(OpCode::Multiply),
            13 => Ok(OpCode::Divide),
            14 => Ok(OpCode::Negate),
            20 => Ok(OpCode::Equal),
            21 => Ok(OpCode::NotEqual),
            22 => Ok(OpCode::LessThan),
            23 => Ok(OpCode::LessEqual),
            24 => Ok(OpCode::GreaterThan),
            25 => Ok(OpCode::GreaterEqual),
            30 => Ok(OpCode::Not),
            31 => Ok(OpCode::And),
            32 => Ok(OpCode::Or),
            40 => Ok(OpCode::DefineGlobal),
            41 => Ok(OpCode::GetGlobal),
            42 => Ok(OpCode::SetGlobal),
            43 => Ok(OpCode::GetLocal),
            44 => Ok(OpCode::SetLocal),
            50 => Ok(OpCode::Jump),
            51 => Ok(OpCode::JumpIfFalse),
            52 => Ok(OpCode::Loop),
            53 => Ok(OpCode::Break),
            54 => Ok(OpCode::Continue),
            55 => Ok(OpCode::JumpIfTrue),
            60 => Ok(OpCode::Call),
            61 => Ok(OpCode::Return),
            70 => Ok(OpCode::Pop),
            71 => Ok(OpCode::Print),
            72 => Ok(OpCode::Dup),
            80 => Ok(OpCode::Array),
            81 => Ok(OpCode::Index),
            82 => Ok(OpCode::IndexSet),
            90 => Ok(OpCode::Closure),
            91 => Ok(OpCode::GetUpvalue),
            92 => Ok(OpCode::SetUpvalue),
            _ => Err(Error::invalid_opcode(byte)),
        }
    }

    /// The name of the instruction (its `Display`).
    pub fn name(&self) -> (s: &'static str)
        ensures
            s@ == opcode_name(*self),
    {
        match self {
            OpCode::Constant => "Constant",
            OpCode::Nil => "Nil",
            OpCode::True => "True",
            OpCode::False => "False",
            OpCode::Add => "Add",
            OpCode::Subtract => "Subtract",
            OpCode::Multiply => "Multiply",
            OpCode::Divide => "Divide",
            OpCode::Negate => "Negate",
            OpCode::Equal => "Equal",
            OpCode::NotEqual => "NotEqual",
            OpCode::LessThan => "LessThan",
            OpCode::LessEqual => "LessEqual",
            OpCode::GreaterThan => "GreaterThan",
            OpCode::GreaterEqual => "GreaterEqual",
            OpCode::Not => "Not",
            OpCode::And => "And",
            OpCode::Or => "Or",
            OpCode::DefineGlobal => "DefineGlobal",
            OpCode::GetGlobal => "GetGlobal",
            OpCode::SetGlobal => "SetGlobal",
            OpCode::GetLocal => "GetLocal",
            OpCode::SetLocal => "SetLocal",
            OpCode::Jump => "Jump",
            OpCode::JumpIfFalse => "JumpIfFalse",
            OpCode::Loop => "Loop",
            OpCode::Break => "Break",
            OpCode::Continue => "Continue",
            OpCode::JumpIfTrue => "JumpIfTrue",
            OpCode::Call => "Call",
            OpCode::Return => "Return",
            OpCode::Pop => "Pop",
            OpCode::Print => "Print",
            OpCode::Dup => "Dup",
            OpCode::Array => "Array",
            OpCode::Index => "Index",
            OpCode::IndexSet => "IndexSet",
            OpCode::Closure => "Closure",
            OpCode::GetUpvalue => "GetUpvalue",
            OpCode::SetUpvalue => "SetUpvalue",
        }
    }
}

impl From<OpCode> for u8 {
    fn from(op: OpCode) -> (b: u8) {
        op.to_byte()
    }
}

impl vstd::std_specs::convert::FromSpecImpl<OpCode> for u8 {
    open spec fn obeys_from_spec() -> bool {
        true
    }

    open spec fn from_spec(op: OpCode) -> u8 {
        byte_of(op)
    }
}

} // verus!
