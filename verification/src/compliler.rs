//! The bytecode compiler: instructions, constants, scopes and chunks of code.
pub mod chunk;
pub mod compiler;
pub mod env;
pub mod listing;
pub mod opcode;
pub mod value;

pub use chunk::{Chunk, Instruction};
pub use compiler::Compiler;
pub use env::{Env, Local, LoopContext};
pub use opcode::OpCode;
pub use value::{Constant, Proto, UpvalueInfo};
