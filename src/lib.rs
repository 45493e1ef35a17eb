//! An interpreter for a two-dimensional, stack-based language in the Fish
//! family: a toroidal grid of one-character instructions, a moving
//! instruction pointer, a stack of operand stacks and self-modifying code.

pub mod codebox;
pub mod interpreter;
pub mod number;
pub mod motion;
pub mod stack;

pub use codebox::{Codebox, Instruction, Pos};
pub use interpreter::{Emitted, Host, Interpreter, Machine, ParseMode, RuntimeError, State};
pub use motion::Direction;
pub use number::Number;
pub use stack::{Stack, StackError};
