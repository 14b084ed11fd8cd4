//! A Piet interpreter core: the colour model, the operand stack, the program
//! grid with its colour blocks, the command table and the navigation state
//! machine, each with a proved contract.

pub mod arith;
pub mod color;
pub mod command;
pub mod errors;
pub mod input;
pub mod interpreter;
pub mod navigation;
pub mod program;
pub mod stack;
pub mod util;

pub use crate::color::{Color, Hue, Lightness};
pub use crate::command::Command;
pub use crate::errors::Error;
pub use crate::interpreter::{Action, Interpreter};
pub use crate::navigation::{CodelChooser, DirectionPointer};
pub use crate::program::Program;
pub use crate::stack::Stack;
