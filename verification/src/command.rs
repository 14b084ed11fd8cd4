//! The commands of Piet and the table that a colour transition selects from.

use vstd::prelude::*;

verus! {

/// A command, which operates on Piet's stack.
#[derive(Debug, Copy, Clone, PartialEq, Eq, Structural)]
pub enum Command {
    NoOp,
    // Stack related.
    Push,
    Pop,
    Duplicate,
    Roll,
    // Math
    Add,
    Subtract,
    Multiply,
    Divide,
    Mod,
    // Boolean
    Not,
    Greater,
    // Control Flow
    Pointer,
    Switch,
    // I/O
    IntIn,
    IntOut,
    CharIn,
    CharOut,
}

impl Command {
    /// The command table: one row for each hue shift, one column for each
    /// lightness shift.
    pub open spec fn table() -> Seq<Seq<Command>> {
        seq![
            seq![Command::NoOp, Command::Push, Command::Pop],
            seq![Command::Add, Command::Subtract, Command::Multiply],
            seq![Command::Divide, Command::Mod, Command::Not],
            seq![Command::Greater, Command::Pointer, Command::Switch],
            seq![Command::Duplicate, Command::Roll, Command::IntIn],
            seq![Command::CharIn, Command::IntOut, Command::CharOut],
        ]
    }

    /// The command that a hue shift below 6 and a lightness shift below 3
    /// select.
    pub open spec fn spec_from_transition(transition: (u8, u8)) -> Command {
        Command::table()[transition.0 as int][transition.1 as int]
    }

    /// Look up the command of a transition in the command table.
    pub fn from_transition(transition: (u8, u8)) -> (c: Command)
        requires
            transition.0 < 6,
            transition.1 < 3,
        ensures
            c == Command::spec_from_transition(transition),
    {
        let (hue, lightness) = transition;
        match (hue, lightness) {
            (0, 0) => Command::NoOp,
            (0, 1) => Command::Push,
            (0, _) => Command::Pop,
            (1, 0) => Command::Add,
            (1, 1) => Command::Subtract,
            (1, _) => Command::Multiply,
            (2, 0) => Command::Divide,
            (2, 1) => Command::Mod,
            (2, _) => Command::Not,
            (3, 0) => Command::Greater,
            (3, 1) => Command::Pointer,
            (3, _) => Command::Switch,
            (4, 0) => Command::Duplicate,
            (4, 1) => Command::Roll,
            (4, _) => Command::IntIn,
            (_, 0) => Command::CharIn,
            (_, 1) => Command::IntOut,
            (_, _) => Command::CharOut,
        }
    }
}

} // verus!
