//! The interpreter: one step of the navigation state machine at a time, the
//! commands on the stack, and runs of steps up to the next thing that the
//! host has to read or write.

use vstd::prelude::*;
use crate::arith::{
    difference, greater, mod_floor, product, quotient, remainder, spec_quotient, spec_remainder,
    sum,
};
use crate::color::Color;
use crate::command::Command;
use crate::errors::Error;
use crate::navigation::{exit_codel, spec_exit, CodelChooser, DirectionPointer};
use crate::program::Program;
use crate::stack::{spec_roll, Stack};
use crate::util::Coords;

verus! {

/// A codel together with the direction and the side with which the
/// interpreter stood on it.
#[derive(Debug, Copy, Clone, PartialEq, Eq, Structural)]
pub struct Heading {
    pub x: usize,
    pub y: usize,
    pub dp: DirectionPointer,
    pub cc: CodelChooser,
}

/// What the host has to do after a step before it asks for the next one.
#[derive(Debug, Copy, Clone, PartialEq, Eq, Structural)]
pub enum Action {
    /// Nothing.
    Idle,
    /// Read a number and hand it to `accept_input`.
    ReadNumber,
    /// Read a character and hand its code point to `accept_input`.
    ReadChar,
    /// Write the number in decimal.
    WriteNumber(i64),
    /// Write the character with this code point.
    WriteChar(i64),
}

/// The interpreter's state as plain values.
pub struct State {
    pub dp: DirectionPointer,
    pub cc: CodelChooser,
    pub position: Coords,
    /// The stack from the bottom to the top.
    pub stack: Seq<i64>,
    /// The number of blocked attempts in a row; 8 once execution has ended.
    pub attempts: int,
    /// The size of the colour block that was probed last.
    pub last_block: u64,
    /// The headings met on white codels since the last coloured one.
    pub trail: Seq<Heading>,
    /// The number of steps made, which stays at the greatest `u64` once it
    /// is reached.
    pub steps: int,
}

/// The number of steps after one more.
pub open spec fn counted(steps: int) -> int {
    if steps < u64::MAX {
        steps + 1
    } else {
        steps
    }
}

/// The number that a push puts on the stack after a block of `size` codels.
pub open spec fn push_value(size: u64) -> i64 {
    if size <= i64::MAX {
        size as i64
    } else {
        i64::MAX
    }
}

/// What a command of two operands makes of the second value from the top,
/// `a`, and the top value, `b`; nothing where the command has no result for
/// them, as a division by zero, or is no such command. Sums, differences and
/// products wrap round; quotients and remainders are floored.
pub open spec fn spec_binary(command: Command, a: i64, b: i64) -> Option<i64> {
    match command {
        Command::Add => Some(a.wrapping_add(b)),
        Command::Subtract => Some(a.wrapping_sub(b)),
        Command::Multiply => Some(a.wrapping_mul(b)),
        Command::Divide => if b == 0 {
            None
        } else {
            Some(spec_quotient(a, b))
        },
        Command::Mod => if b == 0 {
            None
        } else {
            Some(spec_remainder(a, b))
        },
        Command::Greater => Some(
            if a > b {
                1i64
            } else {
                0i64
            },
        ),
        _ => None,
    }
}

/// The state after a command and what the host has to do for it. A command
/// that lacks its operands changes nothing.
pub open spec fn spec_execute(command: Command, s: State) -> (State, Action) {
    let n = s.stack.len() as int;
    match command {
        Command::NoOp => (s, Action::Idle),
        Command::Push => (State { stack: s.stack.push(push_value(s.last_block)), ..s }, Action::Idle),
        Command::Pop => if n >= 1 {
            (State { stack: s.stack.drop_last(), ..s }, Action::Idle)
        } else {
            (s, Action::Idle)
        },
        Command::Add
        | Command::Subtract
        | Command::Multiply
        | Command::Divide
        | Command::Mod
        | Command::Greater => if n >= 2 {
            match spec_binary(command, s.stack[n - 2], s.stack[n - 1]) {
                Some(value) => (
                    State { stack: s.stack.subrange(0, n - 2).push(value), ..s },
                    Action::Idle,
                ),
                None => (s, Action::Idle),
            }
        } else {
            (s, Action::Idle)
        },
        Command::Not => if n >= 1 {
            let value = if s.stack[n - 1] == 0 {
                1i64
            } else {
                0i64
            };
            (State { stack: s.stack.drop_last().push(value), ..s }, Action::Idle)
        } else {
            (s, Action::Idle)
        },
        Command::Pointer => if n >= 1 {
            (
                State { stack: s.stack.drop_last(), dp: s.dp.turned(s.stack[n - 1] as int), ..s },
                Action::Idle,
            )
        } else {
            (s, Action::Idle)
        },
        Command::Switch => if n >= 1 {
            (
                State { stack: s.stack.drop_last(), cc: s.cc.toggled(s.stack[n - 1] as int), ..s },
                Action::Idle,
            )
        } else {
            (s, Action::Idle)
        },
        Command::Duplicate => if n >= 1 {
            (State { stack: s.stack.push(s.stack[n - 1]), ..s }, Action::Idle)
        } else {
            (s, Action::Idle)
        },
        Command::Roll => if n >= 2 {
            (
                State {
                    stack: spec_roll(
                        s.stack.subrange(0, n - 2),
                        s.stack[n - 2] as int,
                        s.stack[n - 1] as int,
                    ),
                    ..s
                },
                Action::Idle,
            )
        } else {
            (s, Action::Idle)
        },
        Command::IntIn => (s, Action::ReadNumber),
        Command::CharIn => (s, Action::ReadChar),
        Command::IntOut => if n >= 1 {
            (State { stack: s.stack.drop_last(), ..s }, Action::WriteNumber(s.stack[n - 1]))
        } else {
            (s, Action::Idle)
        },
        Command::CharOut => if n >= 1 {
            (State { stack: s.stack.drop_last(), ..s }, Action::WriteChar(s.stack[n - 1]))
        } else {
            (s, Action::Idle)
        },
    }
}

/// The codel ahead of `from` in the direction `dp`, unless it is off the
/// grid or black.
pub open spec fn spec_probe(program: &Program, from: Coords, dp: DirectionPointer) -> Option<
    Coords,
> {
    match program.spec_neighbors(from)[dp.slot()] {
        Some(target) => if program.color_at(target) == Color::Black {
            None
        } else {
            Some(target)
        },
        None => None,
    }
}

/// The state after a blocked attempt, and whether execution goes on: the
/// first, third, fifth and seventh blocked attempt in a row switch the codel
/// chooser, the others turn the direction pointer clockwise, and the eighth
/// ends execution.
pub open spec fn spec_retry(s: State) -> (State, Option<Result<Action, Error>>) {
    let next = if s.attempts % 2 == 0 {
        State { cc: s.cc.switched(), attempts: s.attempts + 1, ..s }
    } else {
        State { dp: s.dp.clockwise(), attempts: s.attempts + 1, ..s }
    };
    (
        next,
        if s.attempts + 1 >= 8 {
            None
        } else {
            Some(Ok(Action::Idle))
        },
    )
}

/// One step of the interpreter: the state after it and its result, which is
/// nothing once execution has ended. Each step before the end is counted.
///
/// On a coloured codel the step probes the codel ahead of the exit of the
/// current block. A blocked probe is a retry. A white codel ahead is entered
/// without a command; a coloured one is entered after the command of the
/// transition. On a white codel the step probes the codel straight ahead and
/// enters it without a command; it ends execution where it meets a heading
/// for the second time since the last coloured codel.
pub open spec fn spec_step(program: &Program, s: State) -> (State, Option<Result<Action, Error>>) {
    if s.attempts >= 8 {
        (s, None)
    } else {
        let s = State { steps: counted(s.steps), ..s };
        match program.color_at(s.position) {
            Color::Black => (s, Some(Err(Error::InvalidStart))),
            Color::White => {
                let here = Heading { x: s.position.0, y: s.position.1, dp: s.dp, cc: s.cc };
                if s.trail.contains(here) {
                    (State { attempts: 8, ..s }, None)
                } else {
                    let marked = State { trail: s.trail.push(here), ..s };
                    match spec_probe(program, s.position, s.dp) {
                        None => spec_retry(marked),
                        Some(target) => (
                            State {
                                position: target,
                                attempts: 0,
                                trail: if program.color_at(target) == Color::White {
                                    marked.trail
                                } else {
                                    Seq::empty()
                                },
                                ..marked
                            },
                            Some(Ok(Action::Idle)),
                        ),
                    }
                }
            },
            Color::Composite(_, _) => {
                let block = program.spec_block(s.position);
                let exit = spec_exit(block, s.dp, s.cc);
                let sized = State { last_block: block.len() as u64, ..s };
                match spec_probe(program, exit, s.dp) {
                    None => spec_retry(sized),
                    Some(target) => {
                        let moved = State { position: target, attempts: 0, ..sized };
                        match Color::spec_transition(
                            program.color_at(s.position),
                            program.color_at(target),
                        ) {
                            None => (moved, Some(Ok(Action::Idle))),
                            Some(transition) => {
                                let (after, action) = spec_execute(
                                    Command::spec_from_transition(transition),
                                    moved,
                                );
                                (after, Some(Ok(action)))
                            },
                        }
                    },
                }
            },
        }
    }
}

/// A run of at most `fuel` steps: the state at its end and its result. A run
/// ends with nothing when execution has ended, with an action as soon as a
/// step asks the host for one, with the error of a step that fails, and with
/// `StepLimitExceeded` before a step for which no fuel is left.
pub open spec fn spec_run(program: &Program, s: State, fuel: nat) -> (
    State,
    Result<Option<Action>, Error>,
)
    decreases fuel,
{
    if s.attempts >= 8 {
        (s, Ok(None))
    } else if fuel == 0 {
        (s, Err(Error::StepLimitExceeded))
    } else {
        let (next, result) = spec_step(program, s);
        match result {
            None => (next, Ok(None)),
            Some(Err(error)) => (next, Err(error)),
            Some(Ok(Action::Idle)) => spec_run(program, next, (fuel - 1) as nat),
            Some(Ok(action)) => (next, Ok(Some(action))),
        }
    }
}

/// The steps that a limit leaves to an interpreter that has made `steps`
/// steps; without a limit, the limit is the greatest `u64`.
pub open spec fn spec_budget(max_steps: Option<u64>, steps: int) -> nat {
    let limit = match max_steps {
        Some(limit) => limit,
        None => u64::MAX,
    };
    if steps < limit {
        (limit - steps) as nat
    } else {
        0
    }
}

/// The state after `n` steps.
pub open spec fn spec_steps(program: &Program, s: State, n: nat) -> State
    decreases n,
{
    if n == 0 {
        s
    } else {
        spec_step(program, spec_steps(program, s, (n - 1) as nat)).0
    }
}

/// Whether the probe from a codel that is not black is blocked under a
/// direction and a side: the probe straight ahead on a white codel, the
/// probe ahead of the block's exit on a coloured one.
pub open spec fn blocked(
    program: &Program,
    position: Coords,
    dp: DirectionPointer,
    cc: CodelChooser,
) -> bool {
    let from = if program.color_at(position) == Color::White {
        position
    } else {
        spec_exit(program.spec_block(position), dp, cc)
    };
    spec_probe(program, from, dp) is None
}

/// Whether no probe from a codel leads anywhere, whatever the direction and
/// the side.
pub open spec fn stuck(program: &Program, position: Coords) -> bool {
    forall|dp: DirectionPointer, cc: CodelChooser| #[trigger] blocked(program, position, dp, cc)
}

/// A blocked step from a heading that the trail does not hold is a retry,
/// and it leaves the interpreter on its codel.
proof fn lemma_blocked_step(program: &Program, s: State)
    requires
        program.color_at(s.position) != Color::Black,
        blocked(program, s.position, s.dp, s.cc),
        0 <= s.attempts < 8,
        !s.trail.contains(Heading { x: s.position.0, y: s.position.1, dp: s.dp, cc: s.cc }),
    ensures
        spec_step(program, s).1 == spec_retry(s).1,
        spec_step(program, s).0.position == s.position,
        spec_step(program, s).0.stack == s.stack,
        spec_step(program, s).0.dp == spec_retry(s).0.dp,
        spec_step(program, s).0.cc == spec_retry(s).0.cc,
        spec_step(program, s).0.attempts == s.attempts + 1,
        program.color_at(s.position) == Color::White ==> spec_step(program, s).0.trail
            == s.trail.push(Heading { x: s.position.0, y: s.position.1, dp: s.dp, cc: s.cc }),
        program.color_at(s.position) != Color::White ==> spec_step(program, s).0.trail == s.trail,
{
}

/// The heading of the `k`-th of the blocked attempts that begin with the
/// direction `dp` and the side `cc`.
pub open spec fn retry_heading(
    position: Coords,
    dp: DirectionPointer,
    cc: CodelChooser,
    k: int,
) -> Heading {
    Heading { x: position.0, y: position.1, dp: dp.turned(k / 2), cc: cc.toggled((k + 1) / 2) }
}

/// A retry leads from the heading of one blocked attempt to that of the
/// next.
proof fn lemma_retry_heading(dp: DirectionPointer, cc: CodelChooser, p: State, k: int)
    requires
        0 <= k < 8,
        p.attempts == k,
        p.dp == dp.turned(k / 2),
        p.cc == cc.toggled((k + 1) / 2),
    ensures
        spec_retry(p).0.dp == dp.turned((k + 1) / 2),
        spec_retry(p).0.cc == cc.toggled((k + 2) / 2),
{
}

/// The eight blocked attempts in a row begin with eight different headings.
proof fn lemma_headings_differ(
    position: Coords,
    dp: DirectionPointer,
    cc: CodelChooser,
    j: int,
    k: int,
)
    requires
        0 <= j < k < 8,
    ensures
        retry_heading(position, dp, cc, j) != retry_heading(position, dp, cc, k),
{
    if j / 2 == k / 2 {
        assert(cc.toggled((j + 1) / 2) != cc.toggled((k + 1) / 2));
    } else {
        assert(dp.turned(j / 2) != dp.turned(k / 2));
    }
}

/// Where a program that cannot move stands after `k` steps out of eight.
proof fn lemma_stuck_prefix(program: &Program, s: State, k: nat)
    requires
        program.color_at(s.position) != Color::Black,
        stuck(program, s.position),
        s.attempts == 0,
        s.trail.len() == 0,
        k <= 8,
    ensures
        ({
            let t = spec_steps(program, s, k);
            let white = program.color_at(s.position) == Color::White;
            &&& t.attempts == k
            &&& t.position == s.position
            &&& t.stack == s.stack
            &&& t.dp == s.dp.turned(k as int / 2)
            &&& t.cc == s.cc.toggled((k as int + 1) / 2)
            &&& white ==> t.trail.len() == k
            &&& white ==> forall|j: int|
                0 <= j < k ==> #[trigger] t.trail[j] == retry_heading(s.position, s.dp, s.cc, j)
            &&& !white ==> t.trail.len() == 0
        }),
        k > 0 ==> spec_step(program, spec_steps(program, s, (k - 1) as nat)).1 == (if k == 8 {
            None::<Result<Action, Error>>
        } else {
            Some(Ok::<Action, Error>(Action::Idle))
        }),
    decreases k,
{
    if k > 0 {
        lemma_stuck_prefix(program, s, (k - 1) as nat);
        let p = spec_steps(program, s, (k - 1) as nat);
        let here = Heading { x: p.position.0, y: p.position.1, dp: p.dp, cc: p.cc };
        assert(blocked(program, s.position, p.dp, p.cc));
        assert(here == retry_heading(s.position, s.dp, s.cc, k - 1));
        if p.trail.contains(here) {
            let j = choose|j: int| 0 <= j < p.trail.len() && p.trail[j] == here;
            assert(p.trail[j] == retry_heading(s.position, s.dp, s.cc, j));
            lemma_headings_differ(s.position, s.dp, s.cc, j, k - 1);
        }
        lemma_blocked_step(program, p);
        lemma_retry_heading(s.dp, s.cc, p, k - 1);
        assert(spec_steps(program, s, k) == spec_step(program, p).0);
    }
}

/// A run of a program that cannot move, taken up after `k` of its eight
/// steps.
proof fn lemma_stuck_run(program: &Program, s: State, k: nat, fuel: nat)
    requires
        program.color_at(s.position) != Color::Black,
        stuck(program, s.position),
        s.attempts == 0,
        s.trail.len() == 0,
        k < 8,
        fuel >= 8 - k,
    ensures
        spec_run(program, spec_steps(program, s, k), fuel) == (
            spec_steps(program, s, 8),
            Ok::<Option<Action>, Error>(None),
        ),
    decreases 8 - k,
{
    lemma_stuck_prefix(program, s, k + 1);
    assert(spec_steps(program, s, k + 1) == spec_step(program, spec_steps(program, s, k)).0);
    if k < 7 {
        lemma_stuck_run(program, s, k + 1, (fuel - 1) as nat);
    }
}

/// A program that cannot move ends after exactly eight steps, each of them a
/// blocked attempt: from a state without blocked attempts and without a
/// trail, on a codel that is not black and from which every probe is
/// blocked, seven steps go on and the eighth ends execution, with the stack,
/// the place and both pointers as they were; so a run of eight steps or more
/// ends there without an error.
pub proof fn lemma_stuck_program_ends(program: &Program, s: State, fuel: nat)
    requires
        program.color_at(s.position) != Color::Black,
        stuck(program, s.position),
        s.attempts == 0,
        s.trail.len() == 0,
        fuel >= 8,
    ensures
        forall|k: nat| k < 7 ==> spec_step(program, #[trigger] spec_steps(program, s, k)).1 == Some(
            Ok::<Action, Error>(Action::Idle),
        ),
        spec_step(program, spec_steps(program, s, 7)).1 is None,
        spec_steps(program, s, 8).attempts == 8,
        spec_steps(program, s, 8).stack == s.stack,
        spec_steps(program, s, 8).position == s.position,
        spec_steps(program, s, 8).dp == s.dp,
        spec_steps(program, s, 8).cc == s.cc,
        spec_run(program, s, fuel) == (
            spec_steps(program, s, 8),
            Ok::<Option<Action>, Error>(None),
        ),
{
    assert forall|k: nat| k < 7 implies spec_step(program, #[trigger] spec_steps(program, s, k)).1
        == Some(Ok::<Action, Error>(Action::Idle)) by {
        lemma_stuck_prefix(program, s, k + 1);
    }
    lemma_stuck_prefix(program, s, 8);
    lemma_stuck_run(program, s, 0, fuel);
}

/// A Piet interpreter: a program, the place and heading in it, and the
/// stack.
#[derive(Debug)]
pub struct Interpreter {
    program: Program,
    dp: DirectionPointer,
    cc: CodelChooser,
    stack: Stack,
    position: Coords,
    last_block: u64,
    attempts: u8,
    trail: Vec<Heading>,
    steps: u64,
}

impl View for Interpreter {
    type V = State;

    closed spec fn view(&self) -> State {
        State {
            dp: self.dp,
            cc: self.cc,
            position: self.position,
            stack: self.stack@,
            attempts: self.attempts as int,
            last_block: self.last_block,
            trail: self.trail@,
            steps: self.steps as int,
        }
    }
}

impl Interpreter {
    /// The program that is interpreted.
    pub closed spec fn program(&self) -> &Program {
        &self.program
    }

    /// The program is well formed, the interpreter stands on its grid, and
    /// no more than eight blocked attempts were counted.
    pub open spec fn wf(&self) -> bool {
        &&& self.program().wf()
        &&& self.program().in_bounds(self@.position)
        &&& 0 <= self@.attempts <= 8
    }

    /// An interpreter at the start of a program: on the top left codel,
    /// heading right, the chooser on the left, the stack empty.
    pub fn new(program: Program) -> (r: Self)
        requires
            program.wf(),
        ensures
            r.wf(),
            *r.program() == program,
            r@ == (State {
                dp: DirectionPointer::Right,
                cc: CodelChooser::Left,
                position: (0usize, 0usize),
                stack: Seq::<i64>::empty(),
                attempts: 0,
                last_block: 0,
                trail: Seq::<Heading>::empty(),
                steps: 0,
            }),
    {
        Interpreter {
            program: program,
            dp: DirectionPointer::Right,
            cc: CodelChooser::Left,
            stack: Stack::new(),
            position: (0, 0),
            last_block: 0,
            attempts: 0,
            trail: Vec::new(),
            steps: 0,
        }
    }

    /// The stack.
    pub fn stack(&self) -> (r: &Stack)
        ensures
            r@ == self@.stack,
    {
        &self.stack
    }

    /// The codel on which the interpreter stands.
    pub fn position(&self) -> (r: Coords)
        ensures
            r == self@.position,
    {
        self.position
    }

    /// The direction pointer.
    pub fn direction(&self) -> (r: DirectionPointer)
        ensures
            r == self@.dp,
    {
        self.dp
    }

    /// The codel chooser.
    pub fn chooser(&self) -> (r: CodelChooser)
        ensures
            r == self@.cc,
    {
        self.cc
    }

    /// The number of steps made so far.
    pub fn steps(&self) -> (r: u64)
        ensures
            r == self@.steps,
    {
        self.steps
    }

    /// Whether execution has ended.
    pub fn halted(&self) -> (r: bool)
        ensures
            r == (self@.attempts >= 8),
    {
        self.attempts >= 8
    }

    /// Hand over what the host has read after `ReadNumber` or `ReadChar`: a
    /// value goes on the stack, and nothing changes where the input was at
    /// its end or could not be read.
    pub fn accept_input(&mut self, value: Option<i64>)
        ensures
            final(self).program() == old(self).program(),
            final(self).wf() == old(self).wf(),
            final(self)@ == (State {
                stack: match value {
                    Some(v) => old(self)@.stack.push(v),
                    None => old(self)@.stack,
                },
                ..old(self)@
            }),
    {
        match value {
            Some(v) => {
                self.stack.push(v);
            },
            None => {},
        }
    }

    /// The colour block on which the interpreter stands.
    pub fn current_block(&self) -> (block: Vec<Coords>)
        requires
            self.wf(),
        ensures
            block@.no_duplicates(),
            block@.to_set() == self.program().spec_block(self@.position),
            block@.len() > 0,
    {
        self.program.color_block(self.position)
    }

    /// The codel by which the current block is left under the direction
    /// pointer and the codel chooser as they stand.
    pub fn next_coords(&self) -> (exit: Coords)
        requires
            self.wf(),
        ensures
            exit == spec_exit(self.program().spec_block(self@.position), self@.dp, self@.cc),
            self.program().spec_block(self@.position).contains(exit),
    {
        let block = self.current_block();
        exit_codel(&block, self.dp, self.cc)
    }

    /// Turn the direction pointer by `steps` quarters clockwise, or
    /// counter-clockwise where `steps` is negative.
    pub fn pointer(&mut self, steps: i64)
        ensures
            final(self).program() == old(self).program(),
            final(self)@ == (State { dp: old(self)@.dp.turned(steps as int), ..old(self)@ }),
    {
        self.dp = self.dp.rotated(steps);
    }

    /// Switch the codel chooser `times` times; only whether `times` is odd
    /// counts.
    pub fn switch(&mut self, times: i64)
        ensures
            final(self).program() == old(self).program(),
            final(self)@ == (State { cc: old(self)@.cc.toggled(times as int), ..old(self)@ }),
    {
        if mod_floor(times, 2) != 0 {
            self.cc.switch();
        }
    }

    /// Whether the stack has a top value other than zero.
    fn top_is_not_zero(&self) -> (r: bool)
        ensures
            r == (self@.stack.len() > 0 && self@.stack.last() != 0),
    {
        match self.stack.peek() {
            Some(top) => *top != 0,
            None => false,
        }
    }

    /// Carry out a command on the stack and the two pointers, and say what
    /// the host has to do for it. A command that lacks its operands changes
    /// nothing.
    pub fn execute_command(&mut self, command: &Command) -> (action: Action)
        ensures
            final(self).program() == old(self).program(),
            (final(self)@, action) == spec_execute(*command, old(self)@),
    {
        let n = self.stack.len();
        match *command {
            Command::NoOp => Action::Idle,
            Command::Push => {
                let value: i64 = if self.last_block <= 0x7fff_ffff_ffff_ffff {
                    self.last_block as i64
                } else {
                    i64::MAX
                };
                self.stack.push(value);
                Action::Idle
            },
            Command::Pop => {
                self.stack.pop();
                Action::Idle
            },
            Command::Add => {
                self.stack.fold_top(sum);
                assert(n >= 2 ==> self.stack@ =~= old(self).stack@.subrange(0, n - 2).push(
                    self.stack@.last(),
                ));
                Action::Idle
            },
            Command::Subtract => {
                self.stack.fold_top(difference);
                assert(n >= 2 ==> self.stack@ =~= old(self).stack@.subrange(0, n - 2).push(
                    self.stack@.last(),
                ));
                Action::Idle
            },
            Command::Multiply => {
                self.stack.fold_top(product);
                assert(n >= 2 ==> self.stack@ =~= old(self).stack@.subrange(0, n - 2).push(
                    self.stack@.last(),
                ));
                Action::Idle
            },
            Command::Divide => {
                if self.top_is_not_zero() {
                    self.stack.fold_top(quotient);
                    assert(n >= 2 ==> self.stack@ =~= old(self).stack@.subrange(0, n - 2).push(
                        self.stack@.last(),
                    ));
                }
                Action::Idle
            },
            Command::Mod => {
                if self.top_is_not_zero() {
                    self.stack.fold_top(remainder);
                    assert(n >= 2 ==> self.stack@ =~= old(self).stack@.subrange(0, n - 2).push(
                        self.stack@.last(),
                    ));
                }
                Action::Idle
            },
            Command::Greater => {
                self.stack.fold_top(greater);
                assert(n >= 2 ==> self.stack@ =~= old(self).stack@.subrange(0, n - 2).push(
                    self.stack@.last(),
                ));
                Action::Idle
            },
            Command::Not => {
                match self.stack.pop() {
                    Some(value) => {
                        self.stack.push(
                            if value != 0 {
                                0
                            } else {
                                1
                            },
                        );
                    },
                    None => {},
                }
                Action::Idle
            },
            Command::Pointer => {
                match self.stack.pop() {
                    Some(value) => {
                        self.pointer(value);
                    },
                    None => {},
                }
                Action::Idle
            },
            Command::Switch => {
                match self.stack.pop() {
                    Some(value) => {
                        self.switch(value);
                    },
                    None => {},
                }
                Action::Idle
            },
            Command::Duplicate => {
                let top = match self.stack.peek() {
                    Some(value) => Some(*value),
                    None => None,
                };
                match top {
                    Some(value) => {
                        self.stack.push(value);
                    },
                    None => {},
                }
                Action::Idle
            },
            Command::Roll => {
                if n >= 2 {
                    let (top, second) = self.stack.pop2();
                    let times = top.unwrap();
                    let depth = second.unwrap();
                    if depth > 0 && (depth as u64) <= ((n - 2) as u64) {
                        self.stack.roll(depth as usize, times);
                    }
                }
                Action::Idle
            },
            Command::IntIn => Action::ReadNumber,
            Command::CharIn => Action::ReadChar,
            Command::IntOut => {
                match self.stack.pop() {
                    Some(value) => Action::WriteNumber(value),
                    None => Action::Idle,
                }
            },
            Command::CharOut => {
                match self.stack.pop() {
                    Some(value) => Action::WriteChar(value),
                    None => Action::Idle,
                }
            },
        }
    }

    /// Whether the trail holds a heading.
    fn seen(&self, here: &Heading) -> (r: bool)
        ensures
            r == self@.trail.contains(*here),
    {
        let mut i: usize = 0;
        while i < self.trail.len()
            invariant
                i <= self.trail@.len(),
                forall|j: int| 0 <= j < i ==> self.trail@[j] != *here,
            decreases self.trail@.len() - i,
        {
            let met = self.trail[i];
            if met.x == here.x && met.y == here.y && met.dp == here.dp && met.cc == here.cc {
                return true;
            }
            i += 1;
        }
        false
    }

    /// The codel ahead of `from`, unless it is off the grid or black.
    fn probe(&self, from: Coords) -> (r: Option<Coords>)
        requires
            self.program().wf(),
        ensures
            r == spec_probe(self.program(), from, self@.dp),
            r is Some ==> self.program().in_bounds(r->0),
    {
        let around = self.program.neighbors(from);
        let slot: usize = match self.dp {
            DirectionPointer::Right => 0,
            DirectionPointer::Left => 1,
            DirectionPointer::Down => 2,
            DirectionPointer::Up => 3,
        };
        match around[slot] {
            Some(target) => {
                match self.program.get(target) {
                    Some(Color::Black) => None,
                    _ => Some(target),
                }
            },
            None => None,
        }
    }

    /// Count a blocked attempt and switch the codel chooser or turn the
    /// direction pointer for the next one.
    fn retry(&mut self) -> (r: Option<Result<Action, Error>>)
        requires
            old(self)@.attempts < 8,
        ensures
            final(self).program() == old(self).program(),
            (final(self)@, r) == spec_retry(old(self)@),
    {
        if self.attempts % 2 == 0 {
            self.cc.switch();
        } else {
            self.dp.rotate_clockwise();
        }
        self.attempts = self.attempts + 1;
        if self.attempts >= 8 {
            None
        } else {
            Some(Ok(Action::Idle))
        }
    }

    /// Make one step: probe the codel ahead, and enter it, with the command
    /// of the transition where both codels are coloured, or count a blocked
    /// attempt. The result is nothing once execution has ended, and the
    /// error `InvalidStart` on a black codel.
    pub fn step(&mut self) -> (r: Option<Result<Action, Error>>)
        requires
            old(self).wf(),
        ensures
            final(self).wf(),
            final(self).program() == old(self).program(),
            (final(self)@, r) == spec_step(old(self).program(), old(self)@),
    {
        if self.attempts >= 8 {
            return None;
        }
        if self.steps < u64::MAX {
            self.steps = self.steps + 1;
        }
        let color = self.program.get(self.position).unwrap();
        match color {
            Color::Black => Some(Err(Error::InvalidStart)),
            Color::White => {
                let here = Heading {
                    x: self.position.0,
                    y: self.position.1,
                    dp: self.dp,
                    cc: self.cc,
                };
                if self.seen(&here) {
                    self.attempts = 8;
                    return None;
                }
                self.trail.push(here);
                match self.probe(self.position) {
                    None => self.retry(),
                    Some(target) => {
                        match self.program.get(target) {
                            Some(Color::White) => {},
                            _ => {
                                self.trail = Vec::new();
                            },
                        }
                        self.position = target;
                        self.attempts = 0;
                        Some(Ok(Action::Idle))
                    },
                }
            },
            Color::Composite(_, _) => {
                let block = self.current_block();
                let exit = exit_codel(&block, self.dp, self.cc);
                proof {
                    block@.unique_seq_to_set();
                }
                self.last_block = block.len() as u64;
                match self.probe(exit) {
                    None => self.retry(),
                    Some(target) => {
                        let target_color = self.program.get(target).unwrap();
                        self.position = target;
                        self.attempts = 0;
                        match Color::transition(color, target_color) {
                            None => Some(Ok(Action::Idle)),
                            Some(transition) => {
                                let command = Command::from_transition(transition);
                                let action = self.execute_command(&command);
                                Some(Ok(action))
                            },
                        }
                    },
                }
            },
        }
    }

    /// Make steps until execution ends, a step asks the host for something,
    /// a step fails, or the interpreter has made `max_steps` steps since it
    /// was created. The result is nothing at the end of execution, the
    /// action that the host has to carry out before the next run, or the
    /// error; at the limit, unless execution has ended, it is
    /// `StepLimitExceeded`, and no further step is made. Without a limit, the
    /// limit is the greatest `u64`.
    pub fn run(&mut self, max_steps: Option<u64>) -> (r: Result<Option<Action>, Error>)
        requires
            old(self).wf(),
        ensures
            final(self).wf(),
            final(self).program() == old(self).program(),
            (final(self)@, r) == spec_run(
                old(self).program(),
                old(self)@,
                spec_budget(max_steps, old(self)@.steps),
            ),
    {
        let limit: u64 = match max_steps {
            Some(limit) => limit,
            None => u64::MAX,
        };
        loop
            invariant
                self.wf(),
                self.program() == old(self).program(),
                limit == match max_steps {
                    Some(limit) => limit,
                    None => u64::MAX,
                },
                spec_run(
                    old(self).program(),
                    old(self)@,
                    spec_budget(max_steps, old(self)@.steps),
                ) == spec_run(self.program(), self@, spec_budget(max_steps, self@.steps)),
            decreases spec_budget(max_steps, self@.steps),
        {
            if self.attempts >= 8 {
                return Ok(None);
            }
            if self.steps >= limit {
                return Err(Error::StepLimitExceeded);
            }
            match self.step() {
                None => {
                    return Ok(None);
                },
                Some(Err(error)) => {
                    return Err(error);
                },
                Some(Ok(Action::Idle)) => {},
                Some(Ok(action)) => {
                    return Ok(Some(action));
                },
            }
        }
    }
}

} // verus!
