//! The direction pointer, the codel chooser, and the choice of the codel
//! from which a colour block is left.

use vstd::prelude::*;
use crate::arith::mod_floor;
use crate::util::Coords;

verus! {

/// The direction in which the interpreter travels.
#[derive(Debug, Copy, Clone, PartialEq, Eq, Structural)]
pub enum DirectionPointer {
    Up,
    Right,
    Down,
    Left,
}

impl DirectionPointer {
    /// The direction a quarter turn clockwise from this one.
    pub open spec fn clockwise(self) -> DirectionPointer {
        match self {
            DirectionPointer::Up => DirectionPointer::Right,
            DirectionPointer::Right => DirectionPointer::Down,
            DirectionPointer::Down => DirectionPointer::Left,
            DirectionPointer::Left => DirectionPointer::Up,
        }
    }

    /// The direction a quarter turn counter-clockwise from this one.
    pub open spec fn counterclockwise(self) -> DirectionPointer {
        match self {
            DirectionPointer::Up => DirectionPointer::Left,
            DirectionPointer::Left => DirectionPointer::Down,
            DirectionPointer::Down => DirectionPointer::Right,
            DirectionPointer::Right => DirectionPointer::Up,
        }
    }

    /// The number of quarter turns clockwise that lead from up to this
    /// direction.
    pub open spec fn quarter(self) -> int {
        match self {
            DirectionPointer::Up => 0,
            DirectionPointer::Right => 1,
            DirectionPointer::Down => 2,
            DirectionPointer::Left => 3,
        }
    }

    /// The direction after `steps` quarter turns clockwise; a negative
    /// number turns counter-clockwise.
    pub open spec fn turned(self, steps: int) -> DirectionPointer {
        let quarter = (self.quarter() + steps) % 4;
        if quarter == 0 {
            DirectionPointer::Up
        } else if quarter == 1 {
            DirectionPointer::Right
        } else if quarter == 2 {
            DirectionPointer::Down
        } else {
            DirectionPointer::Left
        }
    }

    /// The place of the codel ahead among the neighbours of a codel, which
    /// come in the order right, left, below, above.
    pub open spec fn slot(self) -> int {
        match self {
            DirectionPointer::Right => 0,
            DirectionPointer::Left => 1,
            DirectionPointer::Down => 2,
            DirectionPointer::Up => 3,
        }
    }

    /// How far a codel lies in this direction: the greater, the farther.
    pub open spec fn along(self, c: Coords) -> int {
        match self {
            DirectionPointer::Right => c.0 as int,
            DirectionPointer::Left => -(c.0 as int),
            DirectionPointer::Down => c.1 as int,
            DirectionPointer::Up => -(c.1 as int),
        }
    }

    /// How far a codel lies to the side that the codel chooser picks on an
    /// edge that faces this direction: the greater, the farther.
    pub open spec fn aside(self, cc: CodelChooser, c: Coords) -> int {
        match (self, cc) {
            (DirectionPointer::Right, CodelChooser::Left) => c.1 as int,
            (DirectionPointer::Right, CodelChooser::Right) => -(c.1 as int),
            (DirectionPointer::Down, CodelChooser::Left) => -(c.0 as int),
            (DirectionPointer::Down, CodelChooser::Right) => c.0 as int,
            (DirectionPointer::Left, CodelChooser::Left) => -(c.1 as int),
            (DirectionPointer::Left, CodelChooser::Right) => c.1 as int,
            (DirectionPointer::Up, CodelChooser::Left) => c.0 as int,
            (DirectionPointer::Up, CodelChooser::Right) => -(c.0 as int),
        }
    }

    /// Turn a quarter clockwise.
    pub fn rotate_clockwise(&mut self)
        ensures
            *final(self) == old(self).clockwise(),
            *final(self) == old(self).turned(1),
    {
        *self = match *self {
            DirectionPointer::Up => DirectionPointer::Right,
            DirectionPointer::Right => DirectionPointer::Down,
            DirectionPointer::Down => DirectionPointer::Left,
            DirectionPointer::Left => DirectionPointer::Up,
        }
    }

    /// Turn a quarter counter-clockwise.
    pub fn rotate_counterclockwise(&mut self)
        ensures
            *final(self) == old(self).counterclockwise(),
            *final(self) == old(self).turned(-1),
    {
        *self = match *self {
            DirectionPointer::Up => DirectionPointer::Left,
            DirectionPointer::Left => DirectionPointer::Down,
            DirectionPointer::Down => DirectionPointer::Right,
            DirectionPointer::Right => DirectionPointer::Up,
        }
    }

    /// The direction after `steps` quarter turns clockwise, or `-steps`
    /// counter-clockwise where `steps` is negative.
    pub fn rotated(self, steps: i64) -> (r: DirectionPointer)
        ensures
            r == self.turned(steps as int),
    {
        let quarters: i64 = mod_floor(steps, 4);
        let mut r = self;
        let mut made: i64 = 0;
        while made < quarters
            invariant
                0 <= made <= quarters < 4,
                r == self.turned(made as int),
            decreases quarters - made,
        {
            r.rotate_clockwise();
            made += 1;
        }
        r
    }

    /// Whether codel `a` is a better exit than codel `b`: farther in this
    /// direction, or as far and farther to the chooser's side.
    pub fn prefers(self, cc: CodelChooser, a: Coords, b: Coords) -> (r: bool)
        ensures
            r == (self.along(a) > self.along(b) || (self.along(a) == self.along(b) && self.aside(
                cc,
                a,
            ) > self.aside(cc, b))),
    {
        let (ax, ay) = a;
        let (bx, by) = b;
        match self {
            DirectionPointer::Right => ax > bx || (ax == bx && match cc {
                CodelChooser::Left => ay > by,
                CodelChooser::Right => ay < by,
            }),
            DirectionPointer::Down => ay > by || (ay == by && match cc {
                CodelChooser::Left => ax < bx,
                CodelChooser::Right => ax > bx,
            }),
            DirectionPointer::Left => ax < bx || (ax == bx && match cc {
                CodelChooser::Left => ay < by,
                CodelChooser::Right => ay > by,
            }),
            DirectionPointer::Up => ay < by || (ay == by && match cc {
                CodelChooser::Left => ax > bx,
                CodelChooser::Right => ax < bx,
            }),
        }
    }
}

/// The side of an edge on which a colour block is left.
#[derive(Debug, Copy, Clone, PartialEq, Eq, Structural)]
pub enum CodelChooser {
    Left,
    Right,
}

impl CodelChooser {
    /// The other side.
    pub open spec fn switched(self) -> CodelChooser {
        match self {
            CodelChooser::Left => CodelChooser::Right,
            CodelChooser::Right => CodelChooser::Left,
        }
    }

    /// The side after `times` switches; only whether `times` is odd counts.
    pub open spec fn toggled(self, times: int) -> CodelChooser {
        if times % 2 == 0 {
            self
        } else {
            self.switched()
        }
    }

    /// Change to the other side.
    pub fn switch(&mut self)
        ensures
            *final(self) == old(self).switched(),
    {
        *self = match *self {
            CodelChooser::Left => CodelChooser::Right,
            CodelChooser::Right => CodelChooser::Left,
        }
    }
}

/// Whether `exit` is the codel by which `block` is left: it lies on the
/// block's edge farthest in the direction `dp`, and on that edge it is the
/// farthest to the side that `cc` picks.
pub open spec fn is_exit(block: Set<Coords>, dp: DirectionPointer, cc: CodelChooser, exit: Coords)
    -> bool {
    &&& block.contains(exit)
    &&& forall|c: Coords| #[trigger] block.contains(c) ==> dp.along(c) <= dp.along(exit)
    &&& forall|c: Coords| #[trigger]
        block.contains(c) && dp.along(c) == dp.along(exit) ==> dp.aside(cc, c) <= dp.aside(
            cc,
            exit,
        )
}

/// The codel by which `block` is left.
pub open spec fn spec_exit(block: Set<Coords>, dp: DirectionPointer, cc: CodelChooser) -> Coords {
    choose|exit: Coords| is_exit(block, dp, cc, exit)
}

/// A block is left by one codel only.
pub proof fn lemma_exit_unique(
    block: Set<Coords>,
    dp: DirectionPointer,
    cc: CodelChooser,
    a: Coords,
    b: Coords,
)
    requires
        is_exit(block, dp, cc, a),
        is_exit(block, dp, cc, b),
    ensures
        a == b,
        a == spec_exit(block, dp, cc),
{
    assert(dp.along(a) == dp.along(b));
    assert(dp.aside(cc, a) == dp.aside(cc, b));
    let chosen = spec_exit(block, dp, cc);
    assert(dp.along(a) == dp.along(chosen));
    assert(dp.aside(cc, a) == dp.aside(cc, chosen));
}

/// Find the codel by which a block of at least one codel is left.
pub fn exit_codel(block: &Vec<Coords>, dp: DirectionPointer, cc: CodelChooser) -> (exit: Coords)
    requires
        block@.len() > 0,
    ensures
        is_exit(block@.to_set(), dp, cc, exit),
        exit == spec_exit(block@.to_set(), dp, cc),
{
    let mut best = block[0];
    let mut i: usize = 1;
    while i < block.len()
        invariant
            1 <= i <= block@.len(),
            block@.contains(best),
            forall|j: int|
                0 <= j < i ==> dp.along(#[trigger] block@[j]) < dp.along(best) || (dp.along(
                    block@[j],
                ) == dp.along(best) && dp.aside(cc, block@[j]) <= dp.aside(cc, best)),
        decreases block@.len() - i,
    {
        if dp.prefers(cc, block[i], best) {
            best = block[i];
        }
        i += 1;
    }
    proof {
        assert forall|c: Coords| #[trigger] block@.to_set().contains(c) implies dp.along(c)
            <= dp.along(best) && (dp.along(c) == dp.along(best) ==> dp.aside(cc, c) <= dp.aside(
            cc,
            best,
        )) by {
            let at = choose|at: int| 0 <= at < block@.len() && block@[at] == c;
            assert(dp.along(block@[at]) <= dp.along(best));
        }
        lemma_exit_unique(block@.to_set(), dp, cc, best, best);
    }
    best
}

} // verus!
