//! The program grid and its colour blocks.

use vstd::prelude::*;
use crate::color::Color;
use crate::errors::Error;
use crate::util::{lift_pair, Coords};

verus! {

/// Whether two codels share an edge.
pub open spec fn adjacent(a: Coords, b: Coords) -> bool {
    ||| (a.0 + 1 == b.0 && a.1 == b.1)
    ||| (b.0 + 1 == a.0 && a.1 == b.1)
    ||| (a.0 == b.0 && a.1 + 1 == b.1)
    ||| (a.0 == b.0 && b.1 + 1 == a.1)
}

/// The number of `true` entries of a sequence.
spec fn count_true(marks: Seq<bool>) -> nat
    decreases marks.len(),
{
    if marks.len() == 0 {
        0
    } else {
        count_true(marks.drop_last()) + if marks.last() {
            1nat
        } else {
            0nat
        }
    }
}

proof fn lemma_count_true_bound(marks: Seq<bool>)
    ensures
        count_true(marks) <= marks.len(),
    decreases marks.len(),
{
    if marks.len() > 0 {
        lemma_count_true_bound(marks.drop_last());
    }
}

proof fn lemma_count_true_mark(marks: Seq<bool>, at: int)
    requires
        0 <= at < marks.len(),
        !marks[at],
    ensures
        count_true(marks.update(at, true)) == count_true(marks) + 1,
    decreases marks.len(),
{
    let marked = marks.update(at, true);
    if at == marks.len() - 1 {
        assert(marked.drop_last() =~= marks.drop_last());
    } else {
        lemma_count_true_mark(marks.drop_last(), at);
        assert(marked.drop_last() =~= marks.drop_last().update(at, true));
    }
}

proof fn lemma_count_true_none(marks: Seq<bool>)
    requires
        forall|i: int| 0 <= i < marks.len() ==> !marks[i],
    ensures
        count_true(marks) == 0,
    decreases marks.len(),
{
    if marks.len() > 0 {
        lemma_count_true_none(marks.drop_last());
    }
}

proof fn lemma_index_bound(x: int, y: int, width: int, height: int)
    requires
        0 <= x < width,
        0 <= y < height,
    ensures
        0 <= width * y + x < width * height,
{
    assert(width * y + width <= width * height) by (nonlinear_arith)
        requires
            y + 1 <= height,
            width > 0,
    ;
    assert(width * y >= 0) by (nonlinear_arith)
        requires
            y >= 0,
            width > 0,
    ;
}

proof fn lemma_index_injective(x1: int, y1: int, x2: int, y2: int, width: int)
    requires
        0 <= x1 < width,
        0 <= x2 < width,
        width * y1 + x1 == width * y2 + x2,
    ensures
        x1 == x2,
        y1 == y2,
{
    if y1 < y2 {
        assert(width * y2 >= width * y1 + width) by (nonlinear_arith)
            requires
                y1 + 1 <= y2,
                width > 0,
        ;
    } else if y2 < y1 {
        assert(width * y1 >= width * y2 + width) by (nonlinear_arith)
            requires
                y2 + 1 <= y1,
                width > 0,
        ;
    }
}

/// A Piet program: a grid of codels, row by row from the top.
#[derive(Debug)]
pub struct Program {
    size: Coords,
    image: Vec<Color>,
}

impl Program {
    /// The number of columns.
    pub closed spec fn width(&self) -> int {
        self.size.0 as int
    }

    /// The number of rows.
    pub closed spec fn height(&self) -> int {
        self.size.1 as int
    }

    /// The colours of the codels, row by row from the top.
    pub closed spec fn cells(&self) -> Seq<Color> {
        self.image@
    }

    /// A program has at least one codel, and one colour for each codel.
    pub open spec fn wf(&self) -> bool {
        &&& self.width() > 0
        &&& self.height() > 0
        &&& self.cells().len() == self.width() * self.height()
    }

    /// Whether a codel lies on the grid.
    pub open spec fn in_bounds(&self, coords: Coords) -> bool {
        coords.0 < self.width() && coords.1 < self.height()
    }

    /// The place of a codel in the row-major sequence of colours.
    pub open spec fn spec_index(&self, coords: Coords) -> int {
        self.width() * coords.1 + coords.0
    }

    /// The colour of a codel on the grid.
    pub open spec fn color_at(&self, coords: Coords) -> Color {
        self.cells()[self.spec_index(coords)]
    }

    /// The colour of a codel, or nothing off the grid.
    pub open spec fn spec_get(&self, coords: Coords) -> Option<Color> {
        if self.in_bounds(coords) {
            Some(self.color_at(coords))
        } else {
            None
        }
    }

    /// The codel in column `x` and row `y`, if it is on the grid.
    pub open spec fn spec_at(&self, x: int, y: int) -> Option<Coords> {
        if 0 <= x < self.width() && 0 <= y < self.height() {
            Some((x as usize, y as usize))
        } else {
            None
        }
    }

    /// The codels on the grid next to a codel: to its right, to its left,
    /// below it and above it, in this order.
    pub open spec fn spec_neighbors(&self, coords: Coords) -> Seq<Option<Coords>> {
        seq![
            self.spec_at(coords.0 + 1, coords.1 as int),
            self.spec_at(coords.0 - 1, coords.1 as int),
            self.spec_at(coords.0 as int, coords.1 + 1),
            self.spec_at(coords.0 as int, coords.1 - 1),
        ]
    }

    /// A walk on the grid from codel to adjacent codel that stays on the
    /// colour it starts on.
    pub open spec fn is_path(&self, path: Seq<Coords>) -> bool {
        &&& path.len() > 0
        &&& forall|i: int|
            0 <= i < path.len() ==> self.in_bounds(#[trigger] path[i]) && self.color_at(path[i])
                == self.color_at(path[0])
        &&& forall|i: int| 0 <= i < path.len() - 1 ==> adjacent(#[trigger] path[i], path[i + 1])
    }

    /// Whether a walk on one colour leads from `from` to `to`.
    pub open spec fn connected(&self, from: Coords, to: Coords) -> bool {
        exists|path: Seq<Coords>| #[trigger]
            self.is_path(path) && path[0] == from && path.last() == to
    }

    /// The colour block of a codel: the codels that a walk on its colour
    /// reaches from it.
    pub open spec fn spec_block(&self, coords: Coords) -> Set<Coords> {
        Set::new(|c: Coords| self.connected(coords, c))
    }

    /// Make a program of `size.0` columns and `size.1` rows from the colours
    /// of its codels, row by row.
    pub fn new(size: Coords, image: Vec<Color>) -> (r: Result<Program, Error>)
        ensures
            size.0 == 0 || size.1 == 0 ==> r == Err::<Program, Error>(Error::ZeroDimensions),
            size.0 > 0 && size.1 > 0 && image@.len() != size.0 * size.1 ==> r == Err::<
                Program,
                Error,
            >(Error::LengthMismatch),
            size.0 > 0 && size.1 > 0 && image@.len() == size.0 * size.1 ==> r is Ok && ({
                let p = r->Ok_0;
                &&& p.wf()
                &&& p.width() == size.0
                &&& p.height() == size.1
                &&& p.cells() == image@
            }),
    {
        let (width, height) = size;
        if width == 0 || height == 0 {
            return Err(Error::ZeroDimensions);
        }
        let count = image.len();
        match width.checked_mul(height) {
            Some(total) => {
                if total == count {
                    Ok(Program { size: size, image: image })
                } else {
                    Err(Error::LengthMismatch)
                }
            },
            None => Err(Error::LengthMismatch),
        }
    }

    /// The number of columns and the number of rows.
    pub fn size(&self) -> (size: Coords)
        ensures
            size.0 == self.width(),
            size.1 == self.height(),
    {
        self.size
    }

    /// The coordinates themselves if they lie on the grid.
    pub fn check_coords(&self, coords: Coords) -> (r: Option<Coords>)
        ensures
            r == (if self.in_bounds(coords) {
                Some(coords)
            } else {
                None
            }),
    {
        let (x, y) = coords;
        let (width, height) = self.size;
        if x >= width || y >= height {
            None
        } else {
            Some(coords)
        }
    }

    /// The place of a codel in the row-major image, if it lies on the grid.
    pub fn coords_to_index(&self, coords: Coords) -> (r: Option<usize>)
        requires
            self.wf(),
        ensures
            self.in_bounds(coords) ==> r is Some && r->0 == self.spec_index(coords) && r->0
                < self.cells().len(),
            !self.in_bounds(coords) ==> r is None,
    {
        let (x, y) = coords;
        let (width, height) = self.size;
        if x >= width || y >= height {
            None
        } else {
            proof {
                lemma_index_bound(x as int, y as int, width as int, height as int);
                assert(self.image.len() == self.image@.len());
            }
            Some(width * y + x)
        }
    }

    /// The codel at a place in the row-major image, if there is one.
    pub fn index_to_coords(&self, index: usize) -> (r: Option<Coords>)
        requires
            self.wf(),
        ensures
            index < self.cells().len() ==> r == Some(
                ((index as int % self.width()) as usize, (index as int / self.width()) as usize),
            ),
            index >= self.cells().len() ==> r is None,
            r is Some ==> self.in_bounds(r->0) && self.spec_index(r->0) == index,
    {
        let (width, height) = self.size;
        if index >= self.image.len() {
            return None;
        }
        let x = index % width;
        let y = index / width;
        proof {
            let (w, h, i) = (width as int, height as int, index as int);
            vstd::arithmetic::div_mod::lemma_fundamental_div_mod(i, w);
            if i / w >= h {
                assert(w * (i / w) >= w * h) by (nonlinear_arith)
                    requires
                        i / w >= h,
                        w > 0,
                ;
            }
        }
        Some((x, y))
    }

    /// The colour of a codel, if it lies on the grid.
    pub fn get(&self, coords: Coords) -> (r: Option<Color>)
        requires
            self.wf(),
        ensures
            r == self.spec_get(coords),
    {
        match self.coords_to_index(coords) {
            Some(index) => Some(self.image[index]),
            None => None,
        }
    }

    /// The codels on the grid next to a codel: to its right, to its left,
    /// below it and above it, in this order, each missing where the grid
    /// ends.
    pub fn neighbors(&self, coords: Coords) -> (r: [Option<Coords>; 4])
        ensures
            r@ == self.spec_neighbors(coords),
    {
        let (x, y) = coords;
        let right = match lift_pair((x.checked_add(1), Some(y))) {
            Some(next) => self.check_coords(next),
            None => None,
        };
        let left = match lift_pair((x.checked_sub(1), Some(y))) {
            Some(next) => self.check_coords(next),
            None => None,
        };
        let below = match lift_pair((Some(x), y.checked_add(1))) {
            Some(next) => self.check_coords(next),
            None => None,
        };
        let above = match lift_pair((Some(x), y.checked_sub(1))) {
            Some(next) => self.check_coords(next),
            None => None,
        };
        let r = [right, left, below, above];
        assert(r@ =~= self.spec_neighbors(coords));
        r
    }

    /// Whether `block` holds, with each of its codels, the codels of the
    /// same colour next to it.
    spec fn closed_under_neighbors(&self, block: Seq<Coords>, color: Color) -> bool {
        forall|c: Coords, n: Coords|
            block.contains(c) && self.in_bounds(n) && #[trigger] adjacent(c, n) && self.color_at(n)
                == color ==> block.contains(n)
    }

    /// A set of codels that holds the start of a walk and the same-coloured
    /// neighbours of each of its codels holds the whole walk.
    proof fn lemma_closed_holds_path(&self, block: Seq<Coords>, path: Seq<Coords>, upto: int)
        requires
            self.is_path(path),
            block.contains(path[0]),
            self.closed_under_neighbors(block, self.color_at(path[0])),
            0 <= upto < path.len(),
        ensures
            block.contains(path[upto]),
        decreases upto,
    {
        if upto > 0 {
            self.lemma_closed_holds_path(block, path, upto - 1);
            let c = path[upto - 1];
            let n = path[upto];
            assert(adjacent(c, n));
            assert(self.in_bounds(n));
        }
    }

    /// A codel is connected to itself.
    pub proof fn lemma_connected_reflexive(&self, p: Coords)
        requires
            self.in_bounds(p),
        ensures
            self.connected(p, p),
    {
        let path = seq![p];
        assert(self.is_path(path));
        assert(path[0] == p && path.last() == p);
    }

    /// A walk goes on to a neighbour of the same colour.
    proof fn lemma_connected_step(&self, p: Coords, q: Coords, n: Coords)
        requires
            self.connected(p, q),
            self.in_bounds(n),
            adjacent(q, n),
            self.color_at(n) == self.color_at(p),
        ensures
            self.connected(p, n),
    {
        let reach = choose|path: Seq<Coords>| #[trigger]
            self.is_path(path) && path[0] == p && path.last() == q;
        let longer = reach.push(n);
        assert forall|i: int| 0 <= i < longer.len() implies self.in_bounds(#[trigger] longer[i])
            && self.color_at(longer[i]) == self.color_at(longer[0]) by {
            if i < reach.len() {
                assert(self.in_bounds(reach[i]));
            }
        }
        assert forall|i: int| 0 <= i < longer.len() - 1 implies adjacent(
            #[trigger] longer[i],
            longer[i + 1],
        ) by {
            if i < reach.len() - 1 {
                assert(adjacent(reach[i], reach[i + 1]));
            }
        }
        assert(self.is_path(longer));
        assert(longer[0] == p && longer.last() == n);
    }

    /// A walk can be taken backwards.
    pub proof fn lemma_connected_symmetric(&self, p: Coords, q: Coords)
        requires
            self.connected(p, q),
        ensures
            self.connected(q, p),
            self.in_bounds(p),
            self.in_bounds(q),
            self.color_at(p) == self.color_at(q),
    {
        let path = choose|path: Seq<Coords>| #[trigger]
            self.is_path(path) && path[0] == p && path.last() == q;
        let len = path.len() as int;
        let back = Seq::new(path.len(), |i: int| path[len - 1 - i]);
        assert(self.in_bounds(path[len - 1]));
        assert(self.in_bounds(path[0]));
        assert forall|i: int| 0 <= i < back.len() implies self.in_bounds(#[trigger] back[i])
            && self.color_at(back[i]) == self.color_at(back[0]) by {
            assert(self.in_bounds(path[len - 1 - i]));
        }
        assert forall|i: int| 0 <= i < back.len() - 1 implies adjacent(
            #[trigger] back[i],
            back[i + 1],
        ) by {
            assert(adjacent(path[len - 2 - i], path[len - 2 - i + 1]));
        }
        assert(self.is_path(back));
        assert(back[0] == q && back.last() == p);
    }

    /// A walk that goes on where another one ends is a walk.
    pub proof fn lemma_connected_transitive(&self, p: Coords, q: Coords, r: Coords)
        requires
            self.connected(p, q),
            self.connected(q, r),
        ensures
            self.connected(p, r),
    {
        let first = choose|path: Seq<Coords>| #[trigger]
            self.is_path(path) && path[0] == p && path.last() == q;
        let second = choose|path: Seq<Coords>| #[trigger]
            self.is_path(path) && path[0] == q && path.last() == r;
        let whole = first + second.subrange(1, second.len() as int);
        let cut = first.len() as int;
        assert(self.in_bounds(first[cut - 1]));
        assert(self.in_bounds(second[0]));
        assert forall|i: int| 0 <= i < whole.len() implies self.in_bounds(#[trigger] whole[i])
            && self.color_at(whole[i]) == self.color_at(whole[0]) by {
            if i < cut {
                assert(self.in_bounds(first[i]));
            } else {
                assert(self.in_bounds(second[i - cut + 1]));
            }
        }
        assert forall|i: int| 0 <= i < whole.len() - 1 implies adjacent(
            #[trigger] whole[i],
            whole[i + 1],
        ) by {
            if i < cut - 1 {
                assert(adjacent(first[i], first[i + 1]));
            } else {
                assert(adjacent(second[i - cut + 1], second[i - cut + 1 + 1]));
            }
        }
        assert(self.is_path(whole));
        assert(whole[0] == p && whole.last() == r);
    }

    /// The colour block is the same from each of its codels, and each of
    /// them has the colour of the first and is reached from it by a walk
    /// that stays in the block.
    pub proof fn lemma_block_closure(&self, p: Coords, q: Coords)
        requires
            self.spec_block(p).contains(q),
        ensures
            self.spec_block(q) == self.spec_block(p),
            self.color_at(q) == self.color_at(p),
            exists|path: Seq<Coords>| #[trigger]
                self.is_path(path) && path[0] == p && path.last() == q && forall|i: int|
                    0 <= i < path.len() ==> self.spec_block(p).contains(#[trigger] path[i]),
    {
        self.lemma_connected_symmetric(p, q);
        assert forall|c: Coords| self.spec_block(q).contains(c) == self.spec_block(p).contains(
            c,
        ) by {
            if self.connected(q, c) {
                self.lemma_connected_transitive(p, q, c);
            }
            if self.connected(p, c) {
                self.lemma_connected_transitive(q, p, c);
            }
        }
        assert(self.spec_block(q) =~= self.spec_block(p));
        let path = choose|path: Seq<Coords>| #[trigger]
            self.is_path(path) && path[0] == p && path.last() == q;
        assert forall|i: int| 0 <= i < path.len() implies self.spec_block(p).contains(
            #[trigger] path[i],
        ) by {
            let part = path.subrange(0, i + 1);
            assert forall|j: int| 0 <= j < part.len() implies self.in_bounds(#[trigger] part[j])
                && self.color_at(part[j]) == self.color_at(part[0]) by {
                assert(self.in_bounds(path[j]));
                assert(self.in_bounds(path[0]));
            }
            assert forall|j: int| 0 <= j < part.len() - 1 implies adjacent(
                #[trigger] part[j],
                part[j + 1],
            ) by {
                assert(adjacent(path[j], path[j + 1]));
            }
            assert(self.is_path(part));
            assert(part[0] == p && part.last() == path[i]);
        }
    }

    /// A flood fill under way: `block` lists, without repeats and from the
    /// codel it began at, codels that are connected to that codel, and
    /// `marks` tells for each codel of the grid whether `block` holds it.
    spec fn filling(&self, marks: Seq<bool>, block: Seq<Coords>) -> bool {
        &&& self.wf()
        &&& marks.len() == self.cells().len()
        &&& block.len() > 0
        &&& block.no_duplicates()
        &&& count_true(marks) == block.len()
        &&& forall|j: int|
            0 <= j < block.len() ==> self.in_bounds(#[trigger] block[j]) && self.color_at(block[j])
                == self.color_at(block[0]) && self.connected(block[0], block[j])
        &&& forall|c: Coords|
            self.in_bounds(c) ==> (marks[self.spec_index(c)] <==> #[trigger] block.contains(c))
    }

    /// Whether `block` holds the neighbours of `coords` that have the colour
    /// of its first codel.
    spec fn settled(&self, block: Seq<Coords>, coords: Coords) -> bool {
        forall|n: Coords|
            self.in_bounds(n) && #[trigger] adjacent(coords, n) && self.color_at(n)
                == self.color_at(block[0]) ==> block.contains(n)
    }

    /// Add to a flood fill the neighbours of one of its codels that have the
    /// colour `start_color` of the block and are not marked yet, and mark
    /// them.
    fn mark_blocks(
        &self,
        coords: Coords,
        start_color: Color,
        marked: &mut Vec<bool>,
        block: &mut Vec<Coords>,
    )
        requires
            self.filling(old(marked)@, old(block)@),
            old(block)@.contains(coords),
            start_color == self.color_at(old(block)@[0]),
        ensures
            self.filling(final(marked)@, final(block)@),
            final(block)@.len() >= old(block)@.len(),
            final(block)@.subrange(0, old(block)@.len() as int) == old(block)@,
            self.settled(final(block)@, coords),
    {
        let around = self.neighbors(coords);
        let ghost start = block@[0];
        let ghost begun = block@;
        let mut side: usize = 0;
        while side < 4
            invariant
                self.filling(marked@, block@),
                block@.contains(coords),
                block@[0] == start,
                start_color == self.color_at(start),
                around@ == self.spec_neighbors(coords),
                side <= 4,
                block@.len() >= begun.len(),
                block@.subrange(0, begun.len() as int) == begun,
                forall|k: int|
                    0 <= k < side ==> match #[trigger] around@[k] {
                        Some(n) => self.color_at(n) == start_color ==> block@.contains(n),
                        None => true,
                    },
            decreases 4 - side,
        {
            let ghost before = block@;
            let ghost marks = marked@;
            match around[side] {
                Some(next) => {
                    assert(self.in_bounds(next));
                    let index = self.coords_to_index(next).unwrap();
                    if self.image[index] == start_color && !marked[index] {
                        proof {
                            lemma_count_true_mark(marked@, index as int);
                            assert(adjacent(coords, next));
                            self.lemma_connected_step(start, coords, next);
                            assert(!before.contains(next));
                        }
                        marked.set(index, true);
                        block.push(next);
                        proof {
                            assert(block@.last() == next);
                            assert(block@.subrange(0, begun.len() as int) =~= begun);
                            assert forall|c: Coords| before.contains(c) implies block@.contains(
                                c,
                            ) by {
                                let at = choose|at: int| 0 <= at < before.len() && before[at] == c;
                                assert(block@[at] == c);
                            }
                            assert forall|c: Coords| self.in_bounds(c) implies (
                            marked@[self.spec_index(c)] <==> #[trigger] block@.contains(c)) by {
                                lemma_index_bound(
                                    c.0 as int,
                                    c.1 as int,
                                    self.width(),
                                    self.height(),
                                );
                                if self.spec_index(c) == index {
                                    lemma_index_injective(
                                        c.0 as int,
                                        c.1 as int,
                                        next.0 as int,
                                        next.1 as int,
                                        self.width(),
                                    );
                                    assert(block@[before.len() as int] == c);
                                } else {
                                    assert(marks[self.spec_index(c)] <==> before.contains(c));
                                    if block@.contains(c) {
                                        let at = choose|at: int|
                                            0 <= at < block@.len() && block@[at] == c;
                                        if at == before.len() {
                                            assert(c == next);
                                        } else {
                                            assert(before[at] == c);
                                        }
                                    }
                                }
                            }
                        }
                    } else {
                        proof {
                            if self.color_at(next) == start_color {
                                assert(marked@[self.spec_index(next)]);
                                assert(block@.contains(next));
                            }
                        }
                    }
                },
                None => {},
            }
            side += 1;
        }
        proof {
            assert forall|n: Coords|
                self.in_bounds(n) && #[trigger] adjacent(coords, n) && self.color_at(n)
                    == self.color_at(block@[0]) implies block@.contains(n) by {
                let spots = self.spec_neighbors(coords);
                assert(spots[0] == Some(n) || spots[1] == Some(n) || spots[2] == Some(n)
                    || spots[3] == Some(n));
                assert(around@[0] == spots[0]);
                assert(around@[1] == spots[1]);
                assert(around@[2] == spots[2]);
                assert(around@[3] == spots[3]);
            }
        }
    }

    /// Find the coordinates of a contiguous area of codels of the same
    /// color, starting from a coordinate: each codel of the block once, the
    /// start first.
    pub fn color_block(&self, start: Coords) -> (block: Vec<Coords>)
        requires
            self.wf(),
            self.in_bounds(start),
        ensures
            block@.no_duplicates(),
            block@.to_set() == self.spec_block(start),
            block@.len() > 0,
            block@[0] == start,
    {
        let total = self.image.len();
        let mut marked: Vec<bool> = Vec::with_capacity(total);
        let mut filled: usize = 0;
        while filled < total
            invariant
                filled <= total,
                marked@.len() == filled,
                forall|i: int| 0 <= i < filled ==> !marked@[i],
            decreases total - filled,
        {
            marked.push(false);
            filled += 1;
        }
        let mut block: Vec<Coords> = Vec::new();
        let first = self.coords_to_index(start).unwrap();
        let start_color = self.image[first];
        proof {
            lemma_count_true_none(marked@);
            lemma_count_true_mark(marked@, first as int);
            self.lemma_connected_reflexive(start);
        }
        marked.set(first, true);
        block.push(start);
        proof {
            assert(block@ =~= seq![start]);
            assert forall|c: Coords| self.in_bounds(c) implies (marked@[self.spec_index(c)]
                <==> #[trigger] block@.contains(c)) by {
                lemma_index_bound(c.0 as int, c.1 as int, self.width(), self.height());
                if self.spec_index(c) == first {
                    lemma_index_injective(
                        c.0 as int,
                        c.1 as int,
                        start.0 as int,
                        start.1 as int,
                        self.width(),
                    );
                    assert(block@[0] == c);
                }
            }
        }
        let mut done: usize = 0;
        while done < block.len()
            invariant
                self.filling(marked@, block@),
                total == self.cells().len(),
                block@[0] == start,
                start_color == self.color_at(start),
                done <= block@.len(),
                forall|j: int| 0 <= j < done ==> self.settled(block@, #[trigger] block@[j]),
            decreases total - done,
        {
            proof {
                lemma_count_true_bound(marked@);
            }
            let ghost before = block@;
            let current = block[done];
            self.mark_blocks(current, start_color, &mut marked, &mut block);
            proof {
                assert forall|c: Coords| before.contains(c) implies block@.contains(c) by {
                    let at = choose|at: int| 0 <= at < before.len() && before[at] == c;
                    assert(block@.subrange(0, before.len() as int)[at] == c);
                }
                assert forall|j: int| 0 <= j <= done implies self.settled(
                    block@,
                    #[trigger] block@[j],
                ) by {
                    assert(block@.subrange(0, before.len() as int)[j] == before[j]);
                    if j < done {
                        assert(self.settled(before, before[j]));
                    }
                }
            }
            done += 1;
        }
        proof {
            assert(self.closed_under_neighbors(block@, self.color_at(start))) by {
                assert forall|c: Coords, n: Coords|
                    block@.contains(c) && self.in_bounds(n) && #[trigger] adjacent(c, n)
                        && self.color_at(n) == self.color_at(start) implies block@.contains(n) by {
                    let at = choose|at: int| 0 <= at < block@.len() && block@[at] == c;
                    assert(self.settled(block@, block@[at]));
                }
            }
            assert forall|c: Coords| block@.to_set().contains(c) == self.spec_block(
                start,
            ).contains(c) by {
                if block@.contains(c) {
                    let at = choose|at: int| 0 <= at < block@.len() && block@[at] == c;
                    assert(self.connected(start, block@[at]));
                }
                if self.connected(start, c) {
                    let path = choose|path: Seq<Coords>| #[trigger]
                        self.is_path(path) && path[0] == start && path.last() == c;
                    self.lemma_closed_holds_path(block@, path, path.len() - 1);
                }
            }
            assert(block@.to_set() =~= self.spec_block(start));
        }
        block
    }
}

} // verus!
