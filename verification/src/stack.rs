//! The operand stack: signed 64-bit integers, the top at the end.

use vstd::prelude::*;

verus! {

/// Piet's stack. Its view is the sequence of its values from the bottom to
/// the top.
#[derive(Debug, PartialEq, Eq)]
pub struct Stack(Vec<i64>);

impl View for Stack {
    type V = Seq<i64>;

    closed spec fn view(&self) -> Seq<i64> {
        self.0@
    }
}

/// A stack after a roll: the top `depth` values turned by `times` places, so
/// that with one place the top value sinks below the `depth - 1` values under
/// it. A depth of zero or beyond the stack's length leaves the stack alone,
/// and only `times` modulo `depth` counts.
pub open spec fn spec_roll(s: Seq<i64>, depth: int, times: int) -> Seq<i64> {
    if depth <= 0 || depth > s.len() {
        s
    } else {
        let turn = times % depth;
        let base = s.len() - depth;
        let split = s.len() - turn;
        s.subrange(0, base) + s.subrange(split, s.len() as int) + s.subrange(base, split)
    }
}

/// The remainder of the opposite number: zero where that of `times` is
/// zero, and else what it lacks to `depth`.
proof fn lemma_mod_negate(times: int, depth: int)
    requires
        depth > 0,
    ensures
        times % depth == 0 ==> (-times) % depth == 0,
        times % depth != 0 ==> (-times) % depth == depth - times % depth,
{
    let q = times / depth;
    let r = times % depth;
    vstd::arithmetic::div_mod::lemma_fundamental_div_mod(times, depth);
    vstd::arithmetic::div_mod::lemma_mod_bound(times, depth);
    if r == 0 {
        assert(-times == depth * (-q) + 0) by (nonlinear_arith)
            requires
                times == depth * q + r,
                r == 0,
        ;
        vstd::arithmetic::div_mod::lemma_fundamental_div_mod_converse(-times, depth, -q, 0);
    } else {
        assert(-times == depth * (-q - 1) + (depth - r)) by (nonlinear_arith)
            requires
                times == depth * q + r,
        ;
        vstd::arithmetic::div_mod::lemma_fundamental_div_mod_converse(
            -times,
            depth,
            -q - 1,
            depth - r,
        );
    }
}

/// A roll by as many places as it is deep changes nothing.
pub proof fn lemma_roll_full_turn(s: Seq<i64>, depth: int)
    requires
        depth <= s.len(),
    ensures
        spec_roll(s, depth, depth) == s,
{
    if depth > 0 {
        assert(depth % depth == 0) by (nonlinear_arith)
            requires
                depth > 0,
        ;
        assert(spec_roll(s, depth, depth) =~= s);
    }
}

/// A roll undoes the roll of the same depth by the opposite number of
/// places.
pub proof fn lemma_roll_inverse(s: Seq<i64>, depth: int, times: int)
    requires
        depth <= s.len(),
    ensures
        spec_roll(spec_roll(s, depth, -times), depth, times) == s,
        spec_roll(spec_roll(s, depth, times), depth, -times) == s,
{
    if depth > 0 {
        lemma_mod_negate(times, depth);
        vstd::arithmetic::div_mod::lemma_mod_bound(times, depth);
        vstd::arithmetic::div_mod::lemma_mod_bound(-times, depth);
        assert(spec_roll(spec_roll(s, depth, -times), depth, times) =~= s);
        assert(spec_roll(spec_roll(s, depth, times), depth, -times) =~= s);
    }
}

/// Only the number of places modulo the depth counts.
pub proof fn lemma_roll_modulo(s: Seq<i64>, depth: int, times: int)
    requires
        depth <= s.len(),
    ensures
        spec_roll(s, depth, times) == spec_roll(s, depth, times % depth),
{
    if depth > 0 {
        vstd::arithmetic::div_mod::lemma_mod_twice(times, depth);
    }
}

impl Stack {
    /// An empty stack.
    pub fn new() -> (s: Self)
        ensures
            s@ == Seq::<i64>::empty(),
    {
        Stack(Vec::new())
    }

    /// A stack that holds the values of `vec`, the last of them on top.
    pub fn from_vec(vec: Vec<i64>) -> (s: Self)
        ensures
            s@ == vec@,
    {
        Stack(vec)
    }

    /// The values from the bottom to the top.
    pub fn to_vec(&self) -> (v: Vec<i64>)
        ensures
            v@ == self@,
    {
        self.0.clone()
    }

    /// The number of values on the stack.
    pub fn len(&self) -> (n: usize)
        ensures
            n == self@.len(),
    {
        self.0.len()
    }

    /// Put a value on top.
    pub fn push(&mut self, value: i64)
        ensures
            final(self)@ == old(self)@.push(value),
    {
        self.0.push(value);
    }

    /// Take the top value off, if there is one.
    pub fn pop(&mut self) -> (r: Option<i64>)
        ensures
            old(self)@.len() == 0 ==> r is None && final(self)@ == old(self)@,
            old(self)@.len() > 0 ==> r == Some(old(self)@.last()) && final(self)@ == old(
                self,
            )@.drop_last(),
    {
        self.0.pop()
    }

    /// The top value, if there is one.
    pub fn peek(&self) -> (r: Option<&i64>)
        ensures
            self@.len() == 0 ==> r is None,
            self@.len() > 0 ==> r == Some(&self@.last()),
    {
        let len = self.0.len();
        if len == 0 {
            None
        } else {
            Some(&self.0[len - 1])
        }
    }

    /// Replace the top value by what `function` makes of it; an empty stack
    /// stays empty.
    pub fn map_top<F>(&mut self, function: F) where F: Fn(i64) -> i64
        requires
            old(self)@.len() > 0 ==> function.requires((old(self)@.last(),)),
        ensures
            final(self)@.len() == old(self)@.len(),
            final(self)@.len() > 0 ==> final(self)@.drop_last() == old(self)@.drop_last()
                && function.ensures((old(self)@.last(),), final(self)@.last()),
    {
        let len = self.0.len();
        if len > 0 {
            let top = self.0[len - 1];
            let value = function(top);
            self.0.set(len - 1, value);
            assert(self.0@.drop_last() =~= old(self).0@.drop_last());
        }
    }

    /// Replace the two top values by what `function` makes of them, the
    /// second from the top as its first argument and the top as its second.
    /// A stack of fewer than two values is left as it is.
    pub fn fold_top<F>(&mut self, function: F) where F: Fn(i64, i64) -> i64
        requires
            old(self)@.len() >= 2 ==> function.requires(
                (old(self)@[old(self)@.len() - 2], old(self)@.last()),
            ),
        ensures
            old(self)@.len() < 2 ==> final(self)@ == old(self)@,
            old(self)@.len() >= 2 ==> final(self)@.len() == old(self)@.len() - 1
                && final(self)@.drop_last() == old(self)@.subrange(0, old(self)@.len() - 2)
                && function.ensures(
                (old(self)@[old(self)@.len() - 2], old(self)@.last()),
                final(self)@.last(),
            ),
    {
        let len = self.0.len();
        if len >= 2 {
            let top = self.0[len - 1];
            let second = self.0[len - 2];
            let value = function(second, top);
            self.0.pop();
            self.0.set(len - 2, value);
            assert(self.0@.drop_last() =~= old(self).0@.subrange(0, len - 2));
        }
    }

    /// Take the two top values off: the top first, then the one below it.
    pub fn pop2(&mut self) -> (r: (Option<i64>, Option<i64>))
        ensures
            old(self)@.len() == 0 ==> r == (None::<i64>, None::<i64>) && final(self)@ == old(
                self,
            )@,
            old(self)@.len() == 1 ==> r == (Some(old(self)@[0]), None::<i64>) && final(self)@
                == Seq::<i64>::empty(),
            old(self)@.len() >= 2 ==> r == (
                Some(old(self)@.last()),
                Some(old(self)@[old(self)@.len() - 2]),
            ) && final(self)@ == old(self)@.subrange(0, old(self)@.len() - 2),
    {
        let first = self.0.pop();
        let second = self.0.pop();
        assert(old(self)@.len() >= 2 ==> self.0@ =~= old(self)@.subrange(
            0,
            old(self)@.len() - 2,
        ));
        assert(old(self)@.len() == 1 ==> self.0@ =~= Seq::<i64>::empty());
        (first, second)
    }

    /// Turn the top `depth` values by `times` places: with one place the top
    /// value sinks below the `depth - 1` values under it, with minus one the
    /// lowest of them rises to the top. A depth beyond the stack's length is
    /// ignored.
    pub fn roll(&mut self, depth: usize, times: i64)
        ensures
            final(self)@ == spec_roll(old(self)@, depth as int, times as int),
    {
        let len = self.0.len();
        if depth == 0 || depth > len {
            return ;
        }
        let turn: usize = if times >= 0 {
            ((times as u64) % (depth as u64)) as usize
        } else {
            let back: u64 = ((-(times + 1)) as u64 + 1) % (depth as u64);
            proof {
                lemma_mod_negate(-(times as int), depth as int);
            }
            if back == 0 {
                0
            } else {
                depth - (back as usize)
            }
        };
        assert(turn == (times as int) % (depth as int));
        let base = len - depth;
        let split = len - turn;
        let ghost rolled = spec_roll(old(self)@, depth as int, times as int);
        let mut out: Vec<i64> = Vec::with_capacity(len);
        let mut i: usize = 0;
        while i < len
            invariant
                i <= len,
                len == self.0@.len(),
                self.0@ == old(self)@,
                0 < depth <= len,
                turn < depth,
                base == len - depth,
                split == len - turn,
                rolled == old(self)@.subrange(0, base as int) + old(self)@.subrange(
                    split as int,
                    len as int,
                ) + old(self)@.subrange(base as int, split as int),
                out@ == rolled.subrange(0, i as int),
            decreases len - i,
        {
            let from = if i < base {
                i
            } else if i < base + turn {
                i - base + split
            } else {
                i - turn
            };
            out.push(self.0[from]);
            i += 1;
            assert(out@ =~= rolled.subrange(0, i as int));
        }
        assert(out@ =~= rolled);
        self.0 = out;
    }
}

} // verus!
