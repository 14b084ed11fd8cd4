//! The twenty colours of Piet and the shifts between them.

use vstd::prelude::*;
use crate::arith::mod_floor;

verus! {

/// A colour's hue, in the order of the hue cycle.
#[derive(Debug, Clone, Copy, PartialEq, Eq, Structural)]
pub enum Hue {
    Red,
    Yellow,
    Green,
    Cyan,
    Blue,
    Magenta,
}

impl Hue {
    /// The hue's place in the cycle, from 0 for red to 5 for magenta.
    pub open spec fn index(self) -> int {
        match self {
            Hue::Red => 0,
            Hue::Yellow => 1,
            Hue::Green => 2,
            Hue::Cyan => 3,
            Hue::Blue => 4,
            Hue::Magenta => 5,
        }
    }

    /// The number of steps round the hue cycle that lead from `from` to `to`.
    pub open spec fn spec_shift(from: Hue, to: Hue) -> int {
        (to.index() - from.index()) % 6
    }

    fn ordinal(self) -> (r: i64)
        ensures
            r == self.index(),
    {
        match self {
            Hue::Red => 0,
            Hue::Yellow => 1,
            Hue::Green => 2,
            Hue::Cyan => 3,
            Hue::Blue => 4,
            Hue::Magenta => 5,
        }
    }

    /// Calculate the change in hue between two hues.
    pub fn shift(from: Hue, to: Hue) -> (r: u8)
        ensures
            r == Hue::spec_shift(from, to),
            r < 6,
    {
        let steps: i64 = mod_floor(to.ordinal() - from.ordinal(), 6);
        steps as u8
    }

    /// Going from one hue to another and back is a whole number of turns
    /// round the cycle, and each shift is one of 0 to 5.
    pub proof fn lemma_shift_round_trip(a: Hue, b: Hue)
        ensures
            0 <= Hue::spec_shift(a, b) < 6,
            (Hue::spec_shift(a, b) + Hue::spec_shift(b, a)) % 6 == 0,
    {
    }
}

/// A colour's lightness, from light to dark.
#[derive(Debug, Clone, Copy, PartialEq, Eq, Structural)]
pub enum Lightness {
    Light,
    Normal,
    Dark,
}

impl Lightness {
    /// The lightness's place in the cycle, from 0 for light to 2 for dark.
    pub open spec fn index(self) -> int {
        match self {
            Lightness::Light => 0,
            Lightness::Normal => 1,
            Lightness::Dark => 2,
        }
    }

    /// The number of steps darker, round the cycle, from `from` to `to`.
    pub open spec fn spec_shift(from: Lightness, to: Lightness) -> int {
        (to.index() - from.index()) % 3
    }

    fn ordinal(self) -> (r: i64)
        ensures
            r == self.index(),
    {
        match self {
            Lightness::Light => 0,
            Lightness::Normal => 1,
            Lightness::Dark => 2,
        }
    }

    /// Calculate the change in lightness between two lightness values.
    pub fn shift(from: Lightness, to: Lightness) -> (r: u8)
        ensures
            r == Lightness::spec_shift(from, to),
            r < 3,
    {
        let steps: i64 = mod_floor(to.ordinal() - from.ordinal(), 3);
        steps as u8
    }

    /// Going from one lightness to another and back is a whole number of
    /// turns round the cycle, and each shift is one of 0 to 2.
    pub proof fn lemma_shift_round_trip(a: Lightness, b: Lightness)
        ensures
            0 <= Lightness::spec_shift(a, b) < 3,
            (Lightness::spec_shift(a, b) + Lightness::spec_shift(b, a)) % 3 == 0,
    {
    }
}

/// A color, as interpreted by Piet.
#[derive(Debug, Clone, Copy, PartialEq, Eq, Structural)]
pub enum Color {
    Composite(Hue, Lightness),
    Black,
    White,
}

impl Color {
    /// The red, green and blue levels of a composite colour. A hue lights
    /// one channel or two; the lightness sets the level of the lit channels
    /// and of the others.
    pub open spec fn rgb(hue: Hue, lightness: Lightness) -> (u8, u8, u8) {
        let (on, off): (u8, u8) = match lightness {
            Lightness::Light => (0xff, 0xc0),
            Lightness::Normal => (0xff, 0x00),
            Lightness::Dark => (0xc0, 0x00),
        };
        match hue {
            Hue::Red => (on, off, off),
            Hue::Yellow => (on, on, off),
            Hue::Green => (off, on, off),
            Hue::Cyan => (off, on, on),
            Hue::Blue => (off, off, on),
            Hue::Magenta => (on, off, on),
        }
    }

    /// The colour that an RGB triplet stands for: the composite colour with
    /// these levels if there is one, black for no light at all, and white for
    /// everything else.
    pub open spec fn spec_from_rgb(r: u8, g: u8, b: u8) -> Color {
        if exists|h: Hue, l: Lightness| Color::rgb(h, l) == (r, g, b) {
            let (h, l) = choose|h: Hue, l: Lightness| Color::rgb(h, l) == (r, g, b);
            Color::Composite(h, l)
        } else if (r, g, b) == (0u8, 0u8, 0u8) {
            Color::Black
        } else {
            Color::White
        }
    }

    /// No two composite colours share their levels.
    pub proof fn lemma_rgb_injective(h1: Hue, l1: Lightness, h2: Hue, l2: Lightness)
        requires
            Color::rgb(h1, l1) == Color::rgb(h2, l2),
        ensures
            h1 == h2,
            l1 == l2,
    {
    }

    /// Create a color from an RGB triplet.
    pub fn from_rgb(r: u8, g: u8, b: u8) -> (c: Color)
        ensures
            c == Color::spec_from_rgb(r, g, b),
            (match c {
                Color::Composite(h, l) => Color::rgb(h, l) == (r, g, b),
                Color::Black => (r, g, b) == (0u8, 0u8, 0u8),
                Color::White => (r, g, b) != (0u8, 0u8, 0u8),
            }),
            forall|h: Hue, l: Lightness| #[trigger]
                Color::rgb(h, l) == (r, g, b) ==> c == Color::Composite(h, l),
    {
        let c = match (r, g, b) {
            (0xff, 0xc0, 0xc0) => Color::Composite(Hue::Red, Lightness::Light),
            (0xff, 0xff, 0xc0) => Color::Composite(Hue::Yellow, Lightness::Light),
            (0xc0, 0xff, 0xc0) => Color::Composite(Hue::Green, Lightness::Light),
            (0xc0, 0xff, 0xff) => Color::Composite(Hue::Cyan, Lightness::Light),
            (0xc0, 0xc0, 0xff) => Color::Composite(Hue::Blue, Lightness::Light),
            (0xff, 0xc0, 0xff) => Color::Composite(Hue::Magenta, Lightness::Light),
            (0xff, 0x00, 0x00) => Color::Composite(Hue::Red, Lightness::Normal),
            (0xff, 0xff, 0x00) => Color::Composite(Hue::Yellow, Lightness::Normal),
            (0x00, 0xff, 0x00) => Color::Composite(Hue::Green, Lightness::Normal),
            (0x00, 0xff, 0xff) => Color::Composite(Hue::Cyan, Lightness::Normal),
            (0x00, 0x00, 0xff) => Color::Composite(Hue::Blue, Lightness::Normal),
            (0xff, 0x00, 0xff) => Color::Composite(Hue::Magenta, Lightness::Normal),
            (0xc0, 0x00, 0x00) => Color::Composite(Hue::Red, Lightness::Dark),
            (0xc0, 0xc0, 0x00) => Color::Composite(Hue::Yellow, Lightness::Dark),
            (0x00, 0xc0, 0x00) => Color::Composite(Hue::Green, Lightness::Dark),
            (0x00, 0xc0, 0xc0) => Color::Composite(Hue::Cyan, Lightness::Dark),
            (0x00, 0x00, 0xc0) => Color::Composite(Hue::Blue, Lightness::Dark),
            (0xc0, 0x00, 0xc0) => Color::Composite(Hue::Magenta, Lightness::Dark),
            (0x00, 0x00, 0x00) => Color::Black,
            _ => Color::White,
        };
        proof {
            match c {
                Color::Composite(h, l) => {
                    assert(Color::rgb(h, l) == (r, g, b));
                    let (h2, l2) = choose|h: Hue, l: Lightness| Color::rgb(h, l) == (r, g, b);
                    Color::lemma_rgb_injective(h, l, h2, l2);
                },
                _ => {
                    assert forall|h: Hue, l: Lightness| Color::rgb(h, l) != (r, g, b) by {}
                },
            }
            assert forall|h: Hue, l: Lightness| #[trigger]
                Color::rgb(h, l) == (r, g, b) implies c == Color::Composite(h, l) by {
                if Color::rgb(h, l) == (r, g, b) {
                    match c {
                        Color::Composite(h2, l2) => {
                            Color::lemma_rgb_injective(h, l, h2, l2);
                        },
                        _ => {},
                    }
                }
            }
        }
        c
    }

    /// The hue shift and the lightness shift between two composite colours;
    /// nothing where either side is black or white.
    pub open spec fn spec_transition(from: Color, to: Color) -> Option<(u8, u8)> {
        match (from, to) {
            (Color::Composite(from_h, from_l), Color::Composite(to_h, to_l)) => Some(
                (
                    Hue::spec_shift(from_h, to_h) as u8,
                    Lightness::spec_shift(from_l, to_l) as u8,
                ),
            ),
            _ => None,
        }
    }

    /// Calculate the transition between two colors.
    pub fn transition(from: Color, to: Color) -> (t: Option<(u8, u8)>)
        ensures
            t == Color::spec_transition(from, to),
            t is Some <==> from is Composite && to is Composite,
            (match t {
                Some((hue, lightness)) => hue < 6 && lightness < 3,
                None => true,
            }),
    {
        match (from, to) {
            (Color::Composite(from_h, from_l), Color::Composite(to_h, to_l)) => Some(
                (Hue::shift(from_h, to_h), Lightness::shift(from_l, to_l)),
            ),
            _ => None,
        }
    }

    /// Black and white take part in no transition, on either side.
    pub proof fn lemma_transition_none(c: Color)
        ensures
            Color::spec_transition(Color::Black, c) is None,
            Color::spec_transition(c, Color::Black) is None,
            Color::spec_transition(Color::White, c) is None,
            Color::spec_transition(c, Color::White) is None,
    {
    }
}

} // verus!
