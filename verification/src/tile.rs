//! The tile model: a square tile with four colored sides, and the pairwise
//! compatibility predicates that the placement rules are built from.

use vstd::prelude::*;

verus! {

/// A side color. A closed set of labels with value equality and no further
/// structure.
#[derive(PartialEq, Eq, Structural, Clone, Copy, Debug)]
pub enum Color {
    Red,
    Orange,
    Purple,
    Yellow,
    Turquoise,
    Pink,
    Blue,
    White,
    DarkGreen,
    LightGreen,
    Brown,
}

/// One square tile: four colors, named by board orientation. Immutable once
/// constructed; a tile has no identity beyond its four colors.
#[derive(PartialEq, Eq, Structural, Clone, Copy, Debug)]
pub struct Block {
    pub top: Color,
    pub right: Color,
    pub bottom: Color,
    pub left: Color,
}

/// `a` may sit directly above `b`: the bottom side of `a` matches the top
/// side of `b`.
pub open spec fn stacks_above(a: Block, b: Block) -> bool {
    a.bottom == b.top
}

/// `a` may sit directly to the left of `b`: the right side of `a` matches the
/// left side of `b`.
pub open spec fn adjoins_left_of(a: Block, b: Block) -> bool {
    a.right == b.left
}

impl Block {
    /// Constructs a tile from its four side colors in (top, right, bottom,
    /// left) order.
    pub fn new(top: Color, right: Color, bottom: Color, left: Color) -> (r: Self)
        ensures
            r == (Block { top, right, bottom, left }),
    {
        Self { top, right, bottom, left }
    }

    /// Whether `self` may sit directly above `below`.
    pub fn above(&self, below: &Self) -> (r: bool)
        ensures
            r == stacks_above(*self, *below),
    {
        self.bottom == below.top
    }

    /// Whether `self` may sit directly to the left of `right`.
    pub fn left_of(&self, right: &Self) -> (r: bool)
        ensures
            r == adjoins_left_of(*self, *right),
    {
        self.right == right.left
    }
}

} // verus!
