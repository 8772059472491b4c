//! The fixed puzzle instances: a stateless catalog mapping each puzzle
//! identifier to its list of sixteen tiles for the 4-by-4 board.

use vstd::prelude::*;

use crate::tile::Block;
use crate::tile::Color;

verus! {

/// A tile written as its four side colors in (top, right, bottom, left) order.
pub open spec fn blk(top: Color, right: Color, bottom: Color, left: Color) -> Block {
    Block { top, right, bottom, left }
}

/// The identifier of a fixed puzzle instance.
#[derive(PartialEq, Eq, Structural, Clone, Copy, Debug)]
pub enum Puzzle {
    Three,
    Four,
}

/// The tile list of each puzzle instance, in input (placement) order.
pub open spec fn spec_blocks(p: Puzzle) -> Seq<Block> {
    match p {
        Puzzle::Three => seq![
            blk(Color::LightGreen, Color::Pink, Color::Turquoise, Color::Red),
            blk(Color::Purple, Color::DarkGreen, Color::Pink, Color::Purple),
            blk(Color::Orange, Color::Purple, Color::Turquoise, Color::Yellow),
            blk(Color::Blue, Color::Purple, Color::Blue, Color::Turquoise),
            blk(Color::Yellow, Color::Brown, Color::Red, Color::Orange),
            blk(Color::Turquoise, Color::Orange, Color::DarkGreen, Color::Turquoise),
            blk(Color::White, Color::Red, Color::Pink, Color::LightGreen),
            blk(Color::DarkGreen, Color::Turquoise, Color::Blue, Color::Pink),
            blk(Color::Brown, Color::Red, Color::Brown, Color::Pink),
            blk(Color::Blue, Color::DarkGreen, Color::Yellow, Color::Purple),
            blk(Color::Purple, Color::Turquoise, Color::LightGreen, Color::Blue),
            blk(Color::Turquoise, Color::Turquoise, Color::Red, Color::LightGreen),
            blk(Color::Pink, Color::LightGreen, Color::DarkGreen, Color::Yellow),
            blk(Color::Brown, Color::Blue, Color::White, Color::Orange),
            blk(Color::Red, Color::White, Color::Purple, Color::Turquoise),
            blk(Color::Orange, Color::Yellow, Color::Purple, Color::Red),
        ],
        Puzzle::Four => seq![
            blk(Color::Red, Color::Red, Color::Orange, Color::Purple),
            blk(Color::Red, Color::DarkGreen, Color::Yellow, Color::Orange),
            blk(Color::Orange, Color::Turquoise, Color::Pink, Color::Red),
            blk(Color::Yellow, Color::Blue, Color::Red, Color::Orange),
            blk(Color::Pink, Color::Pink, Color::LightGreen, Color::Yellow),
            blk(Color::Red, Color::Red, Color::Turquoise, Color::Purple),
            blk(Color::LightGreen, Color::LightGreen, Color::Turquoise, Color::Red),
            blk(Color::Turquoise, Color::Orange, Color::Blue, Color::Orange),
            blk(Color::Blue, Color::Purple, Color::White, Color::Yellow),
            blk(Color::Purple, Color::Orange, Color::Yellow, Color::Red),
            blk(Color::White, Color::Red, Color::Orange, Color::Turquoise),
            blk(Color::Yellow, Color::Orange, Color::DarkGreen, Color::Turquoise),
            blk(Color::Orange, Color::Yellow, Color::Yellow, Color::Pink),
            blk(Color::DarkGreen, Color::Purple, Color::Purple, Color::Pink),
            blk(Color::Yellow, Color::Red, Color::Orange, Color::White),
            blk(Color::Purple, Color::Orange, Color::Yellow, Color::LightGreen),
        ],
    }
}

impl Puzzle {
    /// The sixteen tiles of this puzzle instance, in input order.
    pub fn blocks(&self) -> (r: Vec<Block>)
        ensures
            r@ == spec_blocks(*self),
            r@.len() == 16,
    {
        let mut v: Vec<Block> = Vec::new();
        match self {
            Puzzle::Three => {
                v.push(Block::new(Color::LightGreen, Color::Pink, Color::Turquoise, Color::Red));
                v.push(Block::new(Color::Purple, Color::DarkGreen, Color::Pink, Color::Purple));
                v.push(Block::new(Color::Orange, Color::Purple, Color::Turquoise, Color::Yellow));
                v.push(Block::new(Color::Blue, Color::Purple, Color::Blue, Color::Turquoise));
                v.push(Block::new(Color::Yellow, Color::Brown, Color::Red, Color::Orange));
                v.push(
                    Block::new(Color::Turquoise, Color::Orange, Color::DarkGreen, Color::Turquoise),
                );
                v.push(Block::new(Color::White, Color::Red, Color::Pink, Color::LightGreen));
                v.push(Block::new(Color::DarkGreen, Color::Turquoise, Color::Blue, Color::Pink));
                v.push(Block::new(Color::Brown, Color::Red, Color::Brown, Color::Pink));
                v.push(Block::new(Color::Blue, Color::DarkGreen, Color::Yellow, Color::Purple));
                v.push(Block::new(Color::Purple, Color::Turquoise, Color::LightGreen, Color::Blue));
                v.push(
                    Block::new(Color::Turquoise, Color::Turquoise, Color::Red, Color::LightGreen),
                );
                v.push(Block::new(Color::Pink, Color::LightGreen, Color::DarkGreen, Color::Yellow));
                v.push(Block::new(Color::Brown, Color::Blue, Color::White, Color::Orange));
                v.push(Block::new(Color::Red, Color::White, Color::Purple, Color::Turquoise));
                v.push(Block::new(Color::Orange, Color::Yellow, Color::Purple, Color::Red));
            },
            Puzzle::Four => {
                v.push(Block::new(Color::Red, Color::Red, Color::Orange, Color::Purple));
                v.push(Block::new(Color::Red, Color::DarkGreen, Color::Yellow, Color::Orange));
                v.push(Block::new(Color::Orange, Color::Turquoise, Color::Pink, Color::Red));
                v.push(Block::new(Color::Yellow, Color::Blue, Color::Red, Color::Orange));
                v.push(Block::new(Color::Pink, Color::Pink, Color::LightGreen, Color::Yellow));
                v.push(Block::new(Color::Red, Color::Red, Color::Turquoise, Color::Purple));
                v.push(
                    Block::new(Color::LightGreen, Color::LightGreen, Color::Turquoise, Color::Red),
                );
                v.push(Block::new(Color::Turquoise, Color::Orange, Color::Blue, Color::Orange));
                v.push(Block::new(Color::Blue, Color::Purple, Color::White, Color::Yellow));
                v.push(Block::new(Color::Purple, Color::Orange, Color::Yellow, Color::Red));
                v.push(Block::new(Color::White, Color::Red, Color::Orange, Color::Turquoise));
                v.push(Block::new(Color::Yellow, Color::Orange, Color::DarkGreen, Color::Turquoise));
                v.push(Block::new(Color::Orange, Color::Yellow, Color::Yellow, Color::Pink));
                v.push(Block::new(Color::DarkGreen, Color::Purple, Color::Purple, Color::Pink));
                v.push(Block::new(Color::Yellow, Color::Red, Color::Orange, Color::White));
                v.push(Block::new(Color::Purple, Color::Orange, Color::Yellow, Color::LightGreen));
            },
        }
        proof {
            assert(v@ =~= spec_blocks(*self));
        }
        v
    }
}

} // verus!
