use edgematch::search;
use edgematch::solve;
use edgematch::Block;
use edgematch::Color;
use edgematch::Grid;
use edgematch::Puzzle;
use edgematch::SolveError;

fn tile(top: Color, right: Color, bottom: Color, left: Color) -> Block {
    Block::new(top, right, bottom, left)
}

// A 2-by-2 instance built so that placing the tiles in input order at
// (0,0), (0,1), (1,0), (1,1) satisfies all four internal edges.
fn solvable_two_by_two() -> Vec<Block> {
    vec![
        tile(Color::Red, Color::Red, Color::Blue, Color::Blue),
        tile(Color::Blue, Color::DarkGreen, Color::Red, Color::Red),
        tile(Color::Blue, Color::Blue, Color::Blue, Color::DarkGreen),
        tile(Color::Red, Color::Blue, Color::Red, Color::Blue),
    ]
}

// A 2-by-2 instance with one tile whose right color (White) matches no other
// tile's left color, and whose left color (Blue) matches no other tile's
// right color: that tile can never take a horizontal neighbor, so the board
// cannot be filled.
fn unsolvable_two_by_two() -> Vec<Block> {
    vec![
        tile(Color::Red, Color::Red, Color::Red, Color::Red),
        tile(Color::Red, Color::Red, Color::Red, Color::Red),
        tile(Color::Red, Color::Red, Color::Red, Color::Red),
        tile(Color::Red, Color::White, Color::Red, Color::Blue),
    ]
}

#[test]
fn stacks_above_is_bottom_top_match() {
    let a = tile(Color::Red, Color::Orange, Color::Blue, Color::Pink);
    let b = tile(Color::Blue, Color::White, Color::Yellow, Color::Brown);
    let c = tile(Color::Red, Color::White, Color::Yellow, Color::Brown);
    assert!(a.above(&b));
    assert!(!a.above(&c));
    assert!(!b.above(&a));
}

#[test]
fn adjoins_left_of_is_right_left_match() {
    let a = tile(Color::Red, Color::Orange, Color::Blue, Color::Pink);
    let b = tile(Color::Blue, Color::White, Color::Yellow, Color::Orange);
    let c = tile(Color::Blue, Color::White, Color::Yellow, Color::Brown);
    assert!(a.left_of(&b));
    assert!(!a.left_of(&c));
    assert!(!b.left_of(&a));
}

#[test]
fn all_positions_row_major() {
    let v = Grid::all_positions(2);
    assert_eq!(v, vec![(0, 0), (0, 1), (1, 0), (1, 1)]);
}

#[test]
fn remaining_positions_skips_occupied() {
    let g = Grid::new(2);
    assert_eq!(g.remaining_positions(), vec![(0, 0), (0, 1), (1, 0), (1, 1)]);
    let b = tile(Color::Red, Color::Red, Color::Red, Color::Red);
    let g1 = g.try_place(&b, (0, 1)).unwrap();
    assert_eq!(g1.remaining_positions(), vec![(0, 0), (1, 0), (1, 1)]);
}

#[test]
fn neighbors_are_looked_up_by_direction() {
    let g = Grid::new(2);
    let b = tile(Color::Red, Color::Orange, Color::Blue, Color::Pink);
    let g1 = g.try_place(&b, (0, 0)).unwrap();
    assert_eq!(g1.above((1, 0)), Some(b));
    assert_eq!(g1.left((0, 1)), Some(b));
    assert_eq!(g1.below((0, 0)), None);
    assert_eq!(g1.right((0, 0)), None);
    assert_eq!(g1.above((0, 0)), None);
    assert_eq!(g1.left((0, 0)), None);
}

#[test]
fn try_place_enforces_edge_match() {
    let g = Grid::new(2);
    let a = tile(Color::Red, Color::Orange, Color::Blue, Color::Pink);
    let g1 = g.try_place(&a, (0, 0)).unwrap();
    // Right neighbor of a must have left == a.right == Orange.
    let ok = tile(Color::Red, Color::Red, Color::Red, Color::Orange);
    let bad = tile(Color::Red, Color::Red, Color::Red, Color::Brown);
    assert!(g1.try_place(&ok, (0, 1)).is_some());
    assert!(g1.try_place(&bad, (0, 1)).is_none());
    // Below a, the top must match a.bottom == Blue.
    let ok2 = tile(Color::Blue, Color::Red, Color::Red, Color::Red);
    let bad2 = tile(Color::White, Color::Red, Color::Red, Color::Red);
    assert!(g1.try_place(&ok2, (1, 0)).is_some());
    assert!(g1.try_place(&bad2, (1, 0)).is_none());
}

#[test]
fn try_place_occupied_always_fails() {
    let g = Grid::new(2);
    let b = tile(Color::Red, Color::Red, Color::Red, Color::Red);
    let g1 = g.try_place(&b, (0, 0)).unwrap();
    // Even a tile that matches all neighbors is refused on an occupied cell.
    assert!(g1.try_place(&b, (0, 0)).is_none());
}

#[test]
fn try_place_never_mutates_receiver() {
    let g = Grid::new(2);
    let b = tile(Color::Red, Color::Orange, Color::Blue, Color::Pink);
    let before = g.remaining_positions();
    let placed = g.try_place(&b, (0, 0));
    assert!(placed.is_some());
    // The receiver's occupied-cell mapping is unchanged by success...
    assert_eq!(g.remaining_positions(), before);
    assert_eq!(g.get((0, 0)), None);
    // ...and by failure.
    let g1 = placed.unwrap();
    let before1 = g1.remaining_positions();
    assert!(g1.try_place(&b, (0, 0)).is_none());
    assert_eq!(g1.remaining_positions(), before1);
    assert_eq!(g1.get((0, 0)), Some(b));
}

#[test]
fn try_place_failure_is_idempotent() {
    let g = Grid::new(2);
    let b = tile(Color::Red, Color::Red, Color::Red, Color::Red);
    let g1 = g.try_place(&b, (1, 1)).unwrap();
    let bad = tile(Color::Blue, Color::Blue, Color::Blue, Color::Blue);
    let first = g1.try_place(&bad, (1, 0));
    let second = g1.try_place(&bad, (1, 0));
    assert!(first.is_none());
    assert!(second.is_none());
}

#[test]
fn empty_tile_list_succeeds_with_empty_placement() {
    let g0 = Grid::new(0);
    assert_eq!(search(&[], &g0), Some(vec![]));
    let g4 = Grid::new(4);
    assert_eq!(search(&[], &g4), Some(vec![]));
}

#[test]
fn single_tile_on_one_cell_board_succeeds() {
    let g = Grid::new(1);
    let b = tile(Color::Purple, Color::Yellow, Color::Turquoise, Color::White);
    assert_eq!(search(&[b], &g), Some(vec![(0, 0)]));
}

#[test]
fn two_by_two_returns_the_valid_placement() {
    let blocks = solvable_two_by_two();
    let g = Grid::new(2);
    let res = search(&blocks, &g);
    assert_eq!(res, Some(vec![(0, 0), (0, 1), (1, 0), (1, 1)]));
}

#[test]
fn solution_covers_board_and_replays() {
    let blocks = solvable_two_by_two();
    let g = Grid::new(2);
    let ps = search(&blocks, &g).unwrap();
    // Exactly one coordinate per tile, all distinct, covering the 2x2 board.
    assert_eq!(ps.len(), blocks.len());
    for r in 0..2usize {
        for c in 0..2usize {
            assert!(ps.contains(&(r, c)));
        }
    }
    // Replaying the placements passes every adjacency check.
    let mut cur = Grid::new(2);
    for (i, p) in ps.iter().enumerate() {
        cur = cur.try_place(&blocks[i], *p).unwrap();
    }
    assert_eq!(cur.remaining_positions(), vec![]);
}

#[test]
fn incompatible_tile_makes_board_unsolvable() {
    let blocks = unsolvable_two_by_two();
    let g = Grid::new(2);
    assert_eq!(search(&blocks, &g), None);
}

#[test]
fn search_is_deterministic() {
    let blocks = solvable_two_by_two();
    let g = Grid::new(2);
    assert_eq!(search(&blocks, &g), search(&blocks, &g));
    let none_blocks = unsolvable_two_by_two();
    assert_eq!(search(&none_blocks, &g), search(&none_blocks, &g));
}

#[test]
fn solve_rejects_wrong_tile_count() {
    let mut blocks = solvable_two_by_two();
    blocks.pop();
    assert_eq!(solve(&blocks, 2), Err(SolveError::WrongTileCount));
    let four = solvable_two_by_two();
    assert_eq!(solve(&four, 3), Err(SolveError::WrongTileCount));
}

#[test]
fn solve_returns_placement_or_no_solution() {
    let blocks = solvable_two_by_two();
    assert_eq!(solve(&blocks, 2), Ok(vec![(0, 0), (0, 1), (1, 0), (1, 1)]));
    let stuck = unsolvable_two_by_two();
    assert_eq!(solve(&stuck, 2), Err(SolveError::NoSolution));
}

#[test]
fn solve_empty_board_is_trivial() {
    let none: Vec<Block> = vec![];
    assert_eq!(solve(&none, 0), Ok(vec![]));
}

#[test]
fn puzzle_three_solves() {
    let blocks = Puzzle::Three.blocks();
    let ps = solve(&blocks, 4).unwrap();
    assert_eq!(
        ps,
        vec![
            (2, 1),
            (3, 3),
            (0, 2),
            (3, 2),
            (1, 3),
            (1, 2),
            (2, 0),
            (2, 2),
            (0, 0),
            (0, 3),
            (1, 1),
            (3, 1),
            (3, 0),
            (1, 0),
            (2, 3),
            (0, 1),
        ]
    );
    // Replaying the placements passes every adjacency check and fills the board.
    let mut cur = Grid::new(4);
    for (i, p) in ps.iter().enumerate() {
        cur = cur.try_place(&blocks[i], *p).unwrap();
    }
    assert_eq!(cur.remaining_positions(), vec![]);
}

#[test]
fn puzzle_four_solves() {
    let blocks = Puzzle::Four.blocks();
    let ps = solve(&blocks, 4).unwrap();
    assert_eq!(ps.len(), 16);
    let mut cur = Grid::new(4);
    for (i, p) in ps.iter().enumerate() {
        cur = cur.try_place(&blocks[i], *p).unwrap();
    }
    assert_eq!(cur.remaining_positions(), vec![]);
}

#[test]
fn puzzle_catalogs_have_sixteen_tiles() {
    let three = Puzzle::Three.blocks();
    let four = Puzzle::Four.blocks();
    assert_eq!(three.len(), 16);
    assert_eq!(four.len(), 16);
    assert_eq!(
        three[0],
        tile(Color::LightGreen, Color::Pink, Color::Turquoise, Color::Red)
    );
    assert_eq!(
        four[15],
        tile(Color::Purple, Color::Orange, Color::Yellow, Color::LightGreen)
    );
}
