//! The search engine: depth-first backtracking placement of the input tiles
//! onto the board, tiles in input order, candidate cells in row-major order,
//! returning the first complete valid assignment.

use vstd::prelude::*;

use crate::grid::can_place;
use crate::grid::consistent;
use crate::grid::in_bounds;
use crate::grid::open_positions;
use crate::grid::open_positions_from;
use crate::grid::Board;
use crate::grid::Grid;
use crate::tile::Block;

verus! {

/// The board after placing, in order, each tile of `blocks` at the matching
/// coordinate of `ps`.
pub open spec fn place_all(m: Board, blocks: Seq<Block>, ps: Seq<(usize, usize)>) -> Board
    decreases ps.len(),
{
    if ps.len() == 0 || blocks.len() == 0 {
        m
    } else {
        place_all(m.insert(ps[0], blocks[0]), blocks.drop_first(), ps.drop_first())
    }
}

/// `ps` assigns the tiles of `blocks`, in order, to distinct free on-board
/// coordinates of `m`, and the extended board matches on every shared edge.
pub open spec fn valid_extension(
    n: usize,
    m: Board,
    blocks: Seq<Block>,
    ps: Seq<(usize, usize)>,
) -> bool {
    &&& ps.len() == blocks.len()
    &&& ps.no_duplicates()
    &&& forall|i: int|
        0 <= i < ps.len() ==> in_bounds(n, #[trigger] ps[i]) && !m.dom().contains(ps[i])
    &&& consistent(place_all(m, blocks, ps))
}

/// What the search returns: tiles in input order, candidates in row-major
/// order, first success short-circuits; `None` when every branch fails.
pub open spec fn search_spec(n: usize, m: Board, blocks: Seq<Block>) -> Option<
    Seq<(usize, usize)>,
>
    decreases blocks.len(), open_positions(n, m).len() + 1,
{
    if blocks.len() == 0 {
        Some(Seq::empty())
    } else {
        try_positions_spec(n, m, blocks, open_positions(n, m))
    }
}

/// The inner loop of one search level: try the head tile of `blocks` at each
/// coordinate of `cands` in order, recursing on the first that fits.
pub open spec fn try_positions_spec(
    n: usize,
    m: Board,
    blocks: Seq<Block>,
    cands: Seq<(usize, usize)>,
) -> Option<Seq<(usize, usize)>>
    decreases blocks.len(), cands.len(),
{
    if blocks.len() == 0 || cands.len() == 0 {
        None
    } else {
        let p = cands[0];
        if can_place(n, m, blocks[0], p) {
            match search_spec(n, m.insert(p, blocks[0]), blocks.drop_first()) {
                Some(rest) => Some(seq![p] + rest),
                None => try_positions_spec(n, m, blocks, cands.drop_first()),
            }
        } else {
            try_positions_spec(n, m, blocks, cands.drop_first())
        }
    }
}

/// A coordinate stands in the open-position sequence exactly when it is on
/// the board, free, and its row-major index is at least `i`.
pub proof fn lemma_open_positions_from_contains(n: usize, m: Board, i: int, p: (usize, usize))
    requires
        0 <= i,
    ensures
        open_positions_from(n, m, i).contains(p) <==> (in_bounds(n, p) && !m.dom().contains(p)
            && i <= crate::grid::cell_index(n, p)),
    decreases n * n - i,
{
    if i >= n * n {
        if in_bounds(n, p) {
            crate::grid::lemma_index_bounds(n, p);
        }
        assert(!open_positions_from(n, m, i).contains(p));
    } else {
        let q = crate::grid::pos_of_index(n, i);
        assert(n > 0) by {
            if n == 0 {
                assert(n * n == 0);
            }
        }
        crate::grid::lemma_pos_of_index(n, i);
        lemma_open_positions_from_contains(n, m, i + 1, p);
        let rest = open_positions_from(n, m, i + 1);
        if m.dom().contains(q) {
            assert(open_positions_from(n, m, i) == rest);
            if p != q && in_bounds(n, p) && !m.dom().contains(p) && i <= crate::grid::cell_index(
                n,
                p,
            ) {
                if crate::grid::cell_index(n, p) == i {
                    crate::grid::lemma_index_injective(n, p, q);
                }
                assert(i + 1 <= crate::grid::cell_index(n, p));
            }
        } else {
            let s = seq![q] + rest;
            assert(open_positions_from(n, m, i) == s);
            assert forall|x: (usize, usize)| #[trigger]
                s.contains(x) <==> (x == q || rest.contains(x)) by {
                if s.contains(x) {
                    let j = choose|j: int| 0 <= j < s.len() && s[j] == x;
                    if j == 0 {
                        assert(x == q);
                    } else {
                        assert(rest[j - 1] == x);
                        assert(rest.contains(x));
                    }
                }
                if x == q {
                    assert(s[0] == x);
                    assert(s.contains(x));
                }
                if rest.contains(x) {
                    let j = choose|j: int| 0 <= j < rest.len() && rest[j] == x;
                    assert(s[j + 1] == x);
                    assert(s.contains(x));
                }
            }
            if p == q {
                assert(s.contains(p));
                assert(in_bounds(n, p) && !m.dom().contains(p) && i <= crate::grid::cell_index(
                    n,
                    p,
                ));
            } else {
                if in_bounds(n, p) && !m.dom().contains(p) && i <= crate::grid::cell_index(n, p) {
                    if crate::grid::cell_index(n, p) == i {
                        crate::grid::lemma_index_injective(n, p, q);
                    }
                    assert(i + 1 <= crate::grid::cell_index(n, p));
                }
            }
        }
    }
}

/// Recursive core of the search. `from` is the index of the next tile to
/// place; the tiles before `from` are already on `grid`.
fn search_rec(blocks: &[Block], from: usize, grid: &Grid) -> (r: Option<Vec<(usize, usize)>>)
    requires
        grid.wf(),
        from <= blocks@.len(),
    ensures
        r matches Some(v) ==> search_spec(grid.n, grid@, blocks@.skip(from as int)) == Some(v@),
        r is None ==> search_spec(grid.n, grid@, blocks@.skip(from as int)) is None,
    decreases blocks@.len() - from,
{
    let ghost tiles = blocks@.skip(from as int);
    if from == blocks.len() {
        proof {
            assert(tiles =~= Seq::<Block>::empty());
        }
        return Some(Vec::new());
    }
    let block = &blocks[from];
    let cands = grid.remaining_positions();
    let ghost full = open_positions(grid.n, grid@);
    let ghost gn = grid.n;
    let ghost gm = grid@;
    proof {
        assert(full.skip(0) =~= full);
    }
    let mut k: usize = 0;
    while k < cands.len()
        invariant
            grid.wf(),
            from < blocks@.len(),
            blocks@.len() <= usize::MAX,
            tiles == blocks@.skip(from as int),
            tiles.len() == blocks@.len() - from,
            tiles[0] == blocks@[from as int],
            *block == blocks@[from as int],
            gn == grid.n,
            gm == grid@,
            cands@ == full,
            full == open_positions(gn, gm),
            k <= cands@.len(),
            try_positions_spec(gn, gm, tiles, full.skip(k as int)) == try_positions_spec(
                gn,
                gm,
                tiles,
                full,
            ),
        decreases cands@.len() - k,
    {
        let pos = cands[k];
        let ghost sk = full.skip(k as int);
        proof {
            assert(sk[0] == full[k as int]);
            assert(sk.len() == full.len() - k);
            assert(full.contains(pos));
            lemma_open_positions_from_contains(gn, gm, 0, pos);
            assert(sk.drop_first() =~= full.skip(k as int + 1));
        }
        match grid.try_place(block, pos) {
            Some(g2) => {
                let sub = search_rec(blocks, from + 1, &g2);
                proof {
                    assert(blocks@.skip(from as int + 1) =~= tiles.drop_first());
                }
                match sub {
                    Some(mut v) => {
                        let ghost w = v@;
                        v.insert(0, pos);
                        proof {
                            assert(search_spec(gn, gm.insert(pos, tiles[0]), tiles.drop_first())
                                == Some(w));
                            assert(try_positions_spec(gn, gm, tiles, sk) == Some(seq![pos] + w));
                            assert(v@ =~= seq![pos] + w);
                            assert(search_spec(gn, gm, tiles) == Some(v@));
                        }
                        return Some(v);
                    },
                    None => {
                        proof {
                            assert(search_spec(gn, gm.insert(pos, tiles[0]), tiles.drop_first())
                                is None);
                            assert(try_positions_spec(gn, gm, tiles, sk) == try_positions_spec(
                                gn,
                                gm,
                                tiles,
                                full.skip(k as int + 1),
                            ));
                        }
                    },
                }
            },
            None => {
                proof {
                    assert(!can_place(gn, gm, tiles[0], pos));
                    assert(try_positions_spec(gn, gm, tiles, sk) == try_positions_spec(
                        gn,
                        gm,
                        tiles,
                        full.skip(k as int + 1),
                    ));
                }
            },
        }
        k = k + 1;
    }
    proof {
        assert(full.skip(cands@.len() as int) =~= Seq::<(usize, usize)>::empty());
        assert(try_positions_spec(gn, gm, tiles, full) is None);
        assert(search_spec(gn, gm, tiles) is None);
    }
    None
}

/// Depth-first backtracking search: assigns the tiles of `blocks`, in input
/// order, to free cells of `grid`, candidate cells in row-major order, and
/// returns the coordinates chosen for each tile on the first full success,
/// or `None` when no branch succeeds. The result is a function of the inputs
/// alone, so two runs on equal inputs return equal placements.
pub fn search(blocks: &[Block], grid: &Grid) -> (r: Option<Vec<(usize, usize)>>)
    requires
        grid.wf(),
    ensures
        r matches Some(v) ==> search_spec(grid.n, grid@, blocks@) == Some(v@),
        r is None ==> search_spec(grid.n, grid@, blocks@) is None,
        r matches Some(v) ==> (consistent(grid@) ==> valid_extension(
            grid.n,
            grid@,
            blocks@,
            v@,
        )),
        r is None ==> forall|ps: Seq<(usize, usize)>| !valid_extension(grid.n, grid@, blocks@, ps),
{
    let r = search_rec(blocks, 0, grid);
    proof {
        assert(blocks@.skip(0) =~= blocks@);
        crate::grid::lemma_view_dom_in_bounds(*grid);
        if r is Some {
            if consistent(grid@) {
                crate::laws::lemma_search_spec_complete(grid.n, grid@, blocks@, r->0@);
            }
        } else {
            crate::laws::lemma_search_spec_sound(grid.n, grid@, blocks@);
        }
    }
    r
}

/// The two ways a solve request can fail: the tile count does not fit the
/// board, or the board admits no valid complete placement.
#[derive(PartialEq, Eq, Structural, Clone, Copy, Debug)]
pub enum SolveError {
    /// The input does not hold exactly n*n tiles: a configuration error,
    /// rejected before the search begins.
    WrongTileCount,
    /// No assignment of the tiles to the board satisfies every adjacency
    /// constraint: a normal, representable outcome.
    NoSolution,
}

/// Solves a puzzle instance from scratch: checks that `blocks` holds exactly
/// the n*n tiles an n-by-n board needs, then searches an empty board. On
/// success the returned coordinates are distinct, cover the whole board, and
/// every pair of touching tiles matches on the shared edge; `NoSolution` is
/// returned exactly when no arrangement of the tiles achieves that.
pub fn solve(blocks: &Vec<Block>, n: usize) -> (r: Result<Vec<(usize, usize)>, SolveError>)
    requires
        n * n <= usize::MAX,
    ensures
        r == Err::<Vec<(usize, usize)>, SolveError>(SolveError::WrongTileCount) <==> blocks@.len()
            != n * n,
        r matches Ok(v) ==> search_spec(n, Map::empty(), blocks@) == Some(v@),
        r matches Ok(v) ==> valid_extension(n, Map::empty(), blocks@, v@),
        r matches Ok(v) ==> forall|p: (usize, usize)| in_bounds(n, p) ==> v@.contains(p),
        r == Err::<Vec<(usize, usize)>, SolveError>(SolveError::NoSolution) <==> (blocks@.len() == n
            * n && search_spec(n, Map::empty(), blocks@) is None),
        r == Err::<Vec<(usize, usize)>, SolveError>(SolveError::NoSolution) ==> forall|
            ps: Seq<(usize, usize)>,
        | !valid_extension(n, Map::empty(), blocks@, ps),
{
    let total = n * n;
    if blocks.len() != total {
        return Err(SolveError::WrongTileCount);
    }
    let grid = Grid::new(n);
    proof {
        assert forall|p: (usize, usize)| !(#[trigger] grid@.dom().contains(p)) by {}
        assert(consistent(grid@));
    }
    match search(blocks.as_slice(), &grid) {
        Some(v) => {
            proof {
                crate::laws::lemma_solution_covers_board(n, blocks@, v@);
            }
            Ok(v)
        },
        None => Err(SolveError::NoSolution),
    }
}

} // verus!
