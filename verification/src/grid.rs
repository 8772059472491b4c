//! The board: a partially filled n-by-n grid of tiles.
//!
//! A grid is modeled as a partial map from coordinates `(row, col)` with
//! `0 <= row, col < n` to the tile placed there. Placement is persistent:
//! `try_place` never mutates its receiver, it returns an extended copy, so
//! sibling branches of a search never disturb one another.

use vstd::prelude::*;

use crate::tile::adjoins_left_of;
use crate::tile::stacks_above;
use crate::tile::Block;

verus! {

/// The mathematical model of a board: which coordinate holds which tile.
pub type Board = Map<(usize, usize), Block>;

/// A coordinate lies on an n-by-n board.
pub open spec fn in_bounds(n: usize, p: (usize, usize)) -> bool {
    p.0 < n && p.1 < n
}

/// Row-major index of a coordinate on an n-by-n board.
pub open spec fn cell_index(n: usize, p: (usize, usize)) -> int {
    p.0 * n + p.1
}

/// The coordinate whose row-major index on an n-by-n board is `i`.
pub open spec fn pos_of_index(n: usize, i: int) -> (usize, usize) {
    ((i / (n as int)) as usize, (i % (n as int)) as usize)
}

/// The coordinate directly above `p` (one row up).
pub open spec fn pos_up(p: (usize, usize)) -> (usize, usize) {
    ((p.0 - 1) as usize, p.1)
}

/// The coordinate directly below `p` (one row down).
pub open spec fn pos_down(p: (usize, usize)) -> (usize, usize) {
    ((p.0 + 1) as usize, p.1)
}

/// The coordinate directly to the left of `p`.
pub open spec fn pos_left(p: (usize, usize)) -> (usize, usize) {
    (p.0, (p.1 - 1) as usize)
}

/// The coordinate directly to the right of `p`.
pub open spec fn pos_right(p: (usize, usize)) -> (usize, usize) {
    (p.0, (p.1 + 1) as usize)
}

/// Every occupied coordinate of `m` lies on the n-by-n board.
pub open spec fn dom_in_bounds(n: usize, m: Board) -> bool {
    forall|p: (usize, usize)| #[trigger] m.dom().contains(p) ==> in_bounds(n, p)
}

/// Every pair of touching tiles in `m` matches on the shared edge: a tile
/// one row above another stacks above it, and a tile one column to the left
/// of another adjoins it on the left.
pub open spec fn consistent(m: Board) -> bool {
    forall|p: (usize, usize), q: (usize, usize)|
        #![trigger m.dom().contains(p), m.dom().contains(q)]
        m.dom().contains(p) && m.dom().contains(q) ==> {
            &&& (q.0 == p.0 + 1 && q.1 == p.1 ==> stacks_above(m[p], m[q]))
            &&& (q.0 == p.0 && q.1 == p.1 + 1 ==> adjoins_left_of(m[p], m[q]))
        }
}

/// Tile `b` may be placed at `p` on the board `m`: `p` is on the board and
/// free, and `b` matches every already-placed neighbor on the shared edge.
pub open spec fn can_place(n: usize, m: Board, b: Block, p: (usize, usize)) -> bool {
    &&& in_bounds(n, p)
    &&& !m.dom().contains(p)
    &&& (p.0 > 0 && m.dom().contains(pos_up(p)) ==> stacks_above(m[pos_up(p)], b))
    &&& (p.1 + 1 < n && m.dom().contains(pos_right(p)) ==> adjoins_left_of(b, m[pos_right(p)]))
    &&& (p.0 + 1 < n && m.dom().contains(pos_down(p)) ==> stacks_above(b, m[pos_down(p)]))
    &&& (p.1 > 0 && m.dom().contains(pos_left(p)) ==> adjoins_left_of(m[pos_left(p)], b))
}

/// All coordinates of the n-by-n board in row-major order.
pub open spec fn all_positions_seq(n: usize) -> Seq<(usize, usize)> {
    Seq::new((n * n) as nat, |i: int| pos_of_index(n, i))
}

/// The coordinates of the n-by-n board that are free in `m`, in row-major
/// order, starting from row-major index `i`.
pub open spec fn open_positions_from(n: usize, m: Board, i: int) -> Seq<(usize, usize)>
    decreases n * n - i,
{
    if i >= n * n {
        Seq::empty()
    } else {
        let p = pos_of_index(n, i);
        let rest = open_positions_from(n, m, i + 1);
        if m.dom().contains(p) {
            rest
        } else {
            seq![p] + rest
        }
    }
}

/// The free coordinates of the board `m`, in row-major order.
pub open spec fn open_positions(n: usize, m: Board) -> Seq<(usize, usize)> {
    open_positions_from(n, m, 0)
}

/// A row-major index on the n-by-n board is within the cell vector.
pub proof fn lemma_index_bounds(n: usize, p: (usize, usize))
    requires
        in_bounds(n, p),
    ensures
        0 <= cell_index(n, p) < n * n,
{
    assert(p.0 * n + p.1 < n * n) by (nonlinear_arith)
        requires
            p.0 < n,
            p.1 < n,
    ;
}

/// Distinct on-board coordinates have distinct row-major indices.
pub proof fn lemma_index_injective(n: usize, p: (usize, usize), q: (usize, usize))
    requires
        in_bounds(n, p),
        in_bounds(n, q),
        cell_index(n, p) == cell_index(n, q),
    ensures
        p == q,
{
    assert(p.0 == q.0 && p.1 == q.1) by (nonlinear_arith)
        requires
            p.0 < n,
            p.1 < n,
            q.0 < n,
            q.1 < n,
            p.0 * n + p.1 == q.0 * n + q.1,
    ;
}

/// `pos_of_index` inverts `cell_index` on the n-by-n board.
pub proof fn lemma_pos_of_index(n: usize, i: int)
    requires
        0 < n,
        0 <= i < n * n,
    ensures
        in_bounds(n, pos_of_index(n, i)),
        cell_index(n, pos_of_index(n, i)) == i,
{
    let d = n as int;
    vstd::arithmetic::div_mod::lemma_fundamental_div_mod(i, d);
    vstd::arithmetic::div_mod::lemma_mod_bound(i, d);
    assert(i / d < d) by (nonlinear_arith)
        requires
            0 < d,
            0 <= i < d * d,
            i == d * (i / d) + i % d,
            0 <= i % d < d,
    ;
    assert(0 <= i / d) by (nonlinear_arith)
        requires
            0 < d,
            0 <= i,
            i == d * (i / d) + i % d,
            0 <= i % d < d,
    ;
    let p = pos_of_index(n, i);
    assert(p.0 == i / d && p.1 == i % d);
    assert(p.0 * d + p.1 == i) by (nonlinear_arith)
        requires
            p.0 == i / d,
            p.1 == i % d,
            i == d * (i / d) + i % d,
    ;
}

/// Every occupied cell of a grid's board model lies on its n-by-n board.
pub proof fn lemma_view_dom_in_bounds(g: Grid)
    ensures
        dom_in_bounds(g.n, g@),
{
    assert forall|p: (usize, usize)| #[trigger] g@.dom().contains(p) implies in_bounds(g.n, p) by {}
}

/// A partially filled n-by-n board. The `cells` vector holds the n*n cells
/// in row-major order; a free cell holds `None`.
pub struct Grid {
    pub n: usize,
    pub cells: Vec<Option<Block>>,
}

impl View for Grid {
    type V = Board;

    open spec fn view(&self) -> Board {
        Map::new(
            |p: (usize, usize)| in_bounds(self.n, p) && self.cells@[cell_index(self.n, p)] is Some,
            |p: (usize, usize)| self.cells@[cell_index(self.n, p)]->0,
        )
    }
}

/// Copies a cell vector element by element.
fn clone_cells(v: &Vec<Option<Block>>) -> (r: Vec<Option<Block>>)
    ensures
        r@ == v@,
{
    let mut r: Vec<Option<Block>> = Vec::new();
    let mut i: usize = 0;
    while i < v.len()
        invariant
            i <= v@.len(),
            r@.len() == i,
            forall|j: int| 0 <= j < i ==> r@[j] == v@[j],
        decreases v@.len() - i,
    {
        let x = v[i];
        r.push(x);
        i = i + 1;
    }
    proof {
        assert(r@ =~= v@);
    }
    r
}

impl Grid {
    /// The cell vector covers the whole n-by-n board.
    pub open spec fn wf(self) -> bool {
        self.cells@.len() == self.n * self.n
    }

    /// An empty n-by-n board.
    pub fn new(n: usize) -> (r: Self)
        requires
            n * n <= usize::MAX,
        ensures
            r.wf(),
            r.n == n,
            r@ == Board::empty(),
    {
        let total = n * n;
        let mut cells: Vec<Option<Block>> = Vec::new();
        let mut i: usize = 0;
        while i < total
            invariant
                i <= total,
                cells@.len() == i,
                forall|j: int| 0 <= j < i ==> cells@[j] is None,
            decreases total - i,
        {
            cells.push(None);
            i = i + 1;
        }
        let r = Grid { n, cells };
        proof {
            assert forall|p: (usize, usize)| !(#[trigger] r@.dom().contains(p)) by {
                if in_bounds(n, p) {
                    lemma_index_bounds(n, p);
                }
            }
            assert(r@.dom() =~= Set::empty());
            assert(r@ =~= Board::empty());
        }
        r
    }

    /// The tile at `p`, if `p` is on the board and occupied.
    pub fn get(&self, p: (usize, usize)) -> (r: Option<Block>)
        requires
            self.wf(),
        ensures
            r == (if self@.dom().contains(p) {
                Some(self@[p])
            } else {
                None::<Block>
            }),
    {
        if p.0 < self.n && p.1 < self.n {
            let len = self.cells.len();
            proof {
                lemma_index_bounds(self.n, p);
                assert(cell_index(self.n, p) < len);
            }
            let i = p.0 * self.n + p.1;
            self.cells[i]
        } else {
            None
        }
    }

    /// All coordinates of the n-by-n board in row-major order.
    pub fn all_positions(n: usize) -> (r: Vec<(usize, usize)>)
        requires
            n * n <= usize::MAX,
        ensures
            r@ == all_positions_seq(n),
    {
        let total = n * n;
        let mut r: Vec<(usize, usize)> = Vec::new();
        let mut i: usize = 0;
        while i < total
            invariant
                i <= total,
                total == n * n,
                r@.len() == i,
                forall|j: int| 0 <= j < i ==> r@[j] == all_positions_seq(n)[j],
            decreases total - i,
        {
            assert(n > 0);
            let row = i / n;
            let col = i % n;
            r.push((row, col));
            i = i + 1;
        }
        proof {
            assert(r@ =~= all_positions_seq(n));
        }
        r
    }

    /// The free coordinates of the board, in row-major order. Re-derived on
    /// every call, so it can be asked again at every level of a search.
    pub fn remaining_positions(&self) -> (r: Vec<(usize, usize)>)
        requires
            self.wf(),
        ensures
            r@ == open_positions(self.n, self@),
    {
        let total = self.cells.len();
        let mut r: Vec<(usize, usize)> = Vec::new();
        let mut i: usize = 0;
        proof {
            assert(Seq::<(usize, usize)>::empty() + open_positions_from(self.n, self@, 0)
                =~= open_positions_from(self.n, self@, 0));
        }
        while i < total
            invariant
                self.wf(),
                i <= total,
                total == self.n * self.n,
                r@ + open_positions_from(self.n, self@, i as int) == open_positions(self.n, self@),
            decreases total - i,
        {
            assert(self.n > 0);
            let row = i / self.n;
            let col = i % self.n;
            let p = (row, col);
            let ghost rest = open_positions_from(self.n, self@, i + 1);
            proof {
                assert(p == pos_of_index(self.n, i as int));
            }
            if self.get(p).is_none() {
                let ghost before = r@;
                r.push(p);
                proof {
                    assert(open_positions_from(self.n, self@, i as int) == seq![p] + rest);
                    assert(r@ + rest =~= before + (seq![p] + rest));
                }
            } else {
                proof {
                    assert(open_positions_from(self.n, self@, i as int) == rest);
                }
            }
            i = i + 1;
        }
        proof {
            assert(open_positions_from(self.n, self@, total as int) =~= Seq::empty());
            assert(r@ + Seq::<(usize, usize)>::empty() =~= r@);
        }
        r
    }

    /// The tile directly above `p`, if that cell is on the board and occupied.
    pub open spec fn spec_above(self, p: (usize, usize)) -> Option<Block> {
        if p.0 > 0 && self@.dom().contains(pos_up(p)) {
            Some(self@[pos_up(p)])
        } else {
            None
        }
    }

    /// The tile directly to the right of `p`, if on the board and occupied.
    pub open spec fn spec_right(self, p: (usize, usize)) -> Option<Block> {
        if p.1 + 1 < self.n && self@.dom().contains(pos_right(p)) {
            Some(self@[pos_right(p)])
        } else {
            None
        }
    }

    /// The tile directly below `p`, if that cell is on the board and occupied.
    pub open spec fn spec_below(self, p: (usize, usize)) -> Option<Block> {
        if p.0 + 1 < self.n && self@.dom().contains(pos_down(p)) {
            Some(self@[pos_down(p)])
        } else {
            None
        }
    }

    /// The tile directly to the left of `p`, if on the board and occupied.
    pub open spec fn spec_left(self, p: (usize, usize)) -> Option<Block> {
        if p.1 > 0 && self@.dom().contains(pos_left(p)) {
            Some(self@[pos_left(p)])
        } else {
            None
        }
    }

    /// The tile placed directly above `p`, or `None` when that neighbor cell
    /// is off the board or free.
    pub fn above(&self, pos: (usize, usize)) -> (r: Option<Block>)
        requires
            self.wf(),
        ensures
            r == self.spec_above(pos),
    {
        if pos.0 > 0 {
            self.get((pos.0 - 1, pos.1))
        } else {
            None
        }
    }

    /// The tile placed directly to the right of `p`, or `None` when that
    /// neighbor cell is off the board or free.
    pub fn right(&self, pos: (usize, usize)) -> (r: Option<Block>)
        requires
            self.wf(),
        ensures
            r == self.spec_right(pos),
    {
        if pos.1 < self.n && pos.1 + 1 < self.n {
            self.get((pos.0, pos.1 + 1))
        } else {
            None
        }
    }

    /// The tile placed directly below `p`, or `None` when that neighbor cell
    /// is off the board or free.
    pub fn below(&self, pos: (usize, usize)) -> (r: Option<Block>)
        requires
            self.wf(),
        ensures
            r == self.spec_below(pos),
    {
        if pos.0 < self.n && pos.0 + 1 < self.n {
            self.get((pos.0 + 1, pos.1))
        } else {
            None
        }
    }

    /// The tile placed directly to the left of `p`, or `None` when that
    /// neighbor cell is off the board or free.
    pub fn left(&self, pos: (usize, usize)) -> (r: Option<Block>)
        requires
            self.wf(),
        ensures
            r == self.spec_left(pos),
    {
        if pos.1 > 0 {
            self.get((pos.0, pos.1 - 1))
        } else {
            None
        }
    }

    /// Attempts to place `block` at `pos`. Succeeds exactly when `pos` is on
    /// the board, free, and `block` matches every already-placed neighbor; on
    /// success the result is a new board equal to the receiver plus the one
    /// placement. The receiver is never changed.
    pub fn try_place(&self, block: &Block, pos: (usize, usize)) -> (r: Option<Grid>)
        requires
            self.wf(),
        ensures
            r is Some <==> can_place(self.n, self@, *block, pos),
            self@.dom().contains(pos) ==> r is None,
            r matches Some(g) ==> g.wf() && g.n == self.n && g@ == self@.insert(pos, *block),
    {
        if pos.0 >= self.n || pos.1 >= self.n {
            return None;
        }
        let free = self.get(pos).is_none();
        let up_ok = match self.above(pos) {
            Some(a) => a.above(block),
            None => true,
        };
        let right_ok = match self.right(pos) {
            Some(x) => block.left_of(&x),
            None => true,
        };
        let down_ok = match self.below(pos) {
            Some(x) => block.above(&x),
            None => true,
        };
        let left_ok = match self.left(pos) {
            Some(x) => x.left_of(block),
            None => true,
        };
        if free && up_ok && right_ok && down_ok && left_ok {
            let mut cells = clone_cells(&self.cells);
            let len = cells.len();
            proof {
                lemma_index_bounds(self.n, pos);
                assert(cell_index(self.n, pos) < len);
            }
            let i = pos.0 * self.n + pos.1;
            cells[i] = Some(*block);
            let g = Grid { n: self.n, cells };
            proof {
                let m2 = self@.insert(pos, *block);
                assert forall|q: (usize, usize)|
                    (#[trigger] g@.dom().contains(q) == m2.dom().contains(q)) && (g@.dom().contains(
                        q,
                    ) ==> g@[q] == m2[q]) by {
                    if in_bounds(self.n, q) {
                        lemma_index_bounds(self.n, q);
                        if q != pos && cell_index(self.n, q) == cell_index(self.n, pos) {
                            lemma_index_injective(self.n, q, pos);
                        }
                    }
                }
                assert(g@.dom() =~= m2.dom());
                assert(g@ =~= m2);
            }
            Some(g)
        } else {
            None
        }
    }
}

} // verus!
