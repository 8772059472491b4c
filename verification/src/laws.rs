//! The laws of the solver: soundness and completeness of the backtracking
//! search, preservation of board consistency under placement, full-board
//! coverage of a solution, and the trivial boundary instances.

use vstd::prelude::*;

use crate::grid::all_positions_seq;
use crate::grid::can_place;
use crate::grid::cell_index;
use crate::grid::consistent;
use crate::grid::dom_in_bounds;
use crate::grid::in_bounds;
use crate::grid::lemma_index_bounds;
use crate::grid::lemma_index_injective;
use crate::grid::lemma_pos_of_index;
use crate::grid::open_positions;
use crate::grid::open_positions_from;
use crate::grid::pos_down;
use crate::grid::pos_left;
use crate::grid::pos_of_index;
use crate::grid::pos_right;
use crate::grid::pos_up;
use crate::grid::Board;
use crate::search::lemma_open_positions_from_contains;
use crate::search::place_all;
use crate::search::search_spec;
use crate::search::try_positions_spec;
use crate::search::valid_extension;
use crate::tile::adjoins_left_of;
use crate::tile::stacks_above;
use crate::tile::Block;

verus! {

/// An element of a non-empty sequence is its head or an element of its tail.
proof fn lemma_contains_head_or_tail<A>(s: Seq<A>, x: A)
    requires
        s.len() > 0,
    ensures
        s.contains(x) <==> (x == s[0] || s.drop_first().contains(x)),
{
    let t = s.drop_first();
    if s.contains(x) {
        let j = choose|j: int| 0 <= j < s.len() && s[j] == x;
        if j != 0 {
            assert(t[j - 1] == x);
            assert(t.contains(x));
        }
    }
    if x == s[0] {
        assert(s.contains(x));
    }
    if t.contains(x) {
        let j = choose|j: int| 0 <= j < t.len() && t[j] == x;
        assert(s[j + 1] == x);
        assert(s.contains(x));
    }
}

/// Placing a tile that matches all its already-placed neighbors keeps the
/// board consistent, and keeps every occupied cell on the board.
pub proof fn lemma_can_place_preserves_consistent(n: usize, m: Board, b: Block, p: (usize, usize))
    requires
        dom_in_bounds(n, m),
        consistent(m),
        can_place(n, m, b, p),
    ensures
        consistent(m.insert(p, b)),
        dom_in_bounds(n, m.insert(p, b)),
{
    let m2 = m.insert(p, b);
    assert forall|q: (usize, usize)| #[trigger] m2.dom().contains(q) implies in_bounds(n, q) by {
        if q != p {
            assert(m.dom().contains(q));
        }
    }
    assert forall|q: (usize, usize), r: (usize, usize)|
        #![trigger m2.dom().contains(q), m2.dom().contains(r)]
        m2.dom().contains(q) && m2.dom().contains(r) implies {
        &&& (r.0 == q.0 + 1 && r.1 == q.1 ==> stacks_above(m2[q], m2[r]))
        &&& (r.0 == q.0 && r.1 == q.1 + 1 ==> adjoins_left_of(m2[q], m2[r]))
    } by {
        if q == p && r == p {
        } else if q == p {
            assert(m.dom().contains(r));
            assert(in_bounds(n, r));
            if r.0 == q.0 + 1 && r.1 == q.1 {
                assert(r == pos_down(p));
                assert(p.0 + 1 < n);
                assert(stacks_above(b, m[r]));
            }
            if r.0 == q.0 && r.1 == q.1 + 1 {
                assert(r == pos_right(p));
                assert(p.1 + 1 < n);
                assert(adjoins_left_of(b, m[r]));
            }
        } else if r == p {
            assert(m.dom().contains(q));
            if r.0 == q.0 + 1 && r.1 == q.1 {
                assert(p.0 > 0);
                assert(q == pos_up(p));
                assert(stacks_above(m[q], b));
            }
            if r.0 == q.0 && r.1 == q.1 + 1 {
                assert(p.1 > 0);
                assert(q == pos_left(p));
                assert(adjoins_left_of(m[q], b));
            }
        } else {
            assert(m.dom().contains(q) && m.dom().contains(r));
        }
    }
}

/// Frame conditions of `place_all`: which cells the extension occupies, and
/// with which tiles.
proof fn lemma_place_all_frame(m: Board, blocks: Seq<Block>, ps: Seq<(usize, usize)>)
    requires
        ps.len() == blocks.len(),
        ps.no_duplicates(),
        forall|i: int| 0 <= i < ps.len() ==> !m.dom().contains(#[trigger] ps[i]),
    ensures
        forall|q: (usize, usize)|
            #[trigger] place_all(m, blocks, ps).dom().contains(q) <==> (m.dom().contains(q)
                || ps.contains(q)),
        forall|q: (usize, usize)|
            m.dom().contains(q) ==> #[trigger] place_all(m, blocks, ps)[q] == m[q],
        forall|i: int|
            0 <= i < ps.len() ==> place_all(m, blocks, ps)[#[trigger] ps[i]] == blocks[i],
    decreases ps.len(),
{
    let f = place_all(m, blocks, ps);
    if ps.len() == 0 {
        assert forall|q: (usize, usize)| !(#[trigger] ps.contains(q)) by {}
    } else {
        let p0 = ps[0];
        let b0 = blocks[0];
        let m1 = m.insert(p0, b0);
        let pt = ps.drop_first();
        let bt = blocks.drop_first();
        assert forall|i: int, j: int|
            0 <= i < pt.len() && 0 <= j < pt.len() && i != j implies pt[i] != pt[j] by {
            assert(pt[i] == ps[i + 1] && pt[j] == ps[j + 1]);
        }
        assert forall|i: int| 0 <= i < pt.len() implies !m1.dom().contains(#[trigger] pt[i]) by {
            assert(pt[i] == ps[i + 1]);
            assert(ps[i + 1] != ps[0]);
        }
        lemma_place_all_frame(m1, bt, pt);
        assert(f == place_all(m1, bt, pt));
        assert forall|q: (usize, usize)| #[trigger]
            ps.contains(q) <==> (q == p0 || pt.contains(q)) by {
            lemma_contains_head_or_tail(ps, q);
        }
        assert forall|q: (usize, usize)| #[trigger]
            f.dom().contains(q) <==> (m.dom().contains(q) || ps.contains(q)) by {
            assert(m1.dom().contains(q) <==> (m.dom().contains(q) || q == p0));
        }
        assert forall|q: (usize, usize)| m.dom().contains(q) implies #[trigger] f[q] == m[q] by {
            assert(ps.contains(ps[0]));
            assert(q != p0);
            assert(m1.dom().contains(q));
            assert(f[q] == m1[q]);
        }
        assert forall|i: int| 0 <= i < ps.len() implies f[#[trigger] ps[i]] == blocks[i] by {
            if i == 0 {
                assert(m1.dom().contains(p0));
                assert(f[p0] == m1[p0]);
            } else {
                assert(pt[i - 1] == ps[i] && bt[i - 1] == blocks[i]);
                assert(f[pt[i - 1]] == bt[i - 1]);
            }
        }
    }
}

/// A valid extension decomposes: its first tile can be placed at its first
/// coordinate, and the rest is a valid extension of the extended board.
proof fn lemma_valid_extension_step(n: usize, m: Board, blocks: Seq<Block>, ps: Seq<(usize, usize)>)
    requires
        blocks.len() > 0,
        valid_extension(n, m, blocks, ps),
    ensures
        can_place(n, m, blocks[0], ps[0]),
        valid_extension(n, m.insert(ps[0], blocks[0]), blocks.drop_first(), ps.drop_first()),
{
    let p = ps[0];
    let b = blocks[0];
    let f = place_all(m, blocks, ps);
    lemma_place_all_frame(m, blocks, ps);
    assert(ps.contains(p));
    assert(f.dom().contains(p));
    assert(f[p] == b);
    let u = pos_up(p);
    if p.0 > 0 && m.dom().contains(u) {
        assert(f.dom().contains(u));
        assert(f[u] == m[u]);
        assert(p.0 == u.0 + 1 && p.1 == u.1);
        assert(stacks_above(m[u], b));
    }
    let rt = pos_right(p);
    if p.1 + 1 < n && m.dom().contains(rt) {
        assert(f.dom().contains(rt));
        assert(f[rt] == m[rt]);
        assert(rt.0 == p.0 && rt.1 == p.1 + 1);
        assert(adjoins_left_of(b, m[rt]));
    }
    let d = pos_down(p);
    if p.0 + 1 < n && m.dom().contains(d) {
        assert(f.dom().contains(d));
        assert(f[d] == m[d]);
        assert(d.0 == p.0 + 1 && d.1 == p.1);
        assert(stacks_above(b, m[d]));
    }
    let l = pos_left(p);
    if p.1 > 0 && m.dom().contains(l) {
        assert(f.dom().contains(l));
        assert(f[l] == m[l]);
        assert(p.0 == l.0 && p.1 == l.1 + 1);
        assert(adjoins_left_of(m[l], b));
    }
    assert(can_place(n, m, b, p));
    let m1 = m.insert(p, b);
    let pt = ps.drop_first();
    let bt = blocks.drop_first();
    assert forall|i: int, j: int|
        0 <= i < pt.len() && 0 <= j < pt.len() && i != j implies pt[i] != pt[j] by {
        assert(pt[i] == ps[i + 1] && pt[j] == ps[j + 1]);
    }
    assert forall|i: int|
        0 <= i < pt.len() implies in_bounds(n, #[trigger] pt[i]) && !m1.dom().contains(pt[i]) by {
        assert(pt[i] == ps[i + 1]);
        assert(ps[i + 1] != ps[0]);
    }
    assert(place_all(m1, bt, pt) == f);
}

/// Completeness: a placement sequence reported by the search is a valid
/// extension of the board it started from.
pub proof fn lemma_search_spec_complete(
    n: usize,
    m: Board,
    blocks: Seq<Block>,
    ps: Seq<(usize, usize)>,
)
    requires
        dom_in_bounds(n, m),
        consistent(m),
        search_spec(n, m, blocks) == Some(ps),
    ensures
        valid_extension(n, m, blocks, ps),
    decreases blocks.len(), open_positions(n, m).len() + 1,
{
    if blocks.len() == 0 {
        assert(ps == Seq::<(usize, usize)>::empty());
        assert(place_all(m, blocks, ps) == m);
    } else {
        lemma_try_positions_complete(n, m, blocks, open_positions(n, m), ps);
    }
}

proof fn lemma_try_positions_complete(
    n: usize,
    m: Board,
    blocks: Seq<Block>,
    cands: Seq<(usize, usize)>,
    ps: Seq<(usize, usize)>,
)
    requires
        dom_in_bounds(n, m),
        consistent(m),
        blocks.len() > 0,
        try_positions_spec(n, m, blocks, cands) == Some(ps),
    ensures
        valid_extension(n, m, blocks, ps),
    decreases blocks.len(), cands.len(),
{
    assert(cands.len() > 0);
    let p = cands[0];
    let b = blocks[0];
    if can_place(n, m, b, p) {
        let m1 = m.insert(p, b);
        let bt = blocks.drop_first();
        match search_spec(n, m1, bt) {
            Some(rest) => {
                assert(ps == seq![p] + rest);
                assert(ps[0] == p);
                assert(ps.len() == 1 + rest.len());
                assert(ps.drop_first() =~= rest);
                lemma_can_place_preserves_consistent(n, m, b, p);
                lemma_search_spec_complete(n, m1, bt, rest);
                assert forall|i: int, j: int|
                    0 <= i < ps.len() && 0 <= j < ps.len() && i != j implies ps[i] != ps[j] by {
                    if i == 0 {
                        assert(ps[j] == rest[j - 1]);
                        assert(!m1.dom().contains(rest[j - 1]));
                        assert(m1.dom().contains(p));
                    } else if j == 0 {
                        assert(ps[i] == rest[i - 1]);
                        assert(!m1.dom().contains(rest[i - 1]));
                        assert(m1.dom().contains(p));
                    } else {
                        assert(ps[i] == rest[i - 1] && ps[j] == rest[j - 1]);
                    }
                }
                assert(ps.no_duplicates());
                assert forall|i: int|
                    0 <= i < ps.len() implies in_bounds(n, #[trigger] ps[i]) && !m.dom().contains(
                    ps[i],
                ) by {
                    if i > 0 {
                        assert(ps[i] == rest[i - 1]);
                        assert(in_bounds(n, rest[i - 1]) && !m1.dom().contains(rest[i - 1]));
                    }
                }
                assert(place_all(m, blocks, ps) == place_all(m1, bt, ps.drop_first()));
                assert(consistent(place_all(m, blocks, ps)));
            },
            None => {
                lemma_try_positions_complete(n, m, blocks, cands.drop_first(), ps);
            },
        }
    } else {
        lemma_try_positions_complete(n, m, blocks, cands.drop_first(), ps);
    }
}

/// Soundness of failure: when the search reports no solution, no assignment
/// of the tiles to distinct free cells satisfies all adjacency constraints.
pub proof fn lemma_search_spec_sound(n: usize, m: Board, blocks: Seq<Block>)
    requires
        dom_in_bounds(n, m),
        search_spec(n, m, blocks) is None,
    ensures
        forall|ps: Seq<(usize, usize)>| !valid_extension(n, m, blocks, ps),
{
    assert forall|ps: Seq<(usize, usize)>| !valid_extension(n, m, blocks, ps) by {
        if valid_extension(n, m, blocks, ps) {
            lemma_search_sound_rec(n, m, blocks, ps);
        }
    }
}

proof fn lemma_search_sound_rec(n: usize, m: Board, blocks: Seq<Block>, ps: Seq<(usize, usize)>)
    requires
        dom_in_bounds(n, m),
        search_spec(n, m, blocks) is None,
    ensures
        !valid_extension(n, m, blocks, ps),
    decreases blocks.len(), open_positions(n, m).len() + 1,
{
    if valid_extension(n, m, blocks, ps) {
        assert(blocks.len() > 0);
        assert(in_bounds(n, ps[0]) && !m.dom().contains(ps[0]));
        lemma_index_bounds(n, ps[0]);
        lemma_open_positions_from_contains(n, m, 0, ps[0]);
        assert(open_positions(n, m).contains(ps[0]));
        lemma_try_positions_sound_rec(n, m, blocks, open_positions(n, m), ps);
        assert(false);
    }
}

proof fn lemma_try_positions_sound_rec(
    n: usize,
    m: Board,
    blocks: Seq<Block>,
    cands: Seq<(usize, usize)>,
    ps: Seq<(usize, usize)>,
)
    requires
        dom_in_bounds(n, m),
        blocks.len() > 0,
        try_positions_spec(n, m, blocks, cands) is None,
    ensures
        !(valid_extension(n, m, blocks, ps) && cands.contains(ps[0])),
    decreases blocks.len(), cands.len(),
{
    if valid_extension(n, m, blocks, ps) && cands.contains(ps[0]) {
        assert(cands.len() > 0);
        let p = cands[0];
        let b = blocks[0];
        if ps[0] == p {
            lemma_valid_extension_step(n, m, blocks, ps);
            let m1 = m.insert(p, b);
            if search_spec(n, m1, blocks.drop_first()) is Some {
                assert(try_positions_spec(n, m, blocks, cands) is Some);
            }
            assert(search_spec(n, m1, blocks.drop_first()) is None);
            assert forall|q: (usize, usize)| #[trigger]
                m1.dom().contains(q) implies in_bounds(n, q) by {
                if q != p {
                    assert(m.dom().contains(q));
                }
            }
            lemma_search_sound_rec(n, m1, blocks.drop_first(), ps.drop_first());
            assert(false);
        } else {
            lemma_contains_head_or_tail(cands, ps[0]);
            assert(cands.drop_first().contains(ps[0]));
            assert(try_positions_spec(n, m, blocks, cands.drop_first()) is None);
            lemma_try_positions_sound_rec(n, m, blocks, cands.drop_first(), ps);
            assert(false);
        }
    }
}

/// A finite set and a subset of the same size are equal.
proof fn lemma_subset_same_len_equal<A>(a: Set<A>, b: Set<A>)
    requires
        b.finite(),
        a.subset_of(b),
        a.len() == b.len(),
    ensures
        a == b,
{
    if exists|x: A| b.contains(x) && !a.contains(x) {
        let x = choose|x: A| b.contains(x) && !a.contains(x);
        let b2 = b.remove(x);
        vstd::set_lib::lemma_len_subset(a, b2);
        assert(b2.len() == b.len() - 1);
        assert(false);
    }
    assert(a =~= b);
}

/// Every on-board coordinate occurs in the row-major coordinate sequence.
proof fn lemma_all_positions_contains(n: usize, p: (usize, usize))
    requires
        in_bounds(n, p),
    ensures
        all_positions_seq(n).contains(p),
{
    lemma_index_bounds(n, p);
    let j = cell_index(n, p);
    lemma_pos_of_index(n, j);
    lemma_index_injective(n, p, pos_of_index(n, j));
    assert(all_positions_seq(n)[j] == p);
    assert(all_positions_seq(n).contains(p));
}

/// A solution for a full set of n*n tiles on an empty board covers every
/// cell of the board.
pub proof fn lemma_solution_covers_board(n: usize, blocks: Seq<Block>, ps: Seq<(usize, usize)>)
    requires
        valid_extension(n, Map::<(usize, usize), Block>::empty(), blocks, ps),
        blocks.len() == n * n,
    ensures
        forall|p: (usize, usize)| in_bounds(n, p) ==> ps.contains(p),
{
    broadcast use vstd::seq_lib::seq_to_set_is_finite;

    let all = all_positions_seq(n);
    let bset = all.to_set();
    let pset = ps.to_set();
    assert forall|i: int, j: int|
        0 <= i < all.len() && 0 <= j < all.len() && i != j implies all[i] != all[j] by {
        assert(n > 0) by {
            if n == 0 {
                assert(n * n == 0);
            }
        }
        lemma_pos_of_index(n, i);
        lemma_pos_of_index(n, j);
    }
    assert(all.no_duplicates());
    all.unique_seq_to_set();
    ps.unique_seq_to_set();
    assert(pset.len() == n * n && bset.len() == n * n);
    assert forall|q: (usize, usize)| #[trigger] pset.contains(q) implies bset.contains(q) by {
        let i = choose|i: int| 0 <= i < ps.len() && ps[i] == q;
        assert(in_bounds(n, ps[i]));
        lemma_all_positions_contains(n, q);
    }
    lemma_subset_same_len_equal(pset, bset);
    assert forall|p: (usize, usize)| in_bounds(n, p) implies ps.contains(p) by {
        lemma_all_positions_contains(n, p);
        assert(bset.contains(p));
        assert(pset.contains(p));
    }
}

/// With no tiles to place, the search succeeds at once with the empty
/// placement, on any board of any size.
pub proof fn lemma_no_tiles_trivial(n: usize, m: Board)
    ensures
        search_spec(n, m, Seq::empty()) == Some(Seq::<(usize, usize)>::empty()),
{
}

/// On a one-cell board, a single tile is always placed at the origin: there
/// is no adjacency constraint to check.
pub proof fn lemma_single_tile_trivial(b: Block)
    ensures
        search_spec(1, Map::<(usize, usize), Block>::empty(), seq![b]) == Some(
            seq![(0usize, 0usize)],
        ),
{
    let m = Map::<(usize, usize), Block>::empty();
    let p = (0usize, 0usize);
    let blocks = seq![b];
    assert(pos_of_index(1, 0) == p);
    assert(!m.dom().contains(p));
    assert(open_positions_from(1, m, 1) == Seq::<(usize, usize)>::empty());
    assert(open_positions(1, m) == seq![p] + Seq::<(usize, usize)>::empty());
    assert(can_place(1, m, b, p));
    assert(blocks.drop_first() =~= Seq::<Block>::empty());
    assert(search_spec(1, m.insert(p, b), blocks.drop_first()) == Some(
        Seq::<(usize, usize)>::empty(),
    ));
    let cands = seq![p] + Seq::<(usize, usize)>::empty();
    assert(cands[0] == p && cands.len() == 1);
    assert(try_positions_spec(1, m, blocks, cands) == Some(seq![p] + Seq::<(
        usize,
        usize,
    )>::empty()));
    assert(seq![p] + Seq::<(usize, usize)>::empty() =~= seq![(0usize, 0usize)]);
    assert(search_spec(1, m, blocks) == try_positions_spec(1, m, blocks, open_positions(1, m)));
}

} // verus!
