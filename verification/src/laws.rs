//! Grid-wide laws, stated over the mathematical model and proved once
//! for every grid.

use vstd::prelude::*;

use crate::grid::Cell;
use crate::grid::GridModel;
use crate::grid::lemma_idx_bounds;
use crate::grid::lemma_idx_lex;
use crate::grid::lemma_idx_injective;
use crate::grid::lists_pos;
use crate::grid::step;

verus! {

/// Strict row-major order on positions: `p` comes before `q` when its
/// row is smaller, or the rows agree and its column is smaller.
pub open spec fn row_major_lt(p: (u32, u32), q: (u32, u32)) -> bool {
    p.0 < q.0 || (p.0 == q.0 && p.1 < q.1)
}

/// A product of two positive factors bounds each factor.
proof fn lemma_dims_bound(w: int, h: int, m: int)
    by (nonlinear_arith)
    requires
        1 <= w,
        1 <= h,
        w * h <= m,
    ensures
        w <= m,
        h <= m,
{
}

/// `pos_of` inverts `idx_of` on valid positions.
pub proof fn lemma_pos_idx_inverse(g: GridModel, row: int, col: int)
    requires
        g.wf(),
        g.valid_pos(row, col),
    ensures
        g.pos_of(g.idx_of(row, col)) == ((row as u32, col as u32)),
{
    lemma_idx_bounds(g, row, col);
    vstd::arithmetic::div_mod::lemma_fundamental_div_mod_converse(
        g.idx_of(row, col),
        g.width,
        row,
        col,
    );
}

/// `idx_of` inverts `pos_of` on indices of the cell sequence, and the
/// position read off an index is valid.
pub proof fn lemma_idx_pos_inverse(g: GridModel, k: int)
    requires
        g.wf(),
        0 <= k < g.cells.len(),
    ensures
        g.valid_pos(g.pos_of(k).0 as int, g.pos_of(k).1 as int),
        g.idx_of(g.pos_of(k).0 as int, g.pos_of(k).1 as int) == k,
{
    crate::grid::lemma_row_of_index(g.width, g.height, k);
    lemma_dims_bound(g.width, g.height, u32::MAX as int);
}

/// A grid whose cells are all `Dead` has no live positions.
pub proof fn lemma_all_dead_no_live_positions(g: GridModel)
    requires
        g.wf(),
        forall|k: int| 0 <= k < g.cells.len() ==> g.cells[k] == Cell::Dead,
    ensures
        g.live_positions() =~= Seq::<(u32, u32)>::empty(),
{
    lemma_live_prefix_dead(g, g.cells.len() as int);
}

proof fn lemma_live_prefix_dead(g: GridModel, n: int)
    requires
        n <= g.cells.len(),
        forall|k: int| 0 <= k < g.cells.len() ==> g.cells[k] == Cell::Dead,
    ensures
        g.live_prefix(n) =~= Seq::<(u32, u32)>::empty(),
    decreases n,
{
    if n > 0 {
        lemma_live_prefix_dead(g, n - 1);
    }
}

/// The position `(row, col)` occurs in the first `n` cells' live list
/// exactly when its flat index lies below `n` and its cell is `Alive`.
proof fn lemma_live_prefix_membership(g: GridModel, n: int, row: u32, col: u32)
    requires
        g.wf(),
        0 <= n <= g.cells.len(),
        g.valid_pos(row as int, col as int),
    ensures
        g.live_prefix(n).contains((row, col)) <==> (g.idx_of(row as int, col as int) < n
            && g.cell_at(row as int, col as int) == Cell::Alive),
    decreases n,
{
    let p = (row, col);
    let k = g.idx_of(row as int, col as int);
    lemma_idx_bounds(g, row as int, col as int);
    if n == 0 {
        assert(!g.live_prefix(0).contains(p));
    } else {
        lemma_live_prefix_membership(g, n - 1, row, col);
        lemma_idx_pos_inverse(g, n - 1);
        let s0 = g.live_prefix(n - 1);
        if g.cells[n - 1] == Cell::Alive {
            let s1 = s0.push(g.pos_of(n - 1));
            assert(g.live_prefix(n) == s1);
            if g.pos_of(n - 1) == p {
                assert(k == n - 1);
                assert(s1[s0.len() as int] == p);
                assert(s1.contains(p));
                assert(g.cell_at(row as int, col as int) == g.cells[n - 1]);
            } else {
                if k == n - 1 {
                    lemma_pos_idx_inverse(g, row as int, col as int);
                }
                assert(k != n - 1);
                if s1.contains(p) {
                    let i = choose|i: int| 0 <= i < s1.len() && s1[i] == p;
                    assert(i < s0.len());
                    assert(s0[i] == p);
                    assert(s0.contains(p));
                }
                if s0.contains(p) {
                    let i = choose|i: int| 0 <= i < s0.len() && s0[i] == p;
                    assert(s1[i] == p);
                    assert(s1.contains(p));
                }
            }
        } else {
            if k == n - 1 {
                assert(g.cell_at(row as int, col as int) == g.cells[n - 1]);
            }
        }
    }
}

/// A position occurs among the live positions exactly when it is on
/// the grid and its cell is `Alive`; every listed position is on the
/// grid.
pub proof fn lemma_live_positions_membership(g: GridModel, row: u32, col: u32)
    requires
        g.wf(),
        g.valid_pos(row as int, col as int),
    ensures
        g.live_positions().contains((row, col)) <==> g.cell_at(row as int, col as int)
            == Cell::Alive,
{
    lemma_idx_bounds(g, row as int, col as int);
    lemma_live_prefix_membership(g, g.cells.len() as int, row, col);
}

/// Every element of the first `n` cells' live list is a valid position
/// with flat index below `n`, and the flat indices are strictly
/// increasing along the list.
proof fn lemma_live_prefix_props(g: GridModel, n: int)
    requires
        g.wf(),
        0 <= n <= g.cells.len(),
    ensures
        forall|i: int|
            0 <= i < g.live_prefix(n).len() ==> g.valid_pos(
                #[trigger] g.live_prefix(n)[i].0 as int,
                g.live_prefix(n)[i].1 as int,
            ) && g.idx_of(g.live_prefix(n)[i].0 as int, g.live_prefix(n)[i].1 as int) < n,
        forall|i: int, j: int|
            0 <= i < j < g.live_prefix(n).len() ==> g.idx_of(
                #[trigger] g.live_prefix(n)[i].0 as int,
                g.live_prefix(n)[i].1 as int,
            ) < g.idx_of(#[trigger] g.live_prefix(n)[j].0 as int, g.live_prefix(n)[j].1 as int),
    decreases n,
{
    if n > 0 {
        lemma_live_prefix_props(g, n - 1);
        lemma_idx_pos_inverse(g, n - 1);
        let s0 = g.live_prefix(n - 1);
        let s1 = g.live_prefix(n);
        if g.cells[n - 1] == Cell::Alive {
            assert(s1 == s0.push(g.pos_of(n - 1)));
            assert(forall|i: int| 0 <= i < s0.len() ==> s1[i] == s0[i]);
            assert(s1[s0.len() as int] == g.pos_of(n - 1));
        }
    }
}

/// The live positions are strictly sorted in row-major order: rows
/// ascend, and columns ascend within a row. In particular no position
/// is listed twice.
pub proof fn lemma_live_positions_sorted(g: GridModel)
    requires
        g.wf(),
    ensures
        forall|i: int, j: int|
            0 <= i < j < g.live_positions().len() ==> row_major_lt(
                #[trigger] g.live_positions()[i],
                #[trigger] g.live_positions()[j],
            ),
{
    let s = g.live_positions();
    lemma_live_prefix_props(g, g.cells.len() as int);
    assert forall|i: int, j: int| 0 <= i < j < s.len() implies row_major_lt(
        #[trigger] s[i],
        #[trigger] s[j],
    ) by {
        let p = s[i];
        let q = s[j];
        if !row_major_lt(p, q) {
            if p.0 == q.0 && p.1 == q.1 {
                lemma_idx_injective(g, p.0 as int, p.1 as int, q.0 as int, q.1 as int);
            } else {
                lemma_idx_lex(g, q.0 as int, q.1 as int, p.0 as int, p.1 as int);
            }
        }
    }
}

/// Seeding a well-formed all-dead grid and then collecting the live
/// positions returns exactly the seeded positions: membership in the
/// result depends only on which positions the request listed — not on
/// their order, nor on how often each was listed — and the result is
/// strictly row-major sorted, so each position appears once.
pub proof fn lemma_seed_then_collect(g0: GridModel, g1: GridModel, seeds: Seq<(u32, u32)>)
    requires
        g0.wf(),
        forall|k: int| 0 <= k < g0.cells.len() ==> g0.cells[k] == Cell::Dead,
        g1.wf(),
        g1.width == g0.width,
        g1.height == g0.height,
        forall|r: int, c: int|
            g0.valid_pos(r, c) ==> g1.cell_at(r, c) == (if lists_pos(seeds, r, c) {
                Cell::Alive
            } else {
                g0.cell_at(r, c)
            }),
    ensures
        forall|p: (u32, u32)|
            #[trigger] g1.live_positions().contains(p) <==> (g1.valid_pos(p.0 as int, p.1 as int)
                && lists_pos(seeds, p.0 as int, p.1 as int)),
        forall|i: int, j: int|
            0 <= i < j < g1.live_positions().len() ==> row_major_lt(
                #[trigger] g1.live_positions()[i],
                #[trigger] g1.live_positions()[j],
            ),
{
    lemma_live_prefix_props(g1, g1.cells.len() as int);
    lemma_live_positions_sorted(g1);
    assert forall|p: (u32, u32)| #[trigger] g1.live_positions().contains(p) <==> (g1.valid_pos(
        p.0 as int,
        p.1 as int,
    ) && lists_pos(seeds, p.0 as int, p.1 as int)) by {
        if g1.valid_pos(p.0 as int, p.1 as int) {
            lemma_live_positions_membership(g1, p.0, p.1);
            lemma_idx_bounds(g0, p.0 as int, p.1 as int);
            if !lists_pos(seeds, p.0 as int, p.1 as int) {
                assert(g0.cells[g0.idx_of(p.0 as int, p.1 as int)] == Cell::Dead);
            }
        } else {
            if g1.live_positions().contains(p) {
                let i = choose|i: int|
                    0 <= i < g1.live_positions().len() && g1.live_positions()[i] == p;
                assert(g1.valid_pos(
                    g1.live_positions()[i].0 as int,
                    g1.live_positions()[i].1 as int,
                ));
            }
        }
    }
}

/// Wrap-around adjacency: on an n-by-n grid (n at least 3) whose only
/// live cell sits at the corner (0, 0), each of that cell's eight
/// toroidal neighbours — including the cells across the wrapped edges,
/// such as (n-1, n-1), (n-1, 0) and (0, n-1) — counts exactly one live
/// neighbour, while the corner itself counts none. On a 2-by-2 grid the
/// statement fails: several of the eight offsets then reach (0, 0), so
/// its diagonal neighbour counts it more than once.
pub proof fn lemma_wrap_around(g: GridModel, n: int)
    requires
        g.wf(),
        g.width == n,
        g.height == n,
        3 <= n,
        g.cell_at(0, 0) == Cell::Alive,
        forall|r: int, c: int|
            g.valid_pos(r, c) && !(r == 0 && c == 0) ==> g.cell_at(r, c) == Cell::Dead,
    ensures
        g.live_neighbours(n - 1, n - 1) == 1,
        g.live_neighbours(n - 1, 0) == 1,
        g.live_neighbours(n - 1, 1) == 1,
        g.live_neighbours(0, n - 1) == 1,
        g.live_neighbours(1, n - 1) == 1,
        g.live_neighbours(0, 1) == 1,
        g.live_neighbours(1, 0) == 1,
        g.live_neighbours(1, 1) == 1,
        g.live_neighbours(0, 0) == 0,
{
}

/// The all-dead grid is a fixed point of the generation transition:
/// with every cell dead, every neighbour count is zero, so the rule
/// leaves every cell dead.
pub proof fn lemma_all_dead_fixed_point(g: GridModel, g2: GridModel)
    requires
        g.wf(),
        g.all_dead(),
        step(g, g2),
    ensures
        g2.all_dead(),
{
    assert forall|r: int, c: int| g2.valid_pos(r, c) implies g2.cell_at(r, c) == Cell::Dead by {
        assert(g.valid_pos(r, c));
        assert(g.live_neighbours(r, c) == 0);
    }
}

/// Two consecutive generation steps from an all-dead grid leave every
/// cell dead, both after the first step and after the second.
pub proof fn lemma_two_steps_from_all_dead(g0: GridModel, g1: GridModel, g2: GridModel)
    requires
        g0.wf(),
        g0.all_dead(),
        step(g0, g1),
        step(g1, g2),
    ensures
        g1.all_dead(),
        g2.all_dead(),
{
    lemma_all_dead_fixed_point(g0, g1);
    lemma_all_dead_fixed_point(g1, g2);
}

} // verus!
