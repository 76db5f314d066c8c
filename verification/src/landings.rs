//! Which cell of the map a draw lands on.

use crate::blit;
use crate::blit::Draw;
use crate::screen;
use crate::screen::ScreenCell;
use vstd::prelude::*;

verus! {

/// Whether the pixel `p` lies in the cell `k`, where cells are 24 pixels wide. Pixels left
/// of or above the view count toward its edge.
pub open spec fn lies_in_cell(p: int, k: int) -> bool {
    if p >= 0 {
        24 * k <= p < 24 * k + 24
    } else {
        24 * k - 24 < p <= 24 * k
    }
}

/// Whether a draw lands on the cell `c`, for a view whose first cell is `origin`.
pub open spec fn lands_on(d: Draw, origin: (i32, i32), c: (int, int)) -> bool {
    lies_in_cell(d.dx as int, c.0 - origin.0) && lies_in_cell(d.dy as int, c.1 - origin.1)
}

/// Whether a cell lies on a map of this size.
pub open spec fn is_on(c: (int, int), dims: (i32, i32)) -> bool {
    0 <= c.0 < dims.0 && 0 <= c.1 < dims.1
}

/// Whether a draw lands outside a map of this size.
pub open spec fn lands_off(d: Draw, origin: (i32, i32), dims: (i32, i32)) -> bool {
    forall|c: (int, int)| is_on(c, dims) ==> !#[trigger] lands_on(d, origin, c)
}

/// A pixel is taken for one of the cell that it lies in.
pub proof fn pixel_lies_in_its_cell(p: int, k: int)
    ensures
        blit::CELL_W == 24,
        blit::CELL_H == 24,
        blit::quotient(p, blit::CELL_W as int) == k <==> lies_in_cell(p, k),
        blit::quotient(p, blit::CELL_H as int) == k <==> lies_in_cell(p, k),
{
    if p < 0 {
        let q = (-p) / 24;
        assert(24 * q <= -p < 24 * q + 24);
    }
}

/// Where a draw lands depends on its pixel and the view's origin alone.
pub proof fn draw_lands_by_its_pixel(d: Draw, origin: (i32, i32), c: (int, int))
    ensures
        screen::cell_of(d, origin) == c <==> lands_on(d, origin, c),
{
    pixel_lies_in_its_cell(d.dx as int, c.0 - origin.0);
    pixel_lies_in_its_cell(d.dy as int, c.1 - origin.1);
}

/// Two draws at the same pixel land on the same cell, whatever else they are.
pub proof fn same_pixel_same_cell(d: Draw, e: Draw, origin: (i32, i32), dims: (i32, i32))
    requires
        d.dx == e.dx,
        d.dy == e.dy,
    ensures
        screen::cell_of(d, origin) == screen::cell_of(e, origin),
        screen::shown(d, origin, dims) == screen::shown(e, origin, dims),
{
    draw_lands_by_its_pixel(d, origin, screen::cell_of(d, origin));
    draw_lands_by_its_pixel(e, origin, screen::cell_of(d, origin));
}

/// A draw is counted as one around the map exactly if it lands outside the map.
pub proof fn shown_exactly_if_on_map(d: Draw, origin: (i32, i32), dims: (i32, i32))
    ensures
        screen::shown(d, origin, dims) <==> !lands_off(d, origin, dims),
        screen::shown(d, origin, dims) <==> is_on(screen::cell_of(d, origin), dims),
{
    let c = screen::cell_of(d, origin);
    draw_lands_by_its_pixel(d, origin, c);
    assert forall|e: (int, int)| is_on(e, dims) && #[trigger] lands_on(d, origin, e) implies e
        == c by {
        draw_lands_by_its_pixel(d, origin, e);
    }
}

/// How many draws land on a cell.
pub open spec fn landed(draws: Seq<Draw>, origin: (i32, i32), c: (int, int)) -> nat {
    draws.filter(|d: Draw| lands_on(d, origin, c)).len()
}

/// How many draws land outside the map.
pub open spec fn missed(draws: Seq<Draw>, origin: (i32, i32), dims: (i32, i32)) -> nat {
    draws.filter(|d: Draw| lands_off(d, origin, dims)).len()
}

proof fn tally_is_landed(draws: Seq<Draw>, n: int, origin: (i32, i32), c: (int, int))
    requires
        0 <= n <= draws.len(),
    ensures
        screen::tally(draws, n, origin, c) == landed(draws.take(n), origin, c),
    decreases n,
{
    let p = |d: Draw| lands_on(d, origin, c);
    let some = draws.take(n);
    reveal(Seq::filter);
    if n > 0 {
        tally_is_landed(draws, n - 1, origin, c);
        assert(some.drop_last() =~= draws.take(n - 1));
        draw_lands_by_its_pixel(draws[n - 1], origin, c);
        assert(some.last() == draws[n - 1]);
        assert(p(some.last()) == lands_on(draws[n - 1], origin, c));
    }
}

proof fn strays_are_missed(draws: Seq<Draw>, n: int, origin: (i32, i32), dims: (i32, i32))
    requires
        0 <= n <= draws.len(),
    ensures
        screen::strays(draws, n, origin, dims) == missed(draws.take(n), origin, dims),
    decreases n,
{
    let p = |d: Draw| lands_off(d, origin, dims);
    let some = draws.take(n);
    reveal(Seq::filter);
    if n > 0 {
        strays_are_missed(draws, n - 1, origin, dims);
        assert(some.drop_last() =~= draws.take(n - 1));
        shown_exactly_if_on_map(draws[n - 1], origin, dims);
        assert(some.last() == draws[n - 1]);
        assert(p(some.last()) == lands_off(draws[n - 1], origin, dims));
    }
}

/// A screen lists a cell of the map exactly if a draw lands on it, with the number of draws
/// that do; column by column, from top to bottom. The draws that land outside the map are
/// counted apart.
pub proof fn screen_counts_landings(
    cells: Seq<ScreenCell>,
    hud_draws: int,
    draws: Seq<Draw>,
    origin: (i32, i32),
    dims: (i32, i32),
)
    requires
        screen::shows(cells, draws, draws.len() as int, origin, dims),
        hud_draws == screen::strays(draws, draws.len() as int, origin, dims),
    ensures
        hud_draws == missed(draws, origin, dims),
        forall|i: int|
            0 <= i < cells.len() ==> {
                let c = ((#[trigger] cells[i]).x as int, cells[i].y as int);
                is_on(c, dims) && cells[i].draws == landed(draws, origin, c) && cells[i].draws > 0
            },
        forall|i: int, j: int|
            0 <= i < j < cells.len() ==> (#[trigger] cells[i]).x < (#[trigger] cells[j]).x
                || cells[i].x == cells[j].x && cells[i].y < cells[j].y,
        forall|c: (int, int)|
            is_on(c, dims) && #[trigger] landed(draws, origin, c) > 0 ==> exists|i: int|
                0 <= i < cells.len() && (#[trigger] cells[i]).x == c.0 && cells[i].y == c.1,
{
    let n = draws.len() as int;
    assert(draws.take(n) =~= draws);
    strays_are_missed(draws, n, origin, dims);
    assert forall|i: int| 0 <= i < cells.len() implies {
        let c = ((#[trigger] cells[i]).x as int, cells[i].y as int);
        is_on(c, dims) && cells[i].draws == landed(draws, origin, c) && cells[i].draws > 0
    } by {
        tally_is_landed(draws, n, origin, screen::spot(cells[i]));
    }
    assert forall|i: int, j: int| 0 <= i < j < cells.len() implies (#[trigger] cells[i]).x < (
    #[trigger] cells[j]).x || cells[i].x == cells[j].x && cells[i].y < cells[j].y by {
        assert(screen::before(screen::spot(cells[i]), screen::spot(cells[j])));
    }
    assert forall|c: (int, int)|
        is_on(c, dims) && #[trigger] landed(draws, origin, c) > 0 implies exists|i: int|
        0 <= i < cells.len() && (#[trigger] cells[i]).x == c.0 && cells[i].y == c.1 by {
        tally_is_landed(draws, n, origin, c);
        screen::listed_exactly_if_drawn(cells, draws, origin, dims, c);
        let i = choose|i: int| 0 <= i < cells.len() && screen::spot(#[trigger] cells[i]) == c;
        assert(cells[i].x == c.0 && cells[i].y == c.1);
    }
}

} // verus!
