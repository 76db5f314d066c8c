//! What the draws of a stretch of time show of the map.

use crate::blit;
use crate::blit::{screen_to_game, Draw};
use vstd::prelude::*;

verus! {

/// A map cell that was drawn, and how often.
#[derive(Debug, Clone, Copy, PartialEq, Eq, Structural)]
pub struct ScreenCell {
    pub x: i32,
    pub y: i32,
    pub draws: u32,
}

/// The map cells that were drawn, by column and row, and how many draws fell outside
/// the map.
#[derive(Debug)]
pub struct Screen {
    pub cells: Vec<ScreenCell>,
    pub hud_draws: u32,
}

/// The cell that a draw shows.
pub open spec fn cell_of(d: Draw, origin: (i32, i32)) -> (int, int) {
    (
        blit::quotient(d.dx as int, blit::CELL_W as int) + origin.0,
        blit::quotient(d.dy as int, blit::CELL_H as int) + origin.1,
    )
}

/// Whether a draw shows a cell of the map.
pub open spec fn shown(d: Draw, origin: (i32, i32), dims: (i32, i32)) -> bool {
    let c = cell_of(d, origin);
    0 <= c.0 < dims.0 && 0 <= c.1 < dims.1
}

/// How many of the first `n` draws show the cell `c`.
pub open spec fn tally(draws: Seq<Draw>, n: int, origin: (i32, i32), c: (int, int)) -> int
    decreases n,
{
    if n <= 0 {
        0
    } else {
        tally(draws, n - 1, origin, c) + if cell_of(draws[n - 1], origin) == c {
            1int
        } else {
            0
        }
    }
}

/// How many of the first `n` draws show no cell of the map.
pub open spec fn strays(draws: Seq<Draw>, n: int, origin: (i32, i32), dims: (i32, i32)) -> int
    decreases n,
{
    if n <= 0 {
        0
    } else {
        strays(draws, n - 1, origin, dims) + if shown(draws[n - 1], origin, dims) {
            0int
        } else {
            1
        }
    }
}

/// Where a screen cell stands.
pub open spec fn spot(c: ScreenCell) -> (int, int) {
    (c.x as int, c.y as int)
}

/// Column by column, from top to bottom.
pub open spec fn before(a: (int, int), b: (int, int)) -> bool {
    a.0 < b.0 || a.0 == b.0 && a.1 < b.1
}

/// Every cell stands before the next.
pub open spec fn in_order(cells: Seq<ScreenCell>) -> bool {
    forall|i: int, j: int|
        0 <= i < j < cells.len() ==> before(spot(#[trigger] cells[i]), spot(#[trigger] cells[j]))
}

/// Whether a cell is listed.
pub open spec fn lists(cells: Seq<ScreenCell>, c: (int, int)) -> bool {
    exists|i: int| 0 <= i < cells.len() && spot(#[trigger] cells[i]) == c
}

/// What the first `n` draws show: the cells that they show, each once and in order, with
/// the number of draws that show it.
pub open spec fn shows(
    cells: Seq<ScreenCell>,
    draws: Seq<Draw>,
    n: int,
    origin: (i32, i32),
    dims: (i32, i32),
) -> bool {
    &&& in_order(cells)
    &&& forall|i: int|
        0 <= i < cells.len() ==> {
            &&& 0 <= (#[trigger] cells[i]).x < dims.0
            &&& 0 <= cells[i].y < dims.1
            &&& 0 < cells[i].draws == tally(draws, n, origin, spot(cells[i]))
        }
    &&& forall|k: int|
        0 <= k < n && shown(#[trigger] draws[k], origin, dims) ==> lists(
            cells,
            cell_of(draws[k], origin),
        )
}

/// How many draws the listed cells have together.
pub open spec fn drawn(cells: Seq<ScreenCell>) -> int
    decreases cells.len(),
{
    if cells.len() == 0 {
        0
    } else {
        drawn(cells.drop_last()) + cells.last().draws
    }
}

proof fn drawn_after_update(cells: Seq<ScreenCell>, p: int, c: ScreenCell)
    requires
        0 <= p < cells.len(),
    ensures
        drawn(cells.update(p, c)) == drawn(cells) - cells[p].draws + c.draws,
    decreases cells.len(),
{
    let now = cells.update(p, c);
    if p == cells.len() - 1 {
        assert(now.drop_last() =~= cells.drop_last());
    } else {
        drawn_after_update(cells.drop_last(), p, c);
        assert(now.drop_last() =~= cells.drop_last().update(p, c));
    }
}

proof fn drawn_after_insert(cells: Seq<ScreenCell>, p: int, c: ScreenCell)
    requires
        0 <= p <= cells.len(),
    ensures
        drawn(cells.insert(p, c)) == drawn(cells) + c.draws,
    decreases cells.len(),
{
    let now = cells.insert(p, c);
    if p == cells.len() {
        assert(now.drop_last() =~= cells);
    } else {
        drawn_after_insert(cells.drop_last(), p, c);
        assert(now.drop_last() =~= cells.drop_last().insert(p, c));
        assert(now.last() == cells.last());
    }
}

/// Whether a cell's coordinates can be represented.
pub open spec fn representable(c: (int, int)) -> bool {
    i32::MIN <= c.0 <= i32::MAX && i32::MIN <= c.1 <= i32::MAX
}

/// Whether every draw shows a cell whose coordinates can be represented.
pub open spec fn cells_fit(draws: Seq<Draw>, origin: (i32, i32)) -> bool {
    forall|k: int| 0 <= k < draws.len() ==> representable(cell_of(#[trigger] draws[k], origin))
}

/// Whether `cells_fit`.
pub fn fits(draws: &Vec<Draw>, origin: (i32, i32)) -> (r: bool)
    ensures
        r == cells_fit(draws@, origin),
{
    let mut n: usize = 0;
    while n < draws.len()
        invariant
            n <= draws@.len(),
            forall|k: int| 0 <= k < n ==> representable(cell_of(#[trigger] draws@[k], origin)),
        decreases draws@.len() - n,
    {
        let d: Draw = draws[n];
        let (cx, cy) = screen_to_game(d.dx as i32, d.dy as i32, 0, 0);
        let x: i64 = cx as i64 + origin.0 as i64;
        let y: i64 = cy as i64 + origin.1 as i64;
        assert(cell_of(draws@[n as int], origin) == (x as int, y as int));
        if x < i32::MIN as i64 || x > i32::MAX as i64 || y < i32::MIN as i64 || y > i32::MAX as i64 {
            assert(!representable(cell_of(draws@[n as int], origin)));
            return false;
        }
        n = n + 1;
    }
    true
}

fn is_before(a: ScreenCell, x: i32, y: i32) -> (r: bool)
    ensures
        r == before(spot(a), (x as int, y as int)),
{
    a.x < x || a.x == x && a.y < y
}

/// Where a cell stands, or would stand.
fn place(cells: &Vec<ScreenCell>, x: i32, y: i32) -> (p: usize)
    requires
        in_order(cells@),
    ensures
        p <= cells@.len(),
        forall|i: int| 0 <= i < p ==> before(spot(#[trigger] cells@[i]), (x as int, y as int)),
        forall|i: int|
            p <= i < cells@.len() ==> !before(spot(#[trigger] cells@[i]), (x as int, y as int)),
{
    let mut lo: usize = 0;
    let mut hi: usize = cells.len();
    while lo < hi
        invariant
            lo <= hi <= cells@.len(),
            in_order(cells@),
            forall|i: int| 0 <= i < lo ==> before(spot(#[trigger] cells@[i]), (x as int, y as int)),
            forall|i: int|
                hi <= i < cells@.len() ==> !before(spot(#[trigger] cells@[i]), (x as int, y as int)),
        decreases hi - lo,
    {
        let mid: usize = lo + (hi - lo) / 2;
        if is_before(cells[mid], x, y) {
            lo = mid + 1;
        } else {
            hi = mid;
        }
    }
    lo
}

/// A cell that no draw shows has no draws; and no cell has more than there are.
proof fn tally_bounds(draws: Seq<Draw>, n: int, origin: (i32, i32), c: (int, int))
    requires
        0 <= n <= draws.len(),
    ensures
        0 <= tally(draws, n, origin, c) <= n,
        tally(draws, n, origin, c) > 0 <==> exists|k: int|
            0 <= k < n && cell_of(#[trigger] draws[k], origin) == c,
    decreases n,
{
    if n > 0 {
        tally_bounds(draws, n - 1, origin, c);
        if tally(draws, n - 1, origin, c) > 0 {
            let k = choose|k: int| 0 <= k < n - 1 && cell_of(#[trigger] draws[k], origin) == c;
            assert(cell_of(draws[k], origin) == c);
        }
    }
}

fn count_draw(
    cells: &mut Vec<ScreenCell>,
    draws: &Vec<Draw>,
    n: usize,
    x: i32,
    y: i32,
    origin: (i32, i32),
    dims: (i32, i32),
)
    requires
        n < draws@.len() <= u32::MAX,
        shown(draws@[n as int], origin, dims),
        cell_of(draws@[n as int], origin) == (x as int, y as int),
        shows(old(cells)@, draws@, n as int, origin, dims),
    ensures
        shows(final(cells)@, draws@, n + 1, origin, dims),
        drawn(final(cells)@) == drawn(old(cells)@) + 1,
{
    let ghost prior = cells@;
    let p: usize = place(cells, x, y);
    let ghost c = (x as int, y as int);
    proof {
        tally_bounds(draws@, n as int, origin, c);
    }
    if p < cells.len() && cells[p].x == x && cells[p].y == y {
        let d: u32 = cells[p].draws;
        cells.set(p, ScreenCell { x, y, draws: d + 1 });
        proof {
            drawn_after_update(prior, p as int, ScreenCell { x, y, draws: (d + 1) as u32 });
            let now = cells@;
            assert forall|i: int| 0 <= i < now.len() implies spot(#[trigger] now[i]) == spot(
                prior[i],
            ) by {}
            assert forall|i: int, j: int| 0 <= i < j < now.len() implies before(
                spot(#[trigger] now[i]),
                spot(#[trigger] now[j]),
            ) by {
                assert(before(spot(prior[i]), spot(prior[j])));
            }
            assert forall|i: int| 0 <= i < now.len() implies {
                &&& 0 <= (#[trigger] now[i]).x < dims.0
                &&& 0 <= now[i].y < dims.1
                &&& 0 < now[i].draws == tally(draws@, n + 1, origin, spot(now[i]))
            } by {
                assert(prior[i].draws == tally(draws@, n as int, origin, spot(prior[i])));
                if i < p {
                    assert(before(spot(prior[i]), spot(prior[p as int])));
                } else if i > p {
                    assert(before(spot(prior[p as int]), spot(prior[i])));
                }
            }
            assert forall|k: int|
                0 <= k < n + 1 && shown(#[trigger] draws@[k], origin, dims) implies lists(
                now,
                cell_of(draws@[k], origin),
            ) by {
                if k < n {
                    let i = choose|i: int|
                        0 <= i < prior.len() && spot(#[trigger] prior[i]) == cell_of(
                            draws@[k],
                            origin,
                        );
                    assert(spot(now[i]) == spot(prior[i]));
                } else {
                    assert(spot(now[p as int]) == c);
                }
            }
        }
    } else {
        proof {
            if tally(draws@, n as int, origin, c) > 0 {
                let k = choose|k: int| 0 <= k < n && cell_of(#[trigger] draws@[k], origin) == c;
                assert(shown(draws@[k], origin, dims));
                let i = choose|i: int| 0 <= i < prior.len() && spot(#[trigger] prior[i]) == c;
                assert(!before(spot(prior[i]), c));
                assert(i >= p);
                if i > p {
                    assert(before(spot(prior[p as int]), spot(prior[i])));
                }
            }
        }
        cells.insert(p, ScreenCell { x, y, draws: 1 });
        proof {
            let now = cells@;
            let pi = p as int;
            assert(now == prior.insert(pi, ScreenCell { x, y, draws: 1 }));
            drawn_after_insert(prior, pi, ScreenCell { x, y, draws: 1 });
            assert forall|i: int| 0 <= i < now.len() implies #[trigger] now[i] == (if i < pi {
                prior[i]
            } else if i == pi {
                ScreenCell { x, y, draws: 1 }
            } else {
                prior[i - 1]
            }) by {}
            assert forall|i: int, j: int| 0 <= i < j < now.len() implies before(
                spot(#[trigger] now[i]),
                spot(#[trigger] now[j]),
            ) by {
                if i < pi && j < pi {
                    assert(before(spot(prior[i]), spot(prior[j])));
                } else if i < pi && j > pi {
                    assert(before(spot(prior[i]), spot(prior[j - 1])));
                } else if i > pi {
                    assert(before(spot(prior[i - 1]), spot(prior[j - 1])));
                } else if i == pi {
                    assert(!before(spot(prior[j - 1]), c));
                    if j - 1 > pi {
                        assert(before(spot(prior[pi]), spot(prior[j - 1])));
                    }
                }
            }
            assert forall|i: int| 0 <= i < now.len() implies {
                &&& 0 <= (#[trigger] now[i]).x < dims.0
                &&& 0 <= now[i].y < dims.1
                &&& 0 < now[i].draws == tally(draws@, n + 1, origin, spot(now[i]))
            } by {
                if i < pi {
                    assert(prior[i].draws == tally(draws@, n as int, origin, spot(prior[i])));
                    assert(before(spot(now[i]), spot(now[pi])));
                } else if i > pi {
                    assert(prior[i - 1].draws == tally(
                        draws@,
                        n as int,
                        origin,
                        spot(prior[i - 1]),
                    ));
                    assert(before(spot(now[pi]), spot(now[i])));
                }
            }
            assert forall|k: int|
                0 <= k < n + 1 && shown(#[trigger] draws@[k], origin, dims) implies lists(
                now,
                cell_of(draws@[k], origin),
            ) by {
                if k < n {
                    let i = choose|i: int|
                        0 <= i < prior.len() && spot(#[trigger] prior[i]) == cell_of(
                            draws@[k],
                            origin,
                        );
                    if i < pi {
                        assert(spot(now[i]) == spot(prior[i]));
                    } else {
                        assert(spot(now[i + 1]) == spot(prior[i]));
                    }
                } else {
                    assert(spot(now[pi]) == c);
                }
            }
        }
    }
}

/// Turns draws into map cells, for a view with this origin on a map of this size. What
/// falls outside the map is part of the display around it.
pub fn screen(draws: &Vec<Draw>, origin: (i32, i32), dims: (i32, i32)) -> (r: Screen)
    requires
        cells_fit(draws@, origin),
        draws@.len() <= u32::MAX,
    ensures
        shows(r.cells@, draws@, draws@.len() as int, origin, dims),
        r.hud_draws == strays(draws@, draws@.len() as int, origin, dims),
        drawn(r.cells@) + r.hud_draws == draws@.len(),
{
    let mut cells: Vec<ScreenCell> = Vec::new();
    let mut hud: u32 = 0;
    let mut n: usize = 0;
    while n < draws.len()
        invariant
            n <= draws@.len() <= u32::MAX,
            cells_fit(draws@, origin),
            shows(cells@, draws@, n as int, origin, dims),
            hud == strays(draws@, n as int, origin, dims),
            drawn(cells@) + hud == n,
            hud <= n,
        decreases draws@.len() - n,
    {
        let d: Draw = draws[n];
        assert(representable(cell_of(draws@[n as int], origin)));
        let (x, y) = screen_to_game(d.dx as i32, d.dy as i32, origin.0, origin.1);
        if 0 <= x && 0 <= y && x < dims.0 && y < dims.1 {
            count_draw(&mut cells, draws, n, x, y, origin, dims);
        } else {
            hud = hud + 1;
            proof {
                assert forall|i: int| 0 <= i < cells@.len() implies {
                    0 < (#[trigger] cells@[i]).draws == tally(
                        draws@,
                        n + 1,
                        origin,
                        spot(cells@[i]),
                    )
                } by {}
            }
        }
        n = n + 1;
    }
    Screen { cells, hud_draws: hud }
}

/// A cell is listed exactly if some draw shows it.
pub proof fn listed_exactly_if_drawn(
    cells: Seq<ScreenCell>,
    draws: Seq<Draw>,
    origin: (i32, i32),
    dims: (i32, i32),
    c: (int, int),
)
    requires
        shows(cells, draws, draws.len() as int, origin, dims),
        0 <= c.0 < dims.0,
        0 <= c.1 < dims.1,
    ensures
        lists(cells, c) <==> tally(draws, draws.len() as int, origin, c) > 0,
{
    let n = draws.len() as int;
    tally_bounds(draws, n, origin, c);
    if tally(draws, n, origin, c) > 0 {
        let k = choose|k: int| 0 <= k < n && cell_of(#[trigger] draws[k], origin) == c;
        assert(shown(draws[k], origin, dims));
    }
    if lists(cells, c) {
        let i = choose|i: int| 0 <= i < cells.len() && spot(#[trigger] cells[i]) == c;
        assert(0 < cells[i].draws == tally(draws, n, origin, spot(cells[i])));
    }
}

} // verus!
