//! Quarter-turn rotation of a square grid in place.
use vstd::prelude::*;
use crate::grid::{cells, check_square, is_square, rotate_cw, set_cell, ShapeError};

verus! {

/// The ring of cell `(a, b)` in an `n`×`n` grid: its distance to the
/// nearest edge.
pub open spec fn ring(n: int, a: int, b: int) -> int {
    let h = if a < n - 1 - a { a } else { n - 1 - a };
    let v = if b < n - 1 - b { b } else { n - 1 - b };
    if h < v { h } else { v }
}

/// Which of the four-cell cycles of ring `x` holds cell `(a, b)`, named by
/// the column of its cell on the top edge.
pub open spec fn cycle_of(n: int, x: int, a: int, b: int) -> int {
    if a == x && b < n - 1 - x {
        b
    } else if b == n - 1 - x && a < n - 1 - x {
        a
    } else if a == n - 1 - x && b > x {
        n - 1 - b
    } else {
        n - 1 - a
    }
}

/// Cell `(a, b)` has been moved once all rings before `x`, and the cycles of
/// ring `x` before `y`, are done.
pub open spec fn is_moved(n: int, x: int, y: int, a: int, b: int) -> bool {
    ring(n, a, b) < x || (ring(n, a, b) == x && cycle_of(n, x, a, b) < y)
}

/// `cur` is `start` with the cells done so far turned and the others as
/// they were.
pub open spec fn rotated_until<T>(start: Seq<Seq<T>>, cur: Seq<Seq<T>>, x: int, y: int) -> bool {
    let n = start.len() as int;
    &&& cur.len() == n
    &&& is_square(cur)
    &&& forall|a: int, b: int|
        0 <= a < n && 0 <= b < n ==> #[trigger] cur[a][b] == if is_moved(n, x, y, a, b) {
            start[n - 1 - b][a]
        } else {
            start[a][b]
        }
}

/// Turns a square grid a quarter turn clockwise in place.
///
/// The grid is worked through ring by ring from the outside in; within a
/// ring, each cell of the top edge starts a cycle of four cells (top, right,
/// bottom, left) whose values move one step round: left to top, bottom to
/// left, right to bottom, top to right. A grid whose rows are not all as long
/// as the grid is tall is refused and left unchanged.
pub fn rotate_matrix_mut<T: Copy>(xs: &mut Vec<Vec<T>>) -> (r: Result<(), ShapeError>)
    ensures
        r is Ok <==> is_square(cells(old(xs))),
        r is Err ==> r == Err::<(), ShapeError>(ShapeError::NotSquare) && cells(final(xs)) == cells(old(xs)),
        r is Ok ==> cells(final(xs)) == rotate_cw(cells(old(xs))),
{
    if !check_square(xs) {
        return Err(ShapeError::NotSquare);
    }
    let ghost start = cells(xs);
    assert forall|k: int| 0 <= k < xs.len() implies #[trigger] xs@[k].len() == xs.len() by {
        assert(start[k].len() == xs.len());
    }
    let len = xs.len();
    let mut x: usize = 0;
    while x < len / 2
        invariant
            len == xs.len(),
            start.len() == len,
            is_square(start),
            x <= len / 2,
            forall|k: int| 0 <= k < len ==> #[trigger] xs@[k].len() == len,
            rotated_until(start, cells(xs), x as int, x as int),
        decreases len / 2 - x,
    {
        let mut y: usize = x;
        while y < len - x - 1
            invariant
                len == xs.len(),
                start.len() == len,
                is_square(start),
                x < len / 2,
                forall|k: int| 0 <= k < len ==> #[trigger] xs@[k].len() == len,
                x <= y <= len - x - 1,
                rotated_until(start, cells(xs), x as int, y as int),
            decreases len - x - 1 - y,
        {
            assert(xs@[x as int].len() == len);
            assert(xs@[(len - 1 - y) as int].len() == len);
            let current = xs[x][y];
            let from_left = xs[len - 1 - y][x];
            set_cell(xs, x, y, from_left);
            assert(xs@[(len - 1 - x) as int].len() == len);
            let from_bottom = xs[len - 1 - x][len - 1 - y];
            set_cell(xs, len - 1 - y, x, from_bottom);
            assert(xs@[y as int].len() == len);
            let from_right = xs[y][len - 1 - x];
            set_cell(xs, len - 1 - x, len - 1 - y, from_right);
            set_cell(xs, y, len - 1 - x, current);
            y += 1;
        }
        x += 1;
    }
    assert(cells(xs) =~~= rotate_cw(start));
    Ok(())
}

} // verus!
