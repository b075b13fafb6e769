//! The canonical Latin square.
use vstd::prelude::*;
use crate::grid::{cells, is_square, lemma_wrap, rotate_right};
use crate::latin::is_latin;

verus! {

/// The tiles `0, 1, ..., n - 1` in order.
pub open spec fn base_row(n: int) -> Seq<u32> {
    Seq::new(n as nat, |j: int| j as u32)
}

/// The canonical `n`×`n` board: row `i` is the base row shifted cyclically
/// `i` places to the right.
pub open spec fn canonical(n: int) -> Seq<Seq<u32>> {
    Seq::new(n as nat, |i: int| rotate_right(base_row(n), i))
}

/// Shifting right by `i` places and then by one more is shifting right by
/// `i + 1` places.
pub proof fn lemma_rotate_right_step<T>(s: Seq<T>, i: int)
    requires
        0 <= i < s.len(),
    ensures
        rotate_right(rotate_right(s, i), 1) == rotate_right(s, i + 1),
{
    let n = s.len() as int;
    let a = rotate_right(rotate_right(s, i), 1);
    let b = rotate_right(s, i + 1);
    assert forall|j: int| 0 <= j < n implies #[trigger] a[j] == b[j] by {
        lemma_wrap(j - 1, n);
        let k = (j - 1) % n;
        lemma_wrap(k - i, n);
        lemma_wrap(j - (i + 1), n);
    }
    assert(a =~= b);
}

/// Cell `(i, j)` of the canonical board is `(j - i) mod n`.
pub proof fn lemma_canonical_cell(n: int, i: int, j: int)
    requires
        0 < n <= u32::MAX,
        0 <= i < n,
        0 <= j < n,
    ensures
        canonical(n)[i][j] == ((j - i) % n) as u32,
        0 <= (j - i) % n < n,
        (j - i) % n == if j >= i { j - i } else { j - i + n },
{
    lemma_wrap(j - i, n);
}

/// For every `n >= 1` the canonical board is an `n`×`n` Latin square.
pub proof fn lemma_canonical_is_latin(n: int)
    requires
        0 < n <= u32::MAX,
    ensures
        is_latin(canonical(n)),
{
    let m = canonical(n);
    assert forall|i: int| 0 <= i < n implies #[trigger] m[i].len() == n by {}
    assert forall|i: int, j: int| 0 <= i < n && 0 <= j < n implies #[trigger] m[i][j] < n by {
        lemma_canonical_cell(n, i, j);
    }
    assert forall|i: int, j: int, k: int|
        0 <= i < n && 0 <= j < n && 0 <= k < n && j != k implies #[trigger] m[i][j] != #[trigger] m[i][k] by {
        lemma_canonical_cell(n, i, j);
        lemma_canonical_cell(n, i, k);
    }
    assert forall|i: int, k: int, j: int|
        0 <= i < n && 0 <= k < n && 0 <= j < n && i != k implies #[trigger] m[i][j] != #[trigger] m[k][j] by {
        lemma_canonical_cell(n, i, j);
        lemma_canonical_cell(n, k, j);
    }
}

/// The row shifted cyclically one place to the right.
fn shifted_right_once(row: &Vec<u32>) -> (r: Vec<u32>)
    requires
        row.len() > 0,
    ensures
        r@ == rotate_right(row@, 1),
{
    let n = row.len();
    let mut r: Vec<u32> = Vec::new();
    r.push(row[n - 1]);
    let mut j: usize = 0;
    while j < n - 1
        invariant
            n == row.len(),
            n > 0,
            j <= n - 1,
            r.len() == j + 1,
            r@[0] == row@[n - 1],
            forall|k: int| 1 <= k <= j ==> #[trigger] r@[k] == row@[k - 1],
        decreases n - 1 - j,
    {
        r.push(row[j]);
        j += 1;
    }
    proof {
        let n = n as int;
        assert forall|k: int| 0 <= k < n implies #[trigger] r@[k] == rotate_right(row@, 1)[k] by {
            lemma_wrap(k - 1, n);
        }
        assert(r@ =~= rotate_right(row@, 1));
    }
    r
}

/// Builds the canonical `size`×`size` board: the first row is
/// `0, 1, ..., size - 1`, and each further row is the one before it shifted
/// cyclically one place to the right. A size of zero gives an empty board.
pub fn make_board(size: u32) -> (board: Vec<Vec<u32>>)
    ensures
        cells(&board) == canonical(size as int),
        size >= 1 ==> is_latin(cells(&board)),
        is_square(cells(&board)),
{
    let n = size as usize;
    let mut board: Vec<Vec<u32>> = Vec::new();
    if n == 0 {
        assert(cells(&board) =~= canonical(0));
        return board;
    }
    let mut row: Vec<u32> = Vec::new();
    let mut v: u32 = 0;
    while v < size
        invariant
            row.len() == v,
            v <= size,
            forall|k: int| 0 <= k < v ==> #[trigger] row@[k] == k as u32,
        decreases size - v,
    {
        row.push(v);
        v += 1;
    }
    assert(row@ =~= rotate_right(base_row(n as int), 0)) by {
        assert forall|k: int| 0 <= k < n implies #[trigger] rotate_right(base_row(n as int), 0)[k] == k as u32 by {
            lemma_wrap(k, n as int);
        }
    }
    let mut i: usize = 0;
    while i < n - 1
        invariant
            n == size as usize,
            n > 0,
            i < n,
            board.len() == i,
            row@ == rotate_right(base_row(n as int), i as int),
            forall|k: int| 0 <= k < i ==> #[trigger] cells(&board)[k] == canonical(n as int)[k],
        decreases n - 1 - i,
    {
        let next = shifted_right_once(&row);
        proof {
            lemma_rotate_right_step(base_row(n as int), i as int);
        }
        let ghost before = cells(&board);
        board.push(row);
        assert(cells(&board) =~= before.push(canonical(n as int)[i as int]));
        row = next;
        i += 1;
    }
    let ghost before = cells(&board);
    board.push(row);
    assert(cells(&board) =~= before.push(canonical(n as int)[i as int]));
    assert(cells(&board) =~= canonical(n as int));
    proof {
        lemma_canonical_is_latin(n as int);
    }
    board
}

} // verus!
