//! Shuffling a board while it stays a Latin square.
use vstd::prelude::*;
use rand::rngs::StdRng;
use rand::seq::SliceRandom;
use rand::Rng;
use crate::grid::{
    cells,
    check_square,
    is_index_permutation,
    is_square,
    lemma_wrap,
    reorder,
    rotate_cw,
    rotate_left,
    shift_rows_left,
    ShapeError,
};
use crate::latin::{is_latin, lemma_reorder_keeps_latin, lemma_rotate_keeps_latin, lemma_shift_keeps_latin};
use crate::rotate::rotate_matrix_mut;

verus! {

/// How many rounds of reordering, turning and shifting one randomisation
/// performs.
pub const ROUNDS: usize = 5;

#[verifier::external_type_specification]
#[verifier::external_body]
pub struct ExStdRng(StdRng);

/// Relies on rand's `Rng::gen_range`: for a non-empty range `0..bound` it
/// returns a value of that range (it panics only on an empty one).
#[verifier::external_body]
fn draw_below(rng: &mut StdRng, bound: usize) -> (r: usize)
    requires
        bound > 0,
    ensures
        r < bound,
{
    rng.gen_range(0..bound)
}

/// Relies on rand's `SliceRandom::shuffle` on a slice: it only swaps items,
/// so afterwards the slice holds the same items in some order.
#[verifier::external_body]
fn shuffle_rows<T>(rows: &mut Vec<T>, rng: &mut StdRng)
    ensures
        exists|p: Seq<int>|
            is_index_permutation(p, old(rows).len() as int) && final(rows)@ == #[trigger] reorder(old(rows)@, p),
{
    rows.shuffle(rng);
}

/// One round: the rows put in the order `p`, the grid turned a quarter turn
/// clockwise, and every row shifted cyclically `s` places to the left.
pub open spec fn round(m: Seq<Seq<u32>>, p: Seq<int>, s: int) -> Seq<Seq<u32>> {
    shift_rows_left(rotate_cw(reorder(m, p)), s)
}

/// `after` is what one round makes of `before`, for some order of the rows
/// and some shift below the size.
pub open spec fn is_round(before: Seq<Seq<u32>>, after: Seq<Seq<u32>>) -> bool {
    exists|p: Seq<int>, s: int|
        is_index_permutation(p, before.len() as int) && 0 <= s < before.len() && after == #[trigger] round(before, p, s)
}

/// Each board of `run` is what one round makes of the board before it.
pub open spec fn is_run(run: Seq<Seq<Seq<u32>>>) -> bool {
    forall|t: int| 0 <= t < run.len() - 1 ==> is_round(#[trigger] run[t], run[t + 1])
}

/// `end` is what `k` rounds make of `start`.
pub open spec fn after_rounds(start: Seq<Seq<u32>>, end: Seq<Seq<u32>>, k: nat) -> bool {
    exists|run: Seq<Seq<Seq<u32>>>|
        #[trigger] is_run(run) && run.len() == k + 1 && run[0] == start && run[k as int] == end
}

/// One round, whatever the order and the shift, keeps a Latin square a
/// Latin square of the same size.
pub proof fn lemma_round_keeps_latin(m: Seq<Seq<u32>>, p: Seq<int>, s: int)
    requires
        is_latin(m),
        is_index_permutation(p, m.len() as int),
        0 <= s < m.len(),
    ensures
        is_latin(round(m, p, s)),
        round(m, p, s).len() == m.len(),
{
    lemma_reorder_keeps_latin(m, p);
    lemma_rotate_keeps_latin(reorder(m, p));
    lemma_shift_keeps_latin(rotate_cw(reorder(m, p)), s);
}

/// The row shifted cyclically `s` places to the left.
fn shifted_left(row: &Vec<u32>, s: usize) -> (r: Vec<u32>)
    requires
        s < row.len(),
    ensures
        r@ == rotate_left(row@, s as int),
{
    let n = row.len();
    let mut r: Vec<u32> = Vec::new();
    let mut j: usize = 0;
    while j < n
        invariant
            n == row.len(),
            s < n,
            j <= n,
            r.len() == j,
            forall|k: int| 0 <= k < j ==> #[trigger] r@[k] == rotate_left(row@, s as int)[k],
        decreases n - j,
    {
        let from = if j < n - s { j + s } else { j - (n - s) };
        proof {
            lemma_wrap(j + s, n as int);
        }
        r.push(row[from]);
        j += 1;
    }
    assert(r@ =~= rotate_left(row@, s as int));
    r
}

/// The part of a round that follows the reordering of the rows: the board is
/// turned a quarter turn clockwise, then every row is shifted cyclically
/// `shift` places to the left.
pub fn turn_and_shift(board: &mut Vec<Vec<u32>>, shift: usize)
    requires
        is_square(cells(old(board))),
        shift < old(board).len(),
    ensures
        cells(final(board)) == shift_rows_left(rotate_cw(cells(old(board))), shift as int),
{
    let ghost start = cells(board);
    let _ = rotate_matrix_mut(board);
    let ghost turned = cells(board);
    let n = board.len();
    assert(turned.len() == n);
    let mut i: usize = 0;
    while i < n
        invariant
            n == board.len(),
            shift < n,
            turned == rotate_cw(start),
            turned.len() == n,
            start.len() == n,
            i <= n,
            forall|k: int| 0 <= k < i ==> #[trigger] cells(board)[k] == rotate_left(turned[k], shift as int),
            forall|k: int| i <= k < n ==> #[trigger] cells(board)[k] == turned[k],
        decreases n - i,
    {
        assert(cells(board)[i as int] == turned[i as int]);
        let row = shifted_left(&board[i], shift);
        let ghost before = cells(board);
        board.set(i, row);
        assert(cells(board) =~= before.update(i as int, rotate_left(turned[i as int], shift as int)));
        i += 1;
    }
    assert(cells(board) =~= shift_rows_left(rotate_cw(start), shift as int));
}

/// Shuffles a board in `ROUNDS` rounds drawn from `rng`. Each round draws a
/// shift below the size, puts the rows in a random order, turns the board a
/// quarter turn clockwise and shifts every row cyclically that many places
/// to the left.
///
/// An empty board, or one whose rows are not all as long as the board is
/// tall, is refused and left unchanged. A Latin square stays a Latin square
/// of the same size.
pub fn randomize_board_mut(board: &mut Vec<Vec<u32>>, rng: &mut StdRng) -> (r: Result<(), ShapeError>)
    ensures
        old(board).len() == 0 ==> r == Err::<(), ShapeError>(ShapeError::Empty),
        old(board).len() > 0 && !is_square(cells(old(board))) ==> r == Err::<(), ShapeError>(ShapeError::NotSquare),
        r is Ok <==> old(board).len() > 0 && is_square(cells(old(board))),
        r is Err ==> cells(final(board)) == cells(old(board)),
        r is Ok ==> after_rounds(cells(old(board)), cells(final(board)), ROUNDS as nat),
        r is Ok ==> final(board).len() == old(board).len() && is_square(cells(final(board))),
        is_latin(cells(old(board))) ==> is_latin(cells(final(board))),
{
    let n = board.len();
    if n == 0 {
        return Err(ShapeError::Empty);
    }
    if !check_square(board) {
        return Err(ShapeError::NotSquare);
    }
    let ghost start = cells(board);
    let ghost mut run: Seq<Seq<Seq<u32>>> = seq![start];
    let mut k: usize = 0;
    while k < ROUNDS
        invariant
            n == board.len(),
            n > 0,
            k <= ROUNDS,
            start.len() == n,
            is_square(cells(board)),
            is_run(run),
            run.len() == k + 1,
            run[0] == start,
            run[k as int] == cells(board),
            is_latin(start) ==> is_latin(cells(board)),
        decreases ROUNDS - k,
    {
        let ghost before = cells(board);
        let shift = draw_below(rng, n);
        let ghost rows_before = board@;
        shuffle_rows(board, rng);
        let ghost p = choose|p: Seq<int>|
            is_index_permutation(p, rows_before.len() as int) && board@ == #[trigger] reorder(rows_before, p);
        assert(cells(board) =~= reorder(before, p));
        assert forall|i: int| 0 <= i < n implies #[trigger] cells(board)[i].len() == n by {
            assert(cells(board)[i] == before[p[i]]);
        }
        turn_and_shift(board, shift);
        proof {
            assert(cells(board) == round(before, p, shift as int));
            assert(is_round(before, cells(board)));
            let prev = run;
            run = run.push(cells(board));
            assert forall|t: int| 0 <= t < run.len() - 1 implies is_round(#[trigger] run[t], run[t + 1]) by {
                if t < k {
                    assert(run[t] == prev[t] && run[t + 1] == prev[t + 1]);
                }
            }
            if is_latin(start) {
                lemma_round_keeps_latin(before, p, shift as int);
            }
            let cur = cells(board);
            assert forall|i: int| 0 <= i < n implies #[trigger] cur[i].len() == n by {
                assert(rotate_cw(reorder(before, p))[i].len() == n);
            }
        }
        k += 1;
    }
    assert(is_run(run) && run.len() == ROUNDS + 1 && run[0] == start && run[ROUNDS as int] == cells(board));
    Ok(())
}

} // verus!
