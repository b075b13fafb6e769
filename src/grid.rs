//! The mathematical model of a grid and the transformations applied to it.
use vstd::prelude::*;
use vstd::arithmetic::div_mod::{
    lemma_mod_add_multiples_vanish,
    lemma_mod_sub_multiples_vanish,
    lemma_small_mod,
};

verus! {

/// The contents of a grid of rows, row by row.
pub open spec fn cells<T>(m: &Vec<Vec<T>>) -> Seq<Seq<T>> {
    m@.map_values(|row: Vec<T>| row@)
}

/// Every row is as long as the grid has rows.
pub open spec fn is_square<T>(m: Seq<Seq<T>>) -> bool {
    forall|i: int| 0 <= i < m.len() ==> #[trigger] m[i].len() == m.len()
}

/// The grid turned a quarter turn clockwise: the left column, read from the
/// bottom up, becomes the top row.
pub open spec fn rotate_cw<T>(m: Seq<Seq<T>>) -> Seq<Seq<T>> {
    let n = m.len() as int;
    Seq::new(m.len(), |i: int| Seq::new(m.len(), |j: int| m[n - 1 - j][i]))
}

/// Row `i` of the result is row `p[i]` of `m`.
pub open spec fn reorder<T>(m: Seq<T>, p: Seq<int>) -> Seq<T> {
    Seq::new(p.len(), |i: int| m[p[i]])
}

/// `p` lists each index of `0..n` exactly once.
pub open spec fn is_index_permutation(p: Seq<int>, n: int) -> bool {
    &&& p.len() == n
    &&& forall|i: int| 0 <= i < n ==> 0 <= #[trigger] p[i] < n
    &&& forall|i: int, k: int| 0 <= i < n && 0 <= k < n && i != k ==> #[trigger] p[i] != #[trigger] p[k]
}

/// The sequence shifted cyclically `s` places to the left: the first `s`
/// items move to the end.
pub open spec fn rotate_left<T>(row: Seq<T>, s: int) -> Seq<T> {
    Seq::new(row.len(), |j: int| row[(j + s) % (row.len() as int)])
}

/// The sequence shifted cyclically `s` places to the right: the last `s`
/// items move to the front.
pub open spec fn rotate_right<T>(row: Seq<T>, s: int) -> Seq<T> {
    Seq::new(row.len(), |j: int| row[(j - s) % (row.len() as int)])
}

/// Every row shifted cyclically `s` places to the left.
pub open spec fn shift_rows_left<T>(m: Seq<Seq<T>>, s: int) -> Seq<Seq<T>> {
    Seq::new(m.len(), |i: int| rotate_left(m[i], s))
}

/// For `-n <= x < 2n`, `x % n` is `x` brought into `0..n` by at most one
/// step of `n`.
pub proof fn lemma_wrap(x: int, n: int)
    requires
        n > 0,
        -n <= x < 2 * n,
    ensures
        x % n == if x < 0 {
            x + n
        } else if x < n {
            x
        } else {
            x - n
        },
{
    if x < 0 {
        lemma_mod_add_multiples_vanish(x, n);
        lemma_small_mod((x + n) as nat, n as nat);
    } else if x < n {
        lemma_small_mod(x as nat, n as nat);
    } else {
        lemma_mod_sub_multiples_vanish(x, n);
        lemma_small_mod((x - n) as nat, n as nat);
    }
}

/// Why a grid was refused.
#[derive(Debug, Clone, Copy, PartialEq, Eq, Structural)]
pub enum ShapeError {
    /// Some row is not as long as the grid has rows.
    NotSquare,
    /// The grid has no rows where at least one is needed.
    Empty,
}

/// Whether every row is as long as the grid has rows.
pub fn check_square<T>(xs: &Vec<Vec<T>>) -> (r: bool)
    ensures
        r == is_square(cells(xs)),
{
    let n = xs.len();
    let mut i: usize = 0;
    while i < n
        invariant
            n == xs.len(),
            i <= n,
            forall|k: int| 0 <= k < i ==> #[trigger] cells(xs)[k].len() == n,
        decreases n - i,
    {
        if xs[i].len() != n {
            assert(cells(xs)[i as int].len() != n);
            return false;
        }
        i += 1;
    }
    true
}

/// Writes `v` into row `a`, column `b`.
pub(crate) fn set_cell<T>(xs: &mut Vec<Vec<T>>, a: usize, b: usize, v: T)
    requires
        a < old(xs).len(),
        b < old(xs)@[a as int].len(),
    ensures
        cells(final(xs)) == cells(old(xs)).update(a as int, cells(old(xs))[a as int].update(b as int, v)),
        final(xs).len() == old(xs).len(),
        forall|i: int| 0 <= i < old(xs).len() ==> #[trigger] final(xs)@[i].len() == old(xs)@[i].len(),
{
    xs[a][b] = v;
    assert(cells(xs) =~~= cells(old(xs)).update(a as int, cells(old(xs))[a as int].update(b as int, v)));
}

} // verus!
