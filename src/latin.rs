//! Latin squares and the transformations that keep a grid one.
use vstd::prelude::*;
use vstd::seq_lib::seq_to_set_is_finite;
use vstd::set_lib::{lemma_int_range, lemma_subset_equality, set_int_range};
use crate::grid::{
    is_index_permutation,
    is_square,
    lemma_wrap,
    reorder,
    rotate_cw,
    shift_rows_left,
};

verus! {

/// Every tile of the grid is one of `0..n`, where `n` is the number of rows.
pub open spec fn tiles_in_range(m: Seq<Seq<u32>>) -> bool {
    forall|i: int, j: int| 0 <= i < m.len() && 0 <= j < m.len() ==> #[trigger] m[i][j] < m.len()
}

/// No tile occurs twice in one row.
pub open spec fn rows_distinct(m: Seq<Seq<u32>>) -> bool {
    forall|i: int, j: int, k: int|
        0 <= i < m.len() && 0 <= j < m.len() && 0 <= k < m.len() && j != k
            ==> #[trigger] m[i][j] != #[trigger] m[i][k]
}

/// No tile occurs twice in one column.
pub open spec fn columns_distinct(m: Seq<Seq<u32>>) -> bool {
    forall|i: int, k: int, j: int|
        0 <= i < m.len() && 0 <= k < m.len() && 0 <= j < m.len() && i != k
            ==> #[trigger] m[i][j] != #[trigger] m[k][j]
}

/// The grid is an `n`×`n` Latin square over the tiles `0..n`.
///
/// A row (or column) of `n` tiles, all below `n` and no two equal, holds
/// every tile of `0..n` exactly once, so this is the same as asking that
/// every row and every column be a permutation of `0..n`.
pub open spec fn is_latin(m: Seq<Seq<u32>>) -> bool {
    &&& is_square(m)
    &&& tiles_in_range(m)
    &&& rows_distinct(m)
    &&& columns_distinct(m)
}

/// `n` tiles, all below `n` and no two equal, include every tile of `0..n`.
pub proof fn lemma_distinct_tiles_cover(s: Seq<u32>, n: int, v: int)
    requires
        s.len() == n,
        forall|j: int| 0 <= j < n ==> #[trigger] s[j] < n,
        forall|j: int, k: int| 0 <= j < n && 0 <= k < n && j != k ==> #[trigger] s[j] != #[trigger] s[k],
        0 <= v < n,
    ensures
        exists|j: int| 0 <= j < n && #[trigger] s[j] == v,
{
    let t = Seq::new(n as nat, |j: int| s[j] as int);
    assert(t.no_duplicates()) by {
        assert forall|j: int, k: int| 0 <= j < t.len() && 0 <= k < t.len() && j != k implies t[j] != t[k] by {
            assert(s[j] != s[k]);
        }
    }
    t.unique_seq_to_set();
    lemma_int_range(0, n);
    seq_to_set_is_finite(t);
    assert forall|x: int| t.to_set().contains(x) implies set_int_range(0, n).contains(x) by {
        let j = choose|j: int| 0 <= j < t.len() && t[j] == x;
        assert(s[j] < n);
    }
    lemma_subset_equality(t.to_set(), set_int_range(0, n));
    assert(set_int_range(0, n).contains(v));
    assert(t.to_set().contains(v));
    let j = choose|j: int| 0 <= j < t.len() && t[j] == v;
    assert(s[j] == v);
}

/// In a Latin square of size `n`, every row and every column holds every
/// tile of `0..n`: each is a permutation of `0..n`.
pub proof fn lemma_latin_lines_are_permutations(m: Seq<Seq<u32>>, i: int, v: int)
    requires
        is_latin(m),
        0 <= i < m.len(),
        0 <= v < m.len(),
    ensures
        exists|j: int| 0 <= j < m.len() && #[trigger] m[i][j] == v,
        exists|k: int| 0 <= k < m.len() && #[trigger] m[k][i] == v,
{
    let n = m.len() as int;
    let column = Seq::new(n as nat, |k: int| m[k][i]);
    assert forall|j: int| 0 <= j < n implies #[trigger] m[i][j] < n by {}
    lemma_distinct_tiles_cover(m[i], n, v);
    assert forall|k: int| 0 <= k < n implies #[trigger] column[k] < n by {
        assert(m[k].len() == n);
    }
    assert forall|j: int, k: int| 0 <= j < n && 0 <= k < n && j != k implies #[trigger] column[j] != #[trigger] column[k] by {
        assert(m[j][i] != m[k][i]);
    }
    lemma_distinct_tiles_cover(column, n, v);
    let k = choose|k: int| 0 <= k < n && column[k] == v;
    assert(m[k][i] == v);
}

/// Four quarter turns bring every square grid back to where it was.
pub proof fn lemma_four_turns_identity<T>(m: Seq<Seq<T>>)
    requires
        is_square(m),
    ensures
        rotate_cw(rotate_cw(rotate_cw(rotate_cw(m)))) == m,
{
    let n = m.len() as int;
    let r1 = rotate_cw(m);
    let r2 = rotate_cw(r1);
    let r3 = rotate_cw(r2);
    let r4 = rotate_cw(r3);
    assert forall|i: int, j: int| 0 <= i < n && 0 <= j < n implies #[trigger] r2[i][j] == m[n - 1 - i][n - 1 - j] by {
        assert(r2[i][j] == r1[n - 1 - j][i]);
    }
    assert forall|i: int| 0 <= i < n implies #[trigger] r4[i] =~= m[i] by {
        assert forall|j: int| 0 <= j < n implies #[trigger] r4[i][j] == m[i][j] by {
            assert(r4[i][j] == r3[n - 1 - j][i]);
            assert(r3[n - 1 - j][i] == r2[n - 1 - i][n - 1 - j]);
        }
        assert(m[i].len() == n);
    }
    assert(r4 =~= m);
}

/// A quarter turn of a Latin square is a Latin square.
pub proof fn lemma_rotate_keeps_latin(m: Seq<Seq<u32>>)
    requires
        is_latin(m),
    ensures
        is_latin(rotate_cw(m)),
{
    let n = m.len() as int;
    let r = rotate_cw(m);
    assert forall|i: int, j: int| 0 <= i < n && 0 <= j < n implies #[trigger] r[i][j] < n by {
        assert(r[i][j] == m[n - 1 - j][i]);
    }
    assert forall|i: int, j: int, k: int|
        0 <= i < n && 0 <= j < n && 0 <= k < n && j != k implies #[trigger] r[i][j] != #[trigger] r[i][k] by {
        assert(m[n - 1 - j][i] != m[n - 1 - k][i]);
    }
    assert forall|i: int, k: int, j: int|
        0 <= i < n && 0 <= k < n && 0 <= j < n && i != k implies #[trigger] r[i][j] != #[trigger] r[k][j] by {
        assert(m[n - 1 - j][i] != m[n - 1 - j][k]);
    }
}

/// Putting the rows of a Latin square in another order keeps it a Latin
/// square.
pub proof fn lemma_reorder_keeps_latin(m: Seq<Seq<u32>>, p: Seq<int>)
    requires
        is_latin(m),
        is_index_permutation(p, m.len() as int),
    ensures
        is_latin(reorder(m, p)),
{
    let n = m.len() as int;
    let r = reorder(m, p);
    assert forall|i: int| 0 <= i < n implies #[trigger] r[i].len() == n by {
        assert(r[i] == m[p[i]]);
    }
    assert forall|i: int, j: int| 0 <= i < n && 0 <= j < n implies #[trigger] r[i][j] < n by {
        assert(r[i] == m[p[i]]);
        assert(m[p[i]][j] < n);
    }
    assert forall|i: int, j: int, k: int|
        0 <= i < n && 0 <= j < n && 0 <= k < n && j != k implies #[trigger] r[i][j] != #[trigger] r[i][k] by {
        assert(r[i] == m[p[i]]);
        assert(m[p[i]][j] != m[p[i]][k]);
    }
    assert forall|i: int, k: int, j: int|
        0 <= i < n && 0 <= k < n && 0 <= j < n && i != k implies #[trigger] r[i][j] != #[trigger] r[k][j] by {
        assert(p[i] != p[k]);
        assert(m[p[i]][j] != m[p[k]][j]);
    }
}

/// Shifting every row of a Latin square cyclically by the same amount keeps
/// it a Latin square.
pub proof fn lemma_shift_keeps_latin(m: Seq<Seq<u32>>, s: int)
    requires
        is_latin(m),
        0 <= s < m.len(),
    ensures
        is_latin(shift_rows_left(m, s)),
{
    let n = m.len() as int;
    let r = shift_rows_left(m, s);
    assert forall|j: int| 0 <= j < n implies 0 <= #[trigger] ((j + s) % n) < n by {
        lemma_wrap(j + s, n);
    }
    assert forall|i: int| 0 <= i < n implies #[trigger] r[i].len() == n by {
        assert(m[i].len() == n);
    }
    assert forall|i: int, j: int| 0 <= i < n && 0 <= j < n implies #[trigger] r[i][j] < n by {
        assert(m[i].len() == n);
        assert(r[i][j] == m[i][(j + s) % n]);
    }
    assert forall|i: int, j: int, k: int|
        0 <= i < n && 0 <= j < n && 0 <= k < n && j != k implies #[trigger] r[i][j] != #[trigger] r[i][k] by {
        assert(m[i].len() == n);
        lemma_wrap(j + s, n);
        lemma_wrap(k + s, n);
        assert(r[i][j] == m[i][(j + s) % n]);
        assert(r[i][k] == m[i][(k + s) % n]);
    }
    assert forall|i: int, k: int, j: int|
        0 <= i < n && 0 <= k < n && 0 <= j < n && i != k implies #[trigger] r[i][j] != #[trigger] r[k][j] by {
        assert(m[i].len() == n);
        assert(m[k].len() == n);
        assert(r[i][j] == m[i][(j + s) % n]);
        assert(r[k][j] == m[k][(j + s) % n]);
    }
}

} // verus!
