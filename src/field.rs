use vstd::prelude::*;

use itertools::Itertools;

verus! {

/// The lattice position `(i, j)` of sample `k` of a field of resolution
/// `grid`: `i` counts steps along the real axis (the outer order), `j` steps
/// along the imaginary axis (the inner order).
pub open spec fn sample_position(grid: int, k: int) -> (int, int) {
    (k / grid, k % grid)
}

/// The list of a field's `grid * grid` sample positions fits in memory.
pub open spec fn samples_fit(grid: int) -> bool {
    (grid * grid + 1) * 8 <= isize::MAX
}

/// Relies on itertools::Itertools::cartesian_product over `0..n` twice: every
/// `(a, b)` with `a` and `b` below `n`, `a` in the outer order and `b` in the
/// inner one. Collecting allocates room for about `n * n` pairs, which
/// the requires keeps within what a `Vec` can hold.
#[verifier::external_body]
fn index_pairs(n: u32) -> (r: Vec<(u32, u32)>)
    requires
        samples_fit(n as int),
    ensures
        r@.len() == n * n,
        forall|k: int|
            0 <= k < n * n ==> #[trigger] r@[k] == ((k / n as int) as u32, (k % n as int) as u32),
{
    (0..n).cartesian_product(0..n).collect()
}

/// The lattice positions of the samples of a field of resolution `grid`, in
/// sample order: sample `k` is `sample_position(grid, k)`.
pub fn sample_indices(grid: u32) -> (r: Vec<(u32, u32)>)
    requires
        samples_fit(grid as int),
    ensures
        r@.len() == grid * grid,
        forall|k: int|
            0 <= k < grid * grid ==> #[trigger] r@[k] == (
                sample_position(grid as int, k).0 as u32,
                sample_position(grid as int, k).1 as u32,
            ),
{
    index_pairs(grid)
}

/// The samples of a field of resolution `grid` are the `grid * grid` lattice
/// points of `[0, grid)²`, each once: sample `i * grid + j` is `(i, j)`, and
/// every sample is such a point. Within a row of the outer order consecutive
/// samples are one step apart along the imaginary axis; samples `grid` apart
/// are one step apart along the real axis.
pub proof fn lemma_sample_lattice(grid: int, k: int)
    requires
        0 < grid,
        0 <= k < grid * grid,
    ensures
        0 <= sample_position(grid, k).0 < grid,
        0 <= sample_position(grid, k).1 < grid,
        sample_position(grid, sample_position(grid, k).0 * grid + sample_position(grid, k).1)
            == sample_position(grid, k),
        sample_position(grid, k).0 * grid + sample_position(grid, k).1 == k,
        k + 1 < grid * grid && (k + 1) % grid != 0 ==> sample_position(grid, k + 1) == (
            sample_position(grid, k).0,
            sample_position(grid, k).1 + 1,
        ),
        k + grid < grid * grid ==> sample_position(grid, k + grid) == (
            sample_position(grid, k).0 + 1,
            sample_position(grid, k).1,
        ),
{
    let i = k / grid;
    let j = k % grid;
    assert(k == i * grid + j && 0 <= j < grid) by (nonlinear_arith)
        requires
            0 < grid,
            i == k / grid,
            j == k % grid,
    ;
    assert(0 <= i < grid) by (nonlinear_arith)
        requires
            0 < grid,
            0 <= k < grid * grid,
            k == i * grid + j,
            0 <= j < grid,
    ;
    if k + 1 < grid * grid && (k + 1) % grid != 0 {
        assert((k + 1) / grid == i && (k + 1) % grid == j + 1) by (nonlinear_arith)
            requires
                0 < grid,
                k == i * grid + j,
                0 <= j < grid,
                (k + 1) % grid != 0,
        {
            assert(j + 1 < grid) by {
                if j + 1 == grid {
                    assert(k + 1 == (i + 1) * grid);
                }
            }
            assert(k + 1 == i * grid + (j + 1));
        }
    }
    if k + grid < grid * grid {
        assert((k + grid) / grid == i + 1 && (k + grid) % grid == j) by (nonlinear_arith)
            requires
                0 < grid,
                k == i * grid + j,
                0 <= j < grid,
        {
            assert(k + grid == (i + 1) * grid + j);
        }
    }
}

/// Sample `i * grid + j` sits at lattice point `(i, j)`.
pub proof fn lemma_sample_of_point(grid: int, i: int, j: int)
    requires
        0 <= i < grid,
        0 <= j < grid,
    ensures
        0 <= i * grid + j < grid * grid,
        sample_position(grid, i * grid + j) == (i, j),
{
    assert(0 <= i * grid + j < grid * grid) by (nonlinear_arith)
        requires
            0 <= i < grid,
            0 <= j < grid,
    ;
    assert((i * grid + j) / grid == i && (i * grid + j) % grid == j) by (nonlinear_arith)
        requires
            0 <= i < grid,
            0 <= j < grid,
    ;
}

} // verus!
