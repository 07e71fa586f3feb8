use vstd::prelude::*;

verus! {

/// The `j`-th corner (of six) of the two triangles of grid cell (row, col)
/// in a grid of `cols` vertices per row: (a, b, c) then (a, c, d), where a is
/// the cell's corner, b the one below it, c below and right, d to the right.
pub open spec fn cell_corner(cols: nat, row: nat, col: nat, j: nat) -> nat {
    let a = row * cols + col;
    let b = (row + 1) * cols + col;
    if j == 0 || j == 3 {
        a
    } else if j == 1 {
        b
    } else if j == 2 || j == 4 {
        b + 1
    } else {
        a + 1
    }
}

/// Index `k` of the triangulation of a `rows` x `cols` vertex grid: cells in
/// row-major order, six indices per cell.
pub open spec fn grid_index(cols: nat, k: nat) -> nat {
    let cell = k / 6;
    cell_corner(cols, cell / ((cols - 1) as nat), cell % ((cols - 1) as nat), k % 6)
}

/// Triangulates a grid of `rows` x `cols` vertices (row-major, as a sphere's
/// rings and sectors): two triangles per cell, six vertex indices per cell.
pub fn grid_indices(rows: usize, cols: usize) -> (r: Vec<usize>)
    requires
        rows >= 1,
        cols >= 1,
        rows * cols <= usize::MAX,
        6 * rows * cols <= usize::MAX,
    ensures
        r@.len() == 6 * (rows - 1) * (cols - 1),
        forall|k: int| 0 <= k < r@.len() ==> r@[k] == grid_index(cols as nat, k as nat),
        forall|k: int| 0 <= k < r@.len() ==> r@[k] < rows * cols,
{
    let mut out: Vec<usize> = Vec::new();
    let mut row: usize = 0;
    let cells_per_row: usize = cols - 1;
    proof {
        assert(0 <= 6 * (rows - 1) * (cols - 1) <= 6 * rows * cols) by (nonlinear_arith)
            requires
                rows >= 1,
                cols >= 1,
        ;
    }
    while row < rows - 1
        invariant
            rows >= 1,
            cols >= 1,
            cells_per_row == cols - 1,
            rows * cols <= usize::MAX,
            6 * rows * cols <= usize::MAX,
            row <= rows - 1,
            out@.len() == 6 * row * cells_per_row,
            forall|k: int| 0 <= k < out@.len() ==> out@[k] == grid_index(cols as nat, k as nat),
            forall|k: int| 0 <= k < out@.len() ==> out@[k] < rows * cols,
        decreases rows - 1 - row,
    {
        let mut col: usize = 0;
        assert(6 * row * cells_per_row == 6 * (row * cells_per_row + 0)) by (nonlinear_arith);
        while col < cells_per_row
            invariant
                rows >= 1,
                cols >= 1,
                cells_per_row == cols - 1,
                rows * cols <= usize::MAX,
                row < rows - 1,
                col <= cells_per_row,
                out@.len() == 6 * (row * cells_per_row + col),
                forall|k: int| 0 <= k < out@.len() ==> out@[k] == grid_index(cols as nat, k as nat),
                forall|k: int| 0 <= k < out@.len() ==> out@[k] < rows * cols,
            decreases cells_per_row - col,
        {
            proof {
                assert((row + 1) * cols + col + 1 < rows * cols) by (nonlinear_arith)
                    requires
                        row + 1 < rows,
                        col + 1 < cols,
                ;
                assert(row * cols + col + 1 < rows * cols) by (nonlinear_arith)
                    requires
                        row + 1 < rows,
                        col + 1 < cols,
                ;
            }
            let a = row * cols + col;
            let b = (row + 1) * cols + col;
            let ghost base = out@.len() as nat;
            let ghost cell = row * cells_per_row + col;
            out.push(a);
            out.push(b);
            out.push(b + 1);
            out.push(a);
            out.push(b + 1);
            out.push(a + 1);
            proof {
                assert forall|j: nat| j < 6 implies grid_index(cols as nat, base + j) == cell_corner(
                    cols as nat,
                    row as nat,
                    col as nat,
                    j,
                ) by {
                    assert(base == 6 * cell);
                    vstd::arithmetic::div_mod::lemma_fundamental_div_mod_converse((base + j) as int, 6, cell as int, j as int);
                    vstd::arithmetic::div_mod::lemma_fundamental_div_mod_converse(
                        cell as int,
                        cells_per_row as int,
                        row as int,
                        col as int,
                    );
                }
                assert forall|k: int| 0 <= k < out@.len() implies out@[k] == grid_index(cols as nat, k as nat) by {
                    if k >= base {
                        assert(grid_index(cols as nat, base + (k - base) as nat) == cell_corner(
                            cols as nat,
                            row as nat,
                            col as nat,
                            (k - base) as nat,
                        ));
                    }
                }
                assert(6 * (row * cells_per_row + col + 1) == 6 * (row * cells_per_row + col) + 6);
            }
            col = col + 1;
        }
        proof {
            assert(6 * (row * cells_per_row + cells_per_row) == 6 * (row + 1) * cells_per_row) by (nonlinear_arith);
        }
        row = row + 1;
    }
    out
}

/// The items named by `indices`, in that order.
pub fn gather<T: Copy>(items: &Vec<T>, indices: &Vec<usize>) -> (r: Vec<T>)
    requires
        forall|k: int| 0 <= k < indices@.len() ==> indices@[k] < items@.len(),
    ensures
        r@.len() == indices@.len(),
        forall|k: int| 0 <= k < indices@.len() ==> r@[k] == items@[indices@[k] as int],
{
    let mut out: Vec<T> = Vec::new();
    let mut k: usize = 0;
    while k < indices.len()
        invariant
            k <= indices@.len(),
            out@.len() == k,
            forall|i: int| 0 <= i < indices@.len() ==> indices@[i] < items@.len(),
            forall|i: int| 0 <= i < k ==> out@[i] == items@[indices@[i] as int],
        decreases indices@.len() - k,
    {
        let item = items[indices[k]];
        out.push(item);
        k = k + 1;
    }
    out
}

/// Like `gather`, with `fallback` for indices past the end of `items`.
pub fn gather_or<T: Copy>(items: &Vec<T>, indices: &Vec<usize>, fallback: T) -> (r: Vec<T>)
    ensures
        r@.len() == indices@.len(),
        forall|k: int|
            0 <= k < indices@.len() ==> r@[k] == if indices@[k] < items@.len() {
                items@[indices@[k] as int]
            } else {
                fallback
            },
{
    let mut out: Vec<T> = Vec::new();
    let mut k: usize = 0;
    while k < indices.len()
        invariant
            k <= indices@.len(),
            out@.len() == k,
            forall|i: int|
                0 <= i < k ==> out@[i] == if indices@[i] < items@.len() {
                    items@[indices@[i] as int]
                } else {
                    fallback
                },
        decreases indices@.len() - k,
    {
        let i = indices[k];
        let item = if i < items.len() { items[i] } else { fallback };
        out.push(item);
        k = k + 1;
    }
    out
}

} // verus!
