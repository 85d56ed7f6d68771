//! Depth-first backtracking search over the grid.

use crate::grid::{
    array_grid, array_rows, before, box_no_repeats, can_place, cells_left, col_no_repeats,
    copy_rows, in_box, in_grid, is_completion, is_fill, is_first_empty, is_full, is_grid,
    is_least_fill, lex_le, no_repeats, peers, row_no_repeats, rows_grid, search_outcome,
    shares_unit, zero_rows, Grid,
};
use crate::theorems::{lemma_conflict_has_no_completion, lemma_fill_is_completion};
use std::collections::HashSet;
use vstd::prelude::*;

verus! {

/// The first empty cell in row-major order, or `(9, 9)` when the grid is full.
pub fn find_next_empty(sudoku: &[Vec<i32>]) -> (pos: (usize, usize))
    requires
        is_grid(rows_grid(sudoku@)),
    ensures
        pos == (9usize, 9usize) || is_first_empty(rows_grid(sudoku@), pos.0 as int, pos.1 as int),
        pos == (9usize, 9usize) ==> is_full(rows_grid(sudoku@)),
{
    let ghost g = rows_grid(sudoku@);
    for i in 0..9usize
        invariant
            g == rows_grid(sudoku@),
            is_grid(g),
            forall|r: int, c: int| 0 <= r < i && 0 <= c < 9 ==> #[trigger] g[r][c] != 0,
    {
        for j in 0..9usize
            invariant
                i < 9,
                g == rows_grid(sudoku@),
                is_grid(g),
                forall|r: int, c: int| 0 <= r < i && 0 <= c < 9 ==> #[trigger] g[r][c] != 0,
                forall|c: int| 0 <= c < j ==> #[trigger] g[i as int][c] != 0,
        {
            assert(g[i as int] == sudoku@[i as int]@);
            if sudoku[i][j] == 0 {
                return (i, j);
            }
        }
    }
    (9, 9)
}

/// Whether `num` may be put at `(row, col)`: it occurs nowhere in that
/// cell's row, column or box.
pub fn is_valid_move(sudoku: &[Vec<i32>], row: usize, col: usize, num: i32) -> (ok: bool)
    requires
        is_grid(rows_grid(sudoku@)),
        row < 9,
        col < 9,
    ensures
        ok == can_place(rows_grid(sudoku@), row as int, col as int, num),
{
    let ghost g = rows_grid(sudoku@);
    for i in 0..9usize
        invariant
            row < 9,
            col < 9,
            g == rows_grid(sudoku@),
            is_grid(g),
            forall|k: int| 0 <= k < i ==> #[trigger] g[row as int][k] != num,
            forall|k: int| 0 <= k < i ==> (#[trigger] g[k])[col as int] != num,
    {
        assert(g[row as int] == sudoku@[row as int]@);
        assert(g[i as int] == sudoku@[i as int]@);
        if sudoku[row][i] == num || sudoku[i][col] == num {
            return false;
        }
    }
    let start_row = row - row % 3;
    let start_col = col - col % 3;
    for i in 0..3usize
        invariant
            row < 9,
            col < 9,
            start_row == row - row % 3,
            start_col == col - col % 3,
            g == rows_grid(sudoku@),
            is_grid(g),
            forall|r: int, c: int|
                start_row <= r < start_row + i && start_col <= c < start_col + 3
                    ==> #[trigger] g[r][c] != num,
    {
        for j in 0..3usize
            invariant
                i < 3,
                row < 9,
                col < 9,
                start_row == row - row % 3,
                start_col == col - col % 3,
                g == rows_grid(sudoku@),
                is_grid(g),
                forall|r: int, c: int|
                    start_row <= r < start_row + i && start_col <= c < start_col + 3
                        ==> #[trigger] g[r][c] != num,
                forall|c: int|
                    start_col <= c < start_col + j ==> #[trigger] g[start_row + i][c] != num,
        {
            assert(g[i + start_row] == sudoku@[i + start_row]@);
            if sudoku[i + start_row][j + start_col] == num {
                return false;
            }
        }
    }
    true
}

/// Whether the clues are free of conflicts: no non-zero value occurs twice
/// in a row, a column or a box.
pub fn is_valid_initial_state(sudoku: &[Vec<i32>]) -> (ok: bool)
    requires
        is_grid(rows_grid(sudoku@)),
    ensures
        ok == no_repeats(rows_grid(sudoku@)),
{
    let ghost g = rows_grid(sudoku@);
    for row in 0..9usize
        invariant
            g == rows_grid(sudoku@),
            is_grid(g),
            forall|r: int| 0 <= r < row ==> row_no_repeats(g, r),
    {
        let mut seen: HashSet<i32> = HashSet::new();
        for col in 0..9usize
            invariant
                row < 9,
                g == rows_grid(sudoku@),
                is_grid(g),
                forall|v: i32|
                    seen@.contains(v) <==> v != 0 && exists|c: int|
                        0 <= c < col && #[trigger] g[row as int][c] == v,
                forall|c1: int, c2: int|
                    0 <= c1 < col && 0 <= c2 < col && c1 != c2 && g[row as int][c1] != 0
                        ==> #[trigger] g[row as int][c1] != #[trigger] g[row as int][c2],
        {
            assert(g[row as int] == sudoku@[row as int]@);
            let val = sudoku[row][col];
            if val != 0 {
                if !seen.insert(val) {
                    return false;
                }
            }
        }
    }
    for col in 0..9usize
        invariant
            g == rows_grid(sudoku@),
            is_grid(g),
            forall|r: int| 0 <= r < 9 ==> row_no_repeats(g, r),
            forall|c: int| 0 <= c < col ==> col_no_repeats(g, c),
    {
        let mut seen: HashSet<i32> = HashSet::new();
        for row in 0..9usize
            invariant
                col < 9,
                g == rows_grid(sudoku@),
                is_grid(g),
                forall|v: i32|
                    seen@.contains(v) <==> v != 0 && exists|r: int|
                        0 <= r < row && (#[trigger] g[r])[col as int] == v,
                forall|r1: int, r2: int|
                    0 <= r1 < row && 0 <= r2 < row && r1 != r2 && g[r1][col as int] != 0
                        ==> #[trigger] g[r1][col as int] != #[trigger] g[r2][col as int],
        {
            assert(g[row as int] == sudoku@[row as int]@);
            let val = sudoku[row][col];
            if val != 0 {
                if !seen.insert(val) {
                    return false;
                }
            }
        }
    }
    for box_row in 0..3usize
        invariant
            g == rows_grid(sudoku@),
            is_grid(g),
            forall|r: int| 0 <= r < 9 ==> row_no_repeats(g, r),
            forall|c: int| 0 <= c < 9 ==> col_no_repeats(g, c),
            forall|br: int, bc: int| 0 <= br < box_row && 0 <= bc < 3 ==> box_no_repeats(g, br, bc),
    {
        for box_col in 0..3usize
            invariant
                box_row < 3,
                g == rows_grid(sudoku@),
                is_grid(g),
                forall|br: int, bc: int|
                    0 <= br < box_row && 0 <= bc < 3 ==> box_no_repeats(g, br, bc),
                forall|bc: int| 0 <= bc < box_col ==> box_no_repeats(g, box_row as int, bc),
        {
            let mut seen: HashSet<i32> = HashSet::new();
            let ghost br = box_row as int;
            let ghost bc = box_col as int;
            for row in (box_row * 3)..((box_row + 1) * 3)
                invariant
                    box_row < 3,
                    box_col < 3,
                    br == box_row,
                    bc == box_col,
                    g == rows_grid(sudoku@),
                    is_grid(g),
                    forall|v: i32|
                        seen@.contains(v) <==> v != 0 && exists|r: int, c: int|
                            in_box(r, c, br, bc) && r < row && #[trigger] g[r][c] == v,
                    forall|r1: int, c1: int, r2: int, c2: int|
                        in_box(r1, c1, br, bc) && in_box(r2, c2, br, bc) && r1 < row && r2 < row
                            && !(r1 == r2 && c1 == c2) && g[r1][c1] != 0 ==> #[trigger] g[r1][c1]
                            != #[trigger] g[r2][c2],
            {
                for col in (box_col * 3)..((box_col + 1) * 3)
                    invariant
                        box_row < 3,
                        box_col < 3,
                        br == box_row,
                        bc == box_col,
                        3 * br <= row < 3 * br + 3,
                        g == rows_grid(sudoku@),
                        is_grid(g),
                        forall|v: i32|
                            seen@.contains(v) <==> v != 0 && exists|r: int, c: int|
                                in_box(r, c, br, bc) && before(r, c, row as int, col as int)
                                    && #[trigger] g[r][c] == v,
                        forall|r1: int, c1: int, r2: int, c2: int|
                            in_box(r1, c1, br, bc) && in_box(r2, c2, br, bc) && before(
                                r1,
                                c1,
                                row as int,
                                col as int,
                            ) && before(r2, c2, row as int, col as int) && !(r1 == r2 && c1 == c2)
                                && g[r1][c1] != 0 ==> #[trigger] g[r1][c1] != #[trigger] g[r2][c2],
                {
                    assert(g[row as int] == sudoku@[row as int]@);
                    let val = sudoku[row][col];
                    if val != 0 {
                        if !seen.insert(val) {
                            return false;
                        }
                    }
                }
            }
        }
    }
    assert forall|r1: int, c1: int, r2: int, c2: int|
        in_grid(r1, c1) && in_grid(r2, c2) && peers(r1, c1, r2, c2) && g[r1][c1] != 0
        implies #[trigger] g[r1][c1] != #[trigger] g[r2][c2] by {
        if r1 == r2 {
            assert(row_no_repeats(g, r1));
        } else if c1 == c2 {
            assert(col_no_repeats(g, c1));
        } else {
            assert(box_no_repeats(g, r1 / 3, c1 / 3));
        }
    }
    true
}

/// The first empty cell of a grid is the only one.
proof fn lemma_first_empty_unique(g: Grid, r1: int, c1: int, r2: int, c2: int)
    requires
        is_first_empty(g, r1, c1),
        is_first_empty(g, r2, c2),
    ensures
        r1 == r2,
        c1 == c2,
{
}

/// Filling the first empty cell leaves fewer cells to search.
proof fn lemma_cells_left_decreases(p: Grid, q: Grid, row: int, col: int)
    requires
        is_grid(p),
        is_grid(q),
        is_first_empty(p, row, col),
        q[row][col] != 0,
        forall|r: int, c: int|
            in_grid(r, c) && !(r == row && c == col) ==> #[trigger] q[r][c] == p[r][c],
    ensures
        cells_left(q) < cells_left(p),
{
    let (pr, pc) = choose|r: int, c: int| is_first_empty(p, r, c);
    lemma_first_empty_unique(p, pr, pc, row, col);
    if !is_full(q) {
        lemma_first_empty_exists(q, 0);
        let (qr, qc) = choose|r: int, c: int| is_first_empty(q, r, c);
        assert(!before(qr, qc, row, col));
    }
}

/// A grid that is not full has a first empty cell. `n` counts the cells, in
/// row-major order, that are known to hold a value.
proof fn lemma_first_empty_exists(g: Grid, n: int)
    requires
        !is_full(g),
        0 <= n <= 81,
        forall|r: int, c: int| in_grid(r, c) && 9 * r + c < n ==> #[trigger] g[r][c] != 0,
    ensures
        exists|r: int, c: int| is_first_empty(g, r, c),
    decreases 81 - n,
{
    if n == 81 {
    } else {
        let r0 = n / 9;
        let c0 = n % 9;
        if g[r0][c0] == 0 {
            assert(is_first_empty(g, r0, c0));
        } else {
            lemma_first_empty_exists(g, n + 1);
        }
    }
}

/// A full grid is its own least fill.
proof fn lemma_full_grid_least_fill(p: Grid)
    requires
        is_grid(p),
        is_full(p),
    ensures
        is_least_fill(p, p),
{
}

/// No fill puts at the first empty cell a value that its row, column or box
/// already holds.
proof fn lemma_blocked_value(p: Grid, row: int, col: int, num: i32, h: Grid)
    requires
        is_grid(p),
        is_first_empty(p, row, col),
        num != 0,
        !can_place(p, row, col, num),
        is_fill(p, h),
    ensures
        h[row][col] != num,
{
    let (r, c) = choose|r: int, c: int|
        in_grid(r, c) && shares_unit(r, c, row, col) && #[trigger] p[r][c] == num;
    assert(h[r][c] == p[r][c]);
}

/// With `num` placed at the first empty cell of `p`, giving `q`: the fills of
/// `q` are the fills of `p` that hold `num` there.
proof fn lemma_fill_step(p: Grid, q: Grid, row: int, col: int, num: i32, h: Grid)
    requires
        is_grid(p),
        is_grid(q),
        is_first_empty(p, row, col),
        1 <= num <= 9,
        can_place(p, row, col, num),
        q[row][col] == num,
        forall|r: int, c: int|
            in_grid(r, c) && !(r == row && c == col) ==> #[trigger] q[r][c] == p[r][c],
    ensures
        is_fill(q, h) <==> is_fill(p, h) && h[row][col] == num,
{
}

/// A fill that holds `num` at the first empty cell of `p` comes before every
/// fill that holds more there.
proof fn lemma_smaller_first_value(p: Grid, row: int, col: int, g: Grid, h: Grid)
    requires
        is_grid(p),
        is_first_empty(p, row, col),
        is_fill(p, g),
        is_fill(p, h),
        g[row][col] < h[row][col],
    ensures
        lex_le(g, h),
{
}

/// Fills a grid by depth-first search: the first empty cell in row-major
/// order takes the digits 1 to 9 in turn, and the search goes on from each
/// digit that its row, column and box do not hold yet.
///
/// Returns the least fill in row-major lexicographic order, and an error
/// exactly when the grid has no fill.
pub fn solve(sudoku_problem: &[Vec<i32>]) -> (res: Result<Vec<Vec<i32>>, &'static str>)
    requires
        is_grid(rows_grid(sudoku_problem@)),
    ensures
        match res {
            Ok(sol) => is_least_fill(rows_grid(sudoku_problem@), rows_grid(sol@)),
            Err(msg) => msg@ == "No solution found"@ && forall|h: Grid|
                !#[trigger] is_fill(rows_grid(sudoku_problem@), h),
        },
    decreases cells_left(rows_grid(sudoku_problem@)),
{
    let ghost p = rows_grid(sudoku_problem@);
    let mut solution = copy_rows(sudoku_problem);
    let next_empty = find_next_empty(&solution);
    if next_empty.0 == 9 && next_empty.1 == 9 {
        proof {
            lemma_full_grid_least_fill(p);
        }
        return Ok(solution);
    }
    let (row, col) = next_empty;
    let mut num: i32 = 1;
    while num <= 9
        invariant
            1 <= num <= 10,
            p == rows_grid(sudoku_problem@),
            is_grid(p),
            is_first_empty(p, row as int, col as int),
            rows_grid(solution@) == p,
            forall|h: Grid| #[trigger] is_fill(p, h) ==> h[row as int][col as int] >= num,
        decreases 10 - num,
    {
        if is_valid_move(&solution, row, col, num) {
            solution[row][col] = num;
            let ghost q = rows_grid(solution@);
            proof {
                assert forall|r: int, c: int|
                    in_grid(r, c) && !(r == row && c == col) implies #[trigger] q[r][c]
                    == p[r][c] by {}
                assert(is_grid(q)) by {
                    assert forall|r: int| 0 <= r < 9 implies (#[trigger] q[r]).len() == 9 by {
                        assert(p[r].len() == 9);
                    }
                }
                lemma_cells_left_decreases(p, q, row as int, col as int);
                assert forall|h: Grid|
                    is_fill(q, h) <==> is_fill(p, h) && h[row as int][col as int] == num by {
                    lemma_fill_step(p, q, row as int, col as int, num, h);
                }
            }
            let result = solve(&solution);
            match result {
                Ok(sol) => {
                    proof {
                        let g = rows_grid(sol@);
                        assert forall|h: Grid| #[trigger] is_fill(p, h) implies lex_le(g, h) by {
                            if h[row as int][col as int] != num {
                                lemma_smaller_first_value(p, row as int, col as int, g, h);
                            }
                        }
                    }
                    return Ok(sol);
                },
                Err(_) => {
                    solution[row][col] = 0;
                    proof {
                        assert(rows_grid(solution@) =~= p) by {
                            assert forall|r: int| 0 <= r < 9 implies #[trigger] rows_grid(
                                solution@,
                            )[r] =~= p[r] by {}
                        }
                    }
                },
            }
        } else {
            proof {
                assert forall|h: Grid| #[trigger] is_fill(p, h) implies h[row as int][col as int]
                    >= num + 1 by {
                    lemma_blocked_value(p, row as int, col as int, num, h);
                }
            }
        }
        num = num + 1;
    }
    Err("No solution found")
}

/// Solves a puzzle by backtracking search.
///
/// Returns the completion that comes first in row-major lexicographic
/// order, and the grid of zeros when the puzzle has no completion: when its
/// clues conflict, or when the search runs out of digits.
pub fn solve_sudoku(sudoku_problem: &[[i32; 9]; 9]) -> (solution: Vec<Vec<i32>>)
    ensures
        search_outcome(array_grid(*sudoku_problem), rows_grid(solution@)),
{
    let ghost p = array_grid(*sudoku_problem);
    let rows = array_rows(sudoku_problem);
    if !is_valid_initial_state(&rows) {
        proof {
            lemma_conflict_has_no_completion(p);
        }
        return zero_rows();
    }
    proof {
        assert forall|g: Grid| is_fill(p, g) <==> is_completion(p, g) by {
            lemma_fill_is_completion(p, g);
        }
    }
    match solve(&rows) {
        Ok(solution) => {
            solution
        },
        Err(_) => {
            zero_rows()
        },
    }
}

} // verus!
