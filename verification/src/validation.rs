//! Questions about grids that a caller asks before and after solving:
//! whether an array is a puzzle, whether a grid is a solved Sudoku, and
//! whether it keeps the clues of the puzzle it was made from.

use crate::grid::{
    array_grid, digits_in_range, in_grid, is_grid, is_solved, keeps_clues, rows_grid,
};
use crate::naive_solver::is_valid_initial_state;
use vstd::prelude::*;

verus! {

/// Whether the rows form a solved Sudoku: nine rows of nine digits from 1 to
/// 9, none of which occurs twice in a row, a column or a box.
pub fn is_valid_sudoku_solution(sudoku: &[Vec<i32>]) -> (ok: bool)
    ensures
        ok == is_solved(rows_grid(sudoku@)),
{
    let ghost g = rows_grid(sudoku@);
    if sudoku.len() != 9 {
        return false;
    }
    for i in 0..9usize
        invariant
            g == rows_grid(sudoku@),
            sudoku@.len() == 9,
            forall|r: int| 0 <= r < i ==> (#[trigger] g[r]).len() == 9,
    {
        assert(g[i as int] == sudoku@[i as int]@);
        if sudoku[i].len() != 9 {
            return false;
        }
    }
    for i in 0..9usize
        invariant
            g == rows_grid(sudoku@),
            is_grid(g),
            forall|r: int, c: int| 0 <= r < i && 0 <= c < 9 ==> 1 <= #[trigger] g[r][c] <= 9,
    {
        for j in 0..9usize
            invariant
                i < 9,
                g == rows_grid(sudoku@),
                is_grid(g),
                forall|r: int, c: int| 0 <= r < i && 0 <= c < 9 ==> 1 <= #[trigger] g[r][c] <= 9,
                forall|c: int| 0 <= c < j ==> 1 <= #[trigger] g[i as int][c] <= 9,
        {
            assert(g[i as int] == sudoku@[i as int]@);
            let cell = sudoku[i][j];
            if cell < 1 || cell > 9 {
                return false;
            }
        }
    }
    is_valid_initial_state(sudoku)
}

/// Whether `solution` holds every clue of `problem` at its place.
pub fn solution_matches_problem(problem: &[[i32; 9]; 9], solution: &[Vec<i32>]) -> (ok: bool)
    requires
        is_grid(rows_grid(solution@)),
    ensures
        ok == keeps_clues(array_grid(*problem), rows_grid(solution@)),
{
    let ghost p = array_grid(*problem);
    let ghost g = rows_grid(solution@);
    for i in 0..9usize
        invariant
            p == array_grid(*problem),
            g == rows_grid(solution@),
            is_grid(g),
            forall|r: int, c: int|
                0 <= r < i && 0 <= c < 9 && p[r][c] != 0 ==> #[trigger] g[r][c] == p[r][c],
    {
        for j in 0..9usize
            invariant
                i < 9,
                p == array_grid(*problem),
                g == rows_grid(solution@),
                is_grid(g),
                forall|r: int, c: int|
                    0 <= r < i && 0 <= c < 9 && p[r][c] != 0 ==> #[trigger] g[r][c] == p[r][c],
                forall|c: int|
                    0 <= c < j && p[i as int][c] != 0 ==> #[trigger] g[i as int][c]
                        == p[i as int][c],
        {
            assert(g[i as int] == solution@[i as int]@);
            if problem[i][j] != 0 && problem[i][j] != solution[i][j] {
                return false;
            }
        }
    }
    true
}

/// Whether every cell of the puzzle is empty or holds a digit from 1 to 9.
pub fn is_puzzle(problem: &[[i32; 9]; 9]) -> (ok: bool)
    ensures
        ok == digits_in_range(array_grid(*problem)),
{
    let ghost p = array_grid(*problem);
    for i in 0..9usize
        invariant
            p == array_grid(*problem),
            forall|r: int, c: int| 0 <= r < i && 0 <= c < 9 ==> 0 <= #[trigger] p[r][c] <= 9,
    {
        for j in 0..9usize
            invariant
                i < 9,
                p == array_grid(*problem),
                forall|r: int, c: int| 0 <= r < i && 0 <= c < 9 ==> 0 <= #[trigger] p[r][c] <= 9,
                forall|c: int| 0 <= c < j ==> 0 <= #[trigger] p[i as int][c] <= 9,
        {
            let cell = problem[i][j];
            assert(in_grid(i as int, j as int) && cell == p[i as int][j as int]);
            if cell < 0 || cell > 9 {
                return false;
            }
        }
    }
    true
}

} // verus!
