//! Two engines that solve standard 9x9 Sudoku puzzles: a depth-first
//! backtracking search, and an encoding into boolean satisfiability that is
//! handed to the Z3 solver.
//!
//! Both engines take a grid of digits with 0 for an empty cell and return a
//! grid: a completion of the puzzle, or the grid of zeros where they find
//! none.

pub mod encoding;
pub mod grid;
pub mod naive_solver;
pub mod sat;
pub mod text;
pub mod theorems;
pub mod validation;
pub mod z3solver;

pub use naive_solver::solve_sudoku as naive_solve;
pub use z3solver::solve_sudoku as z3_solve;
