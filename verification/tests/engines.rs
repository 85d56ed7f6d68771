use sudoku::text::parse_sudoku_file;
use sudoku::validation::{is_valid_sudoku_solution, solution_matches_problem};
use sudoku::{naive_solve, z3_solve};

const STANDARD: &str = "53..7....
6..195...
.98....6.
8...6...3
4..8.3..1
7...2...6
.6....28.
...419..5
....8..79
";

const SPARSE: &str = "...6..4..
7....36..
....91.8.
.........
.5.18...3
...3.6.45
.4.2...6.
9.3......
.2....1..
";

fn standard_solution() -> Vec<Vec<i32>> {
    vec![
        vec![5, 3, 4, 6, 7, 8, 9, 1, 2],
        vec![6, 7, 2, 1, 9, 5, 3, 4, 8],
        vec![1, 9, 8, 3, 4, 2, 5, 6, 7],
        vec![8, 5, 9, 7, 6, 1, 4, 2, 3],
        vec![4, 2, 6, 8, 5, 3, 7, 9, 1],
        vec![7, 1, 3, 9, 2, 4, 8, 5, 6],
        vec![9, 6, 1, 5, 3, 7, 2, 8, 4],
        vec![2, 8, 7, 4, 1, 9, 6, 3, 5],
        vec![3, 4, 5, 2, 8, 6, 1, 7, 9],
    ]
}

#[test]
fn both_engines_find_the_completion_of_the_standard_puzzle() {
    let problem = parse_sudoku_file(STANDARD);
    assert_eq!(naive_solve(&problem), standard_solution());
    assert_eq!(z3_solve(&problem), standard_solution());
}

#[test]
fn both_engines_solve_the_puzzles_given_as_text() {
    for text in [STANDARD, SPARSE] {
        let problem = parse_sudoku_file(text);

        let naive_solution = naive_solve(&problem);
        let z3_solution = z3_solve(&problem);

        assert!(is_valid_sudoku_solution(&naive_solution));
        assert!(is_valid_sudoku_solution(&z3_solution));
        assert!(solution_matches_problem(&problem, &naive_solution));
        assert!(solution_matches_problem(&problem, &z3_solution));
    }
}

#[test]
fn both_engines_give_the_same_grid_each_time() {
    let problem = parse_sudoku_file(STANDARD);

    assert_eq!(naive_solve(&problem), naive_solve(&problem));
    assert_eq!(z3_solve(&problem), z3_solve(&problem));
}

#[test]
fn both_engines_fill_every_cell_and_keep_every_clue() {
    let problem = parse_sudoku_file(SPARSE);
    for solution in [naive_solve(&problem), z3_solve(&problem)] {
        for i in 0..9 {
            for j in 0..9 {
                assert_ne!(solution[i][j], 0);
                assert!(solution[i][j] >= 1 && solution[i][j] <= 9);
                if problem[i][j] != 0 {
                    assert_eq!(problem[i][j], solution[i][j]);
                }
            }
        }
    }
}

#[test]
fn both_engines_give_zeros_for_two_ones_in_a_row() {
    let mut problem = [[0; 9]; 9];
    problem[0][0] = 1;
    problem[0][1] = 1;
    let zeros = vec![vec![0; 9]; 9];
    assert_eq!(naive_solve(&problem), zeros);
    assert_eq!(z3_solve(&problem), zeros);
}

#[test]
fn both_engines_give_zeros_for_a_puzzle_without_completion() {
    let mut problem = [[0; 9]; 9];
    problem[0] = [1, 2, 3, 4, 5, 6, 7, 8, 0];
    problem[1][8] = 9;
    let zeros = vec![vec![0; 9]; 9];
    assert_eq!(naive_solve(&problem), zeros);
    assert_eq!(z3_solve(&problem), zeros);
}

#[test]
fn both_engines_complete_the_empty_puzzle() {
    let problem = [[0; 9]; 9];
    for solution in [naive_solve(&problem), z3_solve(&problem)] {
        assert_ne!(solution, vec![vec![0; 9]; 9]);
        assert!(is_valid_sudoku_solution(&solution));
    }
}
