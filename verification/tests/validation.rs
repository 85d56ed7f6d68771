use sudoku::validation::{is_valid_sudoku_solution, solution_matches_problem};

#[test]
fn test_valid_sudoku_solution() {
    let valid_solution = vec![
        vec![5, 3, 4, 6, 7, 8, 9, 1, 2],
        vec![6, 7, 2, 1, 9, 5, 3, 4, 8],
        vec![1, 9, 8, 3, 4, 2, 5, 6, 7],
        vec![8, 5, 9, 7, 6, 1, 4, 2, 3],
        vec![4, 2, 6, 8, 5, 3, 7, 9, 1],
        vec![7, 1, 3, 9, 2, 4, 8, 5, 6],
        vec![9, 6, 1, 5, 3, 7, 2, 8, 4],
        vec![2, 8, 7, 4, 1, 9, 6, 3, 5],
        vec![3, 4, 5, 2, 8, 6, 1, 7, 9],
    ];
    assert!(is_valid_sudoku_solution(&valid_solution));
}

#[test]
fn test_invalid_sudoku_solution() {
    let invalid_solution = vec![
        vec![1, 1, 4, 6, 7, 8, 9, 1, 2],
        vec![6, 7, 2, 1, 9, 5, 3, 4, 8],
        vec![1, 9, 8, 3, 4, 2, 5, 6, 7],
        vec![8, 5, 9, 7, 6, 1, 4, 2, 3],
        vec![4, 2, 6, 8, 5, 3, 7, 9, 1],
        vec![7, 1, 3, 9, 2, 4, 8, 5, 6],
        vec![9, 6, 1, 5, 3, 7, 2, 8, 4],
        vec![2, 8, 7, 4, 1, 9, 6, 3, 5],
        vec![3, 4, 5, 2, 8, 6, 1, 7, 9],
    ];
    assert!(!is_valid_sudoku_solution(&invalid_solution));
}

#[test]
fn test_solution_matches_problem() {
    let problem = [
        [5, 3, 0, 0, 7, 0, 0, 0, 0],
        [6, 0, 0, 1, 9, 5, 0, 0, 0],
        [0, 9, 8, 0, 0, 0, 0, 6, 0],
        [8, 0, 0, 0, 6, 0, 0, 0, 3],
        [4, 0, 0, 8, 0, 3, 0, 0, 1],
        [7, 0, 0, 0, 2, 0, 0, 0, 6],
        [0, 6, 0, 0, 0, 0, 2, 8, 0],
        [0, 0, 0, 4, 1, 9, 0, 0, 5],
        [0, 0, 0, 0, 8, 0, 0, 7, 9],
    ];

    let solution = vec![
        vec![5, 3, 4, 6, 7, 8, 9, 1, 2],
        vec![6, 7, 2, 1, 9, 5, 3, 4, 8],
        vec![1, 9, 8, 3, 4, 2, 5, 6, 7],
        vec![8, 5, 9, 7, 6, 1, 4, 2, 3],
        vec![4, 2, 6, 8, 5, 3, 7, 9, 1],
        vec![7, 1, 3, 9, 2, 4, 8, 5, 6],
        vec![9, 6, 1, 5, 3, 7, 2, 8, 4],
        vec![2, 8, 7, 4, 1, 9, 6, 3, 5],
        vec![3, 4, 5, 2, 8, 6, 1, 7, 9],
    ];

    assert!(solution_matches_problem(&problem, &solution));
}

fn solved_rows() -> Vec<Vec<i32>> {
    vec![
        vec![5, 3, 4, 6, 7, 8, 9, 1, 2],
        vec![6, 7, 2, 1, 9, 5, 3, 4, 8],
        vec![1, 9, 8, 3, 4, 2, 5, 6, 7],
        vec![8, 5, 9, 7, 6, 1, 4, 2, 3],
        vec![4, 2, 6, 8, 5, 3, 7, 9, 1],
        vec![7, 1, 3, 9, 2, 4, 8, 5, 6],
        vec![9, 6, 1, 5, 3, 7, 2, 8, 4],
        vec![2, 8, 7, 4, 1, 9, 6, 3, 5],
        vec![3, 4, 5, 2, 8, 6, 1, 7, 9],
    ]
}

#[test]
fn a_grid_of_another_shape_is_not_solved() {
    let mut short = solved_rows();
    short.pop();
    assert!(!is_valid_sudoku_solution(&short));

    let mut ragged = solved_rows();
    ragged[4].pop();
    assert!(!is_valid_sudoku_solution(&ragged));

    let mut long = solved_rows();
    long.push(vec![1, 2, 3, 4, 5, 6, 7, 8, 9]);
    assert!(!is_valid_sudoku_solution(&long));

    assert!(!is_valid_sudoku_solution(&[]));
}

#[test]
fn a_grid_with_a_value_out_of_range_is_not_solved() {
    let mut empty_cell = solved_rows();
    empty_cell[0][0] = 0;
    assert!(!is_valid_sudoku_solution(&empty_cell));

    let mut ten = solved_rows();
    ten[8][8] = 10;
    assert!(!is_valid_sudoku_solution(&ten));

    let mut negative = solved_rows();
    negative[3][3] = -7;
    assert!(!is_valid_sudoku_solution(&negative));
}

#[test]
fn a_repeat_in_a_column_or_a_box_alone_is_found() {
    // Rows are permutations, but the first two rows are equal.
    let mut rows = solved_rows();
    rows[1] = rows[0].clone();
    assert!(!is_valid_sudoku_solution(&rows));

    // Rows and columns are permutations, but the boxes are not.
    let shifted: Vec<Vec<i32>> = (0..9)
        .map(|r| (0..9).map(|c| (r + c) % 9 + 1).collect())
        .collect();
    assert!(!is_valid_sudoku_solution(&shifted));
}

#[test]
fn a_changed_clue_does_not_match() {
    let mut problem = [[0; 9]; 9];
    problem[0][0] = 5;
    problem[8][8] = 9;
    assert!(solution_matches_problem(&problem, &solved_rows()));

    problem[8][8] = 8;
    assert!(!solution_matches_problem(&problem, &solved_rows()));

    assert!(solution_matches_problem(&[[0; 9]; 9], &solved_rows()));
}

#[test]
fn an_array_of_digits_and_zeros_is_a_puzzle() {
    assert!(sudoku::validation::is_puzzle(&[[0; 9]; 9]));

    let mut problem = [[0; 9]; 9];
    problem[0][0] = 9;
    problem[8][8] = 1;
    assert!(sudoku::validation::is_puzzle(&problem));

    problem[4][4] = 10;
    assert!(!sudoku::validation::is_puzzle(&problem));

    problem[4][4] = -1;
    assert!(!sudoku::validation::is_puzzle(&problem));
}
