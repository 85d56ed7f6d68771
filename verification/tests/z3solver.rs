use sudoku::validation::{is_valid_sudoku_solution, solution_matches_problem};
use sudoku::sat::Verdict;
use sudoku::z3solver::{
    add_constants, add_external_constraints, add_sudoku_constraints, exactly_one, get_solution,
    grid_of_answer, grid_of_truths, solve_sudoku,
};

fn get_test_problems() -> Vec<([[i32; 9]; 9], &'static str)> {
    vec![
        (
            [
                [5, 3, 0, 0, 7, 0, 0, 0, 0],
                [6, 0, 0, 1, 9, 5, 0, 0, 0],
                [0, 9, 8, 0, 0, 0, 0, 6, 0],
                [8, 0, 0, 0, 6, 0, 0, 0, 3],
                [4, 0, 0, 8, 0, 3, 0, 0, 1],
                [7, 0, 0, 0, 2, 0, 0, 0, 6],
                [0, 6, 0, 0, 0, 0, 2, 8, 0],
                [0, 0, 0, 4, 1, 9, 0, 0, 5],
                [0, 0, 0, 0, 8, 0, 0, 7, 9],
            ],
            "easy",
        ),
        (
            [
                [0, 0, 0, 6, 0, 0, 4, 0, 0],
                [7, 0, 0, 0, 0, 3, 6, 0, 0],
                [0, 0, 0, 0, 9, 1, 0, 8, 0],
                [0, 0, 0, 0, 0, 0, 0, 0, 0],
                [0, 5, 0, 1, 8, 0, 0, 0, 3],
                [0, 0, 0, 3, 0, 6, 0, 4, 5],
                [0, 4, 0, 2, 0, 0, 0, 6, 0],
                [9, 0, 3, 0, 0, 0, 0, 0, 0],
                [0, 2, 0, 0, 0, 0, 1, 0, 0],
            ],
            "medium",
        ),
        ([[0; 9]; 9], "empty"),
    ]
}

fn get_invalid_sudoku() -> [[i32; 9]; 9] {
    [
        [1, 1, 0, 0, 0, 0, 0, 0, 0],
        [0, 0, 0, 0, 0, 0, 0, 0, 0],
        [0, 0, 0, 0, 0, 0, 0, 0, 0],
        [0, 0, 0, 0, 0, 0, 0, 0, 0],
        [0, 0, 0, 0, 0, 0, 0, 0, 0],
        [0, 0, 0, 0, 0, 0, 0, 0, 0],
        [0, 0, 0, 0, 0, 0, 0, 0, 0],
        [0, 0, 0, 0, 0, 0, 0, 0, 0],
        [0, 0, 0, 0, 0, 0, 0, 0, 0],
    ]
}

fn solved_puzzle() -> [[i32; 9]; 9] {
    [
        [5, 3, 4, 6, 7, 8, 9, 1, 2],
        [6, 7, 2, 1, 9, 5, 3, 4, 8],
        [1, 9, 8, 3, 4, 2, 5, 6, 7],
        [8, 5, 9, 7, 6, 1, 4, 2, 3],
        [4, 2, 6, 8, 5, 3, 7, 9, 1],
        [7, 1, 3, 9, 2, 4, 8, 5, 6],
        [9, 6, 1, 5, 3, 7, 2, 8, 4],
        [2, 8, 7, 4, 1, 9, 6, 3, 5],
        [3, 4, 5, 2, 8, 6, 1, 7, 9],
    ]
}

#[test]
fn z3solver_test_solve_sudoku_easy() {
    let (problem, _) = &get_test_problems()[0];
    let solution = solve_sudoku(problem);

    assert!(is_valid_sudoku_solution(&solution));
    assert!(solution_matches_problem(problem, &solution));
}

#[test]
fn z3solver_test_solve_sudoku_medium() {
    let (problem, _) = &get_test_problems()[1];
    let solution = solve_sudoku(problem);

    assert!(is_valid_sudoku_solution(&solution));
    assert!(solution_matches_problem(problem, &solution));
}

#[test]
fn z3solver_test_solve_empty_sudoku() {
    let (problem, _) = &get_test_problems()[2];
    let solution = solve_sudoku(problem);

    assert!(is_valid_sudoku_solution(&solution));
    assert!(solution_matches_problem(problem, &solution));
}

#[test]
fn test_add_constants() {
    let config = z3::Config::new();
    let context = z3::Context::new(&config);
    let constants = add_constants(&context);

    assert_eq!(constants.len(), 9);
    assert_eq!(constants[0].len(), 9);
    assert_eq!(constants[0][0].len(), 9);

    for i in 0..9 {
        for j in 0..9 {
            for k in 0..9 {
                let _constant = &constants[i][j][k];
            }
        }
    }
}

#[test]
fn test_add_external_constraints() {
    let config = z3::Config::new();
    let context = z3::Context::new(&config);
    let constants = add_constants(&context);

    let problem = [
        [5, 3, 0, 0, 7, 0, 0, 0, 0],
        [6, 0, 0, 1, 9, 5, 0, 0, 0],
        [0, 9, 8, 0, 0, 0, 0, 6, 0],
        [8, 0, 0, 0, 6, 0, 0, 0, 3],
        [4, 0, 0, 8, 0, 3, 0, 0, 1],
        [7, 0, 0, 0, 2, 0, 0, 0, 6],
        [0, 6, 0, 0, 0, 0, 2, 8, 0],
        [0, 0, 0, 4, 1, 9, 0, 0, 5],
        [0, 0, 0, 0, 8, 0, 0, 7, 9],
    ];

    let constraints = add_external_constraints(&context, &constants, &problem);

    let solver = z3::Solver::new(&context);
    solver.assert(&constraints);

    assert_ne!(solver.check(), z3::SatResult::Unsat);
}

#[test]
fn test_get_solution_with_solved_puzzle() {
    let config = z3::Config::new();
    let context = z3::Context::new(&config);
    let mut solver = z3::Solver::new(&context);
    let constants = add_constants(&context);

    let problem = solved_puzzle();

    add_sudoku_constraints(&context, &mut solver, &constants, &problem);
    let solution = get_solution(&mut solver, &constants);

    for i in 0..9 {
        for j in 0..9 {
            assert_eq!(solution[i][j], problem[i][j]);
        }
    }
}

#[test]
fn test_exactly_one_constraint() {
    let problem = solved_puzzle();

    let solution = solve_sudoku(&problem);

    for i in 0..9 {
        for j in 0..9 {
            assert_eq!(solution[i][j], problem[i][j]);
        }
    }
}

#[test]
fn test_solve_with_invalid_sudoku() {
    let invalid_problem = get_invalid_sudoku();
    let solution = solve_sudoku(&invalid_problem);

    let is_all_zeros = solution.iter().all(|row| row.iter().all(|&cell| cell == 0));

    if !is_all_zeros {
        assert!(is_valid_sudoku_solution(&solution));
    }
}

#[test]
fn invalid_clues_give_the_grid_of_zeros() {
    let solution = solve_sudoku(&get_invalid_sudoku());
    assert_eq!(solution, vec![vec![0; 9]; 9]);
}

#[test]
fn exactly_one_is_satisfiable_iff_one_input_is_true() {
    for n in 1..=6usize {
        for bits in 0..(1u32 << n) {
            let config = z3::Config::new();
            let context = z3::Context::new(&config);
            let inputs: Vec<z3::ast::Bool> = (0..n)
                .map(|i| z3::ast::Bool::new_const(&context, format!("v{}", i)))
                .collect();
            let refs: Vec<&z3::ast::Bool> = inputs.iter().collect();
            let formula = exactly_one(&context, &refs);

            let solver = z3::Solver::new(&context);
            solver.assert(&formula);
            for (i, input) in inputs.iter().enumerate() {
                if bits & (1 << i) != 0 {
                    solver.assert(input);
                } else {
                    solver.assert(&input.not());
                }
            }
            let expected = if bits.count_ones() == 1 {
                z3::SatResult::Sat
            } else {
                z3::SatResult::Unsat
            };
            assert_eq!(solver.check(), expected);
        }
    }
}

#[test]
fn exactly_one_of_one_input_is_that_input() {
    let config = z3::Config::new();
    let context = z3::Context::new(&config);
    let input = z3::ast::Bool::new_const(&context, "only");
    let formula = exactly_one(&context, &[&input]);

    let solver = z3::Solver::new(&context);
    solver.assert(&formula);
    assert_eq!(solver.check(), z3::SatResult::Sat);
    let model = solver.get_model().unwrap();
    assert_eq!(model.eval(&input).unwrap().as_bool(), Some(true));
}

#[test]
fn constants_are_named_after_cell_and_digit() {
    let config = z3::Config::new();
    let context = z3::Context::new(&config);
    let constants = add_constants(&context);

    assert_eq!(format!("{}", constants[0][0][0]), "x_0_0_1");
    assert_eq!(format!("{}", constants[3][7][8]), "x_3_7_9");
    assert_eq!(format!("{}", constants[8][8][4]), "x_8_8_5");
}

#[test]
fn clue_constraints_fix_the_clue_cells() {
    let config = z3::Config::new();
    let context = z3::Context::new(&config);
    let constants = add_constants(&context);
    let mut problem = [[0; 9]; 9];
    problem[2][5] = 7;

    let constraints = add_external_constraints(&context, &constants, &problem);

    let solver = z3::Solver::new(&context);
    solver.assert(&constraints);
    solver.assert(&constants[2][5][6].not());
    assert_eq!(solver.check(), z3::SatResult::Unsat);
}

#[test]
fn get_solution_without_assertions_reads_the_model_as_it_is() {
    let config = z3::Config::new();
    let context = z3::Context::new(&config);
    let mut solver = z3::Solver::new(&context);
    let constants = add_constants(&context);
    solver.assert(&constants[4][4][2]);
    solver.assert(&constants[4][4][6]);

    let solution = get_solution(&mut solver, &constants);

    assert_eq!(solution[4][4], 7);
}

#[test]
fn get_solution_of_contradiction_is_the_grid_of_zeros() {
    let config = z3::Config::new();
    let context = z3::Context::new(&config);
    let mut solver = z3::Solver::new(&context);
    let constants = add_constants(&context);
    solver.assert(&constants[0][0][0]);
    solver.assert(&constants[0][0][0].not());

    let solution = get_solution(&mut solver, &constants);

    assert_eq!(solution, vec![vec![0; 9]; 9]);
}

/// The table of truth values in which each cell holds its digit of `grid`
/// and no other.
fn truths_of(grid: &[[i32; 9]; 9]) -> Vec<Vec<Vec<bool>>> {
    grid.iter()
        .map(|row| {
            row.iter()
                .map(|&digit| (1..=9).map(|d| d == digit).collect())
                .collect()
        })
        .collect()
}

#[test]
fn the_grid_of_truths_holds_the_true_digit_of_each_cell() {
    let solved = solved_puzzle();
    let expected: Vec<Vec<i32>> = solved.iter().map(|row| row.to_vec()).collect();
    assert_eq!(grid_of_truths(&truths_of(&solved)), expected);
}

#[test]
fn the_grid_of_truths_takes_the_greatest_true_digit() {
    let mut truths = vec![vec![vec![false; 9]; 9]; 9];
    truths[0][0][0] = true;
    truths[0][0][4] = true;
    truths[3][7][8] = true;
    truths[3][7][2] = true;
    truths[8][8][0] = true;

    let grid = grid_of_truths(&truths);

    assert_eq!(grid[0][0], 5);
    assert_eq!(grid[3][7], 9);
    assert_eq!(grid[8][8], 1);
    assert_eq!(grid[4][4], 0);
    assert_eq!(grid.iter().flatten().filter(|&&cell| cell != 0).count(), 3);
}

#[test]
fn the_grid_of_truths_without_a_true_value_is_the_grid_of_zeros() {
    let truths = vec![vec![vec![false; 9]; 9]; 9];
    assert_eq!(grid_of_truths(&truths), vec![vec![0; 9]; 9]);
}

#[test]
fn the_grid_of_a_sat_answer_is_the_grid_of_its_truths() {
    let solved = solved_puzzle();
    let expected: Vec<Vec<i32>> = solved.iter().map(|row| row.to_vec()).collect();
    assert_eq!(grid_of_answer(Verdict::Sat, Some(truths_of(&solved))), expected);
}

#[test]
fn the_grid_of_any_other_answer_is_the_grid_of_zeros() {
    let solved = solved_puzzle();
    let zeros = vec![vec![0; 9]; 9];
    assert_eq!(grid_of_answer(Verdict::Unsat, Some(truths_of(&solved))), zeros);
    assert_eq!(grid_of_answer(Verdict::Unknown, Some(truths_of(&solved))), zeros);
    assert_eq!(grid_of_answer(Verdict::Sat, None), zeros);
    assert_eq!(grid_of_answer(Verdict::Unsat, None), zeros);
    assert_eq!(grid_of_answer(Verdict::Unknown, None), zeros);
}

#[test]
fn the_clues_of_a_puzzle_without_clues_are_true_under_every_assignment() {
    let config = z3::Config::new();
    let context = z3::Context::new(&config);
    let constants = add_constants(&context);

    let constraints = add_external_constraints(&context, &constants, &[[0; 9]; 9]);

    let solver = z3::Solver::new(&context);
    solver.assert(&constraints);
    assert_eq!(solver.check(), z3::SatResult::Sat);

    let refuted = z3::Solver::new(&context);
    refuted.assert(&constraints.not());
    assert_eq!(refuted.check(), z3::SatResult::Unsat);
}
