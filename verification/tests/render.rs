use sudoku::text::render_sudoku;

/// The same picture, written with the standard library's formatting.
fn picture_with_std(sudoku: &[Vec<i32>]) -> String {
    let mut out = String::new();
    out.push_str("┌───────┬───────┬───────┐\n");
    for i in 0..9 {
        out.push_str("│ ");
        for j in 0..9 {
            out.push_str(&if sudoku[i][j] == 0 {
                ".".to_string()
            } else {
                sudoku[i][j].to_string()
            });
            if (j + 1) % 3 == 0 {
                out.push_str(" │ ");
            } else {
                out.push_str(" ");
            }
        }
        out.push_str("\n");
        if (i + 1) % 3 == 0 && i < 8 {
            out.push_str("├───────┼───────┼───────┤\n");
        }
    }
    out.push_str("└───────┴───────┴───────┘\n");
    out
}

fn solved_rows() -> Vec<Vec<i32>> {
    vec![
        vec![5, 3, 4, 6, 7, 8, 9, 1, 2],
        vec![6, 7, 2, 1, 9, 5, 3, 4, 8],
        vec![1, 9, 8, 3, 4, 2, 5, 6, 7],
        vec![8, 5, 9, 7, 6, 1, 4, 2, 3],
        vec![4, 2, 6, 8, 5, 3, 7, 9, 1],
        vec![7, 1, 3, 9, 2, 4, 8, 5, 6],
        vec![9, 6, 1, 5, 3, 7, 2, 8, 4],
        vec![2, 8, 7, 4, 1, 9, 6, 3, 5],
        vec![3, 4, 5, 2, 8, 6, 1, 7, 9],
    ]
}

#[test]
fn the_picture_of_a_solved_grid() {
    let expected = "\
┌───────┬───────┬───────┐
│ 5 3 4 │ 6 7 8 │ 9 1 2 │ 
│ 6 7 2 │ 1 9 5 │ 3 4 8 │ 
│ 1 9 8 │ 3 4 2 │ 5 6 7 │ 
├───────┼───────┼───────┤
│ 8 5 9 │ 7 6 1 │ 4 2 3 │ 
│ 4 2 6 │ 8 5 3 │ 7 9 1 │ 
│ 7 1 3 │ 9 2 4 │ 8 5 6 │ 
├───────┼───────┼───────┤
│ 9 6 1 │ 5 3 7 │ 2 8 4 │ 
│ 2 8 7 │ 4 1 9 │ 6 3 5 │ 
│ 3 4 5 │ 2 8 6 │ 1 7 9 │ 
└───────┴───────┴───────┘
";
    assert_eq!(render_sudoku(&solved_rows()), expected);
}

#[test]
fn the_picture_of_the_grid_of_zeros_shows_dots() {
    let zeros = vec![vec![0; 9]; 9];
    let picture = render_sudoku(&zeros);
    assert_eq!(picture, picture_with_std(&zeros));
    assert_eq!(picture.lines().nth(1), Some("│ . . . │ . . . │ . . . │ "));
}

#[test]
fn the_picture_shows_every_value_as_a_numeral() {
    let mut rows = solved_rows();
    rows[0][0] = 10;
    rows[0][1] = -3;
    rows[4][4] = i32::MAX;
    rows[8][8] = i32::MIN;
    rows[2][2] = 100;
    rows[3][3] = -2147483647;
    let picture = render_sudoku(&rows);
    assert_eq!(picture, picture_with_std(&rows));
    assert!(picture.contains("│ 10 -3 4 │"));
    assert!(picture.contains("-2147483648"));
    assert!(picture.contains("2147483647"));
}
