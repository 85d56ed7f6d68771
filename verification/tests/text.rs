use sudoku::text::{glyph_digit, parse_row, parse_sudoku_file};

/// The same reading, written with the standard library's splitting.
fn read_with_std(content: &str) -> [[i32; 9]; 9] {
    let mut sudoku = [[0; 9]; 9];
    let lines: Vec<&str> = content.trim().lines().collect();

    for (i, line) in lines.iter().take(9).enumerate() {
        for (j, c) in line.chars().take(9).enumerate() {
            sudoku[i][j] = if c == '.' {
                0
            } else {
                c.to_digit(10).unwrap_or(0) as i32
            };
        }
    }

    sudoku
}

#[test]
fn test_parse_sudoku_file() {
    let content = "53..7....
6..195...
.98....6.
8...6...3
4..8.3..1
7...2...6
.6....28.
...419..5
....8..79";
    let parsed = parse_sudoku_file(content);
    assert_eq!(parsed[0][0], 5);
    assert_eq!(parsed[0][1], 3);
    assert_eq!(parsed[0][2], 0);
    assert_eq!(parsed[8][8], 9);
}

#[test]
fn parse_reads_every_cell() {
    let content = "53..7....\n6..195...\n.98....6.\n8...6...3\n4..8.3..1\n7...2...6\n.6....28.\n...419..5\n....8..79\n";
    let expected = [
        [5, 3, 0, 0, 7, 0, 0, 0, 0],
        [6, 0, 0, 1, 9, 5, 0, 0, 0],
        [0, 9, 8, 0, 0, 0, 0, 6, 0],
        [8, 0, 0, 0, 6, 0, 0, 0, 3],
        [4, 0, 0, 8, 0, 3, 0, 0, 1],
        [7, 0, 0, 0, 2, 0, 0, 0, 6],
        [0, 6, 0, 0, 0, 0, 2, 8, 0],
        [0, 0, 0, 4, 1, 9, 0, 0, 5],
        [0, 0, 0, 0, 8, 0, 0, 7, 9],
    ];
    assert_eq!(parse_sudoku_file(content), expected);
}

#[test]
fn parse_of_empty_text_is_the_empty_grid() {
    assert_eq!(parse_sudoku_file(""), [[0; 9]; 9]);
    assert_eq!(parse_sudoku_file(" \n\t \r\n"), [[0; 9]; 9]);
}

#[test]
fn parse_passes_over_leading_white_space() {
    let parsed = parse_sudoku_file("\n\n  \t12\n3");
    assert_eq!(parsed[0][0], 1);
    assert_eq!(parsed[0][1], 2);
    assert_eq!(parsed[1][0], 3);
}

#[test]
fn parse_keeps_white_space_inside_the_text() {
    let parsed = parse_sudoku_file("1 2\n\n 3");
    assert_eq!(parsed[0], [1, 0, 2, 0, 0, 0, 0, 0, 0]);
    assert_eq!(parsed[1], [0; 9]);
    assert_eq!(parsed[2], [0, 3, 0, 0, 0, 0, 0, 0, 0]);
}

#[test]
fn parse_ignores_what_lies_beyond_nine() {
    let parsed = parse_sudoku_file("1234567891\n1\n2\n3\n4\n5\n6\n7\n8\n9\n");
    assert_eq!(parsed[0], [1, 2, 3, 4, 5, 6, 7, 8, 9]);
    assert_eq!(parsed[8][0], 8);
}

#[test]
fn parse_reads_other_characters_as_empty_cells() {
    let parsed = parse_sudoku_file("0a5-٣9");
    assert_eq!(parsed[0], [0, 0, 5, 0, 0, 9, 0, 0, 0]);
}

#[test]
fn glyph_digit_of_each_character_kind() {
    assert_eq!(glyph_digit('.'), 0);
    assert_eq!(glyph_digit('0'), 0);
    assert_eq!(glyph_digit('1'), 1);
    assert_eq!(glyph_digit('9'), 9);
    assert_eq!(glyph_digit('/'), 0);
    assert_eq!(glyph_digit(':'), 0);
    assert_eq!(glyph_digit('x'), 0);
}

#[test]
fn parse_agrees_with_the_standard_library() {
    let samples = [
        "53..7....\r\n6..195...\r\n.98....6.\r\n",
        "  53..7....  \n  6..195...\n",
        "\u{a0}\u{2003}7\n8",
        "\u{85}\u{1680}\u{2028}\u{2029}\u{202f}\u{205f}\u{3000}\u{b}\u{c}4",
        "\u{200b}4\n5",
        "1\r2\n3\r\n\r\n4",
        "12\n\n\n\n\n\n\n\n9\n8\n7",
        "123456789123\n.........9\n",
        "9\n   \n\n",
        "\n",
        "\r",
        "x",
    ];
    for sample in samples {
        assert_eq!(parse_sudoku_file(sample), read_with_std(sample));
    }
}

#[test]
fn parse_treats_each_character_before_a_digit_as_the_standard_library_does() {
    for code in 0..=0x3100u32 {
        if let Some(c) = char::from_u32(code) {
            let text = format!("{}5\n6", c);
            assert_eq!(parse_sudoku_file(&text), read_with_std(&text));
        }
    }
}

/// The reading of one line, written with the standard library.
fn read_row_with_std(line: &str) -> Option<[i32; 9]> {
    let mut row = [0; 9];
    for (j, c) in line.trim().chars().enumerate() {
        if j >= 9 {
            return None;
        }
        row[j] = if c == '.' { 0 } else { c.to_digit(10)? as i32 };
    }
    Some(row)
}

#[test]
fn parse_row_reads_digits_and_dots() {
    assert_eq!(parse_row("53..7...."), Some([5, 3, 0, 0, 7, 0, 0, 0, 0]));
    assert_eq!(parse_row("123456789"), Some([1, 2, 3, 4, 5, 6, 7, 8, 9]));
    assert_eq!(parse_row("000000000"), Some([0; 9]));
    assert_eq!(parse_row("........."), Some([0; 9]));
}

#[test]
fn parse_row_passes_over_white_space_at_both_ends() {
    assert_eq!(parse_row("  53..7....\r\n"), Some([5, 3, 0, 0, 7, 0, 0, 0, 0]));
    assert_eq!(parse_row("\t9\n"), Some([9, 0, 0, 0, 0, 0, 0, 0, 0]));
    assert_eq!(parse_row("\u{3000}4.2\u{a0}"), Some([4, 0, 2, 0, 0, 0, 0, 0, 0]));
}

#[test]
fn parse_row_of_a_short_line_leaves_cells_empty() {
    assert_eq!(parse_row(""), Some([0; 9]));
    assert_eq!(parse_row("\n"), Some([0; 9]));
    assert_eq!(parse_row("   "), Some([0; 9]));
    assert_eq!(parse_row("12"), Some([1, 2, 0, 0, 0, 0, 0, 0, 0]));
}

#[test]
fn parse_row_refuses_other_characters() {
    assert_eq!(parse_row("53..x...."), None);
    assert_eq!(parse_row("5 3"), None);
    assert_eq!(parse_row("-1"), None);
    assert_eq!(parse_row("٣"), None);
    assert_eq!(parse_row("1\n2"), None);
}

#[test]
fn parse_row_refuses_more_than_nine_characters() {
    assert_eq!(parse_row("1234567891"), None);
    assert_eq!(parse_row(".........."), None);
    assert_eq!(parse_row("123456789 "), Some([1, 2, 3, 4, 5, 6, 7, 8, 9]));
}

#[test]
fn parse_row_agrees_with_the_standard_library() {
    let samples = [
        "53..7....",
        " 53..7.... ",
        "5 3",
        "5\t",
        "\u{85}7\u{2028}",
        "\u{200b}7",
        "1234567890",
        "12345678.\r\n",
        "a",
        ".",
        "",
        " \n ",
        "1 \n 2",
    ];
    for sample in samples {
        assert_eq!(parse_row(sample), read_row_with_std(sample));
    }
    for code in 0..=0x3100u32 {
        if let Some(c) = char::from_u32(code) {
            for text in [format!("{}5", c), format!("5{}", c), format!("5{}6", c)] {
                assert_eq!(parse_row(&text), read_row_with_std(&text));
            }
        }
    }
}
