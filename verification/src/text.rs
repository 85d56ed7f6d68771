//! Puzzles as text: nine lines of nine characters, a digit for a clue and
//! `.` for an empty cell.

use crate::grid::{array_grid, in_grid, is_grid, rows_grid, Grid};
use vstd::prelude::*;
use vstd::string::StringExecFns;

verus! {

/// The character of the decimal digit `d`.
pub open spec fn digit_char(d: int) -> char {
    if d == 0 {
        '0'
    } else if d == 1 {
        '1'
    } else if d == 2 {
        '2'
    } else if d == 3 {
        '3'
    } else if d == 4 {
        '4'
    } else if d == 5 {
        '5'
    } else if d == 6 {
        '6'
    } else if d == 7 {
        '7'
    } else if d == 8 {
        '8'
    } else {
        '9'
    }
}

/// The decimal digit `d` as text.
pub fn digit_str(d: usize) -> (text: &'static str)
    requires
        d < 10,
    ensures
        text@ == seq![digit_char(d as int)],
{
    proof {
        reveal_strlit("0");
        reveal_strlit("1");
        reveal_strlit("2");
        reveal_strlit("3");
        reveal_strlit("4");
        reveal_strlit("5");
        reveal_strlit("6");
        reveal_strlit("7");
        reveal_strlit("8");
        reveal_strlit("9");
    }
    if d == 0 {
        "0"
    } else if d == 1 {
        "1"
    } else if d == 2 {
        "2"
    } else if d == 3 {
        "3"
    } else if d == 4 {
        "4"
    } else if d == 5 {
        "5"
    } else if d == 6 {
        "6"
    } else if d == 7 {
        "7"
    } else if d == 8 {
        "8"
    } else {
        "9"
    }
}

/// `c` is a white-space character: one with the Unicode property
/// `White_Space`.
pub open spec fn is_space(c: char) -> bool {
    let u = c as u32;
    ||| 0x09 <= u <= 0x0D
    ||| u == 0x20
    ||| u == 0x85
    ||| u == 0xA0
    ||| u == 0x1680
    ||| 0x2000 <= u <= 0x200A
    ||| u == 0x2028
    ||| u == 0x2029
    ||| u == 0x202F
    ||| u == 0x205F
    ||| u == 0x3000
}

/// The digit that the character `c` stands for in a puzzle: its value for
/// `1` to `9`, and 0, the empty cell, for `.` and every other character.
pub open spec fn glyph_value(c: char) -> i32 {
    let u = c as u32;
    if 0x31 <= u <= 0x39 {
        (u - 0x30) as i32
    } else {
        0
    }
}

/// How many white-space characters `s` begins with.
pub open spec fn leading_spaces(s: Seq<char>) -> nat
    decreases s.len(),
{
    if s.len() > 0 && is_space(s[0]) {
        1 + leading_spaces(s.drop_first())
    } else {
        0
    }
}

/// `s` without the white space that it begins with.
pub open spec fn trim_start(s: Seq<char>) -> Seq<char> {
    s.skip(leading_spaces(s) as int)
}

/// The number of the line that position `m` of `s` lies in: how many line
/// feeds come before it.
pub open spec fn line_of(s: Seq<char>, m: int) -> int
    decreases m,
{
    if m <= 0 {
        0
    } else if s[m - 1] == '\n' {
        line_of(s, m - 1) + 1
    } else {
        line_of(s, m - 1)
    }
}

/// The column of position `m` of `s`: how many characters lie between it
/// and the start of its line.
pub open spec fn column_of(s: Seq<char>, m: int) -> int
    decreases m,
{
    if m <= 0 {
        0
    } else if s[m - 1] == '\n' {
        0
    } else {
        column_of(s, m - 1) + 1
    }
}

/// The character at position `m` of `s` is the one in column `j` of line
/// `i`.
pub open spec fn stands_at(s: Seq<char>, m: int, i: int, j: int) -> bool {
    &&& 0 <= m < s.len()
    &&& s[m] != '\n'
    &&& line_of(s, m) == i
    &&& column_of(s, m) == j
}

/// The digit in column `j` of line `i` of the text `s`, and 0 where the
/// text has no character there.
pub open spec fn text_cell(s: Seq<char>, i: int, j: int) -> i32 {
    if exists|m: int| stands_at(s, m, i, j) {
        glyph_value(s[choose|m: int| stands_at(s, m, i, j)])
    } else {
        0
    }
}

/// The grid that a text stands for: after the white space that it begins
/// with, the first nine characters of each of its first nine lines.
pub open spec fn parsed_grid(s: Seq<char>) -> Grid {
    Seq::new(9, |i: int| Seq::new(9, |j: int| text_cell(trim_start(s), i, j)))
}

/// Where `s` begins with `k` white-space characters and goes on with
/// another character, or ends, `k` is the number of its leading spaces.
proof fn lemma_leading_spaces(s: Seq<char>, k: int)
    requires
        0 <= k <= s.len(),
        forall|t: int| 0 <= t < k ==> is_space(#[trigger] s[t]),
        k < s.len() ==> !is_space(s[k]),
    ensures
        leading_spaces(s) == k,
    decreases k,
{
    if k > 0 {
        let rest = s.drop_first();
        lemma_leading_spaces(rest, k - 1);
    }
}

/// A later position on the line of an earlier character has a greater
/// column, and a position on another line has a greater line number.
proof fn lemma_position_grows(s: Seq<char>, m1: int, m2: int)
    requires
        0 <= m1 < m2,
        s[m1] != '\n',
    ensures
        line_of(s, m2) > line_of(s, m1) || (line_of(s, m2) == line_of(s, m1) && column_of(s, m2)
            == column_of(s, m1) + (m2 - m1)),
    decreases m2 - m1,
{
    if m2 > m1 + 1 {
        lemma_position_grows(s, m1, m2 - 1);
    }
}

/// Line and column numbers are not negative.
proof fn lemma_position_bounds(s: Seq<char>, m: int)
    ensures
        0 <= line_of(s, m),
        0 <= column_of(s, m),
    decreases m,
{
    if m > 0 {
        lemma_position_bounds(s, m - 1);
    }
}

/// Whether `c` is a white-space character.
fn is_space_char(c: char) -> (b: bool)
    ensures
        b == is_space(c),
{
    let u = c as u32;
    (0x09 <= u && u <= 0x0D) || u == 0x20 || u == 0x85 || u == 0xA0 || u == 0x1680 || (0x2000 <= u
        && u <= 0x200A) || u == 0x2028 || u == 0x2029 || u == 0x202F || u == 0x205F || u == 0x3000
}

/// The digit that a character stands for: its value for `1` to `9`, and 0
/// for `.` and for every other character.
pub fn glyph_digit(c: char) -> (d: i32)
    ensures
        d == glyph_value(c),
        0 <= d <= 9,
{
    let u = c as u32;
    if 0x31 <= u && u <= 0x39 {
        (u - 0x30) as i32
    } else {
        0
    }
}

/// Reads a puzzle from text. White space at the start is passed over; then
/// each of the first nine lines gives a row, and each of its first nine
/// characters a cell: a digit from `1` to `9` for a clue, and an empty cell
/// for `.` and for any other character. Cells that the text does not reach
/// are empty.
pub fn parse_sudoku_file(content: &str) -> (sudoku: [[i32; 9]; 9])
    ensures
        array_grid(sudoku) == parsed_grid(content@),
{
    let mut sudoku = [[0i32; 9]; 9];
    let mut started = false;
    let mut row: usize = 0;
    let mut col: usize = 0;
    let ghost text = content@;
    let ghost mut k: int = 0;
    for c in it: content.chars()
        invariant
            it.seq() == text,
            text == content@,
            row <= 9,
            col <= 9,
            !started ==> {
                &&& forall|t: int| 0 <= t < it.index() ==> is_space(#[trigger] text[t])
                &&& forall|i: int, j: int| in_grid(i, j) ==> #[trigger] sudoku@[i]@[j] == 0
                &&& row == 0
                &&& col == 0
            },
            started ==> {
                &&& 0 <= k < text.len()
                &&& k <= it.index()
                &&& forall|t: int| 0 <= t < k ==> is_space(#[trigger] text[t])
                &&& !is_space(text[k])
                &&& row == if line_of(text.skip(k), it.index() - k) < 9 {
                    line_of(text.skip(k), it.index() - k)
                } else {
                    9
                }
                &&& col == if column_of(text.skip(k), it.index() - k) < 9 {
                    column_of(text.skip(k), it.index() - k)
                } else {
                    9
                }
                &&& forall|i: int, j: int, m: int|
                    in_grid(i, j) && m < it.index() - k && #[trigger] stands_at(
                        text.skip(k),
                        m,
                        i,
                        j,
                    ) ==> sudoku@[i]@[j] == glyph_value(text.skip(k)[m])
                &&& forall|i: int, j: int|
                    in_grid(i, j) && (forall|m: int|
                        m < it.index() - k ==> !stands_at(text.skip(k), m, i, j))
                        ==> #[trigger] sudoku@[i]@[j] == 0
            },
    {
        let ghost idx = it.index() as int;
        if !started && !is_space_char(c) {
            started = true;
            proof {
                k = idx;
            }
        }
        if started {
            let ghost s = text.skip(k);
            let ghost n = idx - k;
            proof {
                lemma_position_bounds(s, n);
            }
            if c == '\n' {
                if row < 9 {
                    row = row + 1;
                }
                col = 0;
            } else {
                if row < 9 && col < 9 {
                    sudoku[row][col] = glyph_digit(c);
                }
                if col < 9 {
                    col = col + 1;
                }
            }
            proof {
                assert forall|i: int, j: int, m: int|
                    in_grid(i, j) && m < n + 1 && #[trigger] stands_at(
                        s,
                        m,
                        i,
                        j,
                    ) implies sudoku@[i]@[j] == glyph_value(s[m]) by {
                    if m < n && c != '\n' {
                        lemma_position_grows(s, m, n);
                    }
                }
                assert forall|i: int, j: int|
                    in_grid(i, j) && (forall|m: int| m < n + 1 ==> !stands_at(s, m, i, j))
                    implies #[trigger] sudoku@[i]@[j] == 0 by {
                    assert(!stands_at(s, n, i, j));
                }
            }
        }
    }
    proof {
        let g = array_grid(sudoku);
        if started {
            lemma_leading_spaces(text, k);
        } else {
            lemma_leading_spaces(text, text.len() as int);
        }
        assert forall|i: int| 0 <= i < 9 implies #[trigger] g[i] =~= parsed_grid(text)[i] by {}
    }
    sudoku
}

/// How many white-space characters `s` ends with.
pub open spec fn trailing_spaces(s: Seq<char>) -> nat
    decreases s.len(),
{
    if s.len() > 0 && is_space(s.last()) {
        1 + trailing_spaces(s.drop_last())
    } else {
        0
    }
}

/// `s` without the white space at its two ends.
pub open spec fn trim(s: Seq<char>) -> Seq<char> {
    let t = trim_start(s);
    t.take(t.len() - trailing_spaces(t))
}

/// `c` may stand in a row of a puzzle: it is `.` or a decimal digit.
pub open spec fn is_glyph(c: char) -> bool {
    let u = c as u32;
    u == 0x2E || 0x30 <= u <= 0x39
}

/// `t` is the text of a row: at most nine characters, each `.` or a digit.
pub open spec fn is_row_text(t: Seq<char>) -> bool {
    &&& t.len() <= 9
    &&& forall|j: int| 0 <= j < t.len() ==> is_glyph(#[trigger] t[j])
}

/// The row that the text `t` stands for: the digit of each character, and
/// empty cells where the text ends before the row does.
pub open spec fn text_row(t: Seq<char>) -> Seq<i32> {
    Seq::new(
        9,
        |j: int|
            if j < t.len() {
                glyph_value(t[j])
            } else {
                0
            },
    )
}

/// Where `s` ends with `s.len() - e` white-space characters after another
/// character, or consists of them, that is the number of its trailing
/// spaces.
proof fn lemma_trailing_spaces(s: Seq<char>, e: int)
    requires
        0 <= e <= s.len(),
        forall|t: int| e <= t < s.len() ==> is_space(#[trigger] s[t]),
        e > 0 ==> !is_space(s[e - 1]),
    ensures
        trailing_spaces(s) == s.len() - e,
    decreases s.len() - e,
{
    if e < s.len() {
        let rest = s.drop_last();
        lemma_trailing_spaces(rest, e);
    }
}

/// Reads one row of a puzzle from a line of text. White space at the two
/// ends is passed over; what is left gives the cells from the left: a digit
/// for a clue, and an empty cell for `.` and for `0`. Cells that the line
/// does not reach are empty.
///
/// Returns `None` where the line holds more than nine characters or a
/// character that is neither `.` nor a digit.
pub fn parse_row(line: &str) -> (row: Option<[i32; 9]>)
    ensures
        row is Some <==> is_row_text(trim(line@)),
        row matches Some(cells) ==> cells@ == text_row(trim(line@)),
{
    let mut cells = [0i32; 9];
    let mut started = false;
    let mut pending = false;
    let mut valid = true;
    let mut col: usize = 0;
    let ghost text = line@;
    let ghost mut k: int = 0;
    let ghost mut e: int = 0;
    for c in it: line.chars()
        invariant
            it.seq() == text,
            text == line@,
            col <= 9,
            !started ==> {
                &&& forall|t: int| 0 <= t < it.index() ==> is_space(#[trigger] text[t])
                &&& forall|j: int| 0 <= j < 9 ==> #[trigger] cells@[j] == 0
                &&& valid
                &&& !pending
                &&& col == 0
            },
            started ==> {
                &&& 0 <= k < e <= it.index()
                &&& forall|t: int| 0 <= t < k ==> is_space(#[trigger] text[t])
                &&& !is_space(text[k])
                &&& !is_space(text[e - 1])
                &&& forall|t: int| e <= t < it.index() ==> is_space(#[trigger] text[t])
                &&& pending == (e < it.index())
                &&& valid ==> {
                    &&& e - k <= 9
                    &&& col == e - k
                    &&& forall|t: int| k <= t < e ==> is_glyph(#[trigger] text[t])
                    &&& forall|j: int|
                        0 <= j < e - k ==> #[trigger] cells@[j] == glyph_value(text[k + j])
                    &&& forall|j: int| e - k <= j < 9 ==> #[trigger] cells@[j] == 0
                }
                &&& !valid ==> e - k > 9 || exists|t: int|
                    k <= t < e && !is_glyph(#[trigger] text[t])
            },
    {
        let ghost idx = it.index() as int;
        if !is_space_char(c) {
            let ghost was = e;
            if !started {
                started = true;
                proof {
                    k = idx;
                }
            }
            if pending || !is_glyph_char(c) || col >= 9 {
                proof {
                    if valid && pending {
                        assert(!is_glyph(text[was]));
                    }
                }
                valid = false;
            } else if valid {
                cells[col] = glyph_digit(c);
                col = col + 1;
            }
            pending = false;
            proof {
                e = idx + 1;
            }
        } else if started {
            pending = true;
        }
    }
    proof {
        if started {
            lemma_leading_spaces(text, k);
            lemma_trailing_spaces(trim_start(text), e - k);
            if !valid && e - k <= 9 {
                let bad = choose|bad: int| k <= bad < e && !is_glyph(#[trigger] text[bad]);
                assert(!is_glyph(trim(text)[bad - k]));
            }
        } else {
            lemma_leading_spaces(text, text.len() as int);
        }
    }
    if valid {
        Some(cells)
    } else {
        None
    }
}

/// Whether `c` is `.` or a decimal digit.
fn is_glyph_char(c: char) -> (b: bool)
    ensures
        b == is_glyph(c),
{
    let u = c as u32;
    u == 0x2E || (0x30 <= u && u <= 0x39)
}

/// The decimal numeral of `v`, with a minus sign where `v` is negative.
pub open spec fn decimal(v: int) -> Seq<char>
    decreases
            (if v < 0 {
                1 - v
            } else {
                v
            }),
{
    if v < 0 {
        seq!['-'] + decimal(-v)
    } else if v < 10 {
        seq![digit_char(v)]
    } else {
        decimal(v / 10) + seq![digit_char(v % 10)]
    }
}

/// The text of a cell: `.` for an empty cell, and the numeral of its value
/// for every other.
pub open spec fn cell_text(v: i32) -> Seq<char> {
    if v == 0 {
        seq!['.']
    } else {
        decimal(v as int)
    }
}

/// The line above the first row.
pub open spec fn top_rule() -> Seq<char> {
    "┌───────┬───────┬───────┐\n"@
}

/// The line between two bands of boxes.
pub open spec fn middle_rule() -> Seq<char> {
    "├───────┼───────┼───────┤\n"@
}

/// The line below the last row.
pub open spec fn bottom_rule() -> Seq<char> {
    "└───────┴───────┴───────┘\n"@
}

/// The text of the first `n` cells of a row: a bar, then each cell with a
/// blank after it, and a bar and a blank after every third.
pub open spec fn cells_text(row: Seq<i32>, n: int) -> Seq<char>
    decreases n,
{
    if n <= 0 {
        "│ "@
    } else {
        cells_text(row, n - 1) + cell_text(row[n - 1]) + (if n % 3 == 0 {
            " │ "@
        } else {
            " "@
        })
    }
}

/// The text of the first `n` rows of a grid under the top line: each row
/// on a line of its own, and a line between two bands after the third and
/// the sixth.
pub open spec fn rows_text(g: Grid, n: int) -> Seq<char>
    decreases n,
{
    if n <= 0 {
        top_rule()
    } else {
        rows_text(g, n - 1) + cells_text(g[n - 1], 9) + "\n"@ + (if n % 3 == 0 && n < 9 {
            middle_rule()
        } else {
            Seq::<char>::empty()
        })
    }
}

/// The picture of a grid: its rows in a frame that shows the boxes.
pub open spec fn rendered(g: Grid) -> Seq<char> {
    rows_text(g, 9) + bottom_rule()
}

/// Appends the decimal numeral of `n` to `out`.
fn push_decimal(out: &mut String, n: u32)
    ensures
        final(out)@ == old(out)@ + decimal(n as int),
    decreases n,
{
    if n >= 10 {
        push_decimal(out, n / 10);
    }
    out.append(digit_str((n % 10) as usize));
}

/// Appends the text of a cell to `out`.
fn push_cell(out: &mut String, v: i32)
    ensures
        final(out)@ == old(out)@ + cell_text(v),
{
    if v == 0 {
        proof {
            reveal_strlit(".");
        }
        out.append(".");
    } else if v < 0 {
        proof {
            reveal_strlit("-");
        }
        out.append("-");
        let magnitude: u32 = if v == i32::MIN {
            2147483648u32
        } else {
            (-v) as u32
        };
        push_decimal(out, magnitude);
    } else {
        push_decimal(out, v as u32);
    }
}

/// The picture of a grid as text: the rows, one on each line, in a frame
/// of lines that shows the boxes, with `.` for an empty cell.
pub fn render_sudoku(sudoku: &[Vec<i32>]) -> (picture: String)
    requires
        is_grid(rows_grid(sudoku@)),
    ensures
        picture@ == rendered(rows_grid(sudoku@)),
{
    let ghost g = rows_grid(sudoku@);
    let mut picture = String::from_str("┌───────┬───────┬───────┐\n");
    for i in 0..9usize
        invariant
            g == rows_grid(sudoku@),
            is_grid(g),
            picture@ == rows_text(g, i as int),
    {
        let ghost above = picture@;
        picture.append("│ ");
        for j in 0..9usize
            invariant
                i < 9,
                g == rows_grid(sudoku@),
                is_grid(g),
                picture@ == above + cells_text(g[i as int], j as int),
        {
            push_cell(&mut picture, sudoku[i][j]);
            if (j + 1) % 3 == 0 {
                picture.append(" │ ");
            } else {
                picture.append(" ");
            }
        }
        picture.append("\n");
        if (i + 1) % 3 == 0 && i < 8 {
            picture.append("├───────┼───────┼───────┤\n");
        }
    }
    picture.append("└───────┴───────┴───────┘\n");
    picture
}

} // verus!
