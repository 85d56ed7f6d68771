//! The mathematical model of a Sudoku grid that the contracts speak of.

use vstd::prelude::*;

verus! {

/// A grid as a sequence of rows. A cell holds a digit, or 0 when it is empty.
pub type Grid = Seq<Seq<i32>>;

/// The grid held by a slice of rows.
pub open spec fn rows_grid(rows: Seq<Vec<i32>>) -> Grid {
    Seq::new(rows.len(), |r: int| rows[r]@)
}

/// The grid held by a 9x9 array.
pub open spec fn array_grid(cells: [[i32; 9]; 9]) -> Grid {
    Seq::new(9, |r: int| cells@[r]@)
}

/// `g` has nine rows of nine cells.
pub open spec fn is_grid(g: Grid) -> bool {
    &&& g.len() == 9
    &&& forall|r: int| 0 <= r < 9 ==> (#[trigger] g[r]).len() == 9
}

/// `(r, c)` is a cell coordinate.
pub open spec fn in_grid(r: int, c: int) -> bool {
    0 <= r < 9 && 0 <= c < 9
}

/// The two cells lie in the same 3x3 box.
pub open spec fn same_box(r1: int, c1: int, r2: int, c2: int) -> bool {
    r1 / 3 == r2 / 3 && c1 / 3 == c2 / 3
}

/// The two cells lie in a common row, column or box.
pub open spec fn shares_unit(r1: int, c1: int, r2: int, c2: int) -> bool {
    r1 == r2 || c1 == c2 || same_box(r1, c1, r2, c2)
}

/// Two different cells that lie in a common row, column or box.
pub open spec fn peers(r1: int, c1: int, r2: int, c2: int) -> bool {
    shares_unit(r1, c1, r2, c2) && !(r1 == r2 && c1 == c2)
}

/// Cell `(r1, c1)` comes strictly before `(r2, c2)` in row-major order.
pub open spec fn before(r1: int, c1: int, r2: int, c2: int) -> bool {
    r1 < r2 || (r1 == r2 && c1 < c2)
}

/// No cell of `g` is empty.
pub open spec fn is_full(g: Grid) -> bool {
    forall|r: int, c: int| in_grid(r, c) ==> #[trigger] g[r][c] != 0
}

/// `(row, col)` is the first empty cell of `g` in row-major order.
pub open spec fn is_first_empty(g: Grid, row: int, col: int) -> bool {
    &&& in_grid(row, col)
    &&& g[row][col] == 0
    &&& forall|r: int, c: int| in_grid(r, c) && before(r, c, row, col) ==> #[trigger] g[r][c] != 0
}

/// `num` occurs nowhere in the row, the column or the box of `(row, col)`,
/// that cell included.
pub open spec fn can_place(g: Grid, row: int, col: int, num: i32) -> bool {
    forall|r: int, c: int|
        in_grid(r, c) && shares_unit(r, c, row, col) ==> #[trigger] g[r][c] != num
}

/// No non-zero value occurs twice in row `r`.
pub open spec fn row_no_repeats(g: Grid, r: int) -> bool {
    forall|c1: int, c2: int|
        0 <= c1 < 9 && 0 <= c2 < 9 && c1 != c2 && g[r][c1] != 0 ==> #[trigger] g[r][c1]
            != #[trigger] g[r][c2]
}

/// No non-zero value occurs twice in column `c`.
pub open spec fn col_no_repeats(g: Grid, c: int) -> bool {
    forall|r1: int, r2: int|
        0 <= r1 < 9 && 0 <= r2 < 9 && r1 != r2 && g[r1][c] != 0 ==> #[trigger] g[r1][c]
            != #[trigger] g[r2][c]
}

/// `(r, c)` lies in the box in band `br` and stack `bc`.
pub open spec fn in_box(r: int, c: int, br: int, bc: int) -> bool {
    3 * br <= r < 3 * br + 3 && 3 * bc <= c < 3 * bc + 3
}

/// No non-zero value occurs twice in the box in band `br` and stack `bc`.
pub open spec fn box_no_repeats(g: Grid, br: int, bc: int) -> bool {
    forall|r1: int, c1: int, r2: int, c2: int|
        in_box(r1, c1, br, bc) && in_box(r2, c2, br, bc) && !(r1 == r2 && c1 == c2) && g[r1][c1]
            != 0 ==> #[trigger] g[r1][c1] != #[trigger] g[r2][c2]
}

/// No non-zero value occurs twice in a row, a column or a box.
pub open spec fn no_repeats(g: Grid) -> bool {
    forall|r1: int, c1: int, r2: int, c2: int|
        in_grid(r1, c1) && in_grid(r2, c2) && peers(r1, c1, r2, c2) && g[r1][c1] != 0
            ==> #[trigger] g[r1][c1] != #[trigger] g[r2][c2]
}

/// Every cell of `g` holds a digit from 1 to 9, and no digit occurs twice in
/// a row, a column or a box.
pub open spec fn is_solved(g: Grid) -> bool {
    &&& is_grid(g)
    &&& forall|r: int, c: int| in_grid(r, c) ==> 1 <= #[trigger] g[r][c] <= 9
    &&& no_repeats(g)
}

/// Every cell of `g` is empty or holds a digit from 1 to 9.
pub open spec fn digits_in_range(g: Grid) -> bool {
    forall|r: int, c: int| in_grid(r, c) ==> 0 <= #[trigger] g[r][c] <= 9
}

/// Every clue of `p` stands in `g` at its place.
pub open spec fn keeps_clues(p: Grid, g: Grid) -> bool {
    forall|r: int, c: int| in_grid(r, c) && p[r][c] != 0 ==> #[trigger] g[r][c] == p[r][c]
}

/// The grid whose cells are all empty.
pub open spec fn zero_grid() -> Grid {
    Seq::new(9, |r: int| Seq::new(9, |c: int| 0i32))
}

/// `g` keeps every clue of `p` and holds a digit from 1 to 9 wherever `p` is
/// empty.
pub open spec fn extends(p: Grid, g: Grid) -> bool {
    forall|r: int, c: int|
        #![trigger g[r][c]]
        in_grid(r, c) ==> if p[r][c] != 0 {
            g[r][c] == p[r][c]
        } else {
            1 <= g[r][c] <= 9
        }
}

/// `g` fills the empty cells of `p` so that no filled cell repeats a value
/// of its row, column or box. The clues of `p` are not compared with one
/// another.
pub open spec fn is_fill(p: Grid, g: Grid) -> bool {
    &&& is_grid(g)
    &&& extends(p, g)
    &&& forall|r1: int, c1: int, r2: int, c2: int|
        in_grid(r1, c1) && in_grid(r2, c2) && peers(r1, c1, r2, c2) && p[r1][c1] == 0
            ==> #[trigger] g[r1][c1] != #[trigger] g[r2][c2]
}

/// `g` fills the empty cells of `p` so that no value occurs twice in a row,
/// a column or a box.
pub open spec fn is_completion(p: Grid, g: Grid) -> bool {
    &&& is_grid(g)
    &&& extends(p, g)
    &&& no_repeats(g)
}

/// Some grid completes `p`.
pub open spec fn has_completion(p: Grid) -> bool {
    exists|g: Grid| is_completion(p, g)
}

/// `a` and `b` hold the same value in every cell before `(r, c)`.
pub open spec fn agree_before(a: Grid, b: Grid, r: int, c: int) -> bool {
    forall|r2: int, c2: int|
        in_grid(r2, c2) && before(r2, c2, r, c) ==> #[trigger] a[r2][c2] == b[r2][c2]
}

/// `a` is at most `b` in the lexicographic order of the cells read row by
/// row: where the two first differ, `a` holds the smaller value.
pub open spec fn lex_le(a: Grid, b: Grid) -> bool {
    forall|r: int, c: int|
        in_grid(r, c) && #[trigger] agree_before(a, b, r, c) ==> a[r][c] <= b[r][c]
}

/// `g` is the least of the fills of `p`.
pub open spec fn is_least_fill(p: Grid, g: Grid) -> bool {
    &&& is_fill(p, g)
    &&& forall|h: Grid| #[trigger] is_fill(p, h) ==> lex_le(g, h)
}

/// `g` is the least of the completions of `p`.
pub open spec fn is_least_completion(p: Grid, g: Grid) -> bool {
    &&& is_completion(p, g)
    &&& forall|h: Grid| #[trigger] is_completion(p, h) ==> lex_le(g, h)
}

/// How many cells lie at or after the first empty cell of `g`: a bound on
/// how many cells a row-major search still has to fill.
pub open spec fn cells_left(g: Grid) -> nat {
    if is_full(g) {
        0
    } else {
        let (r, c) = choose|r: int, c: int| is_first_empty(g, r, c);
        (81 - (9 * r + c)) as nat
    }
}

/// What the backtracking engine returns for the puzzle `p`: its least
/// completion, or the grid of zeros when it has none.
pub open spec fn search_outcome(p: Grid, out: Grid) -> bool {
    &&& is_grid(out)
    &&& has_completion(p) ==> is_least_completion(p, out)
    &&& !has_completion(p) ==> out == zero_grid()
}

/// What the encoding engine returns for the puzzle `p`: a completion, or
/// the grid of zeros.
pub open spec fn encoding_outcome(p: Grid, out: Grid) -> bool {
    out == zero_grid() || is_completion(p, out)
}

/// A copy of the rows.
pub fn copy_rows(rows: &[Vec<i32>]) -> (out: Vec<Vec<i32>>)
    requires
        is_grid(rows_grid(rows@)),
    ensures
        rows_grid(out@) == rows_grid(rows@),
{
    let ghost g = rows_grid(rows@);
    let mut out: Vec<Vec<i32>> = Vec::new();
    for i in 0..9usize
        invariant
            g == rows_grid(rows@),
            is_grid(g),
            out@.len() == i,
            forall|r: int| 0 <= r < i ==> (#[trigger] out@[r])@ == g[r],
    {
        let mut row: Vec<i32> = Vec::new();
        for j in 0..9usize
            invariant
                i < 9,
                g == rows_grid(rows@),
                is_grid(g),
                row@.len() == j,
                forall|c: int| 0 <= c < j ==> #[trigger] row@[c] == g[i as int][c],
        {
            assert(g[i as int] == rows@[i as int]@);
            row.push(rows[i][j]);
        }
        out.push(row);
    }
    out
}

/// The rows of a 9x9 array.
pub fn array_rows(cells: &[[i32; 9]; 9]) -> (out: Vec<Vec<i32>>)
    ensures
        rows_grid(out@) == array_grid(*cells),
        is_grid(rows_grid(out@)),
{
    let ghost g = array_grid(*cells);
    let mut out: Vec<Vec<i32>> = Vec::new();
    for i in 0..9usize
        invariant
            g == array_grid(*cells),
            out@.len() == i,
            forall|r: int| 0 <= r < i ==> (#[trigger] out@[r])@ == g[r],
    {
        let mut row: Vec<i32> = Vec::new();
        for j in 0..9usize
            invariant
                i < 9,
                g == array_grid(*cells),
                row@.len() == j,
                forall|c: int| 0 <= c < j ==> #[trigger] row@[c] == g[i as int][c],
        {
            row.push(cells[i][j]);
        }
        out.push(row);
    }
    out
}

/// Nine rows of nine empty cells.
pub fn zero_rows() -> (out: Vec<Vec<i32>>)
    ensures
        rows_grid(out@) == zero_grid(),
{
    let mut out: Vec<Vec<i32>> = Vec::new();
    for i in 0..9usize
        invariant
            out@.len() == i,
            forall|r: int| 0 <= r < i ==> (#[trigger] out@[r])@ == zero_grid()[r],
    {
        let mut row: Vec<i32> = Vec::new();
        for j in 0..9usize
            invariant
                row@.len() == j,
                forall|c: int| 0 <= c < j ==> #[trigger] row@[c] == 0,
        {
            row.push(0);
        }
        out.push(row);
    }
    out
}

} // verus!
