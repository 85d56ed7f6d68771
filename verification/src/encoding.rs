//! What the boolean encoding of a puzzle means: which assignments satisfy
//! its constraints, and which grid an assignment stands for.

use crate::grid::{
    before, digits_in_range, in_box, in_grid, is_completion, is_grid, is_solved, keeps_clues,
    peers, search_outcome, zero_grid, Grid,
};
use crate::sat::{formula_in, holds, Assignment};
use crate::theorems::{
    box_holds, col_holds, lemma_completion_is_not_zero, lemma_solved_units_complete, row_holds,
    uniquely_solvable,
};
use crate::text::digit_char;
use vstd::prelude::*;
use z3::ast::Bool;
use z3::Context;

verus! {

/// The name of the constant that stands for "the cell in row `i` and column
/// `j` holds the digit `d`": `x_i_j_d`.
pub open spec fn const_name(i: int, j: int, d: int) -> Seq<char> {
    seq!['x', '_', digit_char(i), '_', digit_char(j), '_', digit_char(d)]
}

/// Under `a`, the cell in row `i` and column `j` holds the digit `d`.
pub open spec fn cell_is(a: Assignment, i: int, j: int, d: int) -> bool {
    a.contains(const_name(i, j, d))
}

/// The formula at `[i][j][k]` of a table of formulas.
pub open spec fn literal(constants: Seq<Vec<Vec<Bool>>>, i: int, j: int, k: int) -> Bool {
    constants[i]@[j]@[k]
}

/// `constants` holds nine rows of nine columns of nine formulas.
pub open spec fn is_table(constants: Seq<Vec<Vec<Bool>>>) -> bool {
    &&& constants.len() == 9
    &&& forall|i: int| 0 <= i < 9 ==> (#[trigger] constants[i])@.len() == 9
    &&& forall|i: int, j: int| in_grid(i, j) ==> (#[trigger] constants[i]@[j])@.len() == 9
}

/// `constants` is the table of the literals of a puzzle, built in `ctx`: the
/// formula at `[i][j][k]` is true exactly when the cell in row `i` and
/// column `j` holds the digit `k + 1`.
pub open spec fn is_literal_table(constants: Seq<Vec<Vec<Bool>>>, ctx: Context) -> bool {
    &&& is_table(constants)
    &&& forall|i: int, j: int, k: int|
        in_grid(i, j) && 0 <= k < 9 ==> formula_in(#[trigger] literal(constants, i, j, k), ctx)
    &&& forall|i: int, j: int, k: int, a: Assignment|
        in_grid(i, j) && 0 <= k < 9 ==> #[trigger] holds(literal(constants, i, j, k), a)
            == cell_is(a, i, j, k + 1)
}

/// Exactly one of the truth values is true.
pub open spec fn exactly_one_true(values: Seq<bool>) -> bool {
    exists|i: int|
        0 <= i < values.len() && #[trigger] values[i] && forall|j: int|
            0 <= j < values.len() && j != i ==> !#[trigger] values[j]
}

/// One of the truth values at the indices up to and including `t` is true.
pub open spec fn some_true_upto(values: Seq<bool>, t: int) -> bool {
    exists|u: int| 0 <= u <= t && u < values.len() && #[trigger] values[u]
}

/// What the sequential encoding of "exactly one" states of the truth
/// values: one of them is true, and none is true after an earlier one was.
pub open spec fn chained_exactly_one(values: Seq<bool>) -> bool {
    &&& some_true_upto(values, values.len() - 1)
    &&& forall|t: int|
        1 <= t < values.len() ==> !(#[trigger] some_true_upto(values, t - 1) && values[t])
}

/// The truth values of the formulas under `a`.
pub open spec fn truths(formulas: Seq<&Bool>, a: Assignment) -> Seq<bool> {
    Seq::new(formulas.len(), |i: int| holds(*formulas[i], a))
}

/// Each of the formulas is true under `a`.
pub open spec fn each_holds(formulas: Seq<Bool>, a: Assignment) -> bool {
    forall|t: int| 0 <= t < formulas.len() ==> holds(#[trigger] formulas[t], a)
}

/// For each digit, whether the cell in row `i` and column `j` holds it.
pub open spec fn cell_values(a: Assignment, i: int, j: int) -> Seq<bool> {
    Seq::new(9, |k: int| cell_is(a, i, j, k + 1))
}

/// For each cell of row `i`, whether it holds the digit `d`.
pub open spec fn row_values(a: Assignment, i: int, d: int) -> Seq<bool> {
    Seq::new(9, |j: int| cell_is(a, i, j, d))
}

/// For each cell of column `j`, whether it holds the digit `d`.
pub open spec fn col_values(a: Assignment, j: int, d: int) -> Seq<bool> {
    Seq::new(9, |i: int| cell_is(a, i, j, d))
}

/// For each cell of box `b`, whether it holds the digit `d`. The boxes are
/// numbered row by row, and so are the cells of a box.
pub open spec fn box_values(a: Assignment, b: int, d: int) -> Seq<bool> {
    Seq::new(9, |t: int| cell_is(a, 3 * (b / 3) + t / 3, 3 * (b % 3) + t % 3, d))
}

/// Every cell holds exactly one digit.
pub open spec fn each_cell_one_digit(a: Assignment) -> bool {
    forall|i: int, j: int| in_grid(i, j) ==> exactly_one_true(#[trigger] cell_values(a, i, j))
}

/// Every row holds every digit exactly once.
pub open spec fn each_row_digit_once(a: Assignment) -> bool {
    forall|i: int, d: int|
        0 <= i < 9 && 1 <= d <= 9 ==> exactly_one_true(#[trigger] row_values(a, i, d))
}

/// Every column holds every digit exactly once.
pub open spec fn each_col_digit_once(a: Assignment) -> bool {
    forall|j: int, d: int|
        0 <= j < 9 && 1 <= d <= 9 ==> exactly_one_true(#[trigger] col_values(a, j, d))
}

/// Every box holds every digit exactly once.
pub open spec fn each_box_digit_once(a: Assignment) -> bool {
    forall|b: int, d: int|
        0 <= b < 9 && 1 <= d <= 9 ==> exactly_one_true(#[trigger] box_values(a, b, d))
}

/// Every clue of `p` stands in its cell.
pub open spec fn clues_hold(p: Grid, a: Assignment) -> bool {
    forall|i: int, j: int|
        in_grid(i, j) && p[i][j] != 0 ==> cell_is(a, i, j, #[trigger] p[i][j] as int)
}

/// Every clue of `p` that comes before the cell in row `i` and column `j`
/// stands in its cell.
pub open spec fn clues_hold_before(p: Grid, a: Assignment, i: int, j: int) -> bool {
    forall|r: int, c: int|
        in_grid(r, c) && before(r, c, i, j) && p[r][c] != 0 ==> cell_is(
            a,
            r,
            c,
            #[trigger] p[r][c] as int,
        )
}

/// `a` satisfies the encoding of the puzzle `p`: the four families of
/// "exactly one" constraints, and the clues.
pub open spec fn satisfies(p: Grid, a: Assignment) -> bool {
    &&& each_box_digit_once(a)
    &&& each_col_digit_once(a)
    &&& each_row_digit_once(a)
    &&& each_cell_one_digit(a)
    &&& clues_hold(p, a)
}

/// The greatest of the digits 1 to `n` whose truth value is true, or 0 when
/// none is. The truth value of the digit `d` stands at index `d - 1`.
pub open spec fn greatest_true(truths: Seq<bool>, n: int) -> int
    decreases n,
{
    if n <= 0 {
        0
    } else if truths[n - 1] {
        n
    } else {
        greatest_true(truths, n - 1)
    }
}

/// `truths` holds nine rows of nine columns of nine truth values: for each
/// cell and digit, whether the cell holds the digit.
pub open spec fn is_truth_table(truths: Seq<Vec<Vec<bool>>>) -> bool {
    &&& truths.len() == 9
    &&& forall|i: int| 0 <= i < 9 ==> (#[trigger] truths[i])@.len() == 9
    &&& forall|i: int, j: int| in_grid(i, j) ==> (#[trigger] truths[i]@[j])@.len() == 9
}

/// `truths` is the table of the truth values that the literals of a puzzle
/// have under `a`.
pub open spec fn is_truth_table_of(truths: Seq<Vec<Vec<bool>>>, a: Assignment) -> bool {
    &&& is_truth_table(truths)
    &&& forall|i: int, j: int, k: int|
        in_grid(i, j) && 0 <= k < 9 ==> #[trigger] truths[i]@[j]@[k] == cell_is(a, i, j, k + 1)
}

/// The grid that a table of truth values stands for: each cell holds the
/// greatest digit whose truth value is true, and is empty when none is.
pub open spec fn table_grid(truths: Seq<Vec<Vec<bool>>>) -> Grid {
    Seq::new(9, |i: int| Seq::new(9, |j: int| greatest_true(truths[i]@[j]@, 9) as i32))
}

/// The grid that `a` stands for: each cell holds the greatest digit that it
/// holds under `a`, and is empty when it holds none.
pub open spec fn decoded(a: Assignment) -> Grid {
    Seq::new(9, |i: int| Seq::new(9, |j: int| greatest_true(cell_values(a, i, j), 9) as i32))
}

/// The assignment that stands for the grid `g`: of the constants of each
/// cell, the one of the digit that the cell holds is true.
pub open spec fn grid_assignment(g: Grid) -> Assignment {
    Set::new(
        |name: Seq<char>|
            exists|i: int, j: int|
                in_grid(i, j) && name == #[trigger] const_name(i, j, g[i][j] as int),
    )
}

/// The sequential encoding states that exactly one of the values is true.
pub proof fn lemma_chained_exactly_one(values: Seq<bool>)
    ensures
        chained_exactly_one(values) <==> exactly_one_true(values),
{
    if chained_exactly_one(values) {
        let u = choose|u: int|
            0 <= u <= values.len() - 1 && u < values.len() && #[trigger] values[u];
        assert forall|j: int| 0 <= j < values.len() && j != u implies !#[trigger] values[j] by {
            if values[j] {
                if j < u {
                    assert(some_true_upto(values, u - 1));
                } else {
                    assert(some_true_upto(values, j - 1));
                }
            }
        }
    }
}

/// `greatest_true` is 0 or a digit up to `n` whose truth value is true, and
/// no digit up to `n` whose truth value is true is greater.
pub proof fn lemma_greatest_true(truths: Seq<bool>, n: int)
    requires
        0 <= n,
    ensures
        0 <= greatest_true(truths, n) <= n,
        greatest_true(truths, n) != 0 ==> truths[greatest_true(truths, n) - 1],
        forall|d: int| 1 <= d <= n && #[trigger] truths[d - 1] ==> d <= greatest_true(truths, n),
    decreases n,
{
    if n > 0 {
        lemma_greatest_true(truths, n - 1);
    }
}

/// `greatest_true` looks at the first `n` truth values only.
pub proof fn lemma_greatest_true_same(s: Seq<bool>, t: Seq<bool>, n: int)
    requires
        forall|k: int| 0 <= k < n ==> s[k] == t[k],
    ensures
        greatest_true(s, n) == greatest_true(t, n),
    decreases n,
{
    if n > 0 {
        lemma_greatest_true_same(s, t, n - 1);
    }
}

/// The grid of the table of the truth values under `a` is the grid that
/// `a` stands for.
pub proof fn lemma_grid_of_truth_table(truths: Seq<Vec<Vec<bool>>>, a: Assignment)
    requires
        is_truth_table_of(truths, a),
    ensures
        table_grid(truths) == decoded(a),
{
    assert forall|i: int| 0 <= i < 9 implies #[trigger] table_grid(truths)[i] =~= decoded(
        a,
    )[i] by {
        assert forall|j: int| 0 <= j < 9 implies table_grid(truths)[i][j] == decoded(a)[i][j] by {
            assert(in_grid(i, j));
            lemma_greatest_true_same(truths[i]@[j]@, cell_values(a, i, j), 9);
        }
    }
    assert(table_grid(truths) =~= decoded(a));
}

/// Where a cell holds exactly one digit under `a`, the decoded grid holds
/// that digit there.
pub proof fn lemma_decoded_cell(a: Assignment, i: int, j: int)
    requires
        in_grid(i, j),
        exactly_one_true(cell_values(a, i, j)),
    ensures
        1 <= decoded(a)[i][j] <= 9,
        forall|d: int| 1 <= d <= 9 ==> (cell_is(a, i, j, d) <==> decoded(a)[i][j] == d),
{
    let v = cell_values(a, i, j);
    let k = choose|k: int|
        0 <= k < v.len() && #[trigger] v[k] && forall|t: int|
            0 <= t < v.len() && t != k ==> !#[trigger] v[t];
    lemma_greatest_true(v, 9);
    let last = greatest_true(v, 9);
    assert(v[(k + 1) - 1]);
    assert(v[last - 1]);
    assert forall|d: int| 1 <= d <= 9 implies (cell_is(a, i, j, d) <==> decoded(a)[i][j] == d) by {
        if cell_is(a, i, j, d) {
            assert(v[d - 1]);
        }
    }
}

/// An assignment that satisfies the encoding of `p` stands for a completion
/// of `p`, which is a solved grid.
pub proof fn lemma_satisfying_is_completion(p: Grid, a: Assignment)
    requires
        is_grid(p),
        digits_in_range(p),
        satisfies(p, a),
    ensures
        is_completion(p, decoded(a)),
        is_solved(decoded(a)),
        keeps_clues(p, decoded(a)),
{
    let g = decoded(a);
    assert forall|r: int, c: int| in_grid(r, c) implies 1 <= #[trigger] g[r][c] <= 9 by {
        lemma_decoded_cell(a, r, c);
    }
    assert forall|r: int, c: int| in_grid(r, c) && p[r][c] != 0 implies #[trigger] g[r][c]
        == p[r][c] by {
        lemma_decoded_cell(a, r, c);
        assert(cell_is(a, r, c, p[r][c] as int));
    }
    assert forall|r1: int, c1: int, r2: int, c2: int|
        in_grid(r1, c1) && in_grid(r2, c2) && peers(r1, c1, r2, c2) && g[r1][c1]
            != 0 implies #[trigger] g[r1][c1] != #[trigger] g[r2][c2] by {
        if g[r1][c1] == g[r2][c2] {
            let d = g[r1][c1] as int;
            lemma_decoded_cell(a, r1, c1);
            lemma_decoded_cell(a, r2, c2);
            if r1 == r2 {
                let v = row_values(a, r1, d);
                assert(v[c1] && v[c2]);
            } else if c1 == c2 {
                let v = col_values(a, c1, d);
                assert(v[r1] && v[r2]);
            } else {
                let b = 3 * (r1 / 3) + c1 / 3;
                let t1 = 3 * (r1 % 3) + c1 % 3;
                let t2 = 3 * (r2 % 3) + c2 % 3;
                let v = box_values(a, b, d);
                assert(3 * (b / 3) + t1 / 3 == r1 && 3 * (b % 3) + t1 % 3 == c1);
                assert(v[t1] && v[t2]);
            }
        }
    }
}

/// Different cells and digits have constants of different names.
pub proof fn lemma_const_name_injective(i1: int, j1: int, d1: int, i2: int, j2: int, d2: int)
    requires
        0 <= i1 <= 9,
        0 <= j1 <= 9,
        0 <= d1 <= 9,
        0 <= i2 <= 9,
        0 <= j2 <= 9,
        0 <= d2 <= 9,
        const_name(i1, j1, d1) == const_name(i2, j2, d2),
    ensures
        i1 == i2,
        j1 == j2,
        d1 == d2,
{
}

/// Under the assignment of a grid of digits, a cell holds the digit that
/// it holds in the grid and no other.
pub proof fn lemma_grid_assignment_cell(g: Grid, i: int, j: int, d: int)
    requires
        is_grid(g),
        digits_in_range(g),
        in_grid(i, j),
        0 <= d <= 9,
    ensures
        cell_is(grid_assignment(g), i, j, d) <==> g[i][j] == d,
{
    if cell_is(grid_assignment(g), i, j, d) {
        let (i2, j2) = choose|i2: int, j2: int|
            in_grid(i2, j2) && const_name(i, j, d) == #[trigger] const_name(
                i2,
                j2,
                g[i2][j2] as int,
            );
        lemma_const_name_injective(i, j, d, i2, j2, g[i2][j2] as int);
    }
}

/// A solved grid that keeps the clues of `p` is what its assignment stands
/// for, and that assignment satisfies the encoding of `p`.
pub proof fn lemma_solution_satisfies(p: Grid, g: Grid)
    requires
        is_grid(p),
        is_solved(g),
        keeps_clues(p, g),
    ensures
        satisfies(p, grid_assignment(g)),
        decoded(grid_assignment(g)) == g,
{
    let a = grid_assignment(g);
    assert forall|i: int, j: int, d: int| in_grid(i, j) && 0 <= d <= 9 implies (#[trigger] cell_is(
        a,
        i,
        j,
        d,
    ) <==> g[i][j] == d) by {
        lemma_grid_assignment_cell(g, i, j, d);
    }
    lemma_solved_units_complete(g);
    assert forall|i: int, j: int| in_grid(i, j) implies exactly_one_true(
        #[trigger] cell_values(a, i, j),
    ) by {
        let v = cell_values(a, i, j);
        let k = g[i][j] - 1;
        assert(v[k] == cell_is(a, i, j, k + 1));
    }
    assert forall|i: int, d: int| 0 <= i < 9 && 1 <= d <= 9 implies exactly_one_true(
        #[trigger] row_values(a, i, d),
    ) by {
        let v = row_values(a, i, d);
        assert(row_holds(g, i, d));
        let c = choose|c: int| 0 <= c < 9 && #[trigger] g[i][c] == d;
        assert(v[c] == cell_is(a, i, c, d));
    }
    assert forall|j: int, d: int| 0 <= j < 9 && 1 <= d <= 9 implies exactly_one_true(
        #[trigger] col_values(a, j, d),
    ) by {
        let v = col_values(a, j, d);
        assert(col_holds(g, j, d));
        let r = choose|r: int| 0 <= r < 9 && (#[trigger] g[r])[j] == d;
        assert(v[r] == cell_is(a, r, j, d));
    }
    assert forall|b: int, d: int| 0 <= b < 9 && 1 <= d <= 9 implies exactly_one_true(
        #[trigger] box_values(a, b, d),
    ) by {
        let v = box_values(a, b, d);
        assert(box_holds(g, b / 3, b % 3, d));
        let (r, c) = choose|r: int, c: int|
            in_box(r, c, b / 3, b % 3) && #[trigger] g[r][c] == d;
        let u = 3 * (r % 3) + c % 3;
        assert(v[u] == cell_is(a, r, c, d));
        assert forall|t: int| 0 <= t < v.len() && t != u implies !#[trigger] v[t] by {}
    }
    assert forall|i: int, j: int| in_grid(i, j) && p[i][j] != 0 implies cell_is(
        a,
        i,
        j,
        #[trigger] p[i][j] as int,
    ) by {
        assert(g[i][j] == p[i][j]);
    }
    assert forall|i: int| 0 <= i < 9 implies #[trigger] decoded(a)[i] =~= g[i] by {
        assert forall|j: int| 0 <= j < 9 implies decoded(a)[i][j] == g[i][j] by {
            assert(exactly_one_true(cell_values(a, i, j)));
            lemma_decoded_cell(a, i, j);
        }
    }
}

/// The encoding is exact: for a puzzle whose clues are digits, the grids
/// that its satisfying assignments stand for are the solved grids that keep
/// its clues.
pub proof fn lemma_encoding_exact(p: Grid, g: Grid)
    requires
        is_grid(p),
        digits_in_range(p),
    ensures
        (exists|a: Assignment| satisfies(p, a) && decoded(a) == g) <==> (is_solved(g)
            && keeps_clues(p, g)),
{
    if exists|a: Assignment| satisfies(p, a) && decoded(a) == g {
        let a = choose|a: Assignment| satisfies(p, a) && decoded(a) == g;
        lemma_satisfying_is_completion(p, a);
    }
    if is_solved(g) && keeps_clues(p, g) {
        lemma_solution_satisfies(p, g);
    }
}

/// What the answer "satisfiable" gives: the grid of the truth values that
/// are read out of a model of the encoding of `p` is a completion of `p`. It
/// is a solved grid that keeps the clues, and not the grid of zeros.
pub proof fn lemma_sat_answer_is_completion(p: Grid, a: Assignment, truths: Seq<Vec<Vec<bool>>>)
    requires
        is_grid(p),
        digits_in_range(p),
        satisfies(p, a),
        is_truth_table_of(truths, a),
    ensures
        is_completion(p, table_grid(truths)),
        is_solved(table_grid(truths)),
        keeps_clues(p, table_grid(truths)),
        table_grid(truths) != zero_grid(),
{
    lemma_grid_of_truth_table(truths, a);
    lemma_satisfying_is_completion(p, a);
    lemma_completion_is_not_zero(p, decoded(a));
}

/// Agreement of the engines after the answer "satisfiable": on a puzzle
/// with exactly one completion, the grid of the truth values that are read
/// out of a model of its encoding is what the backtracking engine returns.
pub proof fn lemma_sat_answer_agrees(
    p: Grid,
    a: Assignment,
    truths: Seq<Vec<Vec<bool>>>,
    searched: Grid,
)
    requires
        is_grid(p),
        digits_in_range(p),
        uniquely_solvable(p),
        search_outcome(p, searched),
        satisfies(p, a),
        is_truth_table_of(truths, a),
    ensures
        table_grid(truths) == searched,
{
    lemma_sat_answer_is_completion(p, a, truths);
    assert(is_completion(p, searched));
}

/// The empty puzzle after the answer "satisfiable": the grid of the truth
/// values that are read out of a model of its encoding is a solved grid.
pub proof fn lemma_sat_answer_of_empty_puzzle(a: Assignment, truths: Seq<Vec<Vec<bool>>>)
    requires
        satisfies(zero_grid(), a),
        is_truth_table_of(truths, a),
    ensures
        is_solved(table_grid(truths)),
        table_grid(truths) != zero_grid(),
{
    assert(is_grid(zero_grid()));
    assert(digits_in_range(zero_grid()));
    lemma_sat_answer_is_completion(zero_grid(), a, truths);
}

} // verus!
