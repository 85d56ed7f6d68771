//! What holds of solved grids, of completions, and of the outcomes of the
//! two engines.

use crate::grid::{
    agree_before, digits_in_range, encoding_outcome, has_completion, in_box, in_grid, is_completion,
    is_fill, is_grid, is_least_completion, is_solved, keeps_clues, lex_le, no_repeats, peers,
    search_outcome, zero_grid, Grid,
};
use vstd::prelude::*;
use vstd::set_lib::{lemma_int_range, lemma_subset_equality, set_int_range};

verus! {

/// Nine different digits from 1 to 9 are all the digits from 1 to 9.
pub proof fn lemma_nine_distinct_digits(s: Seq<int>, d: int)
    requires
        s.len() == 9,
        forall|i: int| 0 <= i < 9 ==> 1 <= #[trigger] s[i] <= 9,
        forall|i: int, j: int| 0 <= i < j < 9 ==> #[trigger] s[i] != #[trigger] s[j],
        1 <= d <= 9,
    ensures
        exists|i: int| 0 <= i < 9 && #[trigger] s[i] == d,
{
    s.unique_seq_to_set();
    lemma_int_range(1, 10);
    let digits = set_int_range(1, 10);
    let found = s.to_set();
    assert(found.subset_of(digits));
    lemma_subset_equality(found, digits);
    assert(digits.contains(d));
}

/// The digit `d` stands in row `r` of `g`.
pub open spec fn row_holds(g: Grid, r: int, d: int) -> bool {
    exists|c: int| 0 <= c < 9 && #[trigger] g[r][c] == d
}

/// The digit `d` stands in column `c` of `g`.
pub open spec fn col_holds(g: Grid, c: int, d: int) -> bool {
    exists|r: int| 0 <= r < 9 && (#[trigger] g[r])[c] == d
}

/// The digit `d` stands in the box of `g` in band `br` and stack `bc`.
pub open spec fn box_holds(g: Grid, br: int, bc: int, d: int) -> bool {
    exists|r: int, c: int| in_box(r, c, br, bc) && #[trigger] g[r][c] == d
}

/// Every row, every column and every box of `g` holds every digit from 1
/// to 9.
pub open spec fn units_complete(g: Grid) -> bool {
    &&& forall|r: int, d: int| 0 <= r < 9 && 1 <= d <= 9 ==> #[trigger] row_holds(g, r, d)
    &&& forall|c: int, d: int| 0 <= c < 9 && 1 <= d <= 9 ==> #[trigger] col_holds(g, c, d)
    &&& forall|br: int, bc: int, d: int|
        0 <= br < 3 && 0 <= bc < 3 && 1 <= d <= 9 ==> #[trigger] box_holds(g, br, bc, d)
}

/// In a solved grid every row, every column and every box is exactly the
/// set of the digits from 1 to 9: none is missing, as none occurs twice and
/// none is out of range.
pub proof fn lemma_solved_units_complete(g: Grid)
    requires
        is_solved(g),
    ensures
        units_complete(g),
{
    assert forall|r: int, d: int| 0 <= r < 9 && 1 <= d <= 9 implies #[trigger] row_holds(
        g,
        r,
        d,
    ) by {
        let s = Seq::new(9, |c: int| g[r][c] as int);
        lemma_nine_distinct_digits(s, d);
    }
    assert forall|c: int, d: int| 0 <= c < 9 && 1 <= d <= 9 implies #[trigger] col_holds(
        g,
        c,
        d,
    ) by {
        let s = Seq::new(9, |r: int| g[r][c] as int);
        lemma_nine_distinct_digits(s, d);
    }
    assert forall|br: int, bc: int, d: int|
        0 <= br < 3 && 0 <= bc < 3 && 1 <= d <= 9 implies #[trigger] box_holds(g, br, bc, d) by {
        let s = Seq::new(9, |t: int| g[3 * br + t / 3][3 * bc + t % 3] as int);
        lemma_nine_distinct_digits(s, d);
    }
}

/// Where the clues of `p` are free of conflicts, its fills are its
/// completions.
pub proof fn lemma_fill_is_completion(p: Grid, g: Grid)
    requires
        is_grid(p),
        no_repeats(p),
    ensures
        is_fill(p, g) <==> is_completion(p, g),
{
}

/// A grid whose clues conflict has no completion.
pub proof fn lemma_conflict_has_no_completion(p: Grid)
    requires
        is_grid(p),
        !no_repeats(p),
    ensures
        !has_completion(p),
{
    let (r1, c1, r2, c2) = choose|r1: int, c1: int, r2: int, c2: int|
        in_grid(r1, c1) && in_grid(r2, c2) && peers(r1, c1, r2, c2) && p[r1][c1] != 0
            && #[trigger] p[r1][c1] == #[trigger] p[r2][c2];
    assert forall|g: Grid| !is_completion(p, g) by {
        if is_completion(p, g) {
            assert(g[r1][c1] == p[r1][c1]);
            assert(g[r2][c2] == p[r2][c2]);
        }
    }
}

/// Validity: a completion of a puzzle whose clues are digits is a solved
/// grid, so each of its rows, columns and boxes is exactly the set of the
/// digits from 1 to 9.
pub proof fn lemma_completion_is_solved(p: Grid, g: Grid)
    requires
        is_grid(p),
        digits_in_range(p),
        is_completion(p, g),
    ensures
        is_solved(g),
        units_complete(g),
{
    lemma_solved_units_complete(g);
}

/// Consistency with the clues: a completion of a puzzle holds every clue of
/// the puzzle at its place.
pub proof fn lemma_completion_keeps_clues(p: Grid, g: Grid)
    requires
        is_completion(p, g),
    ensures
        keeps_clues(p, g),
{
}

/// Two grids that are each at most the other in lexicographic order are
/// equal up to the cell with index `n` in row-major order.
proof fn lemma_lex_agree(a: Grid, b: Grid, n: int)
    requires
        is_grid(a),
        is_grid(b),
        lex_le(a, b),
        lex_le(b, a),
        0 <= n <= 81,
    ensures
        forall|r: int, c: int| in_grid(r, c) && 9 * r + c < n ==> #[trigger] a[r][c] == b[r][c],
    decreases n,
{
    if n > 0 {
        lemma_lex_agree(a, b, n - 1);
        let r0 = (n - 1) / 9;
        let c0 = (n - 1) % 9;
        assert(agree_before(a, b, r0, c0));
        assert(agree_before(b, a, r0, c0));
    }
}

/// The lexicographic order of grids is antisymmetric.
pub proof fn lemma_lex_antisymmetric(a: Grid, b: Grid)
    requires
        is_grid(a),
        is_grid(b),
        lex_le(a, b),
        lex_le(b, a),
    ensures
        a == b,
{
    lemma_lex_agree(a, b, 81);
    assert forall|r: int| 0 <= r < 9 implies #[trigger] a[r] =~= b[r] by {}
}

/// A puzzle has at most one least completion.
pub proof fn lemma_least_completion_unique(p: Grid, g: Grid, h: Grid)
    requires
        is_least_completion(p, g),
        is_least_completion(p, h),
    ensures
        g == h,
{
    lemma_lex_antisymmetric(g, h);
}

/// Validity and consistency with the clues, for the backtracking engine:
/// for a puzzle whose clues are digits, what the engine returns is the grid
/// of zeros or a solved grid that keeps the clues, each of whose rows,
/// columns and boxes is exactly the set of the digits from 1 to 9.
pub proof fn lemma_search_outcome_valid(p: Grid, out: Grid)
    requires
        is_grid(p),
        digits_in_range(p),
        search_outcome(p, out),
        out != zero_grid(),
    ensures
        is_solved(out),
        units_complete(out),
        keeps_clues(p, out),
{
    lemma_completion_is_solved(p, out);
}

/// Validity and consistency with the clues, for the encoding engine: for a
/// puzzle whose clues are digits, what the engine returns is the grid of
/// zeros or a solved grid that keeps the clues, each of whose rows, columns
/// and boxes is exactly the set of the digits from 1 to 9.
pub proof fn lemma_encoding_outcome_valid(p: Grid, out: Grid)
    requires
        is_grid(p),
        digits_in_range(p),
        encoding_outcome(p, out),
        out != zero_grid(),
    ensures
        is_solved(out),
        units_complete(out),
        keeps_clues(p, out),
{
    lemma_completion_is_solved(p, out);
}

/// Determinism of the backtracking engine: the puzzle fixes what it
/// returns.
pub proof fn lemma_search_outcome_unique(p: Grid, out1: Grid, out2: Grid)
    requires
        search_outcome(p, out1),
        search_outcome(p, out2),
    ensures
        out1 == out2,
{
    if has_completion(p) {
        lemma_least_completion_unique(p, out1, out2);
    }
}

/// A completion is never the grid of zeros, so the grid of zeros tells
/// failure apart from every solution.
pub proof fn lemma_completion_is_not_zero(p: Grid, g: Grid)
    requires
        is_completion(p, g),
    ensures
        g != zero_grid(),
{
    assert(g[0][0] != 0);
}

/// The puzzle `p` has exactly one completion.
pub open spec fn uniquely_solvable(p: Grid) -> bool {
    &&& has_completion(p)
    &&& forall|g: Grid, h: Grid|
        #![trigger is_completion(p, g), is_completion(p, h)]
        is_completion(p, g) && is_completion(p, h) ==> g == h
}

/// Agreement of the engines: on a puzzle with exactly one completion, what
/// the encoding engine returns is the grid of zeros or what the
/// backtracking engine returns.
pub proof fn lemma_engines_agree(p: Grid, searched: Grid, encoded: Grid)
    requires
        uniquely_solvable(p),
        search_outcome(p, searched),
        encoding_outcome(p, encoded),
        encoded != zero_grid(),
    ensures
        searched == encoded,
{
}

/// On a puzzle with exactly one completion, the encoding engine returns
/// the same grid each time that it does not return the grid of zeros.
pub proof fn lemma_encoding_outcomes_agree(p: Grid, out1: Grid, out2: Grid)
    requires
        uniquely_solvable(p),
        encoding_outcome(p, out1),
        encoding_outcome(p, out2),
        out1 != zero_grid(),
        out2 != zero_grid(),
    ensures
        out1 == out2,
{
}

/// A puzzle whose clues conflict has no completion, so both engines return
/// the grid of zeros for it.
pub proof fn lemma_conflict_gives_zero(p: Grid, searched: Grid, encoded: Grid)
    requires
        is_grid(p),
        !no_repeats(p),
        search_outcome(p, searched),
        encoding_outcome(p, encoded),
    ensures
        searched == zero_grid(),
        encoded == zero_grid(),
{
    lemma_conflict_has_no_completion(p);
}

/// A solved grid: the rows are shifts of one another, by three cells within
/// a band of boxes and by one cell from band to band.
pub open spec fn shifted_grid() -> Grid {
    Seq::new(9, |r: int| Seq::new(9, |c: int| ((3 * (r % 3) + r / 3 + c) % 9 + 1) as i32))
}

/// The grid of shifted rows is solved.
pub proof fn lemma_shifted_grid_solved()
    ensures
        is_solved(shifted_grid()),
{
    let g = shifted_grid();
    assert forall|r1: int, c1: int, r2: int, c2: int|
        in_grid(r1, c1) && in_grid(r2, c2) && peers(r1, c1, r2, c2) && g[r1][c1]
            != 0 implies #[trigger] g[r1][c1] != #[trigger] g[r2][c2] by {
        let k1 = 3 * (r1 % 3) + r1 / 3;
        let k2 = 3 * (r2 % 3) + r2 / 3;
        assert(g[r1][c1] == (k1 + c1) % 9 + 1);
        assert(g[r2][c2] == (k2 + c2) % 9 + 1);
    }
}

/// Solvability of the empty puzzle: the grid without clues has a
/// completion, so the backtracking engine returns a solved grid for it.
pub proof fn lemma_empty_puzzle_solvable(out: Grid)
    requires
        search_outcome(zero_grid(), out),
    ensures
        is_solved(out),
        out != zero_grid(),
{
    lemma_shifted_grid_solved();
    assert(is_completion(zero_grid(), shifted_grid()));
    lemma_completion_is_solved(zero_grid(), out);
    lemma_completion_is_not_zero(zero_grid(), out);
}

} // verus!
