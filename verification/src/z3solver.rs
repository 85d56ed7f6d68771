//! The encoding engine: a puzzle becomes a boolean formula over one
//! constant for each cell and digit, and a satisfiability engine finds an
//! assignment that makes it true.

use crate::encoding::{
    box_values, cell_is, cell_values, chained_exactly_one, clues_hold, clues_hold_before,
    col_values, const_name, decoded, each_box_digit_once, each_cell_one_digit,
    each_col_digit_once, each_holds, each_row_digit_once, exactly_one_true, greatest_true,
    is_literal_table, is_truth_table, is_truth_table_of, lemma_chained_exactly_one,
    lemma_grid_of_truth_table, lemma_satisfying_is_completion, literal, row_values, satisfies,
    some_true_upto, table_grid, truths,
};
use crate::grid::{
    array_grid, before, digits_in_range, encoding_outcome, in_grid, is_grid, is_solved, keeps_clues,
    rows_grid, zero_grid, zero_rows,
};
use crate::sat::{
    all_hold, all_in, asserted, bool_and, bool_const, bool_literal, bool_not, bool_or,
    bool_value, formula_in, found_sat, holds, model_assignment, model_eval, model_in, new_config,
    new_context, new_solver, solver_assert, solver_check, solver_in, solver_model, some_holds,
    Assignment, Verdict,
};
use crate::text::digit_str;
use vstd::prelude::*;
use vstd::string::StringExecFns;
use z3::ast::Bool;
use z3::{Context, Model, Solver};

verus! {

/// The name of the constant for "the cell in row `i` and column `j` holds
/// the digit `d`".
fn literal_name(i: usize, j: usize, d: usize) -> (name: String)
    requires
        i < 10,
        j < 10,
        d < 10,
    ensures
        name@ == const_name(i as int, j as int, d as int),
{
    proof {
        reveal_strlit("x_");
        reveal_strlit("_");
    }
    let mut name = String::from_str("x_");
    name.append(digit_str(i));
    name.append("_");
    name.append(digit_str(j));
    name.append("_");
    name.append(digit_str(d));
    name
}

/// The table of the literals of a puzzle: one boolean constant for each
/// cell and digit, the one at `[i][j][k]` called `x_i_j_d` with `d = k + 1`.
pub fn add_constants<'a>(context: &'a Context) -> (constants: Vec<Vec<Vec<Bool<'a>>>>)
    ensures
        is_literal_table(constants@, *context),
{
    let mut constants: Vec<Vec<Vec<Bool<'a>>>> = Vec::new();
    for i in 0..9usize
        invariant
            constants@.len() == i,
            forall|r: int| 0 <= r < i ==> (#[trigger] constants@[r])@.len() == 9,
            forall|r: int, c: int|
                0 <= r < i && 0 <= c < 9 ==> (#[trigger] constants@[r]@[c])@.len() == 9,
            forall|r: int, c: int, k: int|
                0 <= r < i && 0 <= c < 9 && 0 <= k < 9 ==> formula_in(
                    #[trigger] literal(constants@, r, c, k),
                    *context,
                ),
            forall|r: int, c: int, k: int, a: Assignment|
                0 <= r < i && 0 <= c < 9 && 0 <= k < 9 ==> #[trigger] holds(
                    literal(constants@, r, c, k),
                    a,
                ) == cell_is(a, r, c, k + 1),
    {
        let mut row: Vec<Vec<Bool<'a>>> = Vec::new();
        for j in 0..9usize
            invariant
                i < 9,
                row@.len() == j,
                forall|c: int| 0 <= c < j ==> (#[trigger] row@[c])@.len() == 9,
                forall|c: int, k: int|
                    0 <= c < j && 0 <= k < 9 ==> formula_in(#[trigger] row@[c]@[k], *context),
                forall|c: int, k: int, a: Assignment|
                    0 <= c < j && 0 <= k < 9 ==> #[trigger] holds(row@[c]@[k], a) == cell_is(
                        a,
                        i as int,
                        c,
                        k + 1,
                    ),
        {
            let mut column: Vec<Bool<'a>> = Vec::new();
            for k in 1..10usize
                invariant
                    i < 9,
                    j < 9,
                    column@.len() == k - 1,
                    forall|t: int| 0 <= t < k - 1 ==> formula_in(#[trigger] column@[t], *context),
                    forall|t: int, a: Assignment|
                        0 <= t < k - 1 ==> #[trigger] holds(column@[t], a) == cell_is(
                            a,
                            i as int,
                            j as int,
                            t + 1,
                        ),
            {
                let name = literal_name(i, j, k);
                let constant = bool_const(context, name.as_str());
                column.push(constant);
            }
            row.push(column);
        }
        let ghost before = constants@;
        constants.push(row);
        proof {
            assert forall|r: int, c: int, k: int|
                0 <= r < i + 1 && 0 <= c < 9 && 0 <= k < 9 implies formula_in(
                #[trigger] literal(constants@, r, c, k),
                *context,
            ) by {
                if r < i {
                    assert(literal(constants@, r, c, k) == literal(before, r, c, k));
                }
            }
            assert forall|r: int, c: int, k: int, a: Assignment|
                0 <= r < i + 1 && 0 <= c < 9 && 0 <= k < 9 implies #[trigger] holds(
                literal(constants@, r, c, k),
                a,
            ) == cell_is(a, r, c, k + 1) by {
                if r < i {
                    assert(literal(constants@, r, c, k) == literal(before, r, c, k));
                }
            }
        }
    }
    constants
}

/// The formula that is true when exactly one of `constants` is.
///
/// It is built in one pass: a running disjunction of the formulas seen so
/// far, and for each formula after the first the statement that it is not
/// true together with that disjunction.
pub fn exactly_one<'a>(context: &'a Context, constants: &[&Bool<'a>]) -> (formula: Bool<'a>)
    requires
        1 <= constants@.len() <= u32::MAX,
        all_in(constants@, *context),
    ensures
        formula_in(formula, *context),
        forall|a: Assignment|
            #[trigger] holds(formula, a) == exactly_one_true(truths(constants@, a)),
{
    let n = constants.len();
    let mut s: Vec<Bool<'a>> = Vec::new();
    let mut ands: Vec<Bool<'a>> = Vec::new();
    let first = bool_not(constants[0]);
    let s0 = bool_not(&first);
    proof {
        assert forall|a: Assignment| #[trigger] holds(s0, a) == some_true_upto(
            truths(constants@, a),
            0,
        ) by {
            let v = truths(constants@, a);
            assert(v[0] == holds(*constants@[0], a));
        }
    }
    s.push(s0);
    for i in 1..n
        invariant
            n == constants@.len(),
            n >= 1,
            all_in(constants@, *context),
            s@.len() == i,
            ands@.len() == i - 1,
            forall|t: int| 0 <= t < i ==> formula_in(#[trigger] s@[t], *context),
            forall|t: int| 0 <= t < i - 1 ==> formula_in(#[trigger] ands@[t], *context),
            forall|t: int, a: Assignment|
                0 <= t < i ==> #[trigger] holds(s@[t], a) == some_true_upto(
                    truths(constants@, a),
                    t,
                ),
            forall|t: int, a: Assignment|
                1 <= t < i ==> #[trigger] holds(ands@[t - 1], a) == !(some_true_upto(
                    truths(constants@, a),
                    t - 1,
                ) && holds(*constants@[t], a)),
    {
        let mut pair: Vec<&Bool<'a>> = Vec::new();
        pair.push(&s[i - 1]);
        pair.push(constants[i]);
        let both = bool_and(context, pair.as_slice());
        let ai = bool_not(&both);
        let l = bool_or(context, pair.as_slice());
        proof {
            assert forall|a: Assignment| #[trigger] holds(ai, a) == !(some_true_upto(
                truths(constants@, a),
                i - 1,
            ) && holds(*constants@[i as int], a)) by {
                assert(holds(*pair@[0], a) == holds(s@[i - 1], a));
                assert(holds(*pair@[1], a) == holds(*constants@[i as int], a));
            }
            assert forall|a: Assignment| #[trigger] holds(l, a) == some_true_upto(
                truths(constants@, a),
                i as int,
            ) by {
                let v = truths(constants@, a);
                assert(holds(*pair@[0], a) == holds(s@[i - 1], a));
                assert(holds(*pair@[1], a) == v[i as int]);
                if some_true_upto(v, i as int) {
                    let u = choose|u: int| 0 <= u <= i && u < v.len() && #[trigger] v[u];
                    assert(u == i || some_true_upto(v, i - 1));
                }
                if some_holds(pair@, a) {
                    let w = choose|w: int| 0 <= w < pair@.len() && holds(*#[trigger] pair@[w], a);
                    assert(w == 0 || w == 1);
                }
            }
        }
        ands.push(ai);
        s.push(l);
    }
    let mut clauses: Vec<&Bool<'a>> = Vec::new();
    for t in 0..(n - 1)
        invariant
            n == constants@.len(),
            n >= 1,
            ands@.len() == n - 1,
            clauses@.len() == t,
            forall|u: int| 0 <= u < t ==> *#[trigger] clauses@[u] == ands@[u],
    {
        clauses.push(&ands[t]);
    }
    clauses.push(&s[n - 1]);
    let formula = bool_and(context, clauses.as_slice());
    proof {
        assert forall|a: Assignment| #[trigger] holds(formula, a) == exactly_one_true(
            truths(constants@, a),
        ) by {
            let v = truths(constants@, a);
            lemma_chained_exactly_one(v);
            assert(*clauses@[n - 1] == s@[n - 1]);
            if all_hold(clauses@, a) {
                assert forall|t: int| 1 <= t < v.len() implies !(#[trigger] some_true_upto(
                    v,
                    t - 1,
                ) && v[t]) by {
                    assert(holds(*clauses@[t - 1], a));
                }
            }
            if chained_exactly_one(v) {
                assert forall|u: int| 0 <= u < clauses@.len() implies holds(
                    *#[trigger] clauses@[u],
                    a,
                ) by {
                    if u < n - 1 {
                        assert(*clauses@[u] == ands@[u + 1 - 1]);
                    }
                }
            }
        }
    }
    formula
}

/// The conjunction of `clauses`.
fn all_of<'a>(context: &'a Context, clauses: &Vec<Bool<'a>>) -> (formula: Bool<'a>)
    requires
        1 <= clauses@.len() <= u32::MAX,
        forall|t: int| 0 <= t < clauses@.len() ==> formula_in(#[trigger] clauses@[t], *context),
    ensures
        formula_in(formula, *context),
        forall|a: Assignment| #[trigger] holds(formula, a) == each_holds(clauses@, a),
{
    let mut refs: Vec<&Bool<'a>> = Vec::new();
    for t in 0..clauses.len()
        invariant
            refs@.len() == t,
            forall|u: int| 0 <= u < t ==> *#[trigger] refs@[u] == clauses@[u],
    {
        refs.push(&clauses[t]);
    }
    let formula = bool_and(context, refs.as_slice());
    proof {
        assert forall|a: Assignment| #[trigger] holds(formula, a) == each_holds(clauses@, a) by {
            if all_hold(refs@, a) {
                assert forall|t: int| 0 <= t < clauses@.len() implies holds(
                    #[trigger] clauses@[t],
                    a,
                ) by {
                    assert(holds(*refs@[t], a));
                }
            }
        }
    }
    formula
}

/// A family of "exactly one" constraints. Each has nine times nine groups
/// of nine literals.
#[derive(Clone, Copy)]
enum Family {
    /// The group of a box and a digit: the cells of the box.
    Box,
    /// The group of a column and a digit: the cells of the column.
    Col,
    /// The group of a row and a digit: the cells of the row.
    Row,
    /// The group of a cell: the digits.
    Cell,
}

/// The place in the table of literals of member `m` of the group `(x, y)`
/// of a family.
spec fn member(family: Family, x: int, y: int, m: int) -> (int, int, int) {
    match family {
        Family::Box => (3 * (x / 3) + m / 3, 3 * (x % 3) + m % 3, y),
        Family::Col => (m, x, y),
        Family::Row => (x, m, y),
        Family::Cell => (x, y, m),
    }
}

/// For each member of the group `(x, y)` of a family, whether it is true
/// under `a`.
spec fn group_values(a: Assignment, family: Family, x: int, y: int) -> Seq<bool> {
    Seq::new(
        9,
        |m: int|
            cell_is(
                a,
                member(family, x, y, m).0,
                member(family, x, y, m).1,
                member(family, x, y, m).2 + 1,
            ),
    )
}

/// In each group of the family exactly one member is true under `a`.
spec fn each_group_one(a: Assignment, family: Family) -> bool {
    forall|x: int, y: int|
        0 <= x < 9 && 0 <= y < 9 ==> exactly_one_true(#[trigger] group_values(a, family, x, y))
}

/// The place in the table of literals of member `m` of the group `(x, y)`
/// of a family.
fn member_place(family: Family, x: usize, y: usize, m: usize) -> (place: (usize, usize, usize))
    requires
        x < 9,
        y < 9,
        m < 9,
    ensures
        (place.0 as int, place.1 as int, place.2 as int) == member(
            family,
            x as int,
            y as int,
            m as int,
        ),
        place.0 < 9,
        place.1 < 9,
        place.2 < 9,
{
    match family {
        Family::Box => (3 * (x / 3) + m / 3, 3 * (x % 3) + m % 3, y),
        Family::Col => (m, x, y),
        Family::Row => (x, m, y),
        Family::Cell => (x, y, m),
    }
}

/// The formula that states that exactly one member of each group of a
/// family is true: the conjunction, group by group, of the formulas that
/// `exactly_one` builds of the nine literals of a group.
fn exactly_one_per_group<'a>(
    context: &'a Context,
    constants: &[Vec<Vec<Bool<'a>>>],
    family: Family,
) -> (formula: Bool<'a>)
    requires
        is_literal_table(constants@, *context),
    ensures
        formula_in(formula, *context),
        forall|a: Assignment| #[trigger] holds(formula, a) == each_group_one(a, family),
{
    let mut clauses: Vec<Bool<'a>> = Vec::new();
    for x in 0..9usize
        invariant
            is_literal_table(constants@, *context),
            clauses@.len() == 9 * x,
            forall|t: int| 0 <= t < clauses@.len() ==> formula_in(#[trigger] clauses@[t], *context),
            forall|t: int, a: Assignment|
                0 <= t < clauses@.len() ==> #[trigger] holds(clauses@[t], a) == exactly_one_true(
                    group_values(a, family, t / 9, t % 9),
                ),
    {
        for y in 0..9usize
            invariant
                x < 9,
                is_literal_table(constants@, *context),
                clauses@.len() == 9 * x + y,
                forall|t: int|
                    0 <= t < clauses@.len() ==> formula_in(#[trigger] clauses@[t], *context),
                forall|t: int, a: Assignment|
                    0 <= t < clauses@.len() ==> #[trigger] holds(clauses@[t], a)
                        == exactly_one_true(group_values(a, family, t / 9, t % 9)),
        {
            let mut vars: Vec<&Bool<'a>> = Vec::new();
            for m in 0..9usize
                invariant
                    x < 9,
                    y < 9,
                    is_literal_table(constants@, *context),
                    vars@.len() == m,
                    forall|u: int|
                        0 <= u < m ==> *#[trigger] vars@[u] == literal(
                            constants@,
                            member(family, x as int, y as int, u).0,
                            member(family, x as int, y as int, u).1,
                            member(family, x as int, y as int, u).2,
                        ),
            {
                let (i, j, k) = member_place(family, x, y, m);
                vars.push(&constants[i][j][k]);
            }
            let clause = exactly_one(context, vars.as_slice());
            proof {
                assert forall|a: Assignment| #[trigger] holds(clause, a) == exactly_one_true(
                    group_values(a, family, x as int, y as int),
                ) by {
                    let values = group_values(a, family, x as int, y as int);
                    assert(truths(vars@, a) =~= values);
                }
            }
            clauses.push(clause);
        }
    }
    let formula = all_of(context, &clauses);
    proof {
        assert forall|a: Assignment| #[trigger] holds(formula, a) == each_group_one(a, family) by {
            if each_holds(clauses@, a) {
                assert forall|x: int, y: int| 0 <= x < 9 && 0 <= y < 9 implies exactly_one_true(
                    #[trigger] group_values(a, family, x, y),
                ) by {
                    assert(holds(clauses@[9 * x + y], a));
                }
            }
        }
    }
    formula
}

/// The formula that states that every cell holds exactly one digit.
pub fn exactly_one_per_cell<'a>(
    context: &'a Context,
    constants: &[Vec<Vec<Bool<'a>>>],
) -> (formula: Bool<'a>)
    requires
        is_literal_table(constants@, *context),
    ensures
        formula_in(formula, *context),
        forall|a: Assignment| #[trigger] holds(formula, a) == each_cell_one_digit(a),
{
    let formula = exactly_one_per_group(context, constants, Family::Cell);
    proof {
        assert forall|a: Assignment| each_group_one(a, Family::Cell) == each_cell_one_digit(a) by {
            assert forall|i: int, j: int| in_grid(i, j) implies #[trigger] group_values(
                a,
                Family::Cell,
                i,
                j,
            ) =~= cell_values(a, i, j) by {}
            if each_group_one(a, Family::Cell) {
                assert forall|i: int, j: int| in_grid(i, j) implies exactly_one_true(
                    #[trigger] cell_values(a, i, j),
                ) by {
                    assert(exactly_one_true(group_values(a, Family::Cell, i, j)));
                }
            }
        }
    }
    formula
}

/// The formula that states that every box holds every digit exactly once.
pub fn exactly_one_per_box<'a>(
    context: &'a Context,
    constants: &[Vec<Vec<Bool<'a>>>],
) -> (formula: Bool<'a>)
    requires
        is_literal_table(constants@, *context),
    ensures
        formula_in(formula, *context),
        forall|a: Assignment| #[trigger] holds(formula, a) == each_box_digit_once(a),
{
    let formula = exactly_one_per_group(context, constants, Family::Box);
    proof {
        assert forall|a: Assignment| each_group_one(a, Family::Box) == each_box_digit_once(a) by {
            assert forall|b: int, k: int| 0 <= b < 9 && 0 <= k < 9 implies #[trigger] group_values(
                a,
                Family::Box,
                b,
                k,
            ) =~= box_values(a, b, k + 1) by {}
            if each_group_one(a, Family::Box) {
                assert forall|b: int, d: int| 0 <= b < 9 && 1 <= d <= 9 implies exactly_one_true(
                    #[trigger] box_values(a, b, d),
                ) by {
                    assert(exactly_one_true(group_values(a, Family::Box, b, d - 1)));
                }
            }
        }
    }
    formula
}

/// The formula that states that every column holds every digit exactly
/// once.
pub fn exactly_one_per_col<'a>(
    context: &'a Context,
    constants: &[Vec<Vec<Bool<'a>>>],
) -> (formula: Bool<'a>)
    requires
        is_literal_table(constants@, *context),
    ensures
        formula_in(formula, *context),
        forall|a: Assignment| #[trigger] holds(formula, a) == each_col_digit_once(a),
{
    let formula = exactly_one_per_group(context, constants, Family::Col);
    proof {
        assert forall|a: Assignment| each_group_one(a, Family::Col) == each_col_digit_once(a) by {
            assert forall|j: int, k: int| 0 <= j < 9 && 0 <= k < 9 implies #[trigger] group_values(
                a,
                Family::Col,
                j,
                k,
            ) =~= col_values(a, j, k + 1) by {}
            if each_group_one(a, Family::Col) {
                assert forall|j: int, d: int| 0 <= j < 9 && 1 <= d <= 9 implies exactly_one_true(
                    #[trigger] col_values(a, j, d),
                ) by {
                    assert(exactly_one_true(group_values(a, Family::Col, j, d - 1)));
                }
            }
        }
    }
    formula
}

/// The formula that states that every row holds every digit exactly once.
pub fn exactly_one_per_row<'a>(
    context: &'a Context,
    constants: &[Vec<Vec<Bool<'a>>>],
) -> (formula: Bool<'a>)
    requires
        is_literal_table(constants@, *context),
    ensures
        formula_in(formula, *context),
        forall|a: Assignment| #[trigger] holds(formula, a) == each_row_digit_once(a),
{
    let formula = exactly_one_per_group(context, constants, Family::Row);
    proof {
        assert forall|a: Assignment| each_group_one(a, Family::Row) == each_row_digit_once(a) by {
            assert forall|i: int, k: int| 0 <= i < 9 && 0 <= k < 9 implies #[trigger] group_values(
                a,
                Family::Row,
                i,
                k,
            ) =~= row_values(a, i, k + 1) by {}
            if each_group_one(a, Family::Row) {
                assert forall|i: int, d: int| 0 <= i < 9 && 1 <= d <= 9 implies exactly_one_true(
                    #[trigger] row_values(a, i, d),
                ) by {
                    assert(exactly_one_true(group_values(a, Family::Row, i, d - 1)));
                }
            }
        }
    }
    formula
}

/// The formula that states the clues of the puzzle: each cell that is not
/// empty holds its digit.
pub fn add_external_constraints<'a>(
    context: &'a Context,
    constants: &[Vec<Vec<Bool<'a>>>],
    sudoku_problem: &[[i32; 9]; 9],
) -> (formula: Bool<'a>)
    requires
        is_literal_table(constants@, *context),
        digits_in_range(array_grid(*sudoku_problem)),
    ensures
        formula_in(formula, *context),
        forall|a: Assignment|
            #[trigger] holds(formula, a) == clues_hold(array_grid(*sudoku_problem), a),
{
    let ghost p = array_grid(*sudoku_problem);
    let mut clauses: Vec<&Bool<'a>> = Vec::new();
    for i in 0..9usize
        invariant
            p == array_grid(*sudoku_problem),
            digits_in_range(p),
            is_literal_table(constants@, *context),
            all_in(clauses@, *context),
            clauses@.len() <= 9 * i,
            forall|a: Assignment|
                #[trigger] all_hold(clauses@, a) == clues_hold_before(p, a, i as int, 0),
    {
        for j in 0..9usize
            invariant
                i < 9,
                p == array_grid(*sudoku_problem),
                digits_in_range(p),
                is_literal_table(constants@, *context),
                all_in(clauses@, *context),
                clauses@.len() <= 9 * i + j,
                forall|a: Assignment|
                    #[trigger] all_hold(clauses@, a) == clues_hold_before(
                        p,
                        a,
                        i as int,
                        j as int,
                    ),
        {
            let k = sudoku_problem[i][j];
            assert(k == p[i as int][j as int]);
            let ghost earlier = clauses@;
            if k != 0 {
                let clue = &constants[i][j][k as usize - 1];
                clauses.push(clue);
                proof {
                    assert(*clue == literal(constants@, i as int, j as int, k - 1));
                }
            }
            proof {
                assert forall|a: Assignment| #[trigger] all_hold(clauses@, a) == clues_hold_before(
                    p,
                    a,
                    i as int,
                    j + 1,
                ) by {
                    let here = k != 0 ==> cell_is(a, i as int, j as int, k as int);
                    assert(all_hold(clauses@, a) == (all_hold(earlier, a) && here)) by {
                        if k != 0 {
                            assert(holds(*clauses@[earlier.len() as int], a) == cell_is(
                                a,
                                i as int,
                                j as int,
                                k as int,
                            ));
                            if all_hold(clauses@, a) {
                                assert forall|t: int| 0 <= t < earlier.len() implies holds(
                                    *#[trigger] earlier[t],
                                    a,
                                ) by {
                                    assert(clauses@[t] == earlier[t]);
                                }
                            }
                        }
                    }
                }
            }
        }
    }
    proof {
        assert forall|a: Assignment| #[trigger] all_hold(clauses@, a) == clues_hold(p, a) by {
            if clues_hold_before(p, a, 9, 0) {
                assert forall|r: int, c: int| in_grid(r, c) && p[r][c] != 0 implies cell_is(
                    a,
                    r,
                    c,
                    #[trigger] p[r][c] as int,
                ) by {
                    assert(before(r, c, 9, 0));
                }
            }
        }
    }
    if clauses.len() == 0 {
        let formula = bool_literal(context, true);
        assert forall|a: Assignment| #[trigger] holds(formula, a) == clues_hold(p, a) by {
            assert(all_hold(clauses@, a));
        }
        formula
    } else {
        bool_and(context, clauses.as_slice())
    }
}

/// Asserts the encoding of the puzzle into the solver: the four families of
/// "exactly one" constraints and the clues, as one conjunction.
pub fn add_sudoku_constraints<'a>(
    context: &'a Context,
    solver: &mut Solver<'a>,
    constants: &[Vec<Vec<Bool<'a>>>],
    sudoku_problem: &[[i32; 9]; 9],
)
    requires
        is_literal_table(constants@, *context),
        solver_in(*old(solver), *context),
        digits_in_range(array_grid(*sudoku_problem)),
    ensures
        solver_in(*final(solver), *context),
        forall|a: Assignment|
            #[trigger] asserted(*final(solver), a) == (asserted(*old(solver), a) && satisfies(
                array_grid(*sudoku_problem),
                a,
            )),
{
    let mut constraints: Vec<Bool<'a>> = Vec::new();
    constraints.push(exactly_one_per_box(context, constants));
    constraints.push(exactly_one_per_col(context, constants));
    constraints.push(exactly_one_per_row(context, constants));
    constraints.push(exactly_one_per_cell(context, constants));
    constraints.push(add_external_constraints(context, constants, sudoku_problem));
    let all_clauses = all_of(context, &constraints);
    proof {
        assert forall|a: Assignment| #[trigger] holds(all_clauses, a) == satisfies(
            array_grid(*sudoku_problem),
            a,
        ) by {
            if each_holds(constraints@, a) {
                assert(holds(constraints@[0], a));
                assert(holds(constraints@[1], a));
                assert(holds(constraints@[2], a));
                assert(holds(constraints@[3], a));
                assert(holds(constraints@[4], a));
            }
        }
    }
    solver_assert(solver, &all_clauses);
}

/// The grid that a table of truth values stands for: each cell takes the
/// greatest digit whose truth value is true, and stays empty when none is.
pub fn grid_of_truths(truths: &[Vec<Vec<bool>>]) -> (solution: Vec<Vec<i32>>)
    requires
        is_truth_table(truths@),
    ensures
        rows_grid(solution@) == table_grid(truths@),
{
    let mut solution: Vec<Vec<i32>> = Vec::new();
    for i in 0..9usize
        invariant
            is_truth_table(truths@),
            solution@.len() == i,
            forall|r: int| 0 <= r < i ==> (#[trigger] solution@[r])@.len() == 9,
            forall|r: int, c: int|
                0 <= r < i && 0 <= c < 9 ==> #[trigger] solution@[r]@[c] == greatest_true(
                    truths@[r]@[c]@,
                    9,
                ),
    {
        let mut row: Vec<i32> = Vec::new();
        for j in 0..9usize
            invariant
                i < 9,
                is_truth_table(truths@),
                row@.len() == j,
                forall|c: int|
                    0 <= c < j ==> #[trigger] row@[c] == greatest_true(
                        truths@[i as int]@[c]@,
                        9,
                    ),
        {
            assert(in_grid(i as int, j as int));
            let mut digit: i32 = 0;
            for k in 1..10usize
                invariant
                    i < 9,
                    j < 9,
                    is_truth_table(truths@),
                    digit == greatest_true(truths@[i as int]@[j as int]@, k - 1),
            {
                if truths[i][j][k - 1] {
                    digit = k as i32;
                }
            }
            row.push(digit);
        }
        solution.push(row);
    }
    proof {
        assert forall|i: int| 0 <= i < 9 implies #[trigger] rows_grid(solution@)[i] =~= table_grid(
            truths@,
        )[i] by {
            assert(rows_grid(solution@)[i] == solution@[i]@);
        }
        assert(rows_grid(solution@) =~= table_grid(truths@));
    }
    solution
}

/// The grid that an answer of the engine stands for. After a check that
/// found the assertions satisfiable, with the truth values of the literals
/// read out of its model, it is the grid of those truth values. After
/// another verdict, and where no truth values could be read, it is the grid
/// of zeros.
pub fn grid_of_answer(verdict: Verdict, truths: Option<Vec<Vec<Vec<bool>>>>) -> (solution: Vec<
    Vec<i32>,
>)
    requires
        truths matches Some(t) ==> is_truth_table(t@),
    ensures
        (verdict != Verdict::Sat || truths is None) ==> rows_grid(solution@) == zero_grid(),
        verdict == Verdict::Sat ==> (truths matches Some(t) ==> rows_grid(solution@) == table_grid(
            t@,
        )),
{
    match verdict {
        Verdict::Sat => match truths {
            Some(t) => grid_of_truths(t.as_slice()),
            None => zero_rows(),
        },
        Verdict::Unsat => zero_rows(),
        Verdict::Unknown => zero_rows(),
    }
}

/// Evaluates every literal of the table in the model. Returns the table of
/// their truth values, and `None` where the engine fails to evaluate one of
/// them.
fn read_truths<'a>(model: &Model<'a>, constants: &[Vec<Vec<Bool<'a>>>]) -> (truths: Option<
    Vec<Vec<Vec<bool>>>,
>)
    requires
        exists|ctx: Context|
            #[trigger] is_literal_table(constants@, ctx) && model_in(*model, ctx),
    ensures
        truths matches Some(t) ==> is_truth_table_of(t@, model_assignment(*model)),
{
    let ghost ctx = choose|ctx: Context|
        #[trigger] is_literal_table(constants@, ctx) && model_in(*model, ctx);
    let ghost a = model_assignment(*model);
    let mut truths: Vec<Vec<Vec<bool>>> = Vec::new();
    for i in 0..9usize
        invariant
            a == model_assignment(*model),
            is_literal_table(constants@, ctx),
            model_in(*model, ctx),
            truths@.len() == i,
            forall|r: int| 0 <= r < i ==> (#[trigger] truths@[r])@.len() == 9,
            forall|r: int, c: int|
                0 <= r < i && 0 <= c < 9 ==> (#[trigger] truths@[r]@[c])@.len() == 9,
            forall|r: int, c: int, k: int|
                0 <= r < i && 0 <= c < 9 && 0 <= k < 9 ==> #[trigger] truths@[r]@[c]@[k]
                    == cell_is(a, r, c, k + 1),
    {
        let mut row: Vec<Vec<bool>> = Vec::new();
        for j in 0..9usize
            invariant
                i < 9,
                a == model_assignment(*model),
                is_literal_table(constants@, ctx),
                model_in(*model, ctx),
                row@.len() == j,
                forall|c: int| 0 <= c < j ==> (#[trigger] row@[c])@.len() == 9,
                forall|c: int, k: int|
                    0 <= c < j && 0 <= k < 9 ==> #[trigger] row@[c]@[k] == cell_is(
                        a,
                        i as int,
                        c,
                        k + 1,
                    ),
        {
            let mut cell: Vec<bool> = Vec::new();
            for k in 0..9usize
                invariant
                    i < 9,
                    j < 9,
                    a == model_assignment(*model),
                    is_literal_table(constants@, ctx),
                    model_in(*model, ctx),
                    cell@.len() == k,
                    forall|t: int|
                        0 <= t < k ==> #[trigger] cell@[t] == cell_is(
                            a,
                            i as int,
                            j as int,
                            t + 1,
                        ),
            {
                assert(in_grid(i as int, j as int));
                let constant = &constants[i][j][k];
                assert(*constant == literal(constants@, i as int, j as int, k as int));
                match model_eval(model, constant) {
                    Some(value) => {
                        match bool_value(&value) {
                            Some(truth) => {
                                assert(holds(value, a) == holds(*constant, a));
                                cell.push(truth);
                            },
                            None => {
                                return None;
                            },
                        }
                    },
                    None => {
                        return None;
                    },
                }
            }
            row.push(cell);
        }
        truths.push(row);
    }
    Some(truths)
}

/// Asks the solver whether its assertions can be satisfied, reads the truth
/// values of the literals out of the model that it finds, and returns the
/// grid of the answer.
///
/// The grid of zeros comes back where the solver finds the assertions
/// unsatisfiable, gives up, hands out no model, or fails to evaluate a
/// literal.
pub fn get_solution<'a>(solver: &mut Solver<'a>, constants: &[Vec<Vec<Bool<'a>>>]) -> (solution:
    Vec<Vec<i32>>)
    requires
        exists|ctx: Context|
            #[trigger] is_literal_table(constants@, ctx) && solver_in(*old(solver), ctx),
    ensures
        is_grid(rows_grid(solution@)),
        forall|a: Assignment| #[trigger] asserted(*final(solver), a) == asserted(*old(solver), a),
        !found_sat(*final(solver)) ==> rows_grid(solution@) == zero_grid(),
        rows_grid(solution@) == zero_grid() || exists|a: Assignment|
            #[trigger] asserted(*old(solver), a) && rows_grid(solution@) == decoded(a),
{
    let ghost ctx = choose|ctx: Context|
        #[trigger] is_literal_table(constants@, ctx) && solver_in(*old(solver), ctx);
    let verdict = solver_check(solver);
    let ghost mut found: Assignment = Set::empty();
    let truths = match verdict {
        Verdict::Sat => match solver_model(solver) {
            Some(model) => {
                assert(is_literal_table(constants@, ctx) && model_in(model, ctx));
                proof {
                    found = model_assignment(model);
                }
                read_truths(&model, constants)
            },
            None => None,
        },
        Verdict::Unsat => None,
        Verdict::Unknown => None,
    };
    let ghost table = truths;
    let solution = grid_of_answer(verdict, truths);
    proof {
        if let Some(t) = table {
            assert(asserted(*old(solver), found));
            lemma_grid_of_truth_table(t@, found);
        }
    }
    solution
}

/// Solves a puzzle by handing its boolean encoding to the satisfiability
/// engine.
///
/// Returns a completion of the puzzle, which is a solved grid, or the grid
/// of zeros. The grid of zeros comes back where the puzzle has no
/// completion, and where the engine gives up.
pub fn solve_sudoku(sudoku_problem: &[[i32; 9]; 9]) -> (solution: Vec<Vec<i32>>)
    requires
        digits_in_range(array_grid(*sudoku_problem)),
    ensures
        is_grid(rows_grid(solution@)),
        encoding_outcome(array_grid(*sudoku_problem), rows_grid(solution@)),
        rows_grid(solution@) != zero_grid() ==> is_solved(rows_grid(solution@)) && keeps_clues(
            array_grid(*sudoku_problem),
            rows_grid(solution@),
        ),
{
    let ghost p = array_grid(*sudoku_problem);
    let config = new_config();
    let context = new_context(&config);
    let mut solver = new_solver(&context);
    let constants = add_constants(&context);
    add_sudoku_constraints(&context, &mut solver, &constants, sudoku_problem);
    let ghost encoded = solver;
    let solution = get_solution(&mut solver, &constants);
    proof {
        if rows_grid(solution@) != zero_grid() {
            let a = choose|a: Assignment|
                #[trigger] asserted(encoded, a) && rows_grid(solution@) == decoded(a);
            lemma_satisfying_is_completion(p, a);
        }
    }
    solution
}

} // verus!
