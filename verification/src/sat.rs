//! The boolean-satisfiability engine behind the encoding solver: the types
//! of the `z3` crate that the library handles, what its contracts say of
//! their values, and one function of the library for each call into `z3`.
//!
//! Nothing in this file is proved. Each contract states what the `z3` crate
//! documents of the call it makes.

use vstd::prelude::*;
use z3::ast::Bool;
use z3::{Config, Context, Model, SatResult, Solver};

verus! {

/// `z3::Config`: the settings that a context is made with.
#[verifier::external_type_specification]
#[verifier::external_body]
pub struct ExConfig(Config);

/// `z3::Context`: the owner of the formulas, solvers and models made in it.
#[verifier::external_type_specification]
#[verifier::external_body]
pub struct ExContext(Context);

/// `z3::ast::Bool`: a boolean formula.
#[verifier::external_type_specification]
#[verifier::external_body]
pub struct ExBool<'ctx>(Bool<'ctx>);

/// `z3::Solver`: a set of asserted formulas and the means to check it.
#[verifier::external_type_specification]
#[verifier::external_body]
pub struct ExSolver<'ctx>(Solver<'ctx>);

/// `z3::Model`: what a solver found to satisfy its assertions.
#[verifier::external_type_specification]
#[verifier::external_body]
pub struct ExModel<'ctx>(Model<'ctx>);

/// A truth assignment, given as the set of the names of the boolean
/// constants that are true. Every other constant is false.
pub type Assignment = Set<Seq<char>>;

/// The formula `b` is true under the assignment `a`.
pub uninterp spec fn holds(b: Bool, a: Set<Seq<char>>) -> bool;

/// The formula `b` was built in the context `ctx`.
pub uninterp spec fn formula_in(b: Bool, ctx: Context) -> bool;

/// Every formula that was asserted into the solver `s` is true under the
/// assignment `a`.
pub uninterp spec fn asserted(s: Solver, a: Set<Seq<char>>) -> bool;

/// The solver `s` was made in the context `ctx`.
pub uninterp spec fn solver_in(s: Solver, ctx: Context) -> bool;

/// The latest operation on the solver `s` was a check that found its
/// assertions satisfiable. Once a formula is asserted after such a check,
/// nothing is said of this any more.
pub uninterp spec fn found_sat(s: Solver) -> bool;

/// The assignment that the model `m` gives: the names of the boolean
/// constants that evaluate to true in it.
pub uninterp spec fn model_assignment(m: Model) -> Set<Seq<char>>;

/// The model `m` was made in the context `ctx`.
pub uninterp spec fn model_in(m: Model, ctx: Context) -> bool;

/// Each of `values` is true under `a`.
pub open spec fn all_hold(values: Seq<&Bool>, a: Set<Seq<char>>) -> bool {
    forall|i: int| 0 <= i < values.len() ==> holds(*#[trigger] values[i], a)
}

/// One of `values` is true under `a`.
pub open spec fn some_holds(values: Seq<&Bool>, a: Set<Seq<char>>) -> bool {
    exists|i: int| 0 <= i < values.len() && holds(*#[trigger] values[i], a)
}

/// Each of `values` was built in the context `ctx`.
pub open spec fn all_in(values: Seq<&Bool>, ctx: Context) -> bool {
    forall|i: int| 0 <= i < values.len() ==> formula_in(*#[trigger] values[i], ctx)
}

/// What a satisfiability check found.
#[derive(Clone, Copy, Debug, PartialEq, Eq)]
pub enum Verdict {
    /// Some assignment makes every assertion true.
    Sat,
    /// No assignment makes every assertion true.
    Unsat,
    /// The engine gave up: it was interrupted, ran out of time or failed.
    Unknown,
}

/// `z3::Config::new`: a configuration with the engine's defaults.
#[verifier::external_body]
pub(crate) fn new_config() -> Config {
    Config::new()
}

/// `z3::Context::new`: a fresh context for formulas and solvers.
#[verifier::external_body]
pub(crate) fn new_context(config: &Config) -> Context {
    Context::new(config)
}

/// `z3::ast::Bool::new_const`: the boolean constant called `name`. It is
/// true under exactly the assignments that hold its name. `z3` turns the
/// name into a C string, which fails on a NUL character.
#[verifier::external_body]
pub(crate) fn bool_const<'ctx>(ctx: &'ctx Context, name: &str) -> (b: Bool<'ctx>)
    requires
        !name@.contains('\0'),
    ensures
        formula_in(b, *ctx),
        forall|a: Set<Seq<char>>| #[trigger] holds(b, a) == a.contains(name@),
{
    Bool::new_const(ctx, name)
}

/// `z3::ast::Bool::not`: the negation of `b`, in the context of `b`.
#[verifier::external_body]
pub(crate) fn bool_not<'ctx>(b: &Bool<'ctx>) -> (r: Bool<'ctx>)
    ensures
        forall|ctx: Context| formula_in(*b, ctx) ==> #[trigger] formula_in(r, ctx),
        forall|a: Set<Seq<char>>| #[trigger] holds(r, a) == !holds(*b, a),
{
    b.not()
}

/// `z3::ast::Bool::from_bool`: one of the two literals, which is true under
/// every assignment or under none, as `value` says.
#[verifier::external_body]
pub(crate) fn bool_literal<'ctx>(ctx: &'ctx Context, value: bool) -> (b: Bool<'ctx>)
    ensures
        formula_in(b, *ctx),
        forall|a: Set<Seq<char>>| #[trigger] holds(b, a) == value,
{
    Bool::from_bool(ctx, value)
}

/// `z3::ast::Bool::and`: the conjunction of `values`, true when each of
/// them is. `z3` panics on a value of another context, and on more values
/// than a `u32` counts; the engine asks for one value at least.
#[verifier::external_body]
pub(crate) fn bool_and<'ctx>(ctx: &'ctx Context, values: &[&Bool<'ctx>]) -> (r: Bool<'ctx>)
    requires
        1 <= values@.len() <= u32::MAX,
        all_in(values@, *ctx),
    ensures
        formula_in(r, *ctx),
        forall|a: Set<Seq<char>>| #[trigger] holds(r, a) == all_hold(values@, a),
{
    Bool::and(ctx, values)
}

/// `z3::ast::Bool::or`: the disjunction of `values`, true when one of them
/// is. `z3` panics on a value of another context, and on more values than a
/// `u32` counts; the engine asks for one value at least.
#[verifier::external_body]
pub(crate) fn bool_or<'ctx>(ctx: &'ctx Context, values: &[&Bool<'ctx>]) -> (r: Bool<'ctx>)
    requires
        1 <= values@.len() <= u32::MAX,
        all_in(values@, *ctx),
    ensures
        formula_in(r, *ctx),
        forall|a: Set<Seq<char>>| #[trigger] holds(r, a) == some_holds(values@, a),
{
    Bool::or(ctx, values)
}

/// `z3::ast::Bool::as_bool`: the truth value of `b` where `b` is one of the
/// two literals, which are true or false under every assignment.
#[verifier::external_body]
pub(crate) fn bool_value(b: &Bool) -> (v: Option<bool>)
    ensures
        v matches Some(t) ==> forall|a: Set<Seq<char>>| #[trigger] holds(*b, a) == t,
{
    b.as_bool()
}

/// `z3::Solver::new`: a solver of the context `ctx` with no assertions.
#[verifier::external_body]
pub(crate) fn new_solver<'ctx>(ctx: &'ctx Context) -> (s: Solver<'ctx>)
    ensures
        solver_in(s, *ctx),
        forall|a: Set<Seq<char>>| #[trigger] asserted(s, a),
{
    Solver::new(ctx)
}

/// `z3::Solver::assert`: adds `b` to the assertions of the solver. Both
/// belong to one context.
#[verifier::external_body]
pub(crate) fn solver_assert<'ctx>(solver: &mut Solver<'ctx>, b: &Bool<'ctx>)
    requires
        exists|ctx: Context| #[trigger] solver_in(*old(solver), ctx) && formula_in(*b, ctx),
    ensures
        forall|ctx: Context|
            #[trigger] solver_in(*final(solver), ctx) == solver_in(*old(solver), ctx),
        forall|a: Set<Seq<char>>|
            #[trigger] asserted(*final(solver), a) == (asserted(*old(solver), a) && holds(*b, a)),
{
    solver.assert(b)
}

/// `z3::Solver::check`: whether the assertions of the solver can all be
/// true at once. The assertions stay as they are.
#[verifier::external_body]
pub(crate) fn solver_check(solver: &mut Solver) -> (verdict: Verdict)
    ensures
        forall|ctx: Context|
            #[trigger] solver_in(*final(solver), ctx) == solver_in(*old(solver), ctx),
        forall|a: Set<Seq<char>>|
            #[trigger] asserted(*final(solver), a) == asserted(*old(solver), a),
        found_sat(*final(solver)) == (verdict == Verdict::Sat),
        verdict == Verdict::Sat ==> exists|a: Set<Seq<char>>|
            #[trigger] asserted(*final(solver), a),
        verdict == Verdict::Unsat ==> forall|a: Set<Seq<char>>|
            !#[trigger] asserted(*final(solver), a),
{
    match solver.check() {
        SatResult::Sat => Verdict::Sat,
        SatResult::Unsat => Verdict::Unsat,
        SatResult::Unknown => Verdict::Unknown,
    }
}

/// `z3::Solver::get_model`: the model of the last check, if the engine has
/// one. After a check that found the assertions satisfiable, the model makes
/// each of them true; after another, `z3` promises nothing of it.
#[verifier::external_body]
pub(crate) fn solver_model<'ctx>(solver: &Solver<'ctx>) -> (model: Option<Model<'ctx>>)
    ensures
        model matches Some(m) ==> {
            &&& forall|ctx: Context| solver_in(*solver, ctx) ==> #[trigger] model_in(m, ctx)
            &&& found_sat(*solver) ==> asserted(*solver, model_assignment(m))
        },
{
    solver.get_model()
}

/// `z3::Model::eval`: the value of `b` in the model, with every constant
/// that the model leaves open given a value. The result is a formula that is
/// true under every assignment, or under none, as `b` is under the model's.
/// Both arguments belong to one context.
#[verifier::external_body]
pub(crate) fn model_eval<'ctx>(model: &Model<'ctx>, b: &Bool<'ctx>) -> (value: Option<Bool<'ctx>>)
    requires
        exists|ctx: Context| #[trigger] model_in(*model, ctx) && formula_in(*b, ctx),
    ensures
        value matches Some(v) ==> {
            &&& forall|ctx: Context| formula_in(*b, ctx) ==> #[trigger] formula_in(v, ctx)
            &&& forall|a: Set<Seq<char>>|
                #[trigger] holds(v, a) == holds(*b, model_assignment(*model))
        },
{
    model.eval(b)
}

} // verus!
