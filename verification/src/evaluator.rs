//! The evaluator: executes a block of statements against a mutable
//! name-to-integer environment, collecting printed values.
//!
//! Arithmetic is 32-bit and wraps around on overflow; division and modulo
//! truncate toward zero, a divisor of zero is a reported evaluation error,
//! and the one wrapping quotient (the smallest integer divided by minus
//! one) wraps like the other operators. An evaluation failure aborts the
//! remaining execution of the whole program.
//!
//! A `while` loop may run forever in the source language, so execution
//! takes a fuel bound: each loop iteration spends one unit, and a run that
//! starves is reported as such rather than looping.
use vstd::prelude::*;

use crate::grammar::{
    view_add_terms, view_block, view_mult_terms, view_statements, AddOp, AddTerm, Block,
    Comparator, Expr, MultOp, MultTerm, SpecExpr, SpecStatement, Statement,
};
use crate::lexer::{spec_lex, Lexer};
use crate::parser::{spec_parse_block, ProgramParser};

verus! {

/// How evaluation can fail.
#[derive(Debug, Clone, PartialEq, Eq)]
pub enum EvalError {
    /// A variable was read that was never assigned.
    UndefinedVariable(String),
    /// A division or modulo met a divisor of zero.
    DivisionByZero,
}

/// The mathematical value of an evaluation failure.
pub enum SpecEvalError {
    UndefinedVariable(Seq<char>),
    DivisionByZero,
}

impl DeepView for EvalError {
    type V = SpecEvalError;

    open spec fn deep_view(&self) -> SpecEvalError {
        match self {
            EvalError::UndefinedVariable(name) => SpecEvalError::UndefinedVariable(name@),
            EvalError::DivisionByZero => SpecEvalError::DivisionByZero,
        }
    }
}

/// The environment: a mapping from variable names to 32-bit integers.
/// Entries may repeat; a later entry shadows the earlier ones, so the
/// mathematical view is a map in which the last binding wins.
pub struct Environment {
    entries: Vec<(String, i32)>,
}

/// The map denoted by a sequence of bindings: later bindings override
/// earlier ones.
pub open spec fn env_map(s: Seq<(String, i32)>) -> Map<Seq<char>, i32>
    decreases s.len(),
{
    if s.len() == 0 {
        Map::empty()
    } else {
        env_map(s.drop_last()).insert(s.last().0@, s.last().1)
    }
}

/// The value of the last binding of `k`, if any.
pub open spec fn find_key(s: Seq<(String, i32)>, k: Seq<char>) -> Option<i32>
    decreases s.len(),
{
    if s.len() == 0 {
        None
    } else if s.last().0@ == k {
        Some(s.last().1)
    } else {
        find_key(s.drop_last(), k)
    }
}

/// Looking a key up in the denoted map is finding its last binding.
pub proof fn lemma_env_map_find(s: Seq<(String, i32)>, k: Seq<char>)
    ensures
        env_map(s).contains_key(k) <==> find_key(s, k) is Some,
        env_map(s).contains_key(k) ==> Some(env_map(s)[k]) == find_key(s, k),
    decreases s.len(),
{
    if s.len() > 0 {
        lemma_env_map_find(s.drop_last(), k);
    }
}

impl Environment {
    pub closed spec fn as_map(&self) -> Map<Seq<char>, i32> {
        env_map(self.entries@)
    }

    /// A fresh, empty environment.
    pub fn new() -> (r: Environment)
        ensures
            r.as_map() == Map::<Seq<char>, i32>::empty(),
    {
        Environment { entries: Vec::new() }
    }

    /// The current value of `name`, if it was ever assigned.
    pub fn get(&self, name: &String) -> (r: Option<i32>)
        ensures
            match r {
                Some(v) => self.as_map().contains_key(name@) && self.as_map()[name@] == v,
                None => !self.as_map().contains_key(name@),
            },
    {
        proof {
            lemma_env_map_find(self.entries@, name@);
            assert(self.entries@.subrange(0, self.entries@.len() as int) =~= self.entries@);
        }
        let mut j: usize = self.entries.len();
        while j > 0
            invariant
                j <= self.entries@.len(),
                find_key(self.entries@, name@) == find_key(
                    self.entries@.subrange(0, j as int),
                    name@,
                ),
            decreases j,
        {
            j = j - 1;
            proof {
                assert(self.entries@.subrange(0, j + 1).last() == self.entries@[j as int]);
                assert(self.entries@.subrange(0, j + 1).drop_last() =~= self.entries@.subrange(
                    0,
                    j as int,
                ));
            }
            if self.entries[j].0 == *name {
                proof {
                    lemma_env_map_find(self.entries@, name@);
                    assert(self.entries@[j as int].0@ == name@);
                    assert(find_key(self.entries@.subrange(0, j + 1), name@) == Some(
                        self.entries@[j as int].1,
                    ));
                }
                return Some(self.entries[j].1);
            }
        }
        proof {
            lemma_env_map_find(self.entries@, name@);
            assert(self.entries@.subrange(0, 0) =~= Seq::<(String, i32)>::empty());
        }
        None
    }

    /// Binds `name` to `val`, shadowing any earlier binding.
    pub fn insert(&mut self, name: String, val: i32)
        ensures
            final(self).as_map() == old(self).as_map().insert(name@, val),
    {
        let ghost oldseq = self.entries@;
        let ghost namev = name@;
        self.entries.push((name, val));
        proof {
            assert(self.entries@.drop_last() =~= oldseq);
            assert(self.entries@.last().0@ == namev);
        }
    }
}

/// Truncated division on mathematical integers: the quotient of the
/// magnitudes, negated when exactly one operand is negative.
pub open spec fn tdiv(a: int, b: int) -> int {
    let q = abs_int(a) / abs_int(b);
    if (a < 0) != (b < 0) {
        -q
    } else {
        q
    }
}

/// Truncated remainder: the remainder of the magnitudes with the sign of
/// the dividend, so that the result always fits beside `tdiv`.
pub open spec fn trem(a: int, b: int) -> int {
    let r = abs_int(a) % abs_int(b);
    if a < 0 {
        -r
    } else {
        r
    }
}

pub open spec fn abs_int(a: int) -> int {
    if a < 0 {
        -a
    } else {
        a
    }
}

/// 32-bit division with the single wrapping case folded in: the smallest
/// integer divided by minus one gives itself back.
pub open spec fn div_wrap_i32(a: i32, b: i32) -> i32 {
    if a == i32::MIN && b == -1 {
        i32::MIN
    } else {
        tdiv(a as int, b as int) as i32
    }
}

/// 32-bit truncated remainder; it always fits.
pub open spec fn rem_i32(a: i32, b: i32) -> i32 {
    trem(a as int, b as int) as i32
}

/// The value of an expression under an environment, or the first
/// evaluation failure. Addition, subtraction and multiplication wrap on
/// 32-bit overflow; a divisor of zero is an error.
pub open spec fn spec_eval(e: SpecExpr, env: Map<Seq<char>, i32>) -> Result<i32, SpecEvalError>
    decreases e, 0int,
{
    match e {
        SpecExpr::Variable(name) => if env.contains_key(name) {
            Ok(env[name])
        } else {
            Err(SpecEvalError::UndefinedVariable(name))
        },
        SpecExpr::Num(n) => Ok(n),
        SpecExpr::AddSub(terms) => spec_eval_add(terms, env, 0),
        SpecExpr::MultDiv(terms) => spec_eval_mult(terms, env, 1),
    }
}

/// Folds an additive chain left to right, seeding the accumulator with 0;
/// the first element's identity operator `Add` makes the seed transparent.
pub open spec fn spec_eval_add(
    terms: Seq<(AddOp, SpecExpr)>,
    env: Map<Seq<char>, i32>,
    acc: i32,
) -> Result<i32, SpecEvalError>
    decreases terms, terms.len(),
{
    if terms.len() == 0 {
        Ok(acc)
    } else {
        match spec_eval(terms[0].1, env) {
            Err(e) => Err(e),
            Ok(v) => {
                let acc2 = match terms[0].0 {
                    AddOp::Add => vstd::wrapping::i32_specs::wrapping_add(acc, v),
                    AddOp::Subtract => vstd::wrapping::i32_specs::wrapping_sub(acc, v),
                };
                spec_eval_add(terms.drop_first(), env, acc2)
            },
        }
    }
}

/// Folds a multiplicative chain left to right, seeding the accumulator
/// with 1.
pub open spec fn spec_eval_mult(
    terms: Seq<(MultOp, SpecExpr)>,
    env: Map<Seq<char>, i32>,
    acc: i32,
) -> Result<i32, SpecEvalError>
    decreases terms, terms.len(),
{
    if terms.len() == 0 {
        Ok(acc)
    } else {
        match spec_eval(terms[0].1, env) {
            Err(e) => Err(e),
            Ok(v) => match terms[0].0 {
                MultOp::Multiply => spec_eval_mult(
                    terms.drop_first(),
                    env,
                    vstd::wrapping::i32_specs::wrapping_mul(acc, v),
                ),
                MultOp::Divide => if v == 0 {
                    Err(SpecEvalError::DivisionByZero)
                } else {
                    spec_eval_mult(terms.drop_first(), env, div_wrap_i32(acc, v))
                },
                MultOp::Modulo => if v == 0 {
                    Err(SpecEvalError::DivisionByZero)
                } else {
                    spec_eval_mult(terms.drop_first(), env, rem_i32(acc, v))
                },
            },
        }
    }
}

/// The comparison of two evaluated operands; an evaluation failure of the
/// left operand is reported before one of the right.
pub open spec fn spec_compare(
    l: SpecExpr,
    c: Comparator,
    r: SpecExpr,
    env: Map<Seq<char>, i32>,
) -> Result<bool, SpecEvalError> {
    match spec_eval(l, env) {
        Err(e) => Err(e),
        Ok(a) => match spec_eval(r, env) {
            Err(e) => Err(e),
            Ok(b) => Ok(
                match c {
                    Comparator::CEq => a == b,
                    Comparator::CNeq => a != b,
                    Comparator::CLt => a < b,
                    Comparator::CGt => a > b,
                    Comparator::CLeq => a <= b,
                    Comparator::CGeq => a >= b,
                },
            ),
        },
    }
}

/// The observable state of a run: the environment and the values printed
/// so far.
pub struct SpecState {
    pub env: Map<Seq<char>, i32>,
    pub out: Seq<i32>,
}

/// How a (fuel-bounded) run ends: normally, with its first evaluation
/// failure, or starved of fuel inside a loop. The state carries what was
/// printed before the end; `Done` also returns the fuel left over.
pub enum SpecRun {
    Done(SpecState, nat),
    Failed(SpecState, SpecEvalError),
    OutOfFuel(SpecState),
}

/// Runs one statement.
pub open spec fn spec_run_stmt(s: SpecStatement, st: SpecState, fuel: nat) -> SpecRun
    decreases fuel, s, 0int,
{
    match s {
        SpecStatement::Assign(name, e) => match spec_eval(e, st.env) {
            Ok(v) => SpecRun::Done(SpecState { env: st.env.insert(name, v), out: st.out }, fuel),
            Err(er) => SpecRun::Failed(st, er),
        },
        SpecStatement::Output(e) => match spec_eval(e, st.env) {
            Ok(v) => SpecRun::Done(SpecState { env: st.env, out: st.out.push(v) }, fuel),
            Err(er) => SpecRun::Failed(st, er),
        },
        SpecStatement::If(l, c, r, thn, els) => match spec_compare(l, c, r, st.env) {
            Err(er) => SpecRun::Failed(st, er),
            Ok(true) => spec_run_stmts(thn, st, fuel),
            Ok(false) => match els {
                Some(b) => spec_run_stmts(b, st, fuel),
                None => SpecRun::Done(st, fuel),
            },
        },
        SpecStatement::While(l, c, r, body) => match spec_compare(l, c, r, st.env) {
            Err(er) => SpecRun::Failed(st, er),
            Ok(false) => SpecRun::Done(st, fuel),
            Ok(true) => if fuel == 0 {
                SpecRun::OutOfFuel(st)
            } else {
                match spec_run_stmts(body, st, (fuel - 1) as nat) {
                    SpecRun::Done(st2, fuel2) => if fuel2 < fuel {
                        spec_run_stmt(s, st2, fuel2)
                    } else {
                        SpecRun::OutOfFuel(st2)
                    },
                    SpecRun::Failed(st2, er) => SpecRun::Failed(st2, er),
                    SpecRun::OutOfFuel(st2) => SpecRun::OutOfFuel(st2),
                }
            },
        },
    }
}

/// Runs a sequence of statements in order, stopping at the first failure.
pub open spec fn spec_run_stmts(b: Seq<SpecStatement>, st: SpecState, fuel: nat) -> SpecRun
    decreases fuel, b, 1int,
{
    if b.len() == 0 {
        SpecRun::Done(st, fuel)
    } else {
        match spec_run_stmt(b[0], st, fuel) {
            SpecRun::Done(st2, fuel2) => if fuel2 <= fuel {
                spec_run_stmts(b.drop_first(), st2, fuel2)
            } else {
                SpecRun::OutOfFuel(st2)
            },
            SpecRun::Failed(st2, er) => SpecRun::Failed(st2, er),
            SpecRun::OutOfFuel(st2) => SpecRun::OutOfFuel(st2),
        }
    }
}

/// A run never creates fuel: what is left over is at most what was given.
pub proof fn lemma_run_stmt_fuel(s: SpecStatement, st: SpecState, fuel: nat)
    ensures
        match spec_run_stmt(s, st, fuel) {
            SpecRun::Done(_, f2) => f2 <= fuel,
            _ => true,
        },
    decreases fuel, s, 0int,
{
    match s {
        SpecStatement::If(l, c, r, thn, els) => {
            match spec_compare(l, c, r, st.env) {
                Ok(true) => {
                    lemma_run_stmts_fuel(thn, st, fuel);
                },
                Ok(false) => {
                    match els {
                        Some(b) => {
                            lemma_run_stmts_fuel(b, st, fuel);
                        },
                        None => {},
                    }
                },
                _ => {},
            }
        },
        SpecStatement::While(l, c, r, body) => {
            match spec_compare(l, c, r, st.env) {
                Ok(true) => {
                    if fuel > 0 {
                        lemma_run_stmts_fuel(body, st, (fuel - 1) as nat);
                        match spec_run_stmts(body, st, (fuel - 1) as nat) {
                            SpecRun::Done(st2, fuel2) => {
                                if fuel2 < fuel {
                                    lemma_run_stmt_fuel(s, st2, fuel2);
                                }
                            },
                            _ => {},
                        }
                    }
                },
                _ => {},
            }
        },
        _ => {},
    }
}

/// See `lemma_run_stmt_fuel`.
pub proof fn lemma_run_stmts_fuel(b: Seq<SpecStatement>, st: SpecState, fuel: nat)
    ensures
        match spec_run_stmts(b, st, fuel) {
            SpecRun::Done(_, f2) => f2 <= fuel,
            _ => true,
        },
    decreases fuel, b, 1int,
{
    if b.len() > 0 {
        lemma_run_stmt_fuel(b[0], st, fuel);
        match spec_run_stmt(b[0], st, fuel) {
            SpecRun::Done(st2, fuel2) => {
                if fuel2 <= fuel {
                    lemma_run_stmts_fuel(b.drop_first(), st2, fuel2);
                }
            },
            _ => {},
        }
    }
}

/// Evaluates an expression under an environment.
pub fn eval(expr: &Expr, env: &Environment) -> (r: Result<i32, EvalError>)
    ensures
        match r {
            Ok(v) => spec_eval(expr.deep_view(), env.as_map()) == Result::<
                i32,
                SpecEvalError,
            >::Ok(v),
            Err(e) => spec_eval(expr.deep_view(), env.as_map()) == Result::<
                i32,
                SpecEvalError,
            >::Err(e.deep_view()),
        },
    decreases expr, 0int,
{
    match expr {
        Expr::Variable(name) => match env.get(name) {
            Some(v) => Ok(v),
            None => Err(EvalError::UndefinedVariable(name.clone())),
        },
        Expr::Num(n) => Ok(*n),
        Expr::AddSub(terms) => {
            proof {
                assert(view_add_terms(terms@).skip(0) =~= view_add_terms(terms@));
            }
            eval_add_from(terms, 0, env, 0)
        },
        Expr::MultDiv(terms) => {
            proof {
                assert(view_mult_terms(terms@).skip(0) =~= view_mult_terms(terms@));
            }
            eval_mult_from(terms, 0, env, 1)
        },
    }
}

/// Folds the additive chain from index `i` on.
fn eval_add_from(terms: &Vec<AddTerm>, i: usize, env: &Environment, acc: i32) -> (r: Result<
    i32,
    EvalError,
>)
    requires
        i <= terms@.len(),
    ensures
        match r {
            Ok(v) => spec_eval_add(view_add_terms(terms@).skip(i as int), env.as_map(), acc)
                == Result::<i32, SpecEvalError>::Ok(v),
            Err(e) => spec_eval_add(view_add_terms(terms@).skip(i as int), env.as_map(), acc)
                == Result::<i32, SpecEvalError>::Err(e.deep_view()),
        },
    decreases terms@, terms@.len() - i,
{
    proof {
        crate::grammar::lemma_view_add_terms_index(terms@);
    }
    let ghost whole = view_add_terms(terms@);
    if i >= terms.len() {
        proof {
            assert(whole.skip(i as int) =~= Seq::<(AddOp, SpecExpr)>::empty());
        }
        return Ok(acc);
    }
    proof {
        assert(whole.skip(i as int)[0] == whole[i as int]);
        assert(whole.skip(i as int).drop_first() =~= whole.skip(i + 1));
        assert(whole.skip(i as int).len() > 0);
    }
    let AddTerm(op, e) = &terms[i];
    match eval(e, env) {
        Err(er) => Err(er),
        Ok(v) => {
            let acc2: i32 = match op {
                AddOp::Add => acc.wrapping_add(v),
                AddOp::Subtract => acc.wrapping_sub(v),
            };
            eval_add_from(terms, i + 1, env, acc2)
        },
    }
}

/// Folds the multiplicative chain from index `i` on.
fn eval_mult_from(terms: &Vec<MultTerm>, i: usize, env: &Environment, acc: i32) -> (r: Result<
    i32,
    EvalError,
>)
    requires
        i <= terms@.len(),
    ensures
        match r {
            Ok(v) => spec_eval_mult(view_mult_terms(terms@).skip(i as int), env.as_map(), acc)
                == Result::<i32, SpecEvalError>::Ok(v),
            Err(e) => spec_eval_mult(view_mult_terms(terms@).skip(i as int), env.as_map(), acc)
                == Result::<i32, SpecEvalError>::Err(e.deep_view()),
        },
    decreases terms@, terms@.len() - i,
{
    proof {
        crate::grammar::lemma_view_mult_terms_index(terms@);
    }
    let ghost whole = view_mult_terms(terms@);
    if i >= terms.len() {
        proof {
            assert(whole.skip(i as int) =~= Seq::<(MultOp, SpecExpr)>::empty());
        }
        return Ok(acc);
    }
    proof {
        assert(whole.skip(i as int)[0] == whole[i as int]);
        assert(whole.skip(i as int).drop_first() =~= whole.skip(i + 1));
        assert(whole.skip(i as int).len() > 0);
    }
    let MultTerm(op, e) = &terms[i];
    match eval(e, env) {
        Err(er) => Err(er),
        Ok(v) => match op {
            MultOp::Multiply => eval_mult_from(terms, i + 1, env, acc.wrapping_mul(v)),
            MultOp::Divide => {
                if v == 0 {
                    Err(EvalError::DivisionByZero)
                } else {
                    eval_mult_from(terms, i + 1, env, div_i32(acc, v))
                }
            },
            MultOp::Modulo => {
                if v == 0 {
                    Err(EvalError::DivisionByZero)
                } else {
                    eval_mult_from(terms, i + 1, env, rem_exec_i32(acc, v))
                }
            },
        },
    }
}

/// Truncated 32-bit division, wrapping on the one overflowing quotient.
fn div_i32(a: i32, b: i32) -> (r: i32)
    requires
        b != 0,
    ensures
        r == div_wrap_i32(a, b),
{
    if a == i32::MIN && b == -1 {
        return i32::MIN;
    }
    let mag_a: u64 = if a >= 0 {
        a as u64
    } else {
        (-(a as i64)) as u64
    };
    let mag_b: u64 = if b >= 0 {
        b as u64
    } else {
        (-(b as i64)) as u64
    };
    let q: u64 = mag_a / mag_b;
    if (a < 0) != (b < 0) {
        (-(q as i64)) as i32
    } else {
        q as i32
    }
}

/// Truncated 32-bit remainder: the sign of the dividend, magnitude below
/// the divisor's.
fn rem_exec_i32(a: i32, b: i32) -> (r: i32)
    requires
        b != 0,
    ensures
        r == rem_i32(a, b),
{
    let mag_a: u64 = if a >= 0 {
        a as u64
    } else {
        (-(a as i64)) as u64
    };
    let mag_b: u64 = if b >= 0 {
        b as u64
    } else {
        (-(b as i64)) as u64
    };
    let m: u64 = mag_a % mag_b;
    if a < 0 {
        (-(m as i64)) as i32
    } else {
        m as i32
    }
}

/// Compares two evaluated operands; any evaluation failure propagates, the
/// left operand's first.
pub fn compare(lhs: &Expr, cmp: &Comparator, rhs: &Expr, env: &Environment) -> (r: Result<
    bool,
    EvalError,
>)
    ensures
        match r {
            Ok(v) => spec_compare(lhs.deep_view(), *cmp, rhs.deep_view(), env.as_map())
                == Result::<bool, SpecEvalError>::Ok(v),
            Err(e) => spec_compare(lhs.deep_view(), *cmp, rhs.deep_view(), env.as_map())
                == Result::<bool, SpecEvalError>::Err(e.deep_view()),
        },
{
    let a = match eval(lhs, env) {
        Ok(a) => a,
        Err(e) => {
            return Err(e);
        },
    };
    let b = match eval(rhs, env) {
        Ok(b) => b,
        Err(e) => {
            return Err(e);
        },
    };
    Ok(
        match cmp {
            Comparator::CEq => a == b,
            Comparator::CNeq => a != b,
            Comparator::CLt => a < b,
            Comparator::CGt => a > b,
            Comparator::CLeq => a <= b,
            Comparator::CGeq => a >= b,
        },
    )
}

/// How an executed statement stopped early.
pub enum Stop {
    /// An evaluation failure: the whole program aborts.
    Fail(EvalError),
    /// The fuel bound was exhausted inside a loop.
    Starved,
}

/// One true iteration of a loop statement: with the condition true and
/// fuel to spend, running the statement is running the body once and then
/// the statement again on what is left.
proof fn lemma_while_step(s: SpecStatement, st: SpecState, fuel: nat)
    requires
        s is While,
        spec_compare(s->While_0, s->While_1, s->While_2, st.env) == Result::<
            bool,
            SpecEvalError,
        >::Ok(true),
        fuel > 0,
    ensures
        match spec_run_stmts(s->While_3, st, (fuel - 1) as nat) {
            SpecRun::Done(st2, f2) => f2 < fuel && spec_run_stmt(s, st, fuel) == spec_run_stmt(
                s,
                st2,
                f2,
            ),
            SpecRun::Failed(st2, er) => spec_run_stmt(s, st, fuel) == SpecRun::Failed(st2, er),
            SpecRun::OutOfFuel(st2) => spec_run_stmt(s, st, fuel) == SpecRun::OutOfFuel(st2),
        },
{
    lemma_run_stmts_fuel(s->While_3, st, (fuel - 1) as nat);
}

/// Runs one statement against the environment and output buffer, spending
/// fuel on loop iterations; returns the fuel left over.
fn run_stmt(s: &Statement, env: &mut Environment, out: &mut Vec<i32>, fuel: u64) -> (r: Result<
    u64,
    Stop,
>)
    ensures
        match spec_run_stmt(
            s.deep_view(),
            SpecState { env: old(env).as_map(), out: old(out)@ },
            fuel as nat,
        ) {
            SpecRun::Done(st2, f2) => r == Result::<u64, Stop>::Ok(f2 as u64) && f2 <= fuel
                && final(env).as_map() == st2.env && final(out)@ == st2.out,
            SpecRun::Failed(st2, er) => (match r {
                Err(Stop::Fail(e)) => e.deep_view() == er,
                _ => false,
            }) && final(env).as_map() == st2.env && final(out)@ == st2.out,
            SpecRun::OutOfFuel(st2) => r == Result::<u64, Stop>::Err(Stop::Starved)
                && final(env).as_map() == st2.env && final(out)@ == st2.out,
        },
    decreases fuel, s, 0int,
{
    match s {
        Statement::Assign(name, e) => match eval(e, env) {
            Ok(v) => {
                env.insert(name.clone(), v);
                Ok(fuel)
            },
            Err(er) => Err(Stop::Fail(er)),
        },
        Statement::Output(e) => match eval(e, env) {
            Ok(v) => {
                out.push(v);
                Ok(fuel)
            },
            Err(er) => Err(Stop::Fail(er)),
        },
        Statement::If(l, c, r, thn, els) => match compare(l, c, r, env) {
            Err(er) => Err(Stop::Fail(er)),
            Ok(true) => run_stmts(&thn.0, env, out, fuel),
            Ok(false) => match els {
                Some(b) => run_stmts(&b.0, env, out, fuel),
                None => Ok(fuel),
            },
        },
        Statement::While(l, c, r, body) => {
            let ghost w = s.deep_view();
            let mut f = fuel;
            loop
                invariant
                    f <= fuel,
                    w == s.deep_view(),
                    w is While,
                    w->While_0 == l.deep_view(),
                    w->While_1 == *c,
                    w->While_2 == r.deep_view(),
                    w->While_3 == view_block(*body),
                    spec_run_stmt(
                        w,
                        SpecState { env: old(env).as_map(), out: old(out)@ },
                        fuel as nat,
                    ) == spec_run_stmt(w, SpecState { env: env.as_map(), out: out@ }, f as nat),
                decreases f,
            {
                let ghost cur = SpecState { env: env.as_map(), out: out@ };
                match compare(l, c, r, env) {
                    Err(er) => {
                        return Err(Stop::Fail(er));
                    },
                    Ok(false) => {
                        return Ok(f);
                    },
                    Ok(true) => {
                        if f == 0 {
                            return Err(Stop::Starved);
                        }
                        proof {
                            lemma_while_step(w, cur, f as nat);
                        }
                        match run_stmts(&body.0, env, out, f - 1) {
                            Err(stop) => {
                                return Err(stop);
                            },
                            Ok(f2) => {
                                f = f2;
                            },
                        }
                    },
                }
            }
        },
    }
}

/// Runs the statements of a block in order from index `i`.
fn run_stmts(b: &Vec<Statement>, env: &mut Environment, out: &mut Vec<i32>, fuel: u64) -> (r:
    Result<u64, Stop>)
    ensures
        match spec_run_stmts(
            view_statements(b@),
            SpecState { env: old(env).as_map(), out: old(out)@ },
            fuel as nat,
        ) {
            SpecRun::Done(st2, f2) => r == Result::<u64, Stop>::Ok(f2 as u64) && f2 <= fuel
                && final(env).as_map() == st2.env && final(out)@ == st2.out,
            SpecRun::Failed(st2, er) => (match r {
                Err(Stop::Fail(e)) => e.deep_view() == er,
                _ => false,
            }) && final(env).as_map() == st2.env && final(out)@ == st2.out,
            SpecRun::OutOfFuel(st2) => r == Result::<u64, Stop>::Err(Stop::Starved)
                && final(env).as_map() == st2.env && final(out)@ == st2.out,
        },
    decreases fuel, b@, b@.len() + 1,
{
    proof {
        assert(view_statements(b@).skip(0) =~= view_statements(b@));
    }
    run_stmts_from(b, 0, env, out, fuel)
}

/// Runs the statements of a block in order, starting at index `i`.
fn run_stmts_from(b: &Vec<Statement>, i: usize, env: &mut Environment, out: &mut Vec<i32>, fuel: u64) -> (r:
    Result<u64, Stop>)
    requires
        i <= b@.len(),
    ensures
        match spec_run_stmts(
            view_statements(b@).skip(i as int),
            SpecState { env: old(env).as_map(), out: old(out)@ },
            fuel as nat,
        ) {
            SpecRun::Done(st2, f2) => r == Result::<u64, Stop>::Ok(f2 as u64) && f2 <= fuel
                && final(env).as_map() == st2.env && final(out)@ == st2.out,
            SpecRun::Failed(st2, er) => (match r {
                Err(Stop::Fail(e)) => e.deep_view() == er,
                _ => false,
            }) && final(env).as_map() == st2.env && final(out)@ == st2.out,
            SpecRun::OutOfFuel(st2) => r == Result::<u64, Stop>::Err(Stop::Starved)
                && final(env).as_map() == st2.env && final(out)@ == st2.out,
        },
    decreases fuel, b@, b@.len() - i,
{
    proof {
        crate::grammar::lemma_view_statements_index(b@);
        lemma_run_stmts_fuel(
            view_statements(b@).skip(i as int),
            SpecState { env: old(env).as_map(), out: old(out)@ },
            fuel as nat,
        );
    }
    let ghost whole = view_statements(b@);
    if i >= b.len() {
        proof {
            assert(whole.skip(i as int) =~= Seq::<SpecStatement>::empty());
        }
        return Ok(fuel);
    }
    proof {
        assert(whole.skip(i as int)[0] == whole[i as int]);
        assert(whole.skip(i as int).drop_first() =~= whole.skip(i + 1));
        assert(whole.skip(i as int).len() > 0);
    }
    match run_stmt(&b[i], env, out, fuel) {
        Err(stop) => Err(stop),
        Ok(f2) => run_stmts_from(b, i + 1, env, out, f2),
    }
}

/// What a bounded run reports: the values printed, the failure that ended
/// it early if any, and whether the fuel bound was exhausted.
pub struct RunReport {
    pub outputs: Vec<i32>,
    pub error: Option<EvalError>,
    pub out_of_fuel: bool,
}

/// Runs a program against a fresh environment, with the given fuel bound
/// on loop iterations.
pub fn run(prog: &Vec<Statement>, fuel: u64) -> (r: RunReport)
    ensures
        match spec_run_stmts(
            view_statements(prog@),
            SpecState { env: Map::empty(), out: Seq::empty() },
            fuel as nat,
        ) {
            SpecRun::Done(st2, _) => r.outputs@ == st2.out && r.error is None && !r.out_of_fuel,
            SpecRun::Failed(st2, er) => r.outputs@ == st2.out && (match r.error {
                Some(e) => e.deep_view() == er,
                None => false,
            }) && !r.out_of_fuel,
            SpecRun::OutOfFuel(st2) => r.outputs@ == st2.out && r.error is None && r.out_of_fuel,
        },
{
    let mut env = Environment::new();
    let mut out: Vec<i32> = Vec::new();
    proof {
        assert(out@ =~= Seq::<i32>::empty());
        assert(view_statements(prog@).skip(0) =~= view_statements(prog@));
    }
    match run_stmts_from(prog, 0, &mut env, &mut out, fuel) {
        Ok(_) => RunReport { outputs: out, error: None, out_of_fuel: false },
        Err(Stop::Fail(e)) => RunReport { outputs: out, error: Some(e), out_of_fuel: false },
        Err(Stop::Starved) => RunReport { outputs: out, error: None, out_of_fuel: true },
    }
}

/// How a whole interpretation ends: a lexer failure with the position of
/// the offending character, unconsumed tokens after parsing with the
/// position of the first, or a run.
pub enum InterpResult {
    LexError { at: usize },
    ParseError { at: usize },
    Ran(RunReport),
}

/// The whole pipeline: lex, parse, run, with the given fuel bound.
pub fn interp(raw: &str, fuel: u64) -> (r: InterpResult)
    ensures
        ({
            let lexed = spec_lex(raw@, 0);
            if lexed.1 != raw@.len() {
                r == InterpResult::LexError { at: lexed.1 as usize }
            } else {
                let parsed = spec_parse_block(lexed.0, 0);
                if parsed.1 != lexed.0.len() {
                    r == InterpResult::ParseError { at: parsed.1 as usize }
                } else {
                    match r {
                        InterpResult::Ran(rep) => match spec_run_stmts(
                            parsed.0,
                            SpecState { env: Map::empty(), out: Seq::empty() },
                            fuel as nat,
                        ) {
                            SpecRun::Done(st2, _) => rep.outputs@ == st2.out && rep.error is None
                                && !rep.out_of_fuel,
                            SpecRun::Failed(st2, er) => rep.outputs@ == st2.out && (match rep.error {
                                Some(e) => e.deep_view() == er,
                                None => false,
                            }) && !rep.out_of_fuel,
                            SpecRun::OutOfFuel(st2) => rep.outputs@ == st2.out && rep.error is None
                                && rep.out_of_fuel,
                        },
                        _ => false,
                    }
                }
            }
        }),
{
    let lexer = Lexer;
    let (tokens, consumed) = lexer.parse(raw);
    if consumed != raw.unicode_len() {
        return InterpResult::LexError { at: consumed };
    }
    let parser = ProgramParser;
    let (block, used) = parser.parse(tokens.as_slice());
    if used != tokens.len() {
        return InterpResult::ParseError { at: used };
    }
    let Block(stmts) = block;
    InterpResult::Ran(run(&stmts, fuel))
}

} // verus!
