//! The big-step semantics of the language, as total specification
//! functions.
//!
//! Expression evaluation always terminates, so it is a structural
//! recursion over the expression.  Statement execution may loop, so it
//! is indexed by fuel: one unit is spent on each loop iteration, and a
//! run that exhausts its fuel answers `Spent`.  `lemma_exec_stmt_mono`
//! shows that fuel only delays an answer and never changes it, so the
//! `Done` outcome, when one exists, is unique.
//!
//! An outcome carries the environment chain after the run, the lines
//! written (program output and runtime diagnostics, in order), and
//! whether the run succeeded.

use vstd::prelude::*;
use crate::environment::{FrameV, chain_get, chain_assign, chain_define};
use crate::expr::{ExprV, LitV};
use crate::stmt::StmtV;
use crate::token::{TokenTypeV, TokenV};
use crate::value::{ValV, value_text};
use crate::text::dec_str;
use crate::ieee32::{
    real_add_bits, real_sub_bits, real_mul_bits, real_div_bits, real_lt_bits, real_le_bits,
    real_gt_bits, real_ge_bits, real_eq_bits, real_neg_bits,
};

verus! {

/// A diagnostic line: `<line>: Error <location>: <message>`.
pub open spec fn report_line(line: u32, where_at: Seq<char>, msg: Seq<char>) -> Seq<char> {
    dec_str(line as nat) + ": Error "@ + where_at + ": "@ + msg
}

/// The location part of a diagnostic: ` at '<lexeme>'`.
pub open spec fn at_lexeme(lexeme: Seq<char>) -> Seq<char> {
    " at '"@ + lexeme + "'"@
}

/// The diagnostic for a reference to an unbound name.
pub open spec fn undef_line(name: Seq<char>) -> Seq<char> {
    "undefined variable "@ + name
}

/// The outcome of evaluating one expression.
pub struct EvalOut {
    /// The environment chain afterwards (assignments mutate it).
    pub env: Seq<FrameV>,
    /// The diagnostic lines written during evaluation.
    pub lines: Seq<Seq<char>>,
    /// The value, or failure.
    pub res: Result<ValV, ()>,
}

/// The value of a literal.
pub open spec fn lit_val(l: LitV) -> ValV {
    match l {
        LitV::Bool(b) => ValV::Bool(b),
        LitV::Str(s) => ValV::Str(s),
        LitV::Real(r) => ValV::Real(r),
        LitV::Int(i) => ValV::Int(i),
        LitV::Nil => ValV::Nil,
    }
}

/// What a binary operator yields on two evaluated operands: a value, or
/// the diagnostic line of a runtime error.  Arithmetic and ordering
/// need two ints or two reals; equality also takes two booleans, and
/// nil equals nil; everything else is a type mismatch.  Integer
/// arithmetic wraps; integer division by zero is an error; real
/// arithmetic follows IEEE-754.
pub open spec fn apply_binary(op: TokenV, l: ValV, r: ValV) -> Result<ValV, Seq<char>> {
    let mismatch = report_line(op.line, at_lexeme(op.lexeme), "binary expression type mismatch"@);
    match op.t_type {
        TokenTypeV::Plus => match (l, r) {
            (ValV::Real(a), ValV::Real(b)) => Result::Ok(ValV::Real(real_add_bits(a, b))),
            (ValV::Int(a), ValV::Int(b)) => Result::Ok(ValV::Int(a.wrapping_add(b))),
            _ => Result::Err(mismatch),
        },
        TokenTypeV::Minus => match (l, r) {
            (ValV::Real(a), ValV::Real(b)) => Result::Ok(ValV::Real(real_sub_bits(a, b))),
            (ValV::Int(a), ValV::Int(b)) => Result::Ok(ValV::Int(a.wrapping_sub(b))),
            _ => Result::Err(mismatch),
        },
        TokenTypeV::Star => match (l, r) {
            (ValV::Real(a), ValV::Real(b)) => Result::Ok(ValV::Real(real_mul_bits(a, b))),
            (ValV::Int(a), ValV::Int(b)) => Result::Ok(ValV::Int(a.wrapping_mul(b))),
            _ => Result::Err(mismatch),
        },
        TokenTypeV::Slash => match (l, r) {
            (ValV::Real(a), ValV::Real(b)) => Result::Ok(ValV::Real(real_div_bits(a, b))),
            (ValV::Int(a), ValV::Int(b)) => if b == 0 {
                Result::Err(
                    report_line(op.line, at_lexeme(op.lexeme), "integer division by zero"@),
                )
            } else {
                Result::Ok(ValV::Int(a / b))
            },
            _ => Result::Err(mismatch),
        },
        TokenTypeV::Greater => match (l, r) {
            (ValV::Real(a), ValV::Real(b)) => Result::Ok(ValV::Bool(real_gt_bits(a, b))),
            (ValV::Int(a), ValV::Int(b)) => Result::Ok(ValV::Bool(a > b)),
            _ => Result::Err(mismatch),
        },
        TokenTypeV::GreaterEqual => match (l, r) {
            (ValV::Real(a), ValV::Real(b)) => Result::Ok(ValV::Bool(real_ge_bits(a, b))),
            (ValV::Int(a), ValV::Int(b)) => Result::Ok(ValV::Bool(a >= b)),
            _ => Result::Err(mismatch),
        },
        TokenTypeV::Less => match (l, r) {
            (ValV::Real(a), ValV::Real(b)) => Result::Ok(ValV::Bool(real_lt_bits(a, b))),
            (ValV::Int(a), ValV::Int(b)) => Result::Ok(ValV::Bool(a < b)),
            _ => Result::Err(mismatch),
        },
        TokenTypeV::LessEqual => match (l, r) {
            (ValV::Real(a), ValV::Real(b)) => Result::Ok(ValV::Bool(real_le_bits(a, b))),
            (ValV::Int(a), ValV::Int(b)) => Result::Ok(ValV::Bool(a <= b)),
            _ => Result::Err(mismatch),
        },
        TokenTypeV::EqualEqual => match (l, r) {
            (ValV::Real(a), ValV::Real(b)) => Result::Ok(ValV::Bool(real_eq_bits(a, b))),
            (ValV::Int(a), ValV::Int(b)) => Result::Ok(ValV::Bool(a == b)),
            (ValV::Bool(a), ValV::Bool(b)) => Result::Ok(ValV::Bool(a == b)),
            (ValV::Nil, ValV::Nil) => Result::Ok(ValV::Bool(true)),
            _ => Result::Err(mismatch),
        },
        TokenTypeV::BangEqual => match (l, r) {
            (ValV::Real(a), ValV::Real(b)) => Result::Ok(ValV::Bool(!real_eq_bits(a, b))),
            (ValV::Int(a), ValV::Int(b)) => Result::Ok(ValV::Bool(a != b)),
            (ValV::Bool(a), ValV::Bool(b)) => Result::Ok(ValV::Bool(a != b)),
            (ValV::Nil, ValV::Nil) => Result::Ok(ValV::Bool(false)),
            _ => Result::Err(mismatch),
        },
        _ => Result::Err(
            "binary operator '"@ + op.lexeme + "' supported in parser but not in evaluate"@,
        ),
    }
}

/// Whether an assignment of `r` to a variable holding `l` keeps the
/// declared type: int to int, real to real, string to string, nil to
/// nil.  No implicit conversion, no assignment to booleans.
pub open spec fn assign_compatible(l: ValV, r: ValV) -> bool {
    match (l, r) {
        (ValV::Int(_), ValV::Int(_)) => true,
        (ValV::Real(_), ValV::Real(_)) => true,
        (ValV::Str(_), ValV::Str(_)) => true,
        (ValV::Nil, ValV::Nil) => true,
        _ => false,
    }
}

/// Evaluates one expression: strict left-to-right, eager, except that
/// `and`/`or` short-circuit.  Always terminates.
pub open spec fn eval_expr_s(env: Seq<FrameV>, e: ExprV) -> EvalOut
    decreases e, 0int,
{
    match e {
        ExprV::Literal { lit } => EvalOut {
            env,
            lines: Seq::empty(),
            res: Result::Ok(lit_val(lit)),
        },
        ExprV::Grouping { inner } => eval_expr_s(env, *inner),
        ExprV::Variable { name } => match chain_get(env, name) {
            Option::Some(v) => EvalOut { env, lines: Seq::empty(), res: Result::Ok(v) },
            Option::None => EvalOut {
                env,
                lines: seq![undef_line(name)],
                res: Result::Err(()),
            },
        },
        ExprV::Unary { op, right } => {
            let r = eval_expr_s(env, *right);
            match r.res {
                Result::Err(_) => r,
                Result::Ok(v) => match op.t_type {
                    TokenTypeV::Minus => match v {
                        ValV::Real(b) => EvalOut {
                            env: r.env,
                            lines: r.lines,
                            res: Result::Ok(ValV::Real(real_neg_bits(b))),
                        },
                        _ => EvalOut {
                            env: r.env,
                            lines: r.lines + seq![
                                report_line(
                                    op.line,
                                    at_lexeme(op.lexeme),
                                    "type incompatible with operator"@,
                                ),
                            ],
                            res: Result::Err(()),
                        },
                    },
                    TokenTypeV::Bang => match v {
                        ValV::Bool(b) => EvalOut {
                            env: r.env,
                            lines: r.lines,
                            res: Result::Ok(ValV::Bool(!b)),
                        },
                        _ => EvalOut {
                            env: r.env,
                            lines: r.lines + seq![
                                report_line(
                                    op.line,
                                    at_lexeme(op.lexeme),
                                    "type incompatible with operator"@,
                                ),
                            ],
                            res: Result::Err(()),
                        },
                    },
                    _ => EvalOut {
                        env: r.env,
                        lines: r.lines + seq![
                            "unary operator '"@ + op.lexeme
                                + "' supported in parser but not in evaluate"@,
                        ],
                        res: Result::Err(()),
                    },
                },
            }
        },
        ExprV::Binary { op, left, right } => {
            let lo = eval_expr_s(env, *left);
            match lo.res {
                Result::Err(_) => lo,
                Result::Ok(lv) => {
                    let ro = eval_expr_s(lo.env, *right);
                    match ro.res {
                        Result::Err(_) => EvalOut {
                            env: ro.env,
                            lines: lo.lines + ro.lines,
                            res: Result::Err(()),
                        },
                        Result::Ok(rv) => match apply_binary(op, lv, rv) {
                            Result::Ok(v) => EvalOut {
                                env: ro.env,
                                lines: lo.lines + ro.lines,
                                res: Result::Ok(v),
                            },
                            Result::Err(d) => EvalOut {
                                env: ro.env,
                                lines: lo.lines + ro.lines + seq![d],
                                res: Result::Err(()),
                            },
                        },
                    }
                },
            }
        },
        ExprV::Logical { op, left, right } => {
            let lo = eval_expr_s(env, *left);
            match lo.res {
                Result::Err(_) => lo,
                Result::Ok(lv) => match op.t_type {
                    TokenTypeV::Or => match lv {
                        ValV::Bool(true) => EvalOut {
                            env: lo.env,
                            lines: lo.lines,
                            res: Result::Ok(ValV::Bool(true)),
                        },
                        ValV::Bool(false) => eval_logical_rhs(lo, op, *right),
                        _ => EvalOut {
                            env: lo.env,
                            lines: lo.lines + seq![
                                report_line(
                                    op.line,
                                    at_lexeme(op.lexeme),
                                    "non boolean value in logical expression"@,
                                ),
                            ],
                            res: Result::Err(()),
                        },
                    },
                    TokenTypeV::And => match lv {
                        ValV::Bool(false) => EvalOut {
                            env: lo.env,
                            lines: lo.lines,
                            res: Result::Ok(ValV::Bool(false)),
                        },
                        ValV::Bool(true) => eval_logical_rhs(lo, op, *right),
                        _ => EvalOut {
                            env: lo.env,
                            lines: lo.lines + seq![
                                report_line(
                                    op.line,
                                    at_lexeme(op.lexeme),
                                    "non boolean value in logical expression"@,
                                ),
                            ],
                            res: Result::Err(()),
                        },
                    },
                    _ => EvalOut {
                        env: lo.env,
                        lines: lo.lines + seq![
                            "logical operator '"@ + op.lexeme
                                + "' supported in parser but not in evaluate"@,
                        ],
                        res: Result::Err(()),
                    },
                },
            }
        },
        ExprV::Assignment { name, val } => {
            let vo = eval_expr_s(env, *val);
            match vo.res {
                Result::Err(_) => vo,
                Result::Ok(rv) => match chain_get(vo.env, name) {
                    Option::None => EvalOut {
                        env: vo.env,
                        lines: vo.lines + seq![undef_line(name)],
                        res: Result::Err(()),
                    },
                    Option::Some(lv) => if assign_compatible(lv, rv) {
                        match chain_assign(vo.env, name, rv) {
                            Option::Some(env2) => EvalOut {
                                env: env2,
                                lines: vo.lines,
                                res: Result::Ok(rv),
                            },
                            Option::None => EvalOut {
                                env: vo.env,
                                lines: vo.lines + seq![undef_line(name)],
                                res: Result::Err(()),
                            },
                        }
                    } else {
                        EvalOut {
                            env: vo.env,
                            lines: vo.lines + seq![
                                "type mismatch in "@ + value_text(lv) + " and "@ + value_text(rv),
                            ],
                            res: Result::Err(()),
                        }
                    },
                },
            }
        },
    }
}

/// The right-hand side of a short-circuiting operator that was not cut
/// short: it must evaluate to a boolean, which is the result.
pub open spec fn eval_logical_rhs(lo: EvalOut, op: TokenV, right: ExprV) -> EvalOut
    decreases right, 1int,
{
    let ro = eval_expr_s(lo.env, right);
    match ro.res {
        Result::Err(_) => EvalOut { env: ro.env, lines: lo.lines + ro.lines, res: Result::Err(()) },
        Result::Ok(rv) => match rv {
            ValV::Bool(b) => EvalOut {
                env: ro.env,
                lines: lo.lines + ro.lines,
                res: Result::Ok(ValV::Bool(b)),
            },
            _ => EvalOut {
                env: ro.env,
                lines: lo.lines + ro.lines + seq![
                    report_line(
                        op.line,
                        at_lexeme(op.lexeme),
                        "non boolean value in logical expression"@,
                    ),
                ],
                res: Result::Err(()),
            },
        },
    }
}

/// The outcome of running statements with a given amount of fuel.
pub enum ExecOut {
    /// The fuel ran out before the run finished.
    Spent,
    /// The run finished: the chain afterwards, the lines written, and
    /// whether it succeeded.
    Done { env: Seq<FrameV>, lines: Seq<Seq<char>>, ok: bool },
}

/// Executes one statement.  Fuel is spent on loop iterations only.
pub open spec fn exec_stmt_s(env: Seq<FrameV>, s: StmtV, fuel: nat) -> ExecOut
    decreases fuel, s,
{
    match s {
        StmtV::Print(e) => {
            let o = eval_expr_s(env, e);
            match o.res {
                Result::Ok(v) => ExecOut::Done {
                    env: o.env,
                    lines: o.lines + seq![value_text(v)],
                    ok: true,
                },
                Result::Err(_) => ExecOut::Done { env: o.env, lines: o.lines, ok: false },
            }
        },
        StmtV::Expression(e) => {
            let o = eval_expr_s(env, e);
            ExecOut::Done { env: o.env, lines: o.lines, ok: o.res is Ok }
        },
        StmtV::IntDecl(name, init) => exec_decl_s(env, name, init, s),
        StmtV::RealDecl(name, init) => exec_decl_s(env, name, init, s),
        StmtV::StrDecl(name, init) => exec_decl_s(env, name, init, s),
        StmtV::Block(ss) => {
            match exec_stmts_s(env.push(Seq::empty()), ss, fuel) {
                ExecOut::Spent => ExecOut::Spent,
                ExecOut::Done { env: e2, lines, ok } => ExecOut::Done {
                    env: e2.drop_last(),
                    lines,
                    ok,
                },
            }
        },
        StmtV::If(c, t, els) => {
            let o = eval_expr_s(env, c);
            match o.res {
                Result::Err(_) => ExecOut::Done { env: o.env, lines: o.lines, ok: false },
                Result::Ok(v) => match v {
                    ValV::Bool(true) => match exec_stmt_s(o.env, *t, fuel) {
                        ExecOut::Spent => ExecOut::Spent,
                        ExecOut::Done { env: e2, lines, ok } => ExecOut::Done {
                            env: e2,
                            lines: o.lines + lines,
                            ok,
                        },
                    },
                    ValV::Bool(false) => match els {
                        Option::Some(el) => match exec_stmt_s(o.env, *el, fuel) {
                            ExecOut::Spent => ExecOut::Spent,
                            ExecOut::Done { env: e2, lines, ok } => ExecOut::Done {
                                env: e2,
                                lines: o.lines + lines,
                                ok,
                            },
                        },
                        Option::None => ExecOut::Done { env: o.env, lines: o.lines, ok: true },
                    },
                    _ => ExecOut::Done {
                        env: o.env,
                        lines: o.lines + seq!["conditional expression must be boolean"@],
                        ok: false,
                    },
                },
            }
        },
        StmtV::While(c, b) => {
            let o = eval_expr_s(env, c);
            match o.res {
                Result::Err(_) => ExecOut::Done { env: o.env, lines: o.lines, ok: false },
                Result::Ok(v) => match v {
                    ValV::Bool(false) => ExecOut::Done { env: o.env, lines: o.lines, ok: true },
                    ValV::Bool(true) => match exec_stmt_s(o.env, *b, fuel) {
                        ExecOut::Spent => ExecOut::Spent,
                        ExecOut::Done { env: e2, lines: l2, ok } => if !ok {
                            ExecOut::Done { env: e2, lines: o.lines + l2, ok: false }
                        } else if fuel == 0 {
                            ExecOut::Spent
                        } else {
                            match exec_stmt_s(e2, s, (fuel - 1) as nat) {
                                ExecOut::Spent => ExecOut::Spent,
                                ExecOut::Done { env: e3, lines: l3, ok: ok3 } => ExecOut::Done {
                                    env: e3,
                                    lines: o.lines + l2 + l3,
                                    ok: ok3,
                                },
                            }
                        },
                    },
                    _ => ExecOut::Done {
                        env: o.env,
                        lines: o.lines + seq!["conditional expression must be boolean"@],
                        ok: false,
                    },
                },
            }
        },
    }
}

/// Executes a typed declaration: an initializer must evaluate to the
/// declared type, a missing one means the type's zero value (0, 0.0,
/// the empty string).
pub open spec fn exec_decl_s(
    env: Seq<FrameV>,
    name: Seq<char>,
    init: Option<ExprV>,
    s: StmtV,
) -> ExecOut
    decreases s, init,
{
    match init {
        Option::Some(e) => {
            let o = eval_expr_s(env, e);
            match o.res {
                Result::Err(_) => ExecOut::Done { env: o.env, lines: o.lines, ok: false },
                Result::Ok(v) => if decl_accepts(s, v) {
                    ExecOut::Done {
                        env: chain_define(o.env, name, v),
                        lines: o.lines,
                        ok: true,
                    }
                } else {
                    ExecOut::Done {
                        env: o.env,
                        lines: o.lines + seq![
                            "mismatched types "@ + name + " and "@ + value_text(v),
                        ],
                        ok: false,
                    }
                },
            }
        },
        Option::None => ExecOut::Done {
            env: chain_define(env, name, decl_zero(s)),
            lines: Seq::empty(),
            ok: true,
        },
    }
}

/// Whether a value has the type a declaration requires.
pub open spec fn decl_accepts(s: StmtV, v: ValV) -> bool {
    match s {
        StmtV::IntDecl(_, _) => v is Int,
        StmtV::RealDecl(_, _) => v is Real,
        StmtV::StrDecl(_, _) => v is Str,
        _ => false,
    }
}

/// The default value of a declaration without initializer.
pub open spec fn decl_zero(s: StmtV) -> ValV {
    match s {
        StmtV::IntDecl(_, _) => ValV::Int(0),
        StmtV::RealDecl(_, _) => ValV::Real(0),
        StmtV::StrDecl(_, _) => ValV::Str(Seq::empty()),
        _ => ValV::Nil,
    }
}

/// Executes statements in order, stopping at the first failure.
pub open spec fn exec_stmts_s(env: Seq<FrameV>, ss: Seq<StmtV>, fuel: nat) -> ExecOut
    decreases fuel, ss,
{
    if ss.len() == 0 {
        ExecOut::Done { env, lines: Seq::empty(), ok: true }
    } else {
        match exec_stmt_s(env, ss.first(), fuel) {
            ExecOut::Spent => ExecOut::Spent,
            ExecOut::Done { env: e1, lines: l1, ok } => if !ok {
                ExecOut::Done { env: e1, lines: l1, ok: false }
            } else {
                match exec_stmts_s(e1, ss.drop_first(), fuel) {
                    ExecOut::Spent => ExecOut::Spent,
                    ExecOut::Done { env: e2, lines: l2, ok: ok2 } => ExecOut::Done {
                        env: e2,
                        lines: l1 + l2,
                        ok: ok2,
                    },
                }
            },
        }
    }
}

/// The text of a sequence of output lines.
pub open spec fn lines_view(s: Seq<String>) -> Seq<Seq<char>> {
    s.map(|i: int, x: String| x@)
}

/// The text of the lines that were appended to `o0` to reach `o1`.
pub open spec fn lines_from(o0: Seq<String>, o1: Seq<String>) -> Seq<Seq<char>> {
    lines_view(o1.skip(o0.len() as int))
}

pub proof fn lemma_lines_from_refl(o: Seq<String>)
    ensures
        lines_from(o, o) == Seq::<Seq<char>>::empty(),
{
    assert(lines_from(o, o) =~= Seq::<Seq<char>>::empty());
}

pub proof fn lemma_lines_from_push(o0: Seq<String>, o1: Seq<String>, x: String)
    requires
        o0.len() <= o1.len(),
    ensures
        lines_from(o0, o1.push(x)) == lines_from(o0, o1).push(x@),
        lines_from(o0, o1.push(x)) == lines_from(o0, o1) + seq![x@],
{
    assert(lines_from(o0, o1.push(x)) =~= lines_from(o0, o1).push(x@));
    assert(lines_from(o0, o1.push(x)) =~= lines_from(o0, o1) + seq![x@]);
}

pub proof fn lemma_lines_from_trans(o0: Seq<String>, o1: Seq<String>, o2: Seq<String>)
    requires
        o0.len() <= o1.len(),
        o1.is_prefix_of(o2),
    ensures
        lines_from(o0, o2) == lines_from(o0, o1) + lines_from(o1, o2),
{
    assert(lines_from(o0, o2) =~= lines_from(o0, o1) + lines_from(o1, o2));
}

/// Evaluating an expression never changes the number of open scopes.
pub proof fn lemma_eval_len(env: Seq<FrameV>, e: ExprV)
    ensures
        eval_expr_s(env, e).env.len() == env.len(),
    decreases e, 0int,
{
    match e {
        ExprV::Literal { lit } => {},
        ExprV::Variable { name } => {},
        ExprV::Grouping { inner } => {
            lemma_eval_len(env, *inner);
        },
        ExprV::Unary { op, right } => {
            lemma_eval_len(env, *right);
        },
        ExprV::Binary { op, left, right } => {
            lemma_eval_len(env, *left);
            let lo = eval_expr_s(env, *left);
            if lo.res is Ok {
                lemma_eval_len(lo.env, *right);
            }
        },
        ExprV::Logical { op, left, right } => {
            lemma_eval_len(env, *left);
            let lo = eval_expr_s(env, *left);
            if lo.res is Ok {
                lemma_eval_rhs_len(lo, op, *right);
            }
        },
        ExprV::Assignment { name, val } => {
            lemma_eval_len(env, *val);
            let vo = eval_expr_s(env, *val);
            if vo.res is Ok {
                let rv = vo.res.unwrap();
                crate::environment::lemma_chain_assign_shape(vo.env, name, rv);
            }
        },
    }
}

proof fn lemma_eval_rhs_len(lo: EvalOut, op: TokenV, right: ExprV)
    ensures
        eval_logical_rhs(lo, op, right).env.len() == lo.env.len(),
    decreases right, 1int,
{
    lemma_eval_len(lo.env, right);
}

/// A finished statement leaves as many open scopes as it found.
pub proof fn lemma_exec_stmt_len(env: Seq<FrameV>, s: StmtV, fuel: nat)
    requires
        env.len() >= 1,
    ensures
        exec_stmt_s(env, s, fuel) matches ExecOut::Done { env: e2, .. } ==> e2.len() == env.len(),
    decreases fuel, s,
{
    match s {
        StmtV::Print(e) => {
            lemma_eval_len(env, e);
        },
        StmtV::Expression(e) => {
            lemma_eval_len(env, e);
        },
        StmtV::IntDecl(name, init) => {
            lemma_exec_decl_len(env, name, init, s);
        },
        StmtV::RealDecl(name, init) => {
            lemma_exec_decl_len(env, name, init, s);
        },
        StmtV::StrDecl(name, init) => {
            lemma_exec_decl_len(env, name, init, s);
        },
        StmtV::Block(ss) => {
            lemma_exec_stmts_len(env.push(Seq::empty()), ss, fuel);
        },
        StmtV::If(c, t, els) => {
            lemma_eval_len(env, c);
            let o = eval_expr_s(env, c);
            match o.res {
                Result::Ok(ValV::Bool(true)) => {
                    lemma_exec_stmt_len(o.env, *t, fuel);
                },
                Result::Ok(ValV::Bool(false)) => {
                    match els {
                        Option::Some(el) => {
                            lemma_exec_stmt_len(o.env, *el, fuel);
                        },
                        Option::None => {},
                    }
                },
                _ => {},
            }
        },
        StmtV::While(c, b) => {
            lemma_eval_len(env, c);
            let o = eval_expr_s(env, c);
            match o.res {
                Result::Ok(ValV::Bool(true)) => {
                    lemma_exec_stmt_len(o.env, *b, fuel);
                    match exec_stmt_s(o.env, *b, fuel) {
                        ExecOut::Done { env: e2, lines: l2, ok } => {
                            if ok && fuel > 0 {
                                lemma_exec_stmt_len(e2, s, (fuel - 1) as nat);
                            }
                        },
                        ExecOut::Spent => {},
                    }
                },
                _ => {},
            }
        },
    }
}

proof fn lemma_exec_decl_len(env: Seq<FrameV>, name: Seq<char>, init: Option<ExprV>, s: StmtV)
    requires
        env.len() >= 1,
    ensures
        exec_decl_s(env, name, init, s) matches ExecOut::Done { env: e2, .. } ==> e2.len()
            == env.len(),
{
    match init {
        Option::Some(e) => {
            lemma_eval_len(env, e);
        },
        Option::None => {},
    }
}

/// A finished statement list leaves as many open scopes as it found.
pub proof fn lemma_exec_stmts_len(env: Seq<FrameV>, ss: Seq<StmtV>, fuel: nat)
    requires
        env.len() >= 1,
    ensures
        exec_stmts_s(env, ss, fuel) matches ExecOut::Done { env: e2, .. } ==> e2.len()
            == env.len(),
    decreases fuel, ss,
{
    if ss.len() > 0 {
        lemma_exec_stmt_len(env, ss.first(), fuel);
        match exec_stmt_s(env, ss.first(), fuel) {
            ExecOut::Done { env: e1, lines: l1, ok } => {
                if ok {
                    lemma_exec_stmts_len(e1, ss.drop_first(), fuel);
                }
            },
            ExecOut::Spent => {},
        }
    }
}

/// Two frames that bind exactly the same names, in the same order.
pub open spec fn same_names(f: FrameV, g: FrameV) -> bool {
    &&& g.len() == f.len()
    &&& forall|j: int| 0 <= j < f.len() ==> (#[trigger] g[j]).0 == f[j].0
}

pub proof fn lemma_same_names_trans(a: FrameV, b: FrameV, c: FrameV)
    requires
        same_names(a, b),
        same_names(b, c),
    ensures
        same_names(a, c),
{
}

/// Evaluating an expression never changes which names any scope binds:
/// assignments overwrite values in place.
pub proof fn lemma_eval_names(env: Seq<FrameV>, e: ExprV)
    ensures
        eval_expr_s(env, e).env.len() == env.len(),
        forall|i: int| 0 <= i < env.len() ==> same_names(
            env[i],
            #[trigger] eval_expr_s(env, e).env[i],
        ),
    decreases e, 0int,
{
    match e {
        ExprV::Literal { lit } => {},
        ExprV::Variable { name } => {},
        ExprV::Grouping { inner } => {
            lemma_eval_names(env, *inner);
        },
        ExprV::Unary { op, right } => {
            lemma_eval_names(env, *right);
        },
        ExprV::Binary { op, left, right } => {
            lemma_eval_names(env, *left);
            let lo = eval_expr_s(env, *left);
            if lo.res is Ok {
                lemma_eval_names(lo.env, *right);
                assert forall|i: int| 0 <= i < env.len() implies same_names(
                    env[i],
                    #[trigger] eval_expr_s(env, e).env[i],
                ) by {
                    lemma_same_names_trans(env[i], lo.env[i], eval_expr_s(lo.env, *right).env[i]);
                }
            }
        },
        ExprV::Logical { op, left, right } => {
            lemma_eval_names(env, *left);
            let lo = eval_expr_s(env, *left);
            if lo.res is Ok {
                lemma_eval_rhs_names(lo, op, *right);
                assert forall|i: int| 0 <= i < env.len() implies same_names(
                    env[i],
                    #[trigger] eval_expr_s(env, e).env[i],
                ) by {
                    lemma_same_names_trans(
                        env[i],
                        lo.env[i],
                        eval_logical_rhs(lo, op, *right).env[i],
                    );
                }
            }
        },
        ExprV::Assignment { name, val } => {
            lemma_eval_names(env, *val);
            let vo = eval_expr_s(env, *val);
            if vo.res is Ok {
                let rv = vo.res.unwrap();
                crate::environment::lemma_chain_assign_shape(vo.env, name, rv);
                match chain_assign(vo.env, name, rv) {
                    Option::Some(env2) => {
                        assert forall|i: int| 0 <= i < env.len() implies same_names(
                            env[i],
                            #[trigger] eval_expr_s(env, e).env[i],
                        ) by {
                            assert(same_names(vo.env[i], env2[i]));
                            lemma_same_names_trans(env[i], vo.env[i], env2[i]);
                        }
                    },
                    Option::None => {},
                }
            }
        },
    }
}

proof fn lemma_eval_rhs_names(lo: EvalOut, op: TokenV, right: ExprV)
    ensures
        eval_logical_rhs(lo, op, right).env.len() == lo.env.len(),
        forall|i: int| 0 <= i < lo.env.len() ==> same_names(
            lo.env[i],
            #[trigger] eval_logical_rhs(lo, op, right).env[i],
        ),
    decreases right, 1int,
{
    lemma_eval_names(lo.env, right);
}

/// A finished statement keeps the names of every enclosing scope: only
/// the innermost frame can gain bindings, and a block's frame is
/// discarded when it ends.
#[verifier::rlimit(100)]
#[verifier::spinoff_prover]
pub proof fn lemma_exec_stmt_names(env: Seq<FrameV>, s: StmtV, fuel: nat)
    requires
        env.len() >= 1,
    ensures
        exec_stmt_s(env, s, fuel) matches ExecOut::Done { env: e2, .. } ==> e2.len() == env.len()
            && forall|i: int| 0 <= i < env.len() - 1 ==> same_names(env[i], #[trigger] e2[i]),
    decreases fuel, s,
{
    match s {
        StmtV::Print(e) => {
            lemma_eval_names(env, e);
        },
        StmtV::Expression(e) => {
            lemma_eval_names(env, e);
        },
        StmtV::IntDecl(name, init) => {
            lemma_exec_decl_names(env, name, init, s);
        },
        StmtV::RealDecl(name, init) => {
            lemma_exec_decl_names(env, name, init, s);
        },
        StmtV::StrDecl(name, init) => {
            lemma_exec_decl_names(env, name, init, s);
        },
        StmtV::Block(ss) => {
            let pushed = env.push(Seq::empty());
            lemma_exec_stmts_names(pushed, ss, fuel);
            match exec_stmts_s(pushed, ss, fuel) {
                ExecOut::Done { env: d, .. } => {
                    assert forall|i: int| 0 <= i < env.len() - 1 implies same_names(
                        env[i],
                        #[trigger] d.drop_last()[i],
                    ) by {
                        assert(pushed[i] == env[i]);
                        assert(d.drop_last()[i] == d[i]);
                    }
                },
                ExecOut::Spent => {},
            }
        },
        StmtV::If(c, t, els) => {
            lemma_eval_names(env, c);
            let o = eval_expr_s(env, c);
            match o.res {
                Result::Ok(ValV::Bool(true)) => {
                    lemma_exec_stmt_names(o.env, *t, fuel);
                    lemma_exec_names_compose(env, o.env, exec_stmt_s(o.env, *t, fuel));
                },
                Result::Ok(ValV::Bool(false)) => {
                    match els {
                        Option::Some(el) => {
                            lemma_exec_stmt_names(o.env, *el, fuel);
                            lemma_exec_names_compose(env, o.env, exec_stmt_s(o.env, *el, fuel));
                        },
                        Option::None => {},
                    }
                },
                _ => {},
            }
        },
        StmtV::While(c, b) => {
            lemma_eval_names(env, c);
            let o = eval_expr_s(env, c);
            match o.res {
                Result::Ok(ValV::Bool(true)) => {
                    lemma_exec_stmt_names(o.env, *b, fuel);
                    lemma_exec_names_compose(env, o.env, exec_stmt_s(o.env, *b, fuel));
                    match exec_stmt_s(o.env, *b, fuel) {
                        ExecOut::Done { env: e2, lines: l2, ok } => {
                            if ok && fuel > 0 {
                                lemma_exec_stmt_names(e2, s, (fuel - 1) as nat);
                                match exec_stmt_s(e2, s, (fuel - 1) as nat) {
                                    ExecOut::Done { env: e3, .. } => {
                                        assert forall|i: int|
                                            0 <= i < env.len() - 1 implies same_names(
                                            env[i],
                                            #[trigger] e3[i],
                                        ) by {
                                            lemma_same_names_trans(env[i], o.env[i], e2[i]);
                                            lemma_same_names_trans(env[i], e2[i], e3[i]);
                                        }
                                    },
                                    ExecOut::Spent => {},
                                }
                            }
                        },
                        ExecOut::Spent => {},
                    }
                },
                _ => {},
            }
        },
    }
}

/// Composes name preservation across two stages: expression evaluation
/// (all frames) followed by statement execution (all but the last).
proof fn lemma_exec_names_compose(env0: Seq<FrameV>, env1: Seq<FrameV>, o: ExecOut)
    requires
        env1.len() == env0.len(),
        forall|i: int| 0 <= i < env0.len() ==> same_names(env0[i], #[trigger] env1[i]),
        o matches ExecOut::Done { env: e2, .. } ==> e2.len() == env1.len() && forall|i: int|
            0 <= i < env1.len() - 1 ==> same_names(env1[i], #[trigger] e2[i]),
    ensures
        o matches ExecOut::Done { env: e2, .. } ==> e2.len() == env0.len() && forall|i: int|
            0 <= i < env0.len() - 1 ==> same_names(env0[i], #[trigger] e2[i]),
{
    match o {
        ExecOut::Done { env: e2, .. } => {
            assert forall|i: int| 0 <= i < env0.len() - 1 implies same_names(
                env0[i],
                #[trigger] e2[i],
            ) by {
                lemma_same_names_trans(env0[i], env1[i], e2[i]);
            }
        },
        ExecOut::Spent => {},
    }
}

proof fn lemma_exec_decl_names(env: Seq<FrameV>, name: Seq<char>, init: Option<ExprV>, s: StmtV)
    requires
        env.len() >= 1,
    ensures
        exec_decl_s(env, name, init, s) matches ExecOut::Done { env: e2, .. } ==> e2.len()
            == env.len() && forall|i: int| 0 <= i < env.len() - 1 ==> same_names(
            env[i],
            #[trigger] e2[i],
        ),
{
    match init {
        Option::Some(e) => {
            lemma_eval_names(env, e);
            let o = eval_expr_s(env, e);
            match o.res {
                Result::Ok(v) => {
                    if decl_accepts(s, v) {
                        assert forall|i: int| 0 <= i < env.len() - 1 implies same_names(
                            env[i],
                            #[trigger] chain_define(o.env, name, v)[i],
                        ) by {
                            assert(chain_define(o.env, name, v)[i] == o.env[i]);
                        }
                    }
                },
                Result::Err(_) => {},
            }
        },
        Option::None => {
            assert forall|i: int| 0 <= i < env.len() - 1 implies same_names(
                env[i],
                #[trigger] chain_define(env, name, decl_zero(s))[i],
            ) by {
                assert(chain_define(env, name, decl_zero(s))[i] == env[i]);
            }
        },
    }
}

/// A finished statement list keeps the names of every enclosing scope.
pub proof fn lemma_exec_stmts_names(env: Seq<FrameV>, ss: Seq<StmtV>, fuel: nat)
    requires
        env.len() >= 1,
    ensures
        exec_stmts_s(env, ss, fuel) matches ExecOut::Done { env: e2, .. } ==> e2.len()
            == env.len() && forall|i: int| 0 <= i < env.len() - 1 ==> same_names(
            env[i],
            #[trigger] e2[i],
        ),
    decreases fuel, ss,
{
    if ss.len() > 0 {
        lemma_exec_stmt_names(env, ss.first(), fuel);
        match exec_stmt_s(env, ss.first(), fuel) {
            ExecOut::Done { env: e1, lines: l1, ok } => {
                if ok {
                    lemma_exec_stmts_names(e1, ss.drop_first(), fuel);
                    match exec_stmts_s(e1, ss.drop_first(), fuel) {
                        ExecOut::Done { env: e2, .. } => {
                            assert forall|i: int| 0 <= i < env.len() - 1 implies same_names(
                                env[i],
                                #[trigger] e2[i],
                            ) by {
                                lemma_same_names_trans(env[i], e1[i], e2[i]);
                            }
                        },
                        ExecOut::Spent => {},
                    }
                }
            },
            ExecOut::Spent => {},
        }
    }
}

/// More fuel never changes a finished outcome, it only lets more runs
/// finish: the `Done` outcome of a statement is unique.
pub proof fn lemma_exec_stmt_mono(env: Seq<FrameV>, s: StmtV, f1: nat, f2: nat)
    requires
        f1 <= f2,
        exec_stmt_s(env, s, f1) is Done,
    ensures
        exec_stmt_s(env, s, f2) == exec_stmt_s(env, s, f1),
    decreases f1, s,
{
    match s {
        StmtV::Block(ss) => {
            lemma_exec_stmts_mono(env.push(Seq::empty()), ss, f1, f2);
        },
        StmtV::If(c, t, els) => {
            let o = eval_expr_s(env, c);
            match o.res {
                Result::Ok(ValV::Bool(true)) => {
                    lemma_exec_stmt_mono(o.env, *t, f1, f2);
                },
                Result::Ok(ValV::Bool(false)) => {
                    match els {
                        Option::Some(el) => {
                            lemma_exec_stmt_mono(o.env, *el, f1, f2);
                        },
                        Option::None => {},
                    }
                },
                _ => {},
            }
        },
        StmtV::While(c, b) => {
            let o = eval_expr_s(env, c);
            match o.res {
                Result::Ok(ValV::Bool(true)) => {
                    lemma_exec_stmt_mono(o.env, *b, f1, f2);
                    match exec_stmt_s(o.env, *b, f1) {
                        ExecOut::Done { env: e2, lines: l2, ok } => {
                            if ok {
                                lemma_exec_stmt_mono(e2, s, (f1 - 1) as nat, (f2 - 1) as nat);
                            }
                        },
                        ExecOut::Spent => {},
                    }
                },
                _ => {},
            }
        },
        _ => {},
    }
}

/// More fuel never changes a finished outcome of a statement list.
pub proof fn lemma_exec_stmts_mono(env: Seq<FrameV>, ss: Seq<StmtV>, f1: nat, f2: nat)
    requires
        f1 <= f2,
        exec_stmts_s(env, ss, f1) is Done,
    ensures
        exec_stmts_s(env, ss, f2) == exec_stmts_s(env, ss, f1),
    decreases f1, ss,
{
    if ss.len() == 0 {
    } else {
        lemma_exec_stmt_mono(env, ss.first(), f1, f2);
        match exec_stmt_s(env, ss.first(), f1) {
            ExecOut::Done { env: e1, lines: l1, ok } => {
                if ok {
                    lemma_exec_stmts_mono(e1, ss.drop_first(), f1, f2);
                }
            },
            ExecOut::Spent => {},
        }
    }
}

} // verus!
