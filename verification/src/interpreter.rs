//! The AST-walking evaluator.
//!
//! Each function is proved to produce exactly the outcome of the
//! big-step semantics in `semantics`: the same environment, the same
//! output and diagnostic lines (appended to `out`), and the same
//! success or failure.  The only state carried across top-level
//! statements is the current environment.

use vstd::prelude::*;
use vstd::string::*;
use crate::environment::{
    Environment, FrameV, chain_get, chain_assign, lemma_chain_get_assign,
};
use crate::error::RuntimeError;
use crate::expr::{Expr, ExprV, Literal, Binary, Unary, Grouping, Assignment, Variable, Logical};
use crate::ieee32::{real_add, real_sub, real_mul, real_div, real_lt, real_le, real_gt, real_ge, real_eq};
use crate::semantics::{
    eval_expr_s, eval_logical_rhs, EvalOut, ExecOut, exec_stmt_s, exec_stmts_s, exec_decl_s,
    at_lexeme, undef_line, lines_from, lemma_lines_from_refl, lemma_lines_from_push,
    lemma_lines_from_trans, lemma_exec_stmt_mono, lemma_exec_stmts_mono, lemma_exec_stmt_len,
    lemma_exec_stmts_len,
};
use crate::stmt::{Stmt, StmtType, StmtV, stmts_view};
use crate::token::TokenType;
use crate::value::{Value, ValV};
use crate::report;

verus! {

/// What the contract of every expression-evaluating function says: the
/// outcome demanded by `eval_expr_s` on the starting environment, with
/// its lines appended to the output.
pub open spec fn eval_post(
    env0: Seq<FrameV>,
    e: ExprV,
    out0: Seq<String>,
    out1: Seq<String>,
    env1: Seq<FrameV>,
    res: Result<Value, RuntimeError>,
) -> bool {
    let o = eval_expr_s(env0, e);
    &&& out0.is_prefix_of(out1)
    &&& o.env == env1
    &&& o.lines == lines_from(out0, out1)
    &&& match res {
        Result::Ok(v) => o.res == Result::<ValV, ()>::Ok(v@),
        Result::Err(_) => o.res is Err,
    }
}

/// Builds the ` at '<lexeme>'` location part of a diagnostic.
fn at_text(lexeme: &String) -> (r: String)
    ensures
        r@ == at_lexeme(lexeme@),
{
    let mut s = " at '".to_owned();
    s.append(lexeme.as_str());
    s.append("'");
    proof {
        assert(s@ =~= at_lexeme(lexeme@));
    }
    s
}

/// Builds the `undefined variable <name>` diagnostic.
fn undef_text(name: &String) -> (r: String)
    ensures
        r@ == undef_line(name@),
{
    let mut s = "undefined variable ".to_owned();
    s.append(name.as_str());
    s
}

/// Evaluates one expression against the given environment, appending
/// any diagnostics to `out`.
pub fn eval_expr(env: Environment, e: &Expr, out: &mut Vec<String>) -> (r: (
    Environment,
    Result<Value, RuntimeError>,
))
    ensures
        eval_post(env@, e@, old(out)@, final(out)@, r.0@, r.1),
    decreases *e, 0int,
{
    match e {
        Expr::Binary(b) => Interpreter::visit_binary(env, &**b, out),
        Expr::Unary(u) => Interpreter::visit_unary(env, &**u, out),
        Expr::Grouping(g) => Interpreter::visit_grouping(env, &**g, out),
        Expr::Literal(l) => Interpreter::visit_literal(env, l, out),
        Expr::Assignment(a) => Interpreter::visit_assignment(env, &**a, out),
        Expr::Variable(v) => Interpreter::visit_variable(env, v, out),
        Expr::Logical(l) => Interpreter::visit_logical(env, &**l, out),
    }
}

/// The interpreter: its state across top-level statements is the
/// current environment.
pub struct Interpreter {
    cur_env: Environment,
}

impl View for Interpreter {
    type V = Seq<FrameV>;

    closed spec fn view(&self) -> Seq<FrameV> {
        self.cur_env@
    }
}

impl Interpreter {
    /// A fresh interpreter: one empty global scope.
    pub fn new() -> (r: Self)
        ensures
            r@ == seq![Seq::<(Seq<char>, ValV)>::empty()],
    {
        Interpreter { cur_env: Environment::new(Option::None) }
    }

    /// A binary operator: evaluate both operands eagerly, left first,
    /// then apply the operator as `apply_binary` describes.
    pub fn visit_binary(env: Environment, e: &Binary, out: &mut Vec<String>) -> (r: (
        Environment,
        Result<Value, RuntimeError>,
    ))
        ensures
            eval_post(
                env@,
                ExprV::Binary { op: e.operator@, left: Box::new(e.left@), right: Box::new(e.right@) },
                old(out)@,
                final(out)@,
                r.0@,
                r.1,
            ),
        decreases *e, 1int,
    {
        let ghost out0 = out@;
        let (env1, lr) = eval_expr(env, &e.left, out);
        let lv = match lr {
            Result::Ok(v) => v,
            Result::Err(er) => {
                return (env1, Result::Err(er));
            },
        };
        let ghost out_l = out@;
        let (env2, rr) = eval_expr(env1, &e.right, out);
        let rv = match rr {
            Result::Ok(v) => v,
            Result::Err(er) => {
                proof {
                    lemma_lines_from_trans(out0, out_l, out@);
                }
                return (env2, Result::Err(er));
            },
        };
        proof {
            lemma_lines_from_trans(out0, out_l, out@);
        }
        let ghost out_r = out@;
        match &e.operator.t_type {
            TokenType::Plus => match (lv, rv) {
                (Value::RealVal(a), Value::RealVal(b)) => (
                    env2,
                    Result::Ok(Value::RealVal(real_add(a, b))),
                ),
                (Value::IntVal(a), Value::IntVal(b)) => (
                    env2,
                    Result::Ok(Value::IntVal(a.wrapping_add(b))),
                ),
                _ => {
                    let d = report(
                        e.operator.line,
                        at_text(&e.operator.lexeme).as_str(),
                        "binary expression type mismatch",
                    );
                    out.push(d);
                    proof {
                        lemma_lines_from_push(out0, out_r, out@.last());
                        assert(eval_expr_s(env@, ExprV::Binary {
                            op: e.operator@,
                            left: Box::new(e.left@),
                            right: Box::new(e.right@),
                        }).lines =~= lines_from(out0, out@));
                    }
                    (env2, Result::Err(RuntimeError {}))
                },
            },
            TokenType::Minus => match (lv, rv) {
                (Value::RealVal(a), Value::RealVal(b)) => (
                    env2,
                    Result::Ok(Value::RealVal(real_sub(a, b))),
                ),
                (Value::IntVal(a), Value::IntVal(b)) => (
                    env2,
                    Result::Ok(Value::IntVal(a.wrapping_sub(b))),
                ),
                _ => {
                    let d = report(
                        e.operator.line,
                        at_text(&e.operator.lexeme).as_str(),
                        "binary expression type mismatch",
                    );
                    out.push(d);
                    proof {
                        lemma_lines_from_push(out0, out_r, out@.last());
                        assert(eval_expr_s(env@, ExprV::Binary {
                            op: e.operator@,
                            left: Box::new(e.left@),
                            right: Box::new(e.right@),
                        }).lines =~= lines_from(out0, out@));
                    }
                    (env2, Result::Err(RuntimeError {}))
                },
            },
            TokenType::Slash => match (lv, rv) {
                (Value::RealVal(a), Value::RealVal(b)) => (
                    env2,
                    Result::Ok(Value::RealVal(real_div(a, b))),
                ),
                (Value::IntVal(a), Value::IntVal(b)) => {
                    if b == 0 {
                        let d = report(
                            e.operator.line,
                            at_text(&e.operator.lexeme).as_str(),
                            "integer division by zero",
                        );
                        out.push(d);
                        proof {
                            lemma_lines_from_push(out0, out_r, out@.last());
                            assert(eval_expr_s(env@, ExprV::Binary {
                                op: e.operator@,
                                left: Box::new(e.left@),
                                right: Box::new(e.right@),
                            }).lines =~= lines_from(out0, out@));
                        }
                        (env2, Result::Err(RuntimeError {}))
                    } else {
                        (env2, Result::Ok(Value::IntVal(a / b)))
                    }
                },
                _ => {
                    let d = report(
                        e.operator.line,
                        at_text(&e.operator.lexeme).as_str(),
                        "binary expression type mismatch",
                    );
                    out.push(d);
                    proof {
                        lemma_lines_from_push(out0, out_r, out@.last());
                        assert(eval_expr_s(env@, ExprV::Binary {
                            op: e.operator@,
                            left: Box::new(e.left@),
                            right: Box::new(e.right@),
                        }).lines =~= lines_from(out0, out@));
                    }
                    (env2, Result::Err(RuntimeError {}))
                },
            },
            TokenType::Star => match (lv, rv) {
                (Value::RealVal(a), Value::RealVal(b)) => (
                    env2,
                    Result::Ok(Value::RealVal(real_mul(a, b))),
                ),
                (Value::IntVal(a), Value::IntVal(b)) => (
                    env2,
                    Result::Ok(Value::IntVal(a.wrapping_mul(b))),
                ),
                _ => {
                    let d = report(
                        e.operator.line,
                        at_text(&e.operator.lexeme).as_str(),
                        "binary expression type mismatch",
                    );
                    out.push(d);
                    proof {
                        lemma_lines_from_push(out0, out_r, out@.last());
                        assert(eval_expr_s(env@, ExprV::Binary {
                            op: e.operator@,
                            left: Box::new(e.left@),
                            right: Box::new(e.right@),
                        }).lines =~= lines_from(out0, out@));
                    }
                    (env2, Result::Err(RuntimeError {}))
                },
            },
            TokenType::Greater => match (lv, rv) {
                (Value::RealVal(a), Value::RealVal(b)) => (
                    env2,
                    Result::Ok(Value::BoolVal(real_gt(a, b))),
                ),
                (Value::IntVal(a), Value::IntVal(b)) => (env2, Result::Ok(Value::BoolVal(a > b))),
                _ => {
                    let d = report(
                        e.operator.line,
                        at_text(&e.operator.lexeme).as_str(),
                        "binary expression type mismatch",
                    );
                    out.push(d);
                    proof {
                        lemma_lines_from_push(out0, out_r, out@.last());
                        assert(eval_expr_s(env@, ExprV::Binary {
                            op: e.operator@,
                            left: Box::new(e.left@),
                            right: Box::new(e.right@),
                        }).lines =~= lines_from(out0, out@));
                    }
                    (env2, Result::Err(RuntimeError {}))
                },
            },
            TokenType::GreaterEqual => match (lv, rv) {
                (Value::RealVal(a), Value::RealVal(b)) => (
                    env2,
                    Result::Ok(Value::BoolVal(real_ge(a, b))),
                ),
                (Value::IntVal(a), Value::IntVal(b)) => (env2, Result::Ok(Value::BoolVal(a >= b))),
                _ => {
                    let d = report(
                        e.operator.line,
                        at_text(&e.operator.lexeme).as_str(),
                        "binary expression type mismatch",
                    );
                    out.push(d);
                    proof {
                        lemma_lines_from_push(out0, out_r, out@.last());
                        assert(eval_expr_s(env@, ExprV::Binary {
                            op: e.operator@,
                            left: Box::new(e.left@),
                            right: Box::new(e.right@),
                        }).lines =~= lines_from(out0, out@));
                    }
                    (env2, Result::Err(RuntimeError {}))
                },
            },
            TokenType::Less => match (lv, rv) {
                (Value::RealVal(a), Value::RealVal(b)) => (
                    env2,
                    Result::Ok(Value::BoolVal(real_lt(a, b))),
                ),
                (Value::IntVal(a), Value::IntVal(b)) => (env2, Result::Ok(Value::BoolVal(a < b))),
                _ => {
                    let d = report(
                        e.operator.line,
                        at_text(&e.operator.lexeme).as_str(),
                        "binary expression type mismatch",
                    );
                    out.push(d);
                    proof {
                        lemma_lines_from_push(out0, out_r, out@.last());
                        assert(eval_expr_s(env@, ExprV::Binary {
                            op: e.operator@,
                            left: Box::new(e.left@),
                            right: Box::new(e.right@),
                        }).lines =~= lines_from(out0, out@));
                    }
                    (env2, Result::Err(RuntimeError {}))
                },
            },
            TokenType::LessEqual => match (lv, rv) {
                (Value::RealVal(a), Value::RealVal(b)) => (
                    env2,
                    Result::Ok(Value::BoolVal(real_le(a, b))),
                ),
                (Value::IntVal(a), Value::IntVal(b)) => (env2, Result::Ok(Value::BoolVal(a <= b))),
                _ => {
                    let d = report(
                        e.operator.line,
                        at_text(&e.operator.lexeme).as_str(),
                        "binary expression type mismatch",
                    );
                    out.push(d);
                    proof {
                        lemma_lines_from_push(out0, out_r, out@.last());
                        assert(eval_expr_s(env@, ExprV::Binary {
                            op: e.operator@,
                            left: Box::new(e.left@),
                            right: Box::new(e.right@),
                        }).lines =~= lines_from(out0, out@));
                    }
                    (env2, Result::Err(RuntimeError {}))
                },
            },
            TokenType::EqualEqual => match (lv, rv) {
                (Value::RealVal(a), Value::RealVal(b)) => (
                    env2,
                    Result::Ok(Value::BoolVal(real_eq(a, b))),
                ),
                (Value::IntVal(a), Value::IntVal(b)) => (env2, Result::Ok(Value::BoolVal(a == b))),
                (Value::BoolVal(a), Value::BoolVal(b)) => (
                    env2,
                    Result::Ok(Value::BoolVal(a == b)),
                ),
                (Value::NilVal, Value::NilVal) => (env2, Result::Ok(Value::BoolVal(true))),
                _ => {
                    let d = report(
                        e.operator.line,
                        at_text(&e.operator.lexeme).as_str(),
                        "binary expression type mismatch",
                    );
                    out.push(d);
                    proof {
                        lemma_lines_from_push(out0, out_r, out@.last());
                        assert(eval_expr_s(env@, ExprV::Binary {
                            op: e.operator@,
                            left: Box::new(e.left@),
                            right: Box::new(e.right@),
                        }).lines =~= lines_from(out0, out@));
                    }
                    (env2, Result::Err(RuntimeError {}))
                },
            },
            TokenType::BangEqual => match (lv, rv) {
                (Value::RealVal(a), Value::RealVal(b)) => (
                    env2,
                    Result::Ok(Value::BoolVal(!real_eq(a, b))),
                ),
                (Value::IntVal(a), Value::IntVal(b)) => (env2, Result::Ok(Value::BoolVal(a != b))),
                (Value::BoolVal(a), Value::BoolVal(b)) => (
                    env2,
                    Result::Ok(Value::BoolVal(a != b)),
                ),
                (Value::NilVal, Value::NilVal) => (env2, Result::Ok(Value::BoolVal(false))),
                _ => {
                    let d = report(
                        e.operator.line,
                        at_text(&e.operator.lexeme).as_str(),
                        "binary expression type mismatch",
                    );
                    out.push(d);
                    proof {
                        lemma_lines_from_push(out0, out_r, out@.last());
                        assert(eval_expr_s(env@, ExprV::Binary {
                            op: e.operator@,
                            left: Box::new(e.left@),
                            right: Box::new(e.right@),
                        }).lines =~= lines_from(out0, out@));
                    }
                    (env2, Result::Err(RuntimeError {}))
                },
            },
            _ => {
                let mut d = "binary operator '".to_owned();
                d.append(e.operator.lexeme.as_str());
                d.append("' supported in parser but not in evaluate");
                out.push(d);
                proof {
                    lemma_lines_from_push(out0, out_r, out@.last());
                    assert(out@.last()@ =~= "binary operator '"@ + e.operator.lexeme@
                        + "' supported in parser but not in evaluate"@);
                    assert(eval_expr_s(env@, ExprV::Binary {
                        op: e.operator@,
                        left: Box::new(e.left@),
                        right: Box::new(e.right@),
                    }).lines =~= lines_from(out0, out@));
                }
                (env2, Result::Err(RuntimeError {}))
            },
        }
    }

    /// A parenthesized expression yields the inner expression's value.
    pub fn visit_grouping(env: Environment, e: &Grouping, out: &mut Vec<String>) -> (r: (
        Environment,
        Result<Value, RuntimeError>,
    ))
        ensures
            eval_post(
                env@,
                ExprV::Grouping { inner: Box::new(e.expression@) },
                old(out)@,
                final(out)@,
                r.0@,
                r.1,
            ),
        decreases *e, 1int,
    {
        eval_expr(env, &e.expression, out)
    }

    /// A literal yields the corresponding value.
    pub fn visit_literal(env: Environment, e: &Literal, out: &mut Vec<String>) -> (r: (
        Environment,
        Result<Value, RuntimeError>,
    ))
        ensures
            eval_post(env@, ExprV::Literal { lit: e@ }, old(out)@, final(out)@, r.0@, r.1),
    {
        let v = match e {
            Literal::StrLit(s) => Value::StrVal(s.clone()),
            Literal::RealLit(b) => Value::RealVal(*b),
            Literal::IntLit(i) => Value::IntVal(*i),
            Literal::BoolLit(b) => Value::BoolVal(*b),
            Literal::NilLit => Value::NilVal,
        };
        proof {
            lemma_lines_from_refl(out@);
        }
        (env, Result::Ok(v))
    }

    /// Unary `-` negates a real; unary `!` inverts a boolean; anything
    /// else is a type error.
    pub fn visit_unary(env: Environment, e: &Unary, out: &mut Vec<String>) -> (r: (
        Environment,
        Result<Value, RuntimeError>,
    ))
        ensures
            eval_post(
                env@,
                ExprV::Unary { op: e.operator@, right: Box::new(e.right@) },
                old(out)@,
                final(out)@,
                r.0@,
                r.1,
            ),
        decreases *e, 1int,
    {
        let ghost out0 = out@;
        let (env1, rr) = eval_expr(env, &e.right, out);
        let rv = match rr {
            Result::Ok(v) => v,
            Result::Err(er) => {
                return (env1, Result::Err(er));
            },
        };
        let ghost out_r = out@;
        match &e.operator.t_type {
            TokenType::Minus => match rv {
                Value::RealVal(b) => (env1, Result::Ok(Value::RealVal(b ^ 0x8000_0000u32))),
                _ => {
                    let d = report(
                        e.operator.line,
                        at_text(&e.operator.lexeme).as_str(),
                        "type incompatible with operator",
                    );
                    out.push(d);
                    proof {
                        lemma_lines_from_push(out0, out_r, out@.last());
                        assert(eval_expr_s(env@, ExprV::Unary {
                            op: e.operator@,
                            right: Box::new(e.right@),
                        }).lines =~= lines_from(out0, out@));
                    }
                    (env1, Result::Err(RuntimeError {}))
                },
            },
            TokenType::Bang => match rv {
                Value::BoolVal(b) => (env1, Result::Ok(Value::BoolVal(!b))),
                _ => {
                    let d = report(
                        e.operator.line,
                        at_text(&e.operator.lexeme).as_str(),
                        "type incompatible with operator",
                    );
                    out.push(d);
                    proof {
                        lemma_lines_from_push(out0, out_r, out@.last());
                        assert(eval_expr_s(env@, ExprV::Unary {
                            op: e.operator@,
                            right: Box::new(e.right@),
                        }).lines =~= lines_from(out0, out@));
                    }
                    (env1, Result::Err(RuntimeError {}))
                },
            },
            _ => {
                let mut d = "unary operator '".to_owned();
                d.append(e.operator.lexeme.as_str());
                d.append("' supported in parser but not in evaluate");
                out.push(d);
                proof {
                    lemma_lines_from_push(out0, out_r, out@.last());
                    assert(out@.last()@ =~= "unary operator '"@ + e.operator.lexeme@
                        + "' supported in parser but not in evaluate"@);
                    assert(eval_expr_s(env@, ExprV::Unary {
                        op: e.operator@,
                        right: Box::new(e.right@),
                    }).lines =~= lines_from(out0, out@));
                }
                (env1, Result::Err(RuntimeError {}))
            },
        }
    }

    /// A variable reference yields its current value and fails exactly
    /// when the name is unbound.
    pub fn visit_variable(env: Environment, e: &Variable, out: &mut Vec<String>) -> (r: (
        Environment,
        Result<Value, RuntimeError>,
    ))
        ensures
            eval_post(
                env@,
                ExprV::Variable { name: e.name@ },
                old(out)@,
                final(out)@,
                r.0@,
                r.1,
            ),
    {
        match env.get(&e.name) {
            Result::Ok(v) => {
                proof {
                    lemma_lines_from_refl(out@);
                }
                (env, Result::Ok(v))
            },
            Result::Err(_) => {
                let d = undef_text(&e.name);
                out.push(d);
                proof {
                    lemma_lines_from_refl(old(out)@);
                    lemma_lines_from_push(old(out)@, old(out)@, out@.last());
                    assert(eval_expr_s(env@, ExprV::Variable { name: e.name@ }).lines
                        =~= lines_from(old(out)@, out@));
                }
                (env, Result::Err(RuntimeError {}))
            },
        }
    }

    /// `and` and `or` short-circuit on a boolean left operand; when the
    /// right operand is reached it must be boolean too and is the
    /// result.
    pub fn visit_logical(env: Environment, e: &Logical, out: &mut Vec<String>) -> (r: (
        Environment,
        Result<Value, RuntimeError>,
    ))
        ensures
            eval_post(
                env@,
                ExprV::Logical {
                    op: e.operator@,
                    left: Box::new(e.left@),
                    right: Box::new(e.right@),
                },
                old(out)@,
                final(out)@,
                r.0@,
                r.1,
            ),
        decreases *e, 1int,
    {
        let ghost out0 = out@;
        let (env1, lr) = eval_expr(env, &e.left, out);
        let lv = match lr {
            Result::Ok(v) => v,
            Result::Err(er) => {
                return (env1, Result::Err(er));
            },
        };
        let ghost out_l = out@;
        let short = match &e.operator.t_type {
            TokenType::Or => match &lv {
                Value::BoolVal(b) => {
                    if *b {
                        return (env1, Result::Ok(Value::BoolVal(true)));
                    }
                    true
                },
                _ => {
                    let d = report(
                        e.operator.line,
                        at_text(&e.operator.lexeme).as_str(),
                        "non boolean value in logical expression",
                    );
                    out.push(d);
                    proof {
                        lemma_lines_from_push(out0, out_l, out@.last());
                        assert(eval_expr_s(env@, ExprV::Logical {
                            op: e.operator@,
                            left: Box::new(e.left@),
                            right: Box::new(e.right@),
                        }).lines =~= lines_from(out0, out@));
                    }
                    return (env1, Result::Err(RuntimeError {}));
                },
            },
            TokenType::And => match &lv {
                Value::BoolVal(b) => {
                    if !*b {
                        return (env1, Result::Ok(Value::BoolVal(false)));
                    }
                    true
                },
                _ => {
                    let d = report(
                        e.operator.line,
                        at_text(&e.operator.lexeme).as_str(),
                        "non boolean value in logical expression",
                    );
                    out.push(d);
                    proof {
                        lemma_lines_from_push(out0, out_l, out@.last());
                        assert(eval_expr_s(env@, ExprV::Logical {
                            op: e.operator@,
                            left: Box::new(e.left@),
                            right: Box::new(e.right@),
                        }).lines =~= lines_from(out0, out@));
                    }
                    return (env1, Result::Err(RuntimeError {}));
                },
            },
            _ => {
                let mut d = "logical operator '".to_owned();
                d.append(e.operator.lexeme.as_str());
                d.append("' supported in parser but not in evaluate");
                out.push(d);
                proof {
                    lemma_lines_from_push(out0, out_l, out@.last());
                    assert(out@.last()@ =~= "logical operator '"@ + e.operator.lexeme@
                        + "' supported in parser but not in evaluate"@);
                    assert(eval_expr_s(env@, ExprV::Logical {
                        op: e.operator@,
                        left: Box::new(e.left@),
                        right: Box::new(e.right@),
                    }).lines =~= lines_from(out0, out@));
                }
                return (env1, Result::Err(RuntimeError {}));
            },
        };
        proof {
            assert(short);
            let lo = eval_expr_s(env@, e.left@);
            assert(lo.res == Result::<ValV, ()>::Ok(lv@));
            assert(lv@ is Bool);
            assert(eval_expr_s(
                env@,
                ExprV::Logical {
                    op: e.operator@,
                    left: Box::new(e.left@),
                    right: Box::new(e.right@),
                },
            ) == eval_logical_rhs(lo, e.operator@, e.right@));
        }
        let (env2, rr) = eval_expr(env1, &e.right, out);
        let ghost out_r = out@;
        proof {
            lemma_lines_from_trans(out0, out_l, out@);
        }
        match rr {
            Result::Ok(Value::BoolVal(b)) => (env2, Result::Ok(Value::BoolVal(b))),
            Result::Ok(_) => {
                let d = report(
                    e.operator.line,
                    at_text(&e.operator.lexeme).as_str(),
                    "non boolean value in logical expression",
                );
                out.push(d);
                proof {
                    lemma_lines_from_push(out0, out_r, out@.last());
                    assert(eval_expr_s(env@, ExprV::Logical {
                        op: e.operator@,
                        left: Box::new(e.left@),
                        right: Box::new(e.right@),
                    }).lines =~= lines_from(out0, out@));
                }
                (env2, Result::Err(RuntimeError {}))
            },
            Result::Err(er) => (env2, Result::Err(er)),
        }
    }

    /// An assignment evaluates its right-hand side, requires the
    /// variable to exist and the value to match its current type, then
    /// overwrites the binding and yields the assigned value.
    pub fn visit_assignment(env: Environment, e: &Assignment, out: &mut Vec<String>) -> (r: (
        Environment,
        Result<Value, RuntimeError>,
    ))
        ensures
            eval_post(
                env@,
                ExprV::Assignment { name: e.name@, val: Box::new(e.val@) },
                old(out)@,
                final(out)@,
                r.0@,
                r.1,
            ),
        decreases *e, 1int,
    {
        let ghost out0 = out@;
        let (mut env1, vr) = eval_expr(env, &e.val, out);
        let rv = match vr {
            Result::Ok(v) => v,
            Result::Err(er) => {
                return (env1, Result::Err(er));
            },
        };
        let ghost out_v = out@;
        let lv = match env1.get(&e.name) {
            Result::Ok(v) => v,
            Result::Err(_) => {
                let d = undef_text(&e.name);
                out.push(d);
                proof {
                    lemma_lines_from_push(out0, out_v, out@.last());
                    assert(eval_expr_s(env@, ExprV::Assignment {
                        name: e.name@,
                        val: Box::new(e.val@),
                    }).lines =~= lines_from(out0, out@));
                }
                return (env1, Result::Err(RuntimeError {}));
            },
        };
        let compatible = match (&lv, &rv) {
            (Value::IntVal(_), Value::IntVal(_)) => true,
            (Value::RealVal(_), Value::RealVal(_)) => true,
            (Value::StrVal(_), Value::StrVal(_)) => true,
            (Value::NilVal, Value::NilVal) => true,
            _ => false,
        };
        if compatible {
            let ar = env1.assign(&e.name, &rv);
            match ar {
                Result::Ok(_) => (env1, Result::Ok(rv)),
                Result::Err(_) => {
                    proof {
                        lemma_chain_get_assign(
                            eval_expr_s(env@, e.val@).env,
                            e.name@,
                            rv@,
                        );
                        assert(false);
                    }
                    (env1, Result::Err(RuntimeError {}))
                },
            }
        } else {
            let mut d = "type mismatch in ".to_owned();
            d.append(lv.to_text().as_str());
            d.append(" and ");
            d.append(rv.to_text().as_str());
            out.push(d);
            proof {
                lemma_lines_from_push(out0, out_v, out@.last());
                assert(out@.last()@ =~= "type mismatch in "@
                    + crate::value::value_text(lv@) + " and "@
                    + crate::value::value_text(rv@));
                assert(eval_expr_s(env@, ExprV::Assignment {
                    name: e.name@,
                    val: Box::new(e.val@),
                }).lines =~= lines_from(out0, out@));
            }
            (env1, Result::Err(RuntimeError {}))
        }
    }
}

/// How statement execution can end: finished with a result, or out of
/// fuel (the loop budget was exhausted).
pub enum StmtOutcome {
    Finished(Result<(), RuntimeError>),
    Exhausted,
}

/// The loop budget of a run: enough iterations for any program whose
/// loops one could wait for.
pub open spec fn run_fuel() -> nat {
    0xffff_ffff_ffff_ffff
}

/// What the contract of every statement-executing function says: the
/// exact outcome demanded by `exec_stmt_s` at the same fuel.
pub open spec fn stmt_fuel_post(
    env0: Seq<FrameV>,
    s: StmtV,
    fuel: nat,
    out0: Seq<String>,
    out1: Seq<String>,
    env1: Seq<FrameV>,
    r: StmtOutcome,
) -> bool {
    &&& out0.is_prefix_of(out1)
    &&& match r {
        StmtOutcome::Finished(res) => exec_stmt_s(env0, s, fuel) == (ExecOut::Done {
            env: env1,
            lines: lines_from(out0, out1),
            ok: res is Ok,
        }),
        StmtOutcome::Exhausted => exec_stmt_s(env0, s, fuel) is Spent,
    }
}

/// The same, for a statement list.
pub open spec fn stmts_fuel_post(
    env0: Seq<FrameV>,
    ss: Seq<StmtV>,
    fuel: nat,
    out0: Seq<String>,
    out1: Seq<String>,
    env1: Seq<FrameV>,
    r: StmtOutcome,
) -> bool {
    &&& out0.is_prefix_of(out1)
    &&& match r {
        StmtOutcome::Finished(res) => exec_stmts_s(env0, ss, fuel) == (ExecOut::Done {
            env: env1,
            lines: lines_from(out0, out1),
            ok: res is Ok,
        }),
        StmtOutcome::Exhausted => exec_stmts_s(env0, ss, fuel) is Spent,
    }
}

/// How a statement-list run relates a processed prefix to the whole:
/// whatever the remainder does, the whole list does, with the lines
/// written so far in front.
pub open spec fn stmts_match(
    env0: Seq<FrameV>,
    all: Seq<StmtV>,
    fuel: nat,
    rest_out: ExecOut,
    sofar: Seq<Seq<char>>,
) -> bool {
    match rest_out {
        ExecOut::Spent => exec_stmts_s(env0, all, fuel) is Spent,
        ExecOut::Done { env: e, lines: l, ok } => exec_stmts_s(env0, all, fuel) == (ExecOut::Done {
            env: e,
            lines: sofar + l,
            ok,
        }),
    }
}

/// How one loop iteration relates the whole while statement to its
/// remainder: whatever the remainder does with the remaining fuel, the
/// whole statement does with the original fuel, with the lines written
/// so far in front.
pub open spec fn wloop_inv(
    env0: Seq<FrameV>,
    sv: StmtV,
    fuel: nat,
    cur: Seq<FrameV>,
    f: nat,
    sofar: Seq<Seq<char>>,
) -> bool {
    match exec_stmt_s(cur, sv, f) {
        ExecOut::Spent => exec_stmt_s(env0, sv, fuel) is Spent,
        ExecOut::Done { env: e, lines: l, ok } => exec_stmt_s(env0, sv, fuel) == (ExecOut::Done {
            env: e,
            lines: sofar + l,
            ok,
        }),
    }
}

/// One unrolling of the while loop preserves `wloop_inv`.
pub proof fn lemma_wloop_step(
    env0: Seq<FrameV>,
    sv: StmtV,
    fuel: nat,
    cur: Seq<FrameV>,
    f: nat,
    cur2: Seq<FrameV>,
    sofar: Seq<Seq<char>>,
    cond_lines: Seq<Seq<char>>,
    body_lines: Seq<Seq<char>>,
)
    requires
        sv is While,
        f > 0,
        wloop_inv(env0, sv, fuel, cur, f, sofar),
        ({
            let o = eval_expr_s(cur, sv->While_0);
            &&& o.res == Result::<ValV, ()>::Ok(ValV::Bool(true))
            &&& o.lines == cond_lines
            &&& exec_stmt_s(o.env, *sv->While_1, f) == (ExecOut::Done {
                env: cur2,
                lines: body_lines,
                ok: true,
            })
        }),
    ensures
        wloop_inv(env0, sv, fuel, cur2, (f - 1) as nat, sofar + cond_lines + body_lines),
{
    let o = eval_expr_s(cur, sv->While_0);
    match exec_stmt_s(cur2, sv, (f - 1) as nat) {
        ExecOut::Spent => {
            assert(exec_stmt_s(cur, sv, f) is Spent);
        },
        ExecOut::Done { env: e3, lines: l3, ok: ok3 } => {
            assert(exec_stmt_s(cur, sv, f) == (ExecOut::Done {
                env: e3,
                lines: cond_lines + body_lines + l3,
                ok: ok3,
            }));
            assert(sofar + (cond_lines + body_lines + l3) =~= (sofar + cond_lines + body_lines)
                + l3);
        },
    }
}

/// The models of a statement list decompose as the list does.
pub proof fn lemma_stmts_view_first(ss: Seq<Stmt>)
    requires
        ss.len() > 0,
    ensures
        stmts_view(ss).len() == ss.len(),
        stmts_view(ss).first() == crate::stmt::stmt_view(ss.first()),
        stmts_view(ss).drop_first() == stmts_view(ss.drop_first()),
{
    lemma_stmts_view_len(ss);
    lemma_stmts_view_len(ss.drop_first());
    assert(stmts_view(ss).drop_first() =~= stmts_view(ss.drop_first()));
}

/// A statement list's model has one model per statement.
pub proof fn lemma_stmts_view_len(ss: Seq<Stmt>)
    ensures
        stmts_view(ss).len() == ss.len(),
    decreases ss.len(),
{
    if ss.len() > 0 {
        lemma_stmts_view_len(ss.drop_first());
    }
}

impl Interpreter {
    /// Executes one statement.
    pub fn exec_stmt(env: Environment, s: &Stmt, fuel: u64, out: &mut Vec<String>) -> (r: (
        Environment,
        StmtOutcome,
    ))
        requires
            env@.len() >= 1,
        ensures
            r.0@.len() == env@.len(),
            stmt_fuel_post(env@, s@, fuel as nat, old(out)@, final(out)@, r.0@, r.1),
        decreases *s, 1int,
    {
        match &s.s_type {
            StmtType::Print(_) => Self::visit_print(env, s, fuel, out),
            StmtType::Expression(_) => Self::visit_expression(env, s, fuel, out),
            StmtType::IntDecl(_, _) => Self::visit_intdecl(env, s, fuel, out),
            StmtType::RealDecl(_, _) => Self::visit_realdecl(env, s, fuel, out),
            StmtType::StrDecl(_, _) => Self::visit_strdecl(env, s, fuel, out),
            StmtType::Block(_) => Self::visit_block(env, s, fuel, out),
            StmtType::If(_, _, _) => Self::visit_if(env, s, fuel, out),
            StmtType::While(_, _) => Self::visit_while(env, s, fuel, out),
        }
    }

    /// A print statement writes the value's textual form as one line.
    pub fn visit_print(env: Environment, s: &Stmt, fuel: u64, out: &mut Vec<String>) -> (r: (
        Environment,
        StmtOutcome,
    ))
        requires
            env@.len() >= 1,
            s@ is Print,
        ensures
            r.0@.len() == env@.len(),
            stmt_fuel_post(env@, s@, fuel as nat, old(out)@, final(out)@, r.0@, r.1),
    {
        let ghost env0 = env@;
        let ghost out0 = out@;
        let ghost sv = s@;
        match &s.s_type {
            StmtType::Print(e) => {
                proof {
                    crate::semantics::lemma_eval_len(env0, e@);
                }
                let (env1, res) = eval_expr(env, e, out);
                match res {
                    Result::Ok(v) => {
                        let ghost out_e = out@;
                        let line = v.to_text();
                        out.push(line);
                        proof {
                            lemma_lines_from_push(out0, out_e, out@.last());
                            assert(exec_stmt_s(env0, sv, fuel as nat) == (ExecOut::Done {
                                env: env1@,
                                lines: lines_from(out0, out@),
                                ok: true,
                            }));
                        }
                        (env1, StmtOutcome::Finished(Result::Ok(())))
                    },
                    Result::Err(er) => (env1, StmtOutcome::Finished(Result::Err(er))),
                }
            },
            _ => {
                proof {
                    assert(false);
                }
                (env, StmtOutcome::Exhausted)
            },
        }
    }

    /// An expression statement evaluates for its side effects and
    /// discards the value.
    pub fn visit_expression(env: Environment, s: &Stmt, fuel: u64, out: &mut Vec<String>) -> (r: (
        Environment,
        StmtOutcome,
    ))
        requires
            env@.len() >= 1,
            s@ is Expression,
        ensures
            r.0@.len() == env@.len(),
            stmt_fuel_post(env@, s@, fuel as nat, old(out)@, final(out)@, r.0@, r.1),
    {
        let ghost env0 = env@;
        match &s.s_type {
            StmtType::Expression(e) => {
                proof {
                    crate::semantics::lemma_eval_len(env0, e@);
                }
                let (env1, res) = eval_expr(env, e, out);
                match res {
                    Result::Ok(_) => (env1, StmtOutcome::Finished(Result::Ok(()))),
                    Result::Err(er) => (env1, StmtOutcome::Finished(Result::Err(er))),
                }
            },
            _ => {
                proof {
                    assert(false);
                }
                (env, StmtOutcome::Exhausted)
            },
        }
    }

    /// An int declaration: the initializer, if any, must yield an
    /// integer; without one the binding starts at 0.
    pub fn visit_intdecl(env: Environment, s: &Stmt, fuel: u64, out: &mut Vec<String>) -> (r: (
        Environment,
        StmtOutcome,
    ))
        requires
            env@.len() >= 1,
            s@ is IntDecl,
        ensures
            r.0@.len() == env@.len(),
            stmt_fuel_post(env@, s@, fuel as nat, old(out)@, final(out)@, r.0@, r.1),
    {
        let ghost env0 = env@;
        let ghost out0 = out@;
        let ghost sv = s@;
        match &s.s_type {
            StmtType::IntDecl(n, init) => match init {
                Option::Some(e) => {
                    proof {
                        crate::semantics::lemma_eval_len(env0, e@);
                    }
                    let (mut env1, res) = eval_expr(env, e, out);
                    match res {
                        Result::Ok(v) => {
                            let kind_ok = match &v {
                                Value::IntVal(_) => true,
                                _ => false,
                            };
                            if kind_ok {
                                env1.define(n, v);
                                (env1, StmtOutcome::Finished(Result::Ok(())))
                            } else {
                                let ghost out_e = out@;
                                let mut d = "mismatched types ".to_owned();
                                d.append(n.as_str());
                                d.append(" and ");
                                d.append(v.to_text().as_str());
                                out.push(d);
                                proof {
                                    lemma_lines_from_push(out0, out_e, out@.last());
                                    assert(out@.last()@ =~= "mismatched types "@ + n@ + " and "@
                                        + crate::value::value_text(v@));
                                    assert(exec_stmt_s(env0, sv, fuel as nat) == (ExecOut::Done {
                                        env: env1@,
                                        lines: lines_from(out0, out@),
                                        ok: false,
                                    }));
                                }
                                (env1, StmtOutcome::Finished(Result::Err(RuntimeError {})))
                            }
                        },
                        Result::Err(er) => (env1, StmtOutcome::Finished(Result::Err(er))),
                    }
                },
                Option::None => {
                    let mut env1 = env;
                    env1.define(n, Value::IntVal(0));
                    proof {
                        lemma_lines_from_refl(out@);
                    }
                    (env1, StmtOutcome::Finished(Result::Ok(())))
                },
            },
            _ => {
                proof {
                    assert(false);
                }
                (env, StmtOutcome::Exhausted)
            },
        }
    }

    /// A real declaration: the initializer, if any, must yield a real;
    /// without one the binding starts at 0.0.
    pub fn visit_realdecl(env: Environment, s: &Stmt, fuel: u64, out: &mut Vec<String>) -> (r: (
        Environment,
        StmtOutcome,
    ))
        requires
            env@.len() >= 1,
            s@ is RealDecl,
        ensures
            r.0@.len() == env@.len(),
            stmt_fuel_post(env@, s@, fuel as nat, old(out)@, final(out)@, r.0@, r.1),
    {
        let ghost env0 = env@;
        let ghost out0 = out@;
        let ghost sv = s@;
        match &s.s_type {
            StmtType::RealDecl(n, init) => match init {
                Option::Some(e) => {
                    proof {
                        crate::semantics::lemma_eval_len(env0, e@);
                    }
                    let (mut env1, res) = eval_expr(env, e, out);
                    match res {
                        Result::Ok(v) => {
                            let kind_ok = match &v {
                                Value::RealVal(_) => true,
                                _ => false,
                            };
                            if kind_ok {
                                env1.define(n, v);
                                (env1, StmtOutcome::Finished(Result::Ok(())))
                            } else {
                                let ghost out_e = out@;
                                let mut d = "mismatched types ".to_owned();
                                d.append(n.as_str());
                                d.append(" and ");
                                d.append(v.to_text().as_str());
                                out.push(d);
                                proof {
                                    lemma_lines_from_push(out0, out_e, out@.last());
                                    assert(out@.last()@ =~= "mismatched types "@ + n@ + " and "@
                                        + crate::value::value_text(v@));
                                    assert(exec_stmt_s(env0, sv, fuel as nat) == (ExecOut::Done {
                                        env: env1@,
                                        lines: lines_from(out0, out@),
                                        ok: false,
                                    }));
                                }
                                (env1, StmtOutcome::Finished(Result::Err(RuntimeError {})))
                            }
                        },
                        Result::Err(er) => (env1, StmtOutcome::Finished(Result::Err(er))),
                    }
                },
                Option::None => {
                    let mut env1 = env;
                    env1.define(n, Value::RealVal(0));
                    proof {
                        lemma_lines_from_refl(out@);
                    }
                    (env1, StmtOutcome::Finished(Result::Ok(())))
                },
            },
            _ => {
                proof {
                    assert(false);
                }
                (env, StmtOutcome::Exhausted)
            },
        }
    }

    /// A string declaration: the initializer, if any, must yield a
    /// string; without one the binding starts empty.
    pub fn visit_strdecl(env: Environment, s: &Stmt, fuel: u64, out: &mut Vec<String>) -> (r: (
        Environment,
        StmtOutcome,
    ))
        requires
            env@.len() >= 1,
            s@ is StrDecl,
        ensures
            r.0@.len() == env@.len(),
            stmt_fuel_post(env@, s@, fuel as nat, old(out)@, final(out)@, r.0@, r.1),
    {
        let ghost env0 = env@;
        let ghost out0 = out@;
        let ghost sv = s@;
        match &s.s_type {
            StmtType::StrDecl(n, init) => match init {
                Option::Some(e) => {
                    proof {
                        crate::semantics::lemma_eval_len(env0, e@);
                    }
                    let (mut env1, res) = eval_expr(env, e, out);
                    match res {
                        Result::Ok(v) => {
                            let kind_ok = match &v {
                                Value::StrVal(_) => true,
                                _ => false,
                            };
                            if kind_ok {
                                env1.define(n, v);
                                (env1, StmtOutcome::Finished(Result::Ok(())))
                            } else {
                                let ghost out_e = out@;
                                let mut d = "mismatched types ".to_owned();
                                d.append(n.as_str());
                                d.append(" and ");
                                d.append(v.to_text().as_str());
                                out.push(d);
                                proof {
                                    lemma_lines_from_push(out0, out_e, out@.last());
                                    assert(out@.last()@ =~= "mismatched types "@ + n@ + " and "@
                                        + crate::value::value_text(v@));
                                    assert(exec_stmt_s(env0, sv, fuel as nat) == (ExecOut::Done {
                                        env: env1@,
                                        lines: lines_from(out0, out@),
                                        ok: false,
                                    }));
                                }
                                (env1, StmtOutcome::Finished(Result::Err(RuntimeError {})))
                            }
                        },
                        Result::Err(er) => (env1, StmtOutcome::Finished(Result::Err(er))),
                    }
                },
                Option::None => {
                    let mut env1 = env;
                    env1.define(n, Value::StrVal(String::new()));
                    proof {
                        lemma_lines_from_refl(out@);
                    }
                    (env1, StmtOutcome::Finished(Result::Ok(())))
                },
            },
            _ => {
                proof {
                    assert(false);
                }
                (env, StmtOutcome::Exhausted)
            },
        }
    }

    /// A block runs its statements in a fresh innermost scope, which is
    /// discarded on exit, success or error alike.
    pub fn visit_block(env: Environment, s: &Stmt, fuel: u64, out: &mut Vec<String>) -> (r: (
        Environment,
        StmtOutcome,
    ))
        requires
            env@.len() >= 1,
            s@ is Block,
        ensures
            r.0@.len() == env@.len(),
            stmt_fuel_post(env@, s@, fuel as nat, old(out)@, final(out)@, r.0@, r.1),
        decreases *s, 0int,
    {
        match &s.s_type {
            StmtType::Block(ss) => {
                let (env2, rr) = Self::exec_block(env, ss, fuel, out);
                (env2, rr)
            },
            _ => {
                proof {
                    assert(false);
                }
                (env, StmtOutcome::Exhausted)
            },
        }
    }

    /// Opens a nested scope, runs the statements, and restores the
    /// enclosing scope on every exit path.
    pub fn exec_block(env: Environment, ss: &Vec<Stmt>, fuel: u64, out: &mut Vec<String>) -> (r: (
        Environment,
        StmtOutcome,
    ))
        requires
            env@.len() >= 1,
        ensures
            r.0@.len() == env@.len(),
            old(out)@.is_prefix_of(final(out)@),
            ({
                let o = exec_stmts_s(env@.push(Seq::empty()), stmts_view(ss@), fuel as nat);
                match r.1 {
                    StmtOutcome::Finished(res) => o matches ExecOut::Done { env: e2, lines, ok }
                        && r.0@ == e2.drop_last() && lines == lines_from(old(out)@, final(out)@)
                        && ok == (res is Ok),
                    StmtOutcome::Exhausted => o is Spent,
                }
            }),
        decreases *ss, 1int,
    {
        let ghost env0 = env@;
        let child = Environment::new(Option::Some(Box::new(env)));
        proof {
            assert(child@ =~= env0.push(Seq::<(Seq<char>, ValV)>::empty()));
        }
        let (child2, rr) = Self::exec_stmts(child, ss, fuel, out);
        let parent = match child2.into_parent() {
            Option::Some(p) => *p,
            Option::None => {
                proof {
                    assert(false);
                }
                Environment::new(Option::None)
            },
        };
        (parent, rr)
    }

    /// Executes statements in order, stopping at the first failure.
    pub fn exec_stmts(env: Environment, ss: &Vec<Stmt>, fuel: u64, out: &mut Vec<String>) -> (r: (
        Environment,
        StmtOutcome,
    ))
        requires
            env@.len() >= 1,
        ensures
            r.0@.len() == env@.len(),
            stmts_fuel_post(env@, stmts_view(ss@), fuel as nat, old(out)@, final(out)@, r.0@, r.1),
        decreases *ss, 0int,
    {
        let ghost env0 = env@;
        let ghost out0 = out@;
        let ghost all = stmts_view(ss@);
        proof {
            lemma_stmts_view_len(ss@);
            assert(ss@.skip(0) =~= ss@);
        }
        let mut cur = env;
        let mut i: usize = 0;
        while i < ss.len()
            invariant
                0 <= i <= ss@.len(),
                env0 == env@,
                out0 == old(out)@,
                env0.len() >= 1,
                cur@.len() == env0.len(),
                out0.is_prefix_of(out@),
                all == stmts_view(ss@),
                all.len() == ss@.len(),
                stmts_match(env0, all, fuel as nat, exec_stmts_s(
                    cur@,
                    stmts_view(ss@.skip(i as int)),
                    fuel as nat,
                ), lines_from(out0, out@)),
            decreases ss@.len() - i,
        {
            let ghost out_pre = out@;
            let ghost rest = stmts_view(ss@.skip(i as int));
            proof {
                assert(ss@.skip(i as int).first() == ss@[i as int]);
                assert(ss@.skip(i as int).drop_first() =~= ss@.skip(i + 1));
                lemma_stmts_view_first(ss@.skip(i as int));
            }
            let (cur2, rr) = Self::exec_stmt(cur, &ss[i], fuel, out);
            match rr {
                StmtOutcome::Finished(Result::Ok(())) => {
                    proof {
                        lemma_lines_from_trans(out0, out_pre, out@);
                        match exec_stmts_s(cur2@, stmts_view(ss@.skip(i + 1)), fuel as nat) {
                            ExecOut::Spent => {
                                assert(exec_stmts_s(cur@, rest, fuel as nat) is Spent);
                            },
                            ExecOut::Done { env: e2, lines: l2, ok: ok2 } => {
                                assert(exec_stmts_s(cur@, rest, fuel as nat) == (ExecOut::Done {
                                    env: e2,
                                    lines: lines_from(out_pre, out@) + l2,
                                    ok: ok2,
                                }));
                                assert(lines_from(out0, out_pre) + (lines_from(out_pre, out@)
                                    + l2) =~= lines_from(out0, out@) + l2);
                            },
                        }
                    }
                    cur = cur2;
                    i = i + 1;
                },
                StmtOutcome::Finished(Result::Err(er)) => {
                    proof {
                        lemma_lines_from_trans(out0, out_pre, out@);
                        assert(exec_stmts_s(cur@, rest, fuel as nat) == (ExecOut::Done {
                            env: cur2@,
                            lines: lines_from(out_pre, out@),
                            ok: false,
                        }));
                    }
                    return (cur2, StmtOutcome::Finished(Result::Err(er)));
                },
                StmtOutcome::Exhausted => {
                    proof {
                        assert(exec_stmts_s(cur@, rest, fuel as nat) is Spent);
                    }
                    return (cur2, StmtOutcome::Exhausted);
                },
            }
        }
        proof {
            assert(ss@.skip(i as int) =~= Seq::<Stmt>::empty());
            assert(stmts_view(ss@.skip(i as int)) =~= Seq::<StmtV>::empty());
            assert(exec_stmts_s(cur@, stmts_view(ss@.skip(i as int)), fuel as nat)
                == (ExecOut::Done { env: cur@, lines: Seq::<Seq<char>>::empty(), ok: true }));
            assert(lines_from(out0, out@) + Seq::<Seq<char>>::empty() =~= lines_from(out0, out@));
        }
        (cur, StmtOutcome::Finished(Result::Ok(())))
    }

    /// An if statement: the condition must be boolean; no truthiness.
    pub fn visit_if(env: Environment, s: &Stmt, fuel: u64, out: &mut Vec<String>) -> (r: (
        Environment,
        StmtOutcome,
    ))
        requires
            env@.len() >= 1,
            s@ is If,
        ensures
            r.0@.len() == env@.len(),
            stmt_fuel_post(env@, s@, fuel as nat, old(out)@, final(out)@, r.0@, r.1),
        decreases *s, 0int,
    {
        let ghost env0 = env@;
        let ghost out0 = out@;
        let ghost sv = s@;
        match &s.s_type {
            StmtType::If(c, t, els) => {
                proof {
                    crate::semantics::lemma_eval_len(env0, c@);
                }
                let (env1, res) = eval_expr(env, c, out);
                let ghost out_c = out@;
                match res {
                    Result::Ok(v) => {
                        let cond = match &v {
                            Value::BoolVal(b) => Option::Some(*b),
                            _ => Option::None,
                        };
                        match cond {
                            Option::Some(true) => {
                                let (env2, rr) = Self::exec_stmt(env1, t, fuel, out);
                                proof {
                                    lemma_lines_from_trans(out0, out_c, out@);
                                }
                                (env2, rr)
                            },
                            Option::Some(false) => match els {
                                Option::Some(el) => {
                                    let (env2, rr) = Self::exec_stmt(env1, el, fuel, out);
                                    proof {
                                        lemma_lines_from_trans(out0, out_c, out@);
                                    }
                                    (env2, rr)
                                },
                                Option::None => (env1, StmtOutcome::Finished(Result::Ok(()))),
                            },
                            Option::None => {
                                let d = "conditional expression must be boolean".to_owned();
                                out.push(d);
                                proof {
                                    lemma_lines_from_push(out0, out_c, out@.last());
                                    assert(exec_stmt_s(env0, sv, fuel as nat) == (ExecOut::Done {
                                        env: env1@,
                                        lines: lines_from(out0, out@),
                                        ok: false,
                                    }));
                                }
                                (env1, StmtOutcome::Finished(Result::Err(RuntimeError {})))
                            },
                        }
                    },
                    Result::Err(er) => (env1, StmtOutcome::Finished(Result::Err(er))),
                }
            },
            _ => {
                proof {
                    assert(false);
                }
                (env, StmtOutcome::Exhausted)
            },
        }
    }

    /// A while statement: evaluate the boolean condition, run the body,
    /// repeat; it ends when the condition turns false, on a runtime
    /// error, or when the loop budget runs out.
    pub fn visit_while(env: Environment, s: &Stmt, fuel: u64, out: &mut Vec<String>) -> (r: (
        Environment,
        StmtOutcome,
    ))
        requires
            env@.len() >= 1,
            s@ is While,
        ensures
            r.0@.len() == env@.len(),
            stmt_fuel_post(env@, s@, fuel as nat, old(out)@, final(out)@, r.0@, r.1),
        decreases *s, 0int,
    {
        let ghost env0 = env@;
        let ghost out0 = out@;
        let ghost sv = s@;
        let mut cur = env;
        let mut f = fuel;
        loop
            invariant
                env0 == env@,
                out0 == old(out)@,
                env0.len() >= 1,
                cur@.len() == env0.len(),
                out0.is_prefix_of(out@),
                sv == s@,
                sv is While,
                f <= fuel,
                wloop_inv(env0, sv, fuel as nat, cur@, f as nat, lines_from(out0, out@)),
            decreases f,
        {
            let ghost out_it = out@;
            match &s.s_type {
                StmtType::While(c, b) => {
                    proof {
                        crate::semantics::lemma_eval_len(cur@, c@);
                    }
                    let (cur1, res) = eval_expr(cur, c, out);
                    let ghost out_c = out@;
                    match res {
                        Result::Ok(v) => {
                            let cond = match &v {
                                Value::BoolVal(bv) => Option::Some(*bv),
                                _ => Option::None,
                            };
                            match cond {
                                Option::Some(false) => {
                                    proof {
                                        assert(exec_stmt_s(cur@, sv, f as nat) == (ExecOut::Done {
                                            env: cur1@,
                                            lines: lines_from(out_it, out@),
                                            ok: true,
                                        }));
                                        lemma_lines_from_trans(out0, out_it, out@);
                                    }
                                    return (cur1, StmtOutcome::Finished(Result::Ok(())));
                                },
                                Option::Some(true) => {
                                    let (cur2, rr) = Self::exec_stmt(cur1, b, f, out);
                                    match rr {
                                        StmtOutcome::Finished(Result::Ok(())) => {
                                            if f == 0 {
                                                proof {
                                                    assert(exec_stmt_s(cur@, sv, f as nat)
                                                        is Spent);
                                                }
                                                return (cur2, StmtOutcome::Exhausted);
                                            }
                                            proof {
                                                lemma_lines_from_trans(out0, out_it, out_c);
                                                lemma_lines_from_trans(out0, out_c, out@);
                                                lemma_wloop_step(
                                                    env0,
                                                    sv,
                                                    fuel as nat,
                                                    cur@,
                                                    f as nat,
                                                    cur2@,
                                                    lines_from(out0, out_it),
                                                    lines_from(out_it, out_c),
                                                    lines_from(out_c, out@),
                                                );
                                                assert(lines_from(out0, out_it) + lines_from(
                                                    out_it,
                                                    out_c,
                                                ) + lines_from(out_c, out@) =~= lines_from(
                                                    out0,
                                                    out@,
                                                ));
                                            }
                                            cur = cur2;
                                            f = f - 1;
                                        },
                                        StmtOutcome::Finished(Result::Err(er)) => {
                                            proof {
                                                lemma_lines_from_trans(out_it, out_c, out@);
                                                assert(exec_stmt_s(cur@, sv, f as nat)
                                                    == (ExecOut::Done {
                                                    env: cur2@,
                                                    lines: lines_from(out_it, out@),
                                                    ok: false,
                                                }));
                                                lemma_lines_from_trans(out0, out_it, out@);
                                            }
                                            return (
                                                cur2,
                                                StmtOutcome::Finished(Result::Err(er)),
                                            );
                                        },
                                        StmtOutcome::Exhausted => {
                                            proof {
                                                assert(exec_stmt_s(cur@, sv, f as nat) is Spent);
                                            }
                                            return (cur2, StmtOutcome::Exhausted);
                                        },
                                    }
                                },
                                Option::None => {
                                    let d = "conditional expression must be boolean".to_owned();
                                    out.push(d);
                                    proof {
                                        lemma_lines_from_push(out_it, out_c, out@.last());
                                        assert(exec_stmt_s(cur@, sv, f as nat) == (ExecOut::Done {
                                            env: cur1@,
                                            lines: lines_from(out_it, out@),
                                            ok: false,
                                        }));
                                        lemma_lines_from_trans(out0, out_it, out@);
                                    }
                                    return (
                                        cur1,
                                        StmtOutcome::Finished(Result::Err(RuntimeError {})),
                                    );
                                },
                            }
                        },
                        Result::Err(er) => {
                            proof {
                                assert(exec_stmt_s(cur@, sv, f as nat) == (ExecOut::Done {
                                    env: cur1@,
                                    lines: lines_from(out_it, out@),
                                    ok: false,
                                }));
                                lemma_lines_from_trans(out0, out_it, out@);
                            }
                            return (cur1, StmtOutcome::Finished(Result::Err(er)));
                        },
                    }
                },
                _ => {
                    proof {
                        assert(false);
                    }
                    return (cur, StmtOutcome::Exhausted);
                },
            }
        }
    }

    /// Runs a program: executes the top-level statements in order
    /// against the interpreter's current environment, which persists
    /// across calls.  Output and diagnostics are appended to `out`.
    pub fn interpret(&mut self, ast: &Vec<Stmt>, out: &mut Vec<String>) -> (r: Result<
        (),
        RuntimeError,
    >)
        ensures
            old(out)@.is_prefix_of(final(out)@),
            final(self)@.len() == old(self)@.len(),
            match exec_stmts_s(old(self)@, stmts_view(ast@), run_fuel()) {
                ExecOut::Done { env, lines, ok } => final(self)@ == env && lines == lines_from(
                    old(out)@,
                    final(out)@,
                ) && (r is Ok <==> ok),
                ExecOut::Spent => r is Err,
            },
    {
        let mut env = Environment::new(Option::None);
        core::mem::swap(&mut self.cur_env, &mut env);
        proof {
            crate::environment::lemma_env_chain_nonempty(env);
        }
        let (env2, rr) = Self::exec_stmts(env, ast, 0xffff_ffff_ffff_ffffu64, out);
        self.cur_env = env2;
        match rr {
            StmtOutcome::Finished(res) => res,
            StmtOutcome::Exhausted => Result::Err(RuntimeError {}),
        }
    }
}

} // verus!
