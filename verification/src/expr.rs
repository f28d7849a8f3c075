//! Expression nodes of the abstract syntax tree.
//!
//! The node kinds form a closed enumeration: the parser emits exactly
//! these and the evaluator consumes exactly these.

use vstd::prelude::*;
use vstd::string::*;
use crate::token::{Token, TokenV};
use crate::ieee32::{real_text, real_text_of};
use crate::text::{dec_str, u32_dec};

verus! {

/// The kind of an expression node.
pub enum ExprType {
    Binary,
    Unary,
    Grouping,
    Literal,
    Assignment,
    Variable,
    Logical,
}

/// A literal expression: a decoded literal value, or nil.  A real
/// literal carries the IEEE-754 binary32 bit pattern of its value.
pub enum Literal {
    BoolLit(bool),
    StrLit(String),
    RealLit(u32),
    IntLit(u32),
    NilLit,
}

/// The mathematical model of a literal.
pub enum LitV {
    Bool(bool),
    Str(Seq<char>),
    Real(u32),
    Int(u32),
    Nil,
}

impl View for Literal {
    type V = LitV;

    open spec fn view(&self) -> LitV {
        match self {
            Literal::BoolLit(b) => LitV::Bool(*b),
            Literal::StrLit(s) => LitV::Str(s@),
            Literal::RealLit(r) => LitV::Real(*r),
            Literal::IntLit(i) => LitV::Int(*i),
            Literal::NilLit => LitV::Nil,
        }
    }
}

/// An expression.
pub enum Expr {
    Binary(Box<Binary>),
    Unary(Box<Unary>),
    Grouping(Box<Grouping>),
    Literal(Literal),
    Assignment(Box<Assignment>),
    Variable(Variable),
    Logical(Box<Logical>),
}

/// A binary arithmetic, comparison or equality expression.
pub struct Binary {
    pub left: Expr,
    pub operator: Token,
    pub right: Expr,
}

/// A unary expression: negation or logical not.
pub struct Unary {
    pub operator: Token,
    pub right: Expr,
}

/// A parenthesized expression.
pub struct Grouping {
    pub expression: Expr,
}

/// An assignment expression: the named variable receives the value.
pub struct Assignment {
    pub name: String,
    pub val: Expr,
}

/// A variable reference.
pub struct Variable {
    pub name: String,
}

/// A short-circuiting `and` or `or` expression.
pub struct Logical {
    pub left: Expr,
    pub operator: Token,
    pub right: Expr,
}

/// The mathematical model of an expression.
pub enum ExprV {
    Binary { op: TokenV, left: Box<ExprV>, right: Box<ExprV> },
    Unary { op: TokenV, right: Box<ExprV> },
    Grouping { inner: Box<ExprV> },
    Literal { lit: LitV },
    Assignment { name: Seq<char>, val: Box<ExprV> },
    Variable { name: Seq<char> },
    Logical { op: TokenV, left: Box<ExprV>, right: Box<ExprV> },
}

/// The model of an expression node.
pub open spec fn expr_view(e: Expr) -> ExprV
    decreases e,
{
    match e {
        Expr::Binary(b) => ExprV::Binary {
            op: b.operator@,
            left: Box::new(expr_view(b.left)),
            right: Box::new(expr_view(b.right)),
        },
        Expr::Unary(u) => ExprV::Unary { op: u.operator@, right: Box::new(expr_view(u.right)) },
        Expr::Grouping(g) => ExprV::Grouping { inner: Box::new(expr_view(g.expression)) },
        Expr::Literal(l) => ExprV::Literal { lit: l@ },
        Expr::Assignment(a) => ExprV::Assignment {
            name: a.name@,
            val: Box::new(expr_view(a.val)),
        },
        Expr::Variable(v) => ExprV::Variable { name: v.name@ },
        Expr::Logical(l) => ExprV::Logical {
            op: l.operator@,
            left: Box::new(expr_view(l.left)),
            right: Box::new(expr_view(l.right)),
        },
    }
}

impl View for Expr {
    type V = ExprV;

    open spec fn view(&self) -> ExprV {
        expr_view(*self)
    }
}

impl Expr {
    /// The kind of this node.
    pub fn kind(&self) -> (r: ExprType)
        ensures
            r matches ExprType::Binary <==> self@ is Binary,
            r matches ExprType::Unary <==> self@ is Unary,
            r matches ExprType::Grouping <==> self@ is Grouping,
            r matches ExprType::Literal <==> self@ is Literal,
            r matches ExprType::Assignment <==> self@ is Assignment,
            r matches ExprType::Variable <==> self@ is Variable,
            r matches ExprType::Logical <==> self@ is Logical,
    {
        match self {
            Expr::Binary(_) => ExprType::Binary,
            Expr::Unary(_) => ExprType::Unary,
            Expr::Grouping(_) => ExprType::Grouping,
            Expr::Literal(_) => ExprType::Literal,
            Expr::Assignment(_) => ExprType::Assignment,
            Expr::Variable(_) => ExprType::Variable,
            Expr::Logical(_) => ExprType::Logical,
        }
    }
}

impl Binary {
    pub fn new(left: Expr, operator: Token, right: Expr) -> (r: Self)
        ensures
            r.left == left && r.operator == operator && r.right == right,
    {
        Binary { left, operator, right }
    }
}

impl Unary {
    pub fn new(operator: Token, right: Expr) -> (r: Self)
        ensures
            r.operator == operator && r.right == right,
    {
        Unary { operator, right }
    }
}

impl Grouping {
    pub fn new(expression: Expr) -> (r: Self)
        ensures
            r.expression == expression,
    {
        Grouping { expression }
    }
}

impl Assignment {
    pub fn new(name: String, val: Expr) -> (r: Self)
        ensures
            r.name == name && r.val == val,
    {
        Assignment { name, val }
    }
}

impl Variable {
    pub fn new(name: String) -> (r: Self)
        ensures
            r.name == name,
    {
        Variable { name }
    }
}

impl Logical {
    pub fn new(left: Expr, operator: Token, right: Expr) -> (r: Self)
        ensures
            r.left == left && r.operator == operator && r.right == right,
    {
        Logical { left, operator, right }
    }
}

/// The textual form of an expression, parenthesized prefix style: the
/// operator's lexeme first, then the operands; literals print as their
/// values, a grouping as `(group ...)`, an assignment as `(= name ...)`.
pub open spec fn expr_text(e: ExprV) -> Seq<char>
    decreases e,
{
    match e {
        ExprV::Binary { op, left, right } => "("@ + op.lexeme + " "@ + expr_text(*left) + " "@
            + expr_text(*right) + ")"@,
        ExprV::Logical { op, left, right } => "("@ + op.lexeme + " "@ + expr_text(*left) + " "@
            + expr_text(*right) + ")"@,
        ExprV::Unary { op, right } => "("@ + op.lexeme + " "@ + expr_text(*right) + ")"@,
        ExprV::Grouping { inner } => "(group "@ + expr_text(*inner) + ")"@,
        ExprV::Assignment { name, val } => "(= "@ + name + " "@ + expr_text(*val) + ")"@,
        ExprV::Variable { name } => name,
        ExprV::Literal { lit } => match lit {
            LitV::Nil => "nil"@,
            LitV::Str(t) => t,
            LitV::Real(r) => real_text_of(r),
            LitV::Int(i) => dec_str(i as nat),
            LitV::Bool(b) => if b {
                "true"@
            } else {
                "false"@
            },
        },
    }
}

impl Expr {
    /// Renders this expression as `expr_text` describes.
    pub fn print(&self) -> (r: String)
        ensures
            r@ == expr_text(self@),
        decreases *self,
    {
        match self {
            Expr::Binary(b) => {
                let mut out = "(".to_owned();
                out.append(b.operator.lexeme.as_str());
                out.append(" ");
                out.append(b.left.print().as_str());
                out.append(" ");
                out.append(b.right.print().as_str());
                out.append(")");
                proof {
                    assert(out@ =~= expr_text(self@));
                }
                out
            },
            Expr::Logical(l) => {
                let mut out = "(".to_owned();
                out.append(l.operator.lexeme.as_str());
                out.append(" ");
                out.append(l.left.print().as_str());
                out.append(" ");
                out.append(l.right.print().as_str());
                out.append(")");
                proof {
                    assert(out@ =~= expr_text(self@));
                }
                out
            },
            Expr::Unary(u) => {
                let mut out = "(".to_owned();
                out.append(u.operator.lexeme.as_str());
                out.append(" ");
                out.append(u.right.print().as_str());
                out.append(")");
                proof {
                    assert(out@ =~= expr_text(self@));
                }
                out
            },
            Expr::Grouping(g) => {
                let mut out = "(group ".to_owned();
                out.append(g.expression.print().as_str());
                out.append(")");
                proof {
                    assert(out@ =~= expr_text(self@));
                }
                out
            },
            Expr::Assignment(a) => {
                let mut out = "(= ".to_owned();
                out.append(a.name.as_str());
                out.append(" ");
                out.append(a.val.print().as_str());
                out.append(")");
                proof {
                    assert(out@ =~= expr_text(self@));
                }
                out
            },
            Expr::Variable(v) => v.name.clone(),
            Expr::Literal(l) => match l {
                Literal::NilLit => "nil".to_owned(),
                Literal::StrLit(t) => t.clone(),
                Literal::RealLit(r) => real_text(*r),
                Literal::IntLit(i) => u32_dec(*i),
                Literal::BoolLit(b) => if *b {
                    "true".to_owned()
                } else {
                    "false".to_owned()
                },
            },
        }
    }
}

} // verus!
