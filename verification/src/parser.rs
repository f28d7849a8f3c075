//! The parser: tokens to statements, by recursive descent.
//!
//! The grammar, lowest precedence first:
//!
//! ```text
//! program     := declaration* EOF
//! declaration := 'int' decl | 'real' decl | 'str' decl | statement
//! decl        := IDENT ('=' expression)? ';'
//! statement   := 'print' expression ';'
//!              | 'if' '(' expression ')' statement ('else' statement)?
//!              | 'while' '(' expression ')' statement
//!              | '{' declaration* '}'
//!              | expression ';'
//! expression  := assignment
//! assignment  := logic_or ('=' assignment)?   (left side must be a variable)
//! logic_or    := logic_and ('or' logic_and)*
//! logic_and   := equality ('and' equality)*
//! equality    := comparison (('!=' | '==') comparison)*
//! comparison  := term (('>' | '>=' | '<' | '<=') term)*
//! term        := factor (('-' | '+') factor)*
//! factor      := unary (('/' | '*') unary)*
//! unary       := ('!' | '-') unary | primary
//! primary     := 'true' | 'false' | 'nil' | INT | REAL | STRING
//!              | IDENT | '(' expression ')'
//! ```
//!
//! Equality is spelled `==`, assignment and declaration initialization
//! `=`; blocks are `{` ... `}`; the loop statement is spelled `while`.
//! The `p_*` functions are the specification: for every token sequence
//! and position they say which node is produced and where parsing
//! continues, or which diagnostic the parse fails with.  Parsing stops
//! at the first syntax error.

use vstd::prelude::*;
use vstd::string::*;
use crate::token::{Token, TokenV, TokenType, TokenTypeV};
use crate::expr::{Expr, ExprV, LitV, Literal, Binary, Unary, Grouping, Assignment, Variable, Logical};
use crate::stmt::{Stmt, StmtType, StmtV, stmts_view};
use crate::error::ParseError;
use crate::semantics::{report_line, at_lexeme};
use crate::scanner::{tokens_view, diags_view};
use crate::report;

verus! {

/// The result of parsing one expression: the node and the position
/// after it, or the diagnostic of a syntax error.
pub enum PExpr {
    Found { e: ExprV, next: nat },
    Failed { diag: Seq<char> },
}

/// The result of parsing one statement.
pub enum PStmt {
    Found { s: StmtV, next: nat },
    Failed { diag: Seq<char> },
}

/// The result of parsing a statement list.
pub enum PList {
    Found { ss: Seq<StmtV>, next: nat },
    Failed { diag: Seq<char> },
}

/// The token at a position; past the end it is the end-of-input marker.
pub open spec fn tok_at(ts: Seq<TokenV>, pos: nat) -> TokenV {
    if pos < ts.len() {
        ts[pos as int]
    } else {
        TokenV { t_type: TokenTypeV::EOF, lexeme: Seq::empty(), line: 0 }
    }
}

/// The token kind at a position.
pub open spec fn tt(ts: Seq<TokenV>, pos: nat) -> TokenTypeV {
    tok_at(ts, pos).t_type
}

/// Is the parse at the end-of-input marker?
pub open spec fn at_end_s(ts: Seq<TokenV>, pos: nat) -> bool {
    tt(ts, pos) is EOF
}

/// The position a sub-parse ended at, seen from `pos`; a parse always
/// moves forward.
pub open spec fn after(pos: nat, next: nat) -> nat {
    if next > pos {
        next
    } else {
        pos + 1
    }
}

/// How many tokens remain at a position.
pub open spec fn rem(ts: Seq<TokenV>, pos: nat) -> nat {
    if pos >= ts.len() {
        0
    } else {
        (ts.len() - pos) as nat
    }
}

/// A syntax-error diagnostic at a token.
pub open spec fn syntax_diag(t: TokenV, msg: Seq<char>) -> Seq<char> {
    report_line(t.line, at_lexeme(t.lexeme), msg)
}

pub open spec fn p_primary(ts: Seq<TokenV>, pos: nat) -> PExpr
    decreases rem(ts, pos), 0int,
{
    if at_end_s(ts, pos) {
        PExpr::Failed { diag: syntax_diag(tok_at(ts, pos), "unfinished expression"@) }
    } else {
        let t = ts[pos as int];
        match t.t_type {
            TokenTypeV::False => PExpr::Found {
                e: ExprV::Literal { lit: LitV::Bool(false) },
                next: pos + 1,
            },
            TokenTypeV::True => PExpr::Found {
                e: ExprV::Literal { lit: LitV::Bool(true) },
                next: pos + 1,
            },
            TokenTypeV::Nil => PExpr::Found { e: ExprV::Literal { lit: LitV::Nil }, next: pos + 1 },
            TokenTypeV::RealLit(r) => PExpr::Found {
                e: ExprV::Literal { lit: LitV::Real(r) },
                next: pos + 1,
            },
            TokenTypeV::IntLit(i) => PExpr::Found {
                e: ExprV::Literal { lit: LitV::Int(i) },
                next: pos + 1,
            },
            TokenTypeV::StrLit(s) => PExpr::Found {
                e: ExprV::Literal { lit: LitV::Str(s) },
                next: pos + 1,
            },
            TokenTypeV::LParen => match p_expression(ts, pos + 1) {
                PExpr::Found { e, next } => if tt(ts, next) is RParen {
                    PExpr::Found { e: ExprV::Grouping { inner: Box::new(e) }, next: next + 1 }
                } else {
                    PExpr::Failed {
                        diag: syntax_diag(tok_at(ts, next), "missing ')' after expression"@),
                    }
                },
                PExpr::Failed { diag } => PExpr::Failed { diag },
            },
            TokenTypeV::Ident => PExpr::Found {
                e: ExprV::Variable { name: t.lexeme },
                next: pos + 1,
            },
            _ => PExpr::Failed { diag: syntax_diag(t, "expression expected"@) },
        }
    }
}

#[verifier::opaque]
pub open spec fn p_unary(ts: Seq<TokenV>, pos: nat) -> PExpr
    decreases rem(ts, pos), 1int,
{
    if !at_end_s(ts, pos) && (tt(ts, pos) is Bang || tt(ts, pos) is Minus) {
        let op = ts[pos as int];
        match p_unary(ts, pos + 1) {
            PExpr::Found { e, next } => PExpr::Found {
                e: ExprV::Unary { op, right: Box::new(e) },
                next,
            },
            PExpr::Failed { diag } => PExpr::Failed { diag },
        }
    } else {
        p_primary(ts, pos)
    }
}

pub open spec fn p_factor(ts: Seq<TokenV>, pos: nat) -> PExpr
    decreases rem(ts, pos), 3int,
{
    match p_unary(ts, pos) {
        PExpr::Found { e, next } => p_factor_rest(ts, after(pos, next), e),
        PExpr::Failed { diag } => PExpr::Failed { diag },
    }
}

pub open spec fn p_factor_rest(ts: Seq<TokenV>, pos: nat, left: ExprV) -> PExpr
    decreases rem(ts, pos), 2int,
{
    if !at_end_s(ts, pos) && (tt(ts, pos) is Slash || tt(ts, pos) is Star) {
        let op = ts[pos as int];
        match p_unary(ts, pos + 1) {
            PExpr::Found { e, next } => p_factor_rest(
                ts,
                after(pos, next),
                ExprV::Binary { op, left: Box::new(left), right: Box::new(e) },
            ),
            PExpr::Failed { diag } => PExpr::Failed { diag },
        }
    } else {
        PExpr::Found { e: left, next: pos }
    }
}

pub open spec fn p_term(ts: Seq<TokenV>, pos: nat) -> PExpr
    decreases rem(ts, pos), 5int,
{
    match p_factor(ts, pos) {
        PExpr::Found { e, next } => p_term_rest(ts, after(pos, next), e),
        PExpr::Failed { diag } => PExpr::Failed { diag },
    }
}

pub open spec fn p_term_rest(ts: Seq<TokenV>, pos: nat, left: ExprV) -> PExpr
    decreases rem(ts, pos), 4int,
{
    if !at_end_s(ts, pos) && (tt(ts, pos) is Minus || tt(ts, pos) is Plus) {
        let op = ts[pos as int];
        match p_factor(ts, pos + 1) {
            PExpr::Found { e, next } => p_term_rest(
                ts,
                after(pos, next),
                ExprV::Binary { op, left: Box::new(left), right: Box::new(e) },
            ),
            PExpr::Failed { diag } => PExpr::Failed { diag },
        }
    } else {
        PExpr::Found { e: left, next: pos }
    }
}

pub open spec fn p_comparison(ts: Seq<TokenV>, pos: nat) -> PExpr
    decreases rem(ts, pos), 7int,
{
    match p_term(ts, pos) {
        PExpr::Found { e, next } => p_comparison_rest(ts, after(pos, next), e),
        PExpr::Failed { diag } => PExpr::Failed { diag },
    }
}

pub open spec fn p_comparison_rest(ts: Seq<TokenV>, pos: nat, left: ExprV) -> PExpr
    decreases rem(ts, pos), 6int,
{
    if !at_end_s(ts, pos) && (tt(ts, pos) is Greater || tt(ts, pos) is GreaterEqual || tt(
        ts,
        pos,
    ) is Less || tt(ts, pos) is LessEqual) {
        let op = ts[pos as int];
        match p_term(ts, pos + 1) {
            PExpr::Found { e, next } => p_comparison_rest(
                ts,
                after(pos, next),
                ExprV::Binary { op, left: Box::new(left), right: Box::new(e) },
            ),
            PExpr::Failed { diag } => PExpr::Failed { diag },
        }
    } else {
        PExpr::Found { e: left, next: pos }
    }
}

#[verifier::opaque]
pub open spec fn p_equality(ts: Seq<TokenV>, pos: nat) -> PExpr
    decreases rem(ts, pos), 9int,
{
    match p_comparison(ts, pos) {
        PExpr::Found { e, next } => p_equality_rest(ts, after(pos, next), e),
        PExpr::Failed { diag } => PExpr::Failed { diag },
    }
}

pub open spec fn p_equality_rest(ts: Seq<TokenV>, pos: nat, left: ExprV) -> PExpr
    decreases rem(ts, pos), 8int,
{
    if !at_end_s(ts, pos) && (tt(ts, pos) is BangEqual || tt(ts, pos) is EqualEqual) {
        let op = ts[pos as int];
        match p_comparison(ts, pos + 1) {
            PExpr::Found { e, next } => p_equality_rest(
                ts,
                after(pos, next),
                ExprV::Binary { op, left: Box::new(left), right: Box::new(e) },
            ),
            PExpr::Failed { diag } => PExpr::Failed { diag },
        }
    } else {
        PExpr::Found { e: left, next: pos }
    }
}

/// The chain of short-circuiting `and` operators.
pub open spec fn p_logic_and(ts: Seq<TokenV>, pos: nat) -> PExpr
    decreases rem(ts, pos), 11int,
{
    match p_equality(ts, pos) {
        PExpr::Found { e, next } => p_logic_and_rest(ts, after(pos, next), e),
        PExpr::Failed { diag } => PExpr::Failed { diag },
    }
}

pub open spec fn p_logic_and_rest(ts: Seq<TokenV>, pos: nat, left: ExprV) -> PExpr
    decreases rem(ts, pos), 10int,
{
    if !at_end_s(ts, pos) && tt(ts, pos) is And {
        let op = ts[pos as int];
        match p_equality(ts, pos + 1) {
            PExpr::Found { e, next } => p_logic_and_rest(
                ts,
                after(pos, next),
                ExprV::Logical { op, left: Box::new(left), right: Box::new(e) },
            ),
            PExpr::Failed { diag } => PExpr::Failed { diag },
        }
    } else {
        PExpr::Found { e: left, next: pos }
    }
}

/// The chain of short-circuiting `or` operators.
#[verifier::opaque]
pub open spec fn p_logic_or(ts: Seq<TokenV>, pos: nat) -> PExpr
    decreases rem(ts, pos), 13int,
{
    match p_logic_and(ts, pos) {
        PExpr::Found { e, next } => p_logic_or_rest(ts, after(pos, next), e),
        PExpr::Failed { diag } => PExpr::Failed { diag },
    }
}

pub open spec fn p_logic_or_rest(ts: Seq<TokenV>, pos: nat, left: ExprV) -> PExpr
    decreases rem(ts, pos), 12int,
{
    if !at_end_s(ts, pos) && tt(ts, pos) is Or {
        let op = ts[pos as int];
        match p_logic_and(ts, pos + 1) {
            PExpr::Found { e, next } => p_logic_or_rest(
                ts,
                after(pos, next),
                ExprV::Logical { op, left: Box::new(left), right: Box::new(e) },
            ),
            PExpr::Failed { diag } => PExpr::Failed { diag },
        }
    } else {
        PExpr::Found { e: left, next: pos }
    }
}

pub open spec fn p_assignment(ts: Seq<TokenV>, pos: nat) -> PExpr
    decreases rem(ts, pos), 14int,
{
    match p_logic_or(ts, pos) {
        PExpr::Found { e, next } => if next > pos && tt(ts, next) is Equal {
            let eq = tok_at(ts, next);
            match p_assignment(ts, after(pos, next + 1)) {
                PExpr::Found { e: rhs, next: n2 } => match e {
                    ExprV::Variable { name } => PExpr::Found {
                        e: ExprV::Assignment { name, val: Box::new(rhs) },
                        next: n2,
                    },
                    _ => PExpr::Failed { diag: syntax_diag(eq, "invalid l-value"@) },
                },
                PExpr::Failed { diag } => PExpr::Failed { diag },
            }
        } else {
            PExpr::Found { e, next }
        },
        PExpr::Failed { diag } => PExpr::Failed { diag },
    }
}

pub open spec fn p_expression(ts: Seq<TokenV>, pos: nat) -> PExpr
    decreases rem(ts, pos), 15int,
{
    p_assignment(ts, pos)
}

/// The declared type of a variable declaration.
pub enum DeclKind {
    DInt,
    DReal,
    DStr,
}

pub open spec fn decl_stmt(kind: DeclKind, name: Seq<char>, init: Option<ExprV>) -> StmtV {
    match kind {
        DeclKind::DInt => StmtV::IntDecl(name, init),
        DeclKind::DReal => StmtV::RealDecl(name, init),
        DeclKind::DStr => StmtV::StrDecl(name, init),
    }
}

/// A typed declaration, after its type keyword: a name, an optional
/// `=` initializer, and the closing `;`.
pub open spec fn p_decl(ts: Seq<TokenV>, pos: nat, kind: DeclKind) -> PStmt
    decreases rem(ts, pos), 16int,
{
    if tt(ts, pos) is Ident {
        let name = tok_at(ts, pos).lexeme;
        if tt(ts, pos + 1) is Equal {
            match p_expression(ts, pos + 2) {
                PExpr::Found { e, next } => if tt(ts, next) is Semicolon {
                    PStmt::Found { s: decl_stmt(kind, name, Option::Some(e)), next: next + 1 }
                } else {
                    PStmt::Failed {
                        diag: syntax_diag(tok_at(ts, next), "expect ';' after declaration"@),
                    }
                },
                PExpr::Failed { diag } => PStmt::Failed { diag },
            }
        } else {
            if tt(ts, pos + 1) is Semicolon {
                PStmt::Found { s: decl_stmt(kind, name, Option::None), next: pos + 2 }
            } else {
                PStmt::Failed {
                    diag: syntax_diag(tok_at(ts, pos + 1), "expect ';' after declaration"@),
                }
            }
        }
    } else {
        PStmt::Failed { diag: syntax_diag(tok_at(ts, pos), "expect variable name"@) }
    }
}

/// A print statement, after the `print` keyword.
pub open spec fn p_print_stmt(ts: Seq<TokenV>, pos: nat) -> PStmt
    decreases rem(ts, pos), 16int,
{
    match p_expression(ts, pos) {
        PExpr::Found { e, next } => if tt(ts, next) is Semicolon {
            PStmt::Found { s: StmtV::Print(e), next: next + 1 }
        } else {
            PStmt::Failed { diag: syntax_diag(tok_at(ts, next), "expect ';' after print value"@) }
        },
        PExpr::Failed { diag } => PStmt::Failed { diag },
    }
}

/// An expression statement.
pub open spec fn p_expr_stmt(ts: Seq<TokenV>, pos: nat) -> PStmt
    decreases rem(ts, pos), 16int,
{
    match p_expression(ts, pos) {
        PExpr::Found { e, next } => if tt(ts, next) is Semicolon {
            PStmt::Found { s: StmtV::Expression(e), next: next + 1 }
        } else {
            PStmt::Failed { diag: syntax_diag(tok_at(ts, next), "expect ';' after expression"@) }
        },
        PExpr::Failed { diag } => PStmt::Failed { diag },
    }
}

/// An if statement, after the `if` keyword: a parenthesized condition,
/// a then-branch, and optionally `else` and an else-branch.
pub open spec fn p_if_stmt(ts: Seq<TokenV>, pos: nat) -> PStmt
    decreases rem(ts, pos), 16int,
{
    if tt(ts, pos) is LParen {
        match p_expression(ts, pos + 1) {
            PExpr::Found { e: c, next: n1 } => if tt(ts, n1) is RParen {
                match p_statement(ts, after(pos, n1 + 1)) {
                    PStmt::Found { s: t, next: n2 } => if tt(ts, n2) is Else {
                        match p_statement(ts, after(pos, n2 + 1)) {
                            PStmt::Found { s: el, next: n3 } => PStmt::Found {
                                s: StmtV::If(c, Box::new(t), Option::Some(Box::new(el))),
                                next: n3,
                            },
                            PStmt::Failed { diag } => PStmt::Failed { diag },
                        }
                    } else {
                        PStmt::Found { s: StmtV::If(c, Box::new(t), Option::None), next: n2 }
                    },
                    PStmt::Failed { diag } => PStmt::Failed { diag },
                }
            } else {
                PStmt::Failed { diag: syntax_diag(tok_at(ts, n1), "expect ')' after condition"@) }
            },
            PExpr::Failed { diag } => PStmt::Failed { diag },
        }
    } else {
        PStmt::Failed { diag: syntax_diag(tok_at(ts, pos), "expect '(' after 'if'"@) }
    }
}

/// A while statement, after the `while` keyword.
pub open spec fn p_while_stmt(ts: Seq<TokenV>, pos: nat) -> PStmt
    decreases rem(ts, pos), 16int,
{
    if tt(ts, pos) is LParen {
        match p_expression(ts, pos + 1) {
            PExpr::Found { e: c, next: n1 } => if tt(ts, n1) is RParen {
                match p_statement(ts, after(pos, n1 + 1)) {
                    PStmt::Found { s: b, next: n2 } => PStmt::Found {
                        s: StmtV::While(c, Box::new(b)),
                        next: n2,
                    },
                    PStmt::Failed { diag } => PStmt::Failed { diag },
                }
            } else {
                PStmt::Failed { diag: syntax_diag(tok_at(ts, n1), "expect ')' after condition"@) }
            },
            PExpr::Failed { diag } => PStmt::Failed { diag },
        }
    } else {
        PStmt::Failed { diag: syntax_diag(tok_at(ts, pos), "expect '(' after 'while'"@) }
    }
}

pub open spec fn p_statement(ts: Seq<TokenV>, pos: nat) -> PStmt
    decreases rem(ts, pos), 17int,
{
    match tt(ts, pos) {
        TokenTypeV::Print => p_print_stmt(ts, pos + 1),
        TokenTypeV::If => p_if_stmt(ts, pos + 1),
        TokenTypeV::While => p_while_stmt(ts, pos + 1),
        TokenTypeV::LBrace => match p_block_items(ts, pos + 1) {
            PList::Found { ss, next } => PStmt::Found { s: StmtV::Block(ss), next },
            PList::Failed { diag } => PStmt::Failed { diag },
        },
        _ => p_expr_stmt(ts, pos),
    }
}

pub open spec fn p_declaration(ts: Seq<TokenV>, pos: nat) -> PStmt
    decreases rem(ts, pos), 18int,
{
    match tt(ts, pos) {
        TokenTypeV::Int => p_decl(ts, pos + 1, DeclKind::DInt),
        TokenTypeV::Real => p_decl(ts, pos + 1, DeclKind::DReal),
        TokenTypeV::Str => p_decl(ts, pos + 1, DeclKind::DStr),
        _ => p_statement(ts, pos),
    }
}

/// The inside of a block: declarations until the closing `}`.
pub open spec fn p_block_items(ts: Seq<TokenV>, pos: nat) -> PList
    decreases rem(ts, pos), 19int,
{
    if tt(ts, pos) is RBrace {
        PList::Found { ss: Seq::empty(), next: pos + 1 }
    } else if at_end_s(ts, pos) {
        PList::Failed { diag: syntax_diag(tok_at(ts, pos), "expect '}' after block"@) }
    } else {
        match p_declaration(ts, pos) {
            PStmt::Found { s, next } => match p_block_items(ts, after(pos, next)) {
                PList::Found { ss, next: n2 } => PList::Found { ss: seq![s] + ss, next: n2 },
                PList::Failed { diag } => PList::Failed { diag },
            },
            PStmt::Failed { diag } => PList::Failed { diag },
        }
    }
}

/// A whole program: declarations until end-of-input.
pub open spec fn p_program(ts: Seq<TokenV>, pos: nat) -> PList
    decreases rem(ts, pos), 20int,
{
    if at_end_s(ts, pos) {
        PList::Found { ss: Seq::empty(), next: pos }
    } else {
        match p_declaration(ts, pos) {
            PStmt::Found { s, next } => match p_program(ts, after(pos, next)) {
                PList::Found { ss, next: n2 } => PList::Found { ss: seq![s] + ss, next: n2 },
                PList::Failed { diag } => PList::Failed { diag },
            },
            PStmt::Failed { diag } => PList::Failed { diag },
        }
    }
}

} // verus!
verus! {

/// A well-formed parser state: there are tokens, the cursor is on one,
/// and the stream ends with the end-of-input marker.
pub open spec fn pwf(p: Parser) -> bool {
    &&& p.tokens@.len() > 0
    &&& p.current < p.tokens@.len()
    &&& tokens_view(p.tokens@).last().t_type is EOF
}

/// The token models a parser works over.
pub open spec fn pts(p: Parser) -> Seq<TokenV> {
    tokens_view(p.tokens@)
}

/// What the contract of every expression production says: the node and
/// cursor demanded by the corresponding `p_*` function, or its
/// diagnostic appended on failure.
pub open spec fn expr_post(pre: Parser, post: Parser, r: Result<Expr, ParseError>, out: PExpr) -> bool {
    &&& post.tokens == pre.tokens
    &&& pwf(post)
    &&& match r {
        Result::Ok(e) => out matches PExpr::Found { e: ev, next } && ev == e@ && post.current
            as nat == next && pre.current < post.current && post.diags == pre.diags,
        Result::Err(_) => out matches PExpr::Failed { diag } && diags_view(post.diags@)
            == diags_view(pre.diags@).push(diag),
    }
}

/// The same, for statement productions.
pub open spec fn stmt_post(pre: Parser, post: Parser, r: Result<Stmt, ParseError>, out: PStmt) -> bool {
    &&& post.tokens == pre.tokens
    &&& pwf(post)
    &&& match r {
        Result::Ok(s) => out matches PStmt::Found { s: sv, next } && sv == s@ && post.current
            as nat == next && pre.current < post.current && post.diags == pre.diags,
        Result::Err(_) => out matches PStmt::Failed { diag } && diags_view(post.diags@)
            == diags_view(pre.diags@).push(diag),
    }
}

/// The same, for statement-list productions.
pub open spec fn list_post(pre: Parser, post: Parser, r: Result<Vec<Stmt>, ParseError>, out: PList) -> bool {
    &&& post.tokens == pre.tokens
    &&& pwf(post)
    &&& match r {
        Result::Ok(ss) => out matches PList::Found { ss: sv, next } && sv == stmts_view(ss@)
            && post.current as nat == next && post.diags == pre.diags,
        Result::Err(_) => out matches PList::Failed { diag } && diags_view(post.diags@)
            == diags_view(pre.diags@).push(diag),
    }
}

/// The parser: a cursor over the tokens, and the diagnostics emitted.
pub struct Parser {
    pub tokens: Vec<Token>,
    pub current: usize,
    pub diags: Vec<String>,
}

impl Parser {
    /// A parser at the first token.
    pub fn new(tokens: Vec<Token>) -> (r: Self)
        ensures
            r.tokens == tokens,
            r.current == 0,
            r.diags@.len() == 0,
    {
        Parser { tokens, current: 0, diags: Vec::new() }
    }

    fn is_at_end(&self) -> (r: bool)
        requires
            pwf(*self),
        ensures
            r == at_end_s(pts(*self), self.current as nat),
    {
        match &self.tokens[self.current].t_type {
            TokenType::EOF => true,
            _ => false,
        }
    }

    /// A copy of the token at the cursor.
    fn peek_owned(&self) -> (r: Token)
        requires
            pwf(*self),
        ensures
            r@ == tok_at(pts(*self), self.current as nat),
    {
        self.tokens[self.current].clone()
    }

    /// Moves past the token at the cursor, except at the end.
    fn advance(&mut self)
        requires
            pwf(*old(self)),
        ensures
            pwf(*final(self)),
            final(self).tokens == old(self).tokens,
            final(self).diags == old(self).diags,
            final(self).current == if at_end_s(pts(*old(self)), old(self).current as nat) {
                old(self).current as int
            } else {
                old(self).current + 1
            },
    {
        let n = self.tokens.len();
        if !self.is_at_end() {
            proof {
                assert(pts(*self)[self.current as int].t_type == self.tokens@[self.current
                    as int]@.t_type);
                assert(pts(*self).last().t_type is EOF);
            }
            self.current = self.current + 1;
        }
    }

    /// Pushes the diagnostic for a syntax error at the cursor.
    fn report_at(&mut self, msg: &str)
        requires
            pwf(*old(self)),
        ensures
            pwf(*final(self)),
            final(self).tokens == old(self).tokens,
            final(self).current == old(self).current,
            diags_view(final(self).diags@) == diags_view(old(self).diags@).push(
                syntax_diag(tok_at(pts(*old(self)), old(self).current as nat), msg@),
            ),
    {
        let t = self.peek_owned();
        let mut loc = " at '".to_owned();
        loc.append(t.lexeme.as_str());
        loc.append("'");
        proof {
            assert(loc@ =~= at_lexeme(t.lexeme@));
        }
        let d = report(t.line, loc.as_str(), msg);
        self.diags.push(d);
        proof {
            assert(diags_view(self.diags@) =~= diags_view(old(self).diags@).push(
                self.diags@.last()@,
            ));
        }
    }
}

} // verus!
verus! {

impl Parser {
    #[verifier::rlimit(100)]
    #[verifier::spinoff_prover]
    pub fn primary(&mut self) -> (r: Result<Expr, ParseError>)
        requires
            pwf(*old(self)),
        ensures
            expr_post(*old(self), *final(self), r, p_primary(pts(*old(self)), old(self).current as nat)),
        decreases rem(pts(*self), self.current as nat), 0int,
    {
        let ghost ts = pts(*old(self));
        let ghost pos0 = old(self).current as nat;
        if self.is_at_end() {
            self.report_at("unfinished expression");
            return Result::Err(ParseError {});
        }
        let t = self.peek_owned();
        match t.t_type {
            TokenType::False => {
                self.advance();
                Result::Ok(Expr::Literal(Literal::BoolLit(false)))
            },
            TokenType::True => {
                self.advance();
                Result::Ok(Expr::Literal(Literal::BoolLit(true)))
            },
            TokenType::Nil => {
                self.advance();
                Result::Ok(Expr::Literal(Literal::NilLit))
            },
            TokenType::RealLit(v) => {
                self.advance();
                Result::Ok(Expr::Literal(Literal::RealLit(v)))
            },
            TokenType::IntLit(i) => {
                self.advance();
                Result::Ok(Expr::Literal(Literal::IntLit(i)))
            },
            TokenType::StrLit(sv) => {
                self.advance();
                Result::Ok(Expr::Literal(Literal::StrLit(sv)))
            },
            TokenType::LParen => {
                self.advance();
                let e = match self.expression() {
                    Result::Ok(e) => e,
                    Result::Err(er) => {
                        return Result::Err(er);
                    },
                };
                let isr = match &self.tokens[self.current].t_type {
                    TokenType::RParen => true,
                    _ => false,
                };
                if isr {
                    self.advance();
                    Result::Ok(Expr::Grouping(Box::new(Grouping::new(e))))
                } else {
                    self.report_at("missing ')' after expression");
                    Result::Err(ParseError {})
                }
            },
            TokenType::Ident => {
                self.advance();
                Result::Ok(Expr::Variable(Variable::new(t.lexeme)))
            },
            _ => {
                self.report_at("expression expected");
                Result::Err(ParseError {})
            },
        }
    }

    #[verifier::rlimit(100)]
    #[verifier::spinoff_prover]
    pub fn unary(&mut self) -> (r: Result<Expr, ParseError>)
        requires
            pwf(*old(self)),
        ensures
            expr_post(*old(self), *final(self), r, p_unary(pts(*old(self)), old(self).current as nat)),
        decreases rem(pts(*self), self.current as nat), 1int,
    {
        reveal(p_unary);
        let is_op = match &self.tokens[self.current].t_type {
            TokenType::Bang | TokenType::Minus => true,
            _ => false,
        };
        if is_op {
            let operator = self.peek_owned();
            self.advance();
            match self.unary() {
                Result::Ok(right) => Result::Ok(
                    Expr::Unary(Box::new(Unary::new(operator, right))),
                ),
                Result::Err(er) => Result::Err(er),
            }
        } else {
            self.primary()
        }
    }

    #[verifier::rlimit(100)]
    #[verifier::spinoff_prover]
    pub fn factor(&mut self) -> (r: Result<Expr, ParseError>)
        requires
            pwf(*old(self)),
        ensures
            expr_post(*old(self), *final(self), r, p_factor(pts(*old(self)), old(self).current as nat)),
        decreases rem(pts(*self), self.current as nat), 3int,
    {
        let ghost ts = pts(*old(self));
        let ghost pos0 = old(self).current as nat;
        let mut e = match self.unary() {
            Result::Ok(e) => e,
            Result::Err(er) => {
                return Result::Err(er);
            },
        };
        loop
            invariant
                pwf(*self),
                self.tokens == old(self).tokens,
                self.diags == old(self).diags,
                ts == pts(*self),
                ts == pts(*old(self)),
                pos0 == old(self).current as nat,
                pos0 < self.current as nat,
                p_factor(ts, pos0) == p_factor_rest(ts, self.current as nat, e@),
            decreases rem(ts, self.current as nat), 100int,
        {
            let ghost cur0 = self.current as nat;
            let is_op = match &self.tokens[self.current].t_type {
                TokenType::Slash | TokenType::Star => true,
                _ => false,
            };
            if !is_op {
                return Result::Ok(e);
            }
            let operator = self.peek_owned();
            self.advance();
            proof {
                assert(self.current as nat == cur0 + 1);
                assert(cur0 < ts.len());
                assert(rem(ts, cur0 + 1) < rem(ts, cur0));
            }
            let right = match self.unary() {
                Result::Ok(r) => r,
                Result::Err(er) => {
                    return Result::Err(er);
                },
            };
            e = Expr::Binary(Box::new(Binary::new(e, operator, right)));
        }
    }

    #[verifier::rlimit(100)]
    #[verifier::spinoff_prover]
    pub fn term(&mut self) -> (r: Result<Expr, ParseError>)
        requires
            pwf(*old(self)),
        ensures
            expr_post(*old(self), *final(self), r, p_term(pts(*old(self)), old(self).current as nat)),
        decreases rem(pts(*self), self.current as nat), 5int,
    {
        let ghost ts = pts(*old(self));
        let ghost pos0 = old(self).current as nat;
        let mut e = match self.factor() {
            Result::Ok(e) => e,
            Result::Err(er) => {
                return Result::Err(er);
            },
        };
        loop
            invariant
                pwf(*self),
                self.tokens == old(self).tokens,
                self.diags == old(self).diags,
                ts == pts(*self),
                ts == pts(*old(self)),
                pos0 == old(self).current as nat,
                pos0 < self.current as nat,
                p_term(ts, pos0) == p_term_rest(ts, self.current as nat, e@),
            decreases rem(ts, self.current as nat), 100int,
        {
            let ghost cur0 = self.current as nat;
            let is_op = match &self.tokens[self.current].t_type {
                TokenType::Minus | TokenType::Plus => true,
                _ => false,
            };
            if !is_op {
                return Result::Ok(e);
            }
            let operator = self.peek_owned();
            self.advance();
            proof {
                assert(self.current as nat == cur0 + 1);
                assert(cur0 < ts.len());
                assert(rem(ts, cur0 + 1) < rem(ts, cur0));
            }
            let right = match self.factor() {
                Result::Ok(r) => r,
                Result::Err(er) => {
                    return Result::Err(er);
                },
            };
            e = Expr::Binary(Box::new(Binary::new(e, operator, right)));
        }
    }

    #[verifier::rlimit(100)]
    #[verifier::spinoff_prover]
    pub fn comparison(&mut self) -> (r: Result<Expr, ParseError>)
        requires
            pwf(*old(self)),
        ensures
            expr_post(*old(self), *final(self), r, p_comparison(pts(*old(self)), old(self).current as nat)),
        decreases rem(pts(*self), self.current as nat), 7int,
    {
        let e = match self.term() {
            Result::Ok(e) => e,
            Result::Err(er) => {
                return Result::Err(er);
            },
        };
        self.comparison_rest(e)
    }

    /// The chain of ordering operators after the first operand.
    #[verifier::rlimit(100)]
    #[verifier::spinoff_prover]
    fn comparison_rest(&mut self, left: Expr) -> (r: Result<Expr, ParseError>)
        requires
            pwf(*old(self)),
        ensures
            ({
                let out = p_comparison_rest(pts(*old(self)), old(self).current as nat, left@);
                &&& final(self).tokens == old(self).tokens
                &&& pwf(*final(self))
                &&& match r {
                    Result::Ok(e) => out matches PExpr::Found { e: ev, next } && ev == e@
                        && final(self).current as nat == next && old(self).current
                        <= final(self).current && final(self).diags == old(self).diags,
                    Result::Err(_) => out matches PExpr::Failed { diag } && diags_view(
                        final(self).diags@,
                    ) == diags_view(old(self).diags@).push(diag),
                }
            }),
        decreases rem(pts(*self), self.current as nat), 6int,
    {
        let is_op = match &self.tokens[self.current].t_type {
            TokenType::Greater | TokenType::GreaterEqual | TokenType::Less
                | TokenType::LessEqual => true,
            _ => false,
        };
        if !is_op {
            return Result::Ok(left);
        }
        let operator = self.peek_owned();
        self.advance();
        let right = match self.term() {
            Result::Ok(r) => r,
            Result::Err(er) => {
                return Result::Err(er);
            },
        };
        self.comparison_rest(Expr::Binary(Box::new(Binary::new(left, operator, right))))
    }

    #[verifier::rlimit(100)]
    #[verifier::spinoff_prover]
    pub fn equality(&mut self) -> (r: Result<Expr, ParseError>)
        requires
            pwf(*old(self)),
        ensures
            expr_post(*old(self), *final(self), r, p_equality(pts(*old(self)), old(self).current as nat)),
        decreases rem(pts(*self), self.current as nat), 9int,
    {
        reveal(p_equality);
        let e = match self.comparison() {
            Result::Ok(e) => e,
            Result::Err(er) => {
                return Result::Err(er);
            },
        };
        self.equality_rest(e)
    }

    /// The chain of equality operators after the first operand.
    #[verifier::rlimit(100)]
    #[verifier::spinoff_prover]
    fn equality_rest(&mut self, left: Expr) -> (r: Result<Expr, ParseError>)
        requires
            pwf(*old(self)),
        ensures
            ({
                let out = p_equality_rest(pts(*old(self)), old(self).current as nat, left@);
                &&& final(self).tokens == old(self).tokens
                &&& pwf(*final(self))
                &&& match r {
                    Result::Ok(e) => out matches PExpr::Found { e: ev, next } && ev == e@
                        && final(self).current as nat == next && old(self).current
                        <= final(self).current && final(self).diags == old(self).diags,
                    Result::Err(_) => out matches PExpr::Failed { diag } && diags_view(
                        final(self).diags@,
                    ) == diags_view(old(self).diags@).push(diag),
                }
            }),
        decreases rem(pts(*self), self.current as nat), 8int,
    {
        let is_op = match &self.tokens[self.current].t_type {
            TokenType::BangEqual | TokenType::EqualEqual => true,
            _ => false,
        };
        if !is_op {
            return Result::Ok(left);
        }
        let operator = self.peek_owned();
        self.advance();
        let right = match self.comparison() {
            Result::Ok(r) => r,
            Result::Err(er) => {
                return Result::Err(er);
            },
        };
        self.equality_rest(Expr::Binary(Box::new(Binary::new(left, operator, right))))
    }

    #[verifier::rlimit(100)]
    #[verifier::spinoff_prover]
    pub fn logic_and(&mut self) -> (r: Result<Expr, ParseError>)
        requires
            pwf(*old(self)),
        ensures
            expr_post(*old(self), *final(self), r, p_logic_and(pts(*old(self)), old(self).current as nat)),
        decreases rem(pts(*self), self.current as nat), 11int,
    {
        let e = match self.equality() {
            Result::Ok(e) => e,
            Result::Err(er) => {
                return Result::Err(er);
            },
        };
        self.logic_and_rest(e)
    }

    /// The chain of `and` operators after the first operand.
    #[verifier::rlimit(100)]
    #[verifier::spinoff_prover]
    fn logic_and_rest(&mut self, left: Expr) -> (r: Result<Expr, ParseError>)
        requires
            pwf(*old(self)),
        ensures
            ({
                let out = p_logic_and_rest(pts(*old(self)), old(self).current as nat, left@);
                &&& final(self).tokens == old(self).tokens
                &&& pwf(*final(self))
                &&& match r {
                    Result::Ok(e) => out matches PExpr::Found { e: ev, next } && ev == e@
                        && final(self).current as nat == next && old(self).current
                        <= final(self).current && final(self).diags == old(self).diags,
                    Result::Err(_) => out matches PExpr::Failed { diag } && diags_view(
                        final(self).diags@,
                    ) == diags_view(old(self).diags@).push(diag),
                }
            }),
        decreases rem(pts(*self), self.current as nat), 10int,
    {
        let is_op = match &self.tokens[self.current].t_type {
            TokenType::And => true,
            _ => false,
        };
        if !is_op {
            return Result::Ok(left);
        }
        let operator = self.peek_owned();
        self.advance();
        let right = match self.equality() {
            Result::Ok(r) => r,
            Result::Err(er) => {
                return Result::Err(er);
            },
        };
        self.logic_and_rest(Expr::Logical(Box::new(Logical::new(left, operator, right))))
    }

    #[verifier::rlimit(100)]
    #[verifier::spinoff_prover]
    pub fn logic_or(&mut self) -> (r: Result<Expr, ParseError>)
        requires
            pwf(*old(self)),
        ensures
            expr_post(*old(self), *final(self), r, p_logic_or(pts(*old(self)), old(self).current as nat)),
        decreases rem(pts(*self), self.current as nat), 13int,
    {
        reveal(p_logic_or);
        let e = match self.logic_and() {
            Result::Ok(e) => e,
            Result::Err(er) => {
                return Result::Err(er);
            },
        };
        self.logic_or_rest(e)
    }

    /// The chain of `or` operators after the first operand.
    #[verifier::rlimit(100)]
    #[verifier::spinoff_prover]
    fn logic_or_rest(&mut self, left: Expr) -> (r: Result<Expr, ParseError>)
        requires
            pwf(*old(self)),
        ensures
            ({
                let out = p_logic_or_rest(pts(*old(self)), old(self).current as nat, left@);
                &&& final(self).tokens == old(self).tokens
                &&& pwf(*final(self))
                &&& match r {
                    Result::Ok(e) => out matches PExpr::Found { e: ev, next } && ev == e@
                        && final(self).current as nat == next && old(self).current
                        <= final(self).current && final(self).diags == old(self).diags,
                    Result::Err(_) => out matches PExpr::Failed { diag } && diags_view(
                        final(self).diags@,
                    ) == diags_view(old(self).diags@).push(diag),
                }
            }),
        decreases rem(pts(*self), self.current as nat), 12int,
    {
        let is_op = match &self.tokens[self.current].t_type {
            TokenType::Or => true,
            _ => false,
        };
        if !is_op {
            return Result::Ok(left);
        }
        let operator = self.peek_owned();
        self.advance();
        let right = match self.logic_and() {
            Result::Ok(r) => r,
            Result::Err(er) => {
                return Result::Err(er);
            },
        };
        self.logic_or_rest(Expr::Logical(Box::new(Logical::new(left, operator, right))))
    }

    #[verifier::rlimit(100)]
    #[verifier::spinoff_prover]
    pub fn assignment(&mut self) -> (r: Result<Expr, ParseError>)
        requires
            pwf(*old(self)),
        ensures
            expr_post(*old(self), *final(self), r, p_assignment(pts(*old(self)), old(self).current as nat)),
        decreases rem(pts(*self), self.current as nat), 14int,
    {
        let ghost ts = pts(*old(self));
        let ghost pos0 = old(self).current as nat;
        let e = match self.logic_or() {
            Result::Ok(e) => e,
            Result::Err(er) => {
                return Result::Err(er);
            },
        };
        let is_eq = match &self.tokens[self.current].t_type {
            TokenType::Equal => true,
            _ => false,
        };
        if is_eq {
            let eq_tok = self.peek_owned();
            self.advance();
            let value = match self.assignment() {
                Result::Ok(v) => v,
                Result::Err(er) => {
                    return Result::Err(er);
                },
            };
            match e {
                Expr::Variable(v) => Result::Ok(
                    Expr::Assignment(Box::new(Assignment::new(v.name, value))),
                ),
                _ => {
                    let mut loc = " at '".to_owned();
                    loc.append(eq_tok.lexeme.as_str());
                    loc.append("'");
                    proof {
                        assert(loc@ =~= at_lexeme(eq_tok.lexeme@));
                    }
                    let d = report(eq_tok.line, loc.as_str(), "invalid l-value");
                    self.diags.push(d);
                    proof {
                        assert(diags_view(self.diags@) =~= diags_view(old(self).diags@).push(
                            self.diags@.last()@,
                        ));
                    }
                    Result::Err(ParseError {})
                },
            }
        } else {
            Result::Ok(e)
        }
    }

    pub fn expression(&mut self) -> (r: Result<Expr, ParseError>)
        requires
            pwf(*old(self)),
        ensures
            expr_post(*old(self), *final(self), r, p_expression(pts(*old(self)), old(self).current as nat)),
        decreases rem(pts(*self), self.current as nat), 15int,
    {
        self.assignment()
    }
}

} // verus!
verus! {

/// Extending a statement list extends its models.
pub proof fn lemma_stmts_view_cons(s: Stmt, ss: Seq<Stmt>)
    ensures
        stmts_view(seq![s] + ss) == seq![crate::stmt::stmt_view(s)] + stmts_view(ss),
{
    assert((seq![s] + ss).first() == s);
    assert((seq![s] + ss).drop_first() =~= ss);
    assert(stmts_view(seq![s] + ss) =~= seq![crate::stmt::stmt_view(s)] + stmts_view(ss));
}

impl Parser {
    #[verifier::rlimit(100)]
    #[verifier::spinoff_prover]
    pub fn print_stmt(&mut self) -> (r: Result<Stmt, ParseError>)
        requires
            pwf(*old(self)),
        ensures
            stmt_post(*old(self), *final(self), r, p_print_stmt(pts(*old(self)), old(self).current as nat)),
        decreases rem(pts(*self), self.current as nat), 16int,
    {
        let value = match self.expression() {
            Result::Ok(e) => e,
            Result::Err(er) => {
                return Result::Err(er);
            },
        };
        let issemi = match &self.tokens[self.current].t_type {
            TokenType::Semicolon => true,
            _ => false,
        };
        if issemi {
            self.advance();
            Result::Ok(Stmt::new(StmtType::Print(value)))
        } else {
            self.report_at("expect ';' after print value");
            Result::Err(ParseError {})
        }
    }

    #[verifier::rlimit(100)]
    #[verifier::spinoff_prover]
    pub fn expr_stmt(&mut self) -> (r: Result<Stmt, ParseError>)
        requires
            pwf(*old(self)),
        ensures
            stmt_post(*old(self), *final(self), r, p_expr_stmt(pts(*old(self)), old(self).current as nat)),
        decreases rem(pts(*self), self.current as nat), 16int,
    {
        let e = match self.expression() {
            Result::Ok(e) => e,
            Result::Err(er) => {
                return Result::Err(er);
            },
        };
        let issemi = match &self.tokens[self.current].t_type {
            TokenType::Semicolon => true,
            _ => false,
        };
        if issemi {
            self.advance();
            Result::Ok(Stmt::new(StmtType::Expression(e)))
        } else {
            self.report_at("expect ';' after expression");
            Result::Err(ParseError {})
        }
    }

    #[verifier::rlimit(100)]
    #[verifier::spinoff_prover]
    pub fn int_decl(&mut self) -> (r: Result<Stmt, ParseError>)
        requires
            pwf(*old(self)),
        ensures
            stmt_post(*old(self), *final(self), r, p_decl(pts(*old(self)), old(self).current as nat, DeclKind::DInt)),
        decreases rem(pts(*self), self.current as nat), 16int,
    {
        let isid = match &self.tokens[self.current].t_type {
            TokenType::Ident => true,
            _ => false,
        };
        if !isid {
            self.report_at("expect variable name");
            return Result::Err(ParseError {});
        }
        let name_tok = self.peek_owned();
        self.advance();
        let has_init = match &self.tokens[self.current].t_type {
            TokenType::Equal => true,
            _ => false,
        };
        let initializer: Option<Expr> = if has_init {
            self.advance();
            match self.expression() {
                Result::Ok(e) => Option::Some(e),
                Result::Err(er) => {
                    return Result::Err(er);
                },
            }
        } else {
            Option::None
        };
        let issemi = match &self.tokens[self.current].t_type {
            TokenType::Semicolon => true,
            _ => false,
        };
        if issemi {
            self.advance();
            Result::Ok(Stmt::new(StmtType::IntDecl(name_tok.lexeme, initializer)))
        } else {
            self.report_at("expect ';' after declaration");
            Result::Err(ParseError {})
        }
    }

    #[verifier::rlimit(100)]
    #[verifier::spinoff_prover]
    pub fn real_decl(&mut self) -> (r: Result<Stmt, ParseError>)
        requires
            pwf(*old(self)),
        ensures
            stmt_post(*old(self), *final(self), r, p_decl(pts(*old(self)), old(self).current as nat, DeclKind::DReal)),
        decreases rem(pts(*self), self.current as nat), 16int,
    {
        let isid = match &self.tokens[self.current].t_type {
            TokenType::Ident => true,
            _ => false,
        };
        if !isid {
            self.report_at("expect variable name");
            return Result::Err(ParseError {});
        }
        let name_tok = self.peek_owned();
        self.advance();
        let has_init = match &self.tokens[self.current].t_type {
            TokenType::Equal => true,
            _ => false,
        };
        let initializer: Option<Expr> = if has_init {
            self.advance();
            match self.expression() {
                Result::Ok(e) => Option::Some(e),
                Result::Err(er) => {
                    return Result::Err(er);
                },
            }
        } else {
            Option::None
        };
        let issemi = match &self.tokens[self.current].t_type {
            TokenType::Semicolon => true,
            _ => false,
        };
        if issemi {
            self.advance();
            Result::Ok(Stmt::new(StmtType::RealDecl(name_tok.lexeme, initializer)))
        } else {
            self.report_at("expect ';' after declaration");
            Result::Err(ParseError {})
        }
    }

    #[verifier::rlimit(100)]
    #[verifier::spinoff_prover]
    pub fn str_decl(&mut self) -> (r: Result<Stmt, ParseError>)
        requires
            pwf(*old(self)),
        ensures
            stmt_post(*old(self), *final(self), r, p_decl(pts(*old(self)), old(self).current as nat, DeclKind::DStr)),
        decreases rem(pts(*self), self.current as nat), 16int,
    {
        let isid = match &self.tokens[self.current].t_type {
            TokenType::Ident => true,
            _ => false,
        };
        if !isid {
            self.report_at("expect variable name");
            return Result::Err(ParseError {});
        }
        let name_tok = self.peek_owned();
        self.advance();
        let has_init = match &self.tokens[self.current].t_type {
            TokenType::Equal => true,
            _ => false,
        };
        let initializer: Option<Expr> = if has_init {
            self.advance();
            match self.expression() {
                Result::Ok(e) => Option::Some(e),
                Result::Err(er) => {
                    return Result::Err(er);
                },
            }
        } else {
            Option::None
        };
        let issemi = match &self.tokens[self.current].t_type {
            TokenType::Semicolon => true,
            _ => false,
        };
        if issemi {
            self.advance();
            Result::Ok(Stmt::new(StmtType::StrDecl(name_tok.lexeme, initializer)))
        } else {
            self.report_at("expect ';' after declaration");
            Result::Err(ParseError {})
        }
    }

    #[verifier::rlimit(100)]
    #[verifier::spinoff_prover]
    pub fn if_stmt(&mut self) -> (r: Result<Stmt, ParseError>)
        requires
            pwf(*old(self)),
        ensures
            stmt_post(*old(self), *final(self), r, p_if_stmt(pts(*old(self)), old(self).current as nat)),
        decreases rem(pts(*self), self.current as nat), 16int,
    {
        let ghost ts = pts(*old(self));
        let ghost pos0 = old(self).current as nat;
        let islp = match &self.tokens[self.current].t_type {
            TokenType::LParen => true,
            _ => false,
        };
        if !islp {
            self.report_at("expect '(' after 'if'");
            return Result::Err(ParseError {});
        }
        self.advance();
        let c = match self.expression() {
            Result::Ok(e) => e,
            Result::Err(er) => {
                return Result::Err(er);
            },
        };
        let ghost n1 = self.current as nat;
        let isrp = match &self.tokens[self.current].t_type {
            TokenType::RParen => true,
            _ => false,
        };
        if !isrp {
            self.report_at("expect ')' after condition");
            return Result::Err(ParseError {});
        }
        self.advance();
        proof {
            assert(after(pos0, n1 + 1) == n1 + 1);
            assert(p_if_stmt(ts, pos0) == (match p_statement(ts, n1 + 1) {
                PStmt::Found { s: tv, next: n2 } => if tt(ts, n2) is Else {
                    match p_statement(ts, after(pos0, n2 + 1)) {
                        PStmt::Found { s: ev2, next: n3 } => PStmt::Found {
                            s: StmtV::If(c@, Box::new(tv), Option::Some(Box::new(ev2))),
                            next: n3,
                        },
                        PStmt::Failed { diag } => PStmt::Failed { diag },
                    }
                } else {
                    PStmt::Found { s: StmtV::If(c@, Box::new(tv), Option::None), next: n2 }
                },
                PStmt::Failed { diag } => PStmt::Failed { diag },
            }));
        }
        let t = match self.statement() {
            Result::Ok(s) => s,
            Result::Err(er) => {
                return Result::Err(er);
            },
        };
        let ghost n2v = self.current as nat;
        let isel = match &self.tokens[self.current].t_type {
            TokenType::Else => true,
            _ => false,
        };
        if isel {
            self.advance();
            proof {
                assert(after(pos0, n2v + 1) == n2v + 1);
            }
            let el = match self.statement() {
                Result::Ok(s) => s,
                Result::Err(er) => {
                    return Result::Err(er);
                },
            };
            Result::Ok(Stmt::new(StmtType::If(c, Box::new(t), Option::Some(Box::new(el)))))
        } else {
            Result::Ok(Stmt::new(StmtType::If(c, Box::new(t), Option::None)))
        }
    }

    #[verifier::rlimit(100)]
    #[verifier::spinoff_prover]
    pub fn while_stmt(&mut self) -> (r: Result<Stmt, ParseError>)
        requires
            pwf(*old(self)),
        ensures
            stmt_post(*old(self), *final(self), r, p_while_stmt(pts(*old(self)), old(self).current as nat)),
        decreases rem(pts(*self), self.current as nat), 16int,
    {
        let ghost ts = pts(*old(self));
        let ghost pos0 = old(self).current as nat;
        let islp = match &self.tokens[self.current].t_type {
            TokenType::LParen => true,
            _ => false,
        };
        if !islp {
            self.report_at("expect '(' after 'while'");
            return Result::Err(ParseError {});
        }
        self.advance();
        let c = match self.expression() {
            Result::Ok(e) => e,
            Result::Err(er) => {
                return Result::Err(er);
            },
        };
        let ghost n1 = self.current as nat;
        let isrp = match &self.tokens[self.current].t_type {
            TokenType::RParen => true,
            _ => false,
        };
        if !isrp {
            self.report_at("expect ')' after condition");
            return Result::Err(ParseError {});
        }
        self.advance();
        proof {
            assert(after(pos0, n1 + 1) == n1 + 1);
            assert(p_while_stmt(ts, pos0) == (match p_statement(ts, n1 + 1) {
                PStmt::Found { s: bv, next: n2 } => PStmt::Found {
                    s: StmtV::While(c@, Box::new(bv)),
                    next: n2,
                },
                PStmt::Failed { diag } => PStmt::Failed { diag },
            }));
        }
        let b = match self.statement() {
            Result::Ok(s) => s,
            Result::Err(er) => {
                return Result::Err(er);
            },
        };
        Result::Ok(Stmt::new(StmtType::While(c, Box::new(b))))
    }

    #[verifier::rlimit(100)]
    #[verifier::spinoff_prover]
    pub fn statement(&mut self) -> (r: Result<Stmt, ParseError>)
        requires
            pwf(*old(self)),
        ensures
            stmt_post(*old(self), *final(self), r, p_statement(pts(*old(self)), old(self).current as nat)),
        decreases rem(pts(*self), self.current as nat), 17int,
    {
        let ghost ts = pts(*old(self));
        let ghost pos0 = old(self).current as nat;
        let k: u8 = match &self.tokens[self.current].t_type {
            TokenType::Print => 1u8,
            TokenType::If => 2u8,
            TokenType::While => 3u8,
            TokenType::LBrace => 4u8,
            _ => 0u8,
        };
        if k == 1 {
            self.advance();
            proof {
                assert(p_statement(ts, pos0) == p_print_stmt(ts, pos0 + 1));
            }
            self.print_stmt()
        } else if k == 2 {
            self.advance();
            proof {
                assert(p_statement(ts, pos0) == p_if_stmt(ts, pos0 + 1));
            }
            self.if_stmt()
        } else if k == 3 {
            self.advance();
            proof {
                assert(p_statement(ts, pos0) == p_while_stmt(ts, pos0 + 1));
            }
            self.while_stmt()
        } else if k == 4 {
            self.advance();
            match self.block_items() {
                Result::Ok(ss) => Result::Ok(Stmt::new(StmtType::Block(ss))),
                Result::Err(er) => Result::Err(er),
            }
        } else {
            proof {
                assert(p_statement(ts, pos0) == p_expr_stmt(ts, pos0));
            }
            self.expr_stmt()
        }
    }

    #[verifier::rlimit(100)]
    #[verifier::spinoff_prover]
    pub fn declaration(&mut self) -> (r: Result<Stmt, ParseError>)
        requires
            pwf(*old(self)),
        ensures
            stmt_post(*old(self), *final(self), r, p_declaration(pts(*old(self)), old(self).current as nat)),
        decreases rem(pts(*self), self.current as nat), 18int,
    {
        let k: u8 = match &self.tokens[self.current].t_type {
            TokenType::Int => 1u8,
            TokenType::Real => 2u8,
            TokenType::Str => 3u8,
            _ => 0u8,
        };
        if k == 1 {
            self.advance();
            self.int_decl()
        } else if k == 2 {
            self.advance();
            self.real_decl()
        } else if k == 3 {
            self.advance();
            self.str_decl()
        } else {
            self.statement()
        }
    }

    /// The statements of a block, up to and including the closing `}`.
    #[verifier::rlimit(100)]
    #[verifier::spinoff_prover]
    pub fn block_items(&mut self) -> (r: Result<Vec<Stmt>, ParseError>)
        requires
            pwf(*old(self)),
        ensures
            list_post(*old(self), *final(self), r, p_block_items(pts(*old(self)), old(self).current as nat)),
            r is Ok ==> old(self).current < final(self).current,
        decreases rem(pts(*self), self.current as nat), 19int,
    {
        let isrb = match &self.tokens[self.current].t_type {
            TokenType::RBrace => true,
            _ => false,
        };
        if isrb {
            self.advance();
            proof {
                assert(stmts_view(Seq::<Stmt>::empty()) =~= Seq::<StmtV>::empty());
            }
            return Result::Ok(Vec::new());
        }
        if self.is_at_end() {
            self.report_at("expect '}' after block");
            return Result::Err(ParseError {});
        }
        let s = match self.declaration() {
            Result::Ok(s) => s,
            Result::Err(er) => {
                return Result::Err(er);
            },
        };
        let mut rest = match self.block_items() {
            Result::Ok(ss) => ss,
            Result::Err(er) => {
                return Result::Err(er);
            },
        };
        let ghost rest0 = rest@;
        rest.insert(0, s);
        proof {
            assert(rest@ =~= seq![s] + rest0);
            lemma_stmts_view_cons(s, rest0);
        }
        Result::Ok(rest)
    }

    /// Parses a whole program: declarations until end-of-input.
    #[verifier::rlimit(100)]
    #[verifier::spinoff_prover]
    pub fn parse(&mut self) -> (r: Result<Vec<Stmt>, ParseError>)
        requires
            pwf(*old(self)),
        ensures
            list_post(*old(self), *final(self), r, p_program(pts(*old(self)), old(self).current as nat)),
        decreases rem(pts(*self), self.current as nat), 20int,
    {
        if self.is_at_end() {
            proof {
                assert(stmts_view(Seq::<Stmt>::empty()) =~= Seq::<StmtV>::empty());
            }
            return Result::Ok(Vec::new());
        }
        let s = match self.declaration() {
            Result::Ok(s) => s,
            Result::Err(er) => {
                return Result::Err(er);
            },
        };
        let mut rest = match self.parse() {
            Result::Ok(ss) => ss,
            Result::Err(er) => {
                return Result::Err(er);
            },
        };
        let ghost rest0 = rest@;
        rest.insert(0, s);
        proof {
            assert(rest@ =~= seq![s] + rest0);
            lemma_stmts_view_cons(s, rest0);
        }
        Result::Ok(rest)
    }
}

} // verus!
