//! Statement nodes of the abstract syntax tree.

use vstd::prelude::*;
use vstd::string::*;
use crate::expr::{Expr, ExprV, expr_view, expr_text};

verus! {

/// A statement.
pub enum StmtType {
    Print(Expr),
    Expression(Expr),
    IntDecl(String, Option<Expr>),
    RealDecl(String, Option<Expr>),
    StrDecl(String, Option<Expr>),
    Block(Vec<Stmt>),
    If(Expr, Box<Stmt>, Option<Box<Stmt>>),
    While(Expr, Box<Stmt>),
}

/// A statement node.
pub struct Stmt {
    pub s_type: StmtType,
}

/// The mathematical model of a statement.
pub enum StmtV {
    Print(ExprV),
    Expression(ExprV),
    IntDecl(Seq<char>, Option<ExprV>),
    RealDecl(Seq<char>, Option<ExprV>),
    StrDecl(Seq<char>, Option<ExprV>),
    Block(Seq<StmtV>),
    If(ExprV, Box<StmtV>, Option<Box<StmtV>>),
    While(ExprV, Box<StmtV>),
}

/// The model of a statement node.
pub open spec fn stmt_view(s: Stmt) -> StmtV
    decreases s,
    via stmt_view_dec
{
    match s.s_type {
        StmtType::Print(e) => StmtV::Print(expr_view(e)),
        StmtType::Expression(e) => StmtV::Expression(expr_view(e)),
        StmtType::IntDecl(n, init) => StmtV::IntDecl(
            n@,
            match init {
                Option::Some(e) => Option::Some(expr_view(e)),
                Option::None => Option::None,
            },
        ),
        StmtType::RealDecl(n, init) => StmtV::RealDecl(
            n@,
            match init {
                Option::Some(e) => Option::Some(expr_view(e)),
                Option::None => Option::None,
            },
        ),
        StmtType::StrDecl(n, init) => StmtV::StrDecl(
            n@,
            match init {
                Option::Some(e) => Option::Some(expr_view(e)),
                Option::None => Option::None,
            },
        ),
        StmtType::Block(ss) => StmtV::Block(stmts_view(ss@)),
        StmtType::If(c, t, e) => StmtV::If(
            expr_view(c),
            Box::new(stmt_view(*t)),
            match e {
                Option::Some(el) => Option::Some(Box::new(stmt_view(*el))),
                Option::None => Option::None,
            },
        ),
        StmtType::While(c, b) => StmtV::While(expr_view(c), Box::new(stmt_view(*b))),
    }
}

#[via_fn]
proof fn stmt_view_dec(s: Stmt) {
    match s.s_type {
        StmtType::Block(ss) => {
            assert(decreases_to!(s => s.s_type));
            assert(decreases_to!(s.s_type => ss));
            assert(decreases_to!(ss => ss@));
            assert(decreases_to!(s => ss@));
        },
        _ => {},
    }
}

/// The models of a statement list, in order.
pub open spec fn stmts_view(ss: Seq<Stmt>) -> Seq<StmtV>
    decreases ss,
{
    if ss.len() == 0 {
        Seq::<StmtV>::empty()
    } else {
        seq![stmt_view(ss.first())] + stmts_view(ss.drop_first())
    }
}

impl View for Stmt {
    type V = StmtV;

    open spec fn view(&self) -> StmtV {
        stmt_view(*self)
    }
}

impl Stmt {
    pub fn new(s_type: StmtType) -> (r: Self)
        ensures
            r.s_type == s_type,
    {
        Stmt { s_type }
    }
}

/// The textual form of a statement: parenthesized prefix style, with
/// block members and branch bodies indented on their own lines.
pub open spec fn stmt_text(s: StmtV) -> Seq<char>
    decreases s, 0int,
{
    match s {
        StmtV::Print(e) => "(print "@ + expr_text(e) + ")"@,
        StmtV::Expression(e) => expr_text(e),
        StmtV::IntDecl(n, init) => "(int "@ + n + (match init {
            Option::Some(e) => " "@ + expr_text(e) + ")"@,
            Option::None => ")"@,
        }),
        StmtV::RealDecl(n, init) => "(real "@ + n + (match init {
            Option::Some(e) => " "@ + expr_text(e) + ")"@,
            Option::None => ")"@,
        }),
        StmtV::StrDecl(n, init) => "(str "@ + n + (match init {
            Option::Some(e) => " "@ + expr_text(e) + ")"@,
            Option::None => ")"@,
        }),
        StmtV::Block(ss) => "(block\n"@ + stmts_text(ss) + ")"@,
        StmtV::If(c, t, els) => "(if "@ + expr_text(c) + "\n  "@ + stmt_text(*t) + "\n"@
            + (match els {
            Option::Some(el) => "(else \n  "@ + stmt_text(*el) + "\n))"@,
            Option::None => ")"@,
        }),
        StmtV::While(c, b) => "(while "@ + expr_text(c) + "\n  "@ + stmt_text(*b) + "\n)"@,
    }
}

/// The members of a block, each indented on its own line.
pub open spec fn stmts_text(ss: Seq<StmtV>) -> Seq<char>
    decreases ss, 1int,
{
    if ss.len() == 0 {
        Seq::empty()
    } else {
        "  "@ + stmt_text(ss.first()) + "\n"@ + stmts_text(ss.drop_first())
    }
}

impl Stmt {
    /// Renders this statement as `stmt_text` describes.
    pub fn print(&self) -> (r: String)
        ensures
            r@ == stmt_text(self@),
        decreases *self, 0int,
    {
        match &self.s_type {
            StmtType::Print(e) => {
                let mut out = "(print ".to_owned();
                out.append(e.print().as_str());
                out.append(")");
                proof {
                    assert(out@ =~= stmt_text(self@));
                }
                out
            },
            StmtType::Expression(e) => e.print(),
            StmtType::IntDecl(n, init) => {
                let mut out = "(int ".to_owned();
                out.append(n.as_str());
                match init {
                    Option::Some(e) => {
                        out.append(" ");
                        out.append(e.print().as_str());
                        out.append(")");
                    },
                    Option::None => {
                        out.append(")");
                    },
                }
                proof {
                    assert(out@ =~= stmt_text(self@));
                }
                out
            },
            StmtType::RealDecl(n, init) => {
                let mut out = "(real ".to_owned();
                out.append(n.as_str());
                match init {
                    Option::Some(e) => {
                        out.append(" ");
                        out.append(e.print().as_str());
                        out.append(")");
                    },
                    Option::None => {
                        out.append(")");
                    },
                }
                proof {
                    assert(out@ =~= stmt_text(self@));
                }
                out
            },
            StmtType::StrDecl(n, init) => {
                let mut out = "(str ".to_owned();
                out.append(n.as_str());
                match init {
                    Option::Some(e) => {
                        out.append(" ");
                        out.append(e.print().as_str());
                        out.append(")");
                    },
                    Option::None => {
                        out.append(")");
                    },
                }
                proof {
                    assert(out@ =~= stmt_text(self@));
                }
                out
            },
            StmtType::Block(ss) => {
                let mut out = "(block\n".to_owned();
                out.append(block_body_text(ss, 0).as_str());
                out.append(")");
                proof {
                    assert(ss@.skip(0) =~= ss@);
                    assert(out@ =~= stmt_text(self@));
                }
                out
            },
            StmtType::If(c, t, els) => {
                let mut out = "(if ".to_owned();
                out.append(c.print().as_str());
                out.append("\n  ");
                out.append(t.print().as_str());
                out.append("\n");
                match els {
                    Option::Some(el) => {
                        out.append("(else \n  ");
                        out.append(el.print().as_str());
                        out.append("\n))");
                    },
                    Option::None => {
                        out.append(")");
                    },
                }
                proof {
                    assert(out@ =~= stmt_text(self@));
                }
                out
            },
            StmtType::While(c, b) => {
                let mut out = "(while ".to_owned();
                out.append(c.print().as_str());
                out.append("\n  ");
                out.append(b.print().as_str());
                out.append("\n)");
                proof {
                    assert(out@ =~= stmt_text(self@));
                }
                out
            },
        }
    }
}

/// The members of a block from position `i` on, rendered in order.
fn block_body_text(ss: &Vec<Stmt>, i: usize) -> (r: String)
    requires
        i <= ss@.len(),
    ensures
        r@ == stmts_text(stmts_view(ss@.skip(i as int))),
    decreases *ss, ss@.len() - i,
{
    if i == ss.len() {
        proof {
            assert(ss@.skip(i as int) =~= Seq::<Stmt>::empty());
            assert(stmts_view(Seq::<Stmt>::empty()) =~= Seq::<StmtV>::empty());
        }
        String::new()
    } else {
        proof {
            assert(ss@.skip(i as int).first() == ss@[i as int]);
            assert(ss@.skip(i as int).drop_first() =~= ss@.skip(i + 1));
            crate::interpreter::lemma_stmts_view_first(ss@.skip(i as int));
        }
        let mut out = "  ".to_owned();
        out.append(ss[i].print().as_str());
        out.append("\n");
        out.append(block_body_text(ss, i + 1).as_str());
        proof {
            assert(out@ =~= stmts_text(stmts_view(ss@.skip(i as int))));
        }
        out
    }
}

} // verus!
