//! Properties the library is held to, stated once over the
//! specification functions and proved for all inputs.

use vstd::prelude::*;
use crate::environment::{
    FrameV, chain_get, chain_assign, chain_define, frame_get, frame_assign,
};
use crate::expr::ExprV;
use crate::stmt::StmtV;
use crate::semantics::{
    eval_expr_s, exec_stmt_s, exec_stmts_s, ExecOut, lemma_exec_stmt_len, lemma_exec_stmts_len,
    lemma_exec_stmts_names, same_names,
};
use crate::scanner::{scan_text, scan_rest, scan_step, dec_val};
use crate::text::{dec_str, digit_char};
use crate::token::TokenV;
use crate::parser::p_program;
use crate::value::{ValV, kind_of};

verus! {

/// Lexer totality: scanning is a total function of the source text (it
/// always terminates), and whatever the input, the token stream it
/// emits ends in exactly one end-of-input token; a text it cannot
/// tokenize adds lexical diagnostics instead of stopping the stream.
pub proof fn lemma_scanner_total(src: Seq<char>)
    ensures
        scan_text(src).len() >= 1,
        scan_text(src).last().t_type is EOF,
        forall|i: int| 0 <= i < scan_text(src).len() - 1 ==> !((#[trigger] scan_text(
            src,
        )[i]).t_type is EOF),
{
    lemma_scan_rest_no_eof(src, 0, 1);
    assert(forall|i: int| 0 <= i < scan_text(src).len() - 1 ==> scan_text(src)[i] == scan_rest(
        src,
        0,
        1,
    ).toks[i]);
}

/// Parser determinism: the program parsed from a token sequence is a
/// function of that sequence alone, so equal token streams always
/// yield the same abstract syntax tree or the same diagnostic.
pub proof fn lemma_parser_deterministic(a: Seq<TokenV>, b: Seq<TokenV>)
    requires
        a == b,
    ensures
        p_program(a, 0) == p_program(b, 0),
{
}

/// Short-circuit: when the left operand of `and` is false, the right
/// operand is never consulted — the outcome is the same whatever
/// expression stands there — and the result is false.
pub proof fn lemma_short_circuit_and(
    env: Seq<FrameV>,
    op: TokenV,
    left: ExprV,
    e1: ExprV,
    e2: ExprV,
)
    requires
        op.t_type is And,
        eval_expr_s(env, left).res == Result::<ValV, ()>::Ok(ValV::Bool(false)),
    ensures
        eval_expr_s(env, ExprV::Logical { op, left: Box::new(left), right: Box::new(e1) })
            == eval_expr_s(env, ExprV::Logical { op, left: Box::new(left), right: Box::new(e2) }),
        eval_expr_s(env, ExprV::Logical { op, left: Box::new(left), right: Box::new(e1) }).res
            == Result::<ValV, ()>::Ok(ValV::Bool(false)),
{
}

/// Short-circuit, symmetrically: when the left operand of `or` is
/// true, the right operand is never consulted and the result is true.
pub proof fn lemma_short_circuit_or(
    env: Seq<FrameV>,
    op: TokenV,
    left: ExprV,
    e1: ExprV,
    e2: ExprV,
)
    requires
        op.t_type is Or,
        eval_expr_s(env, left).res == Result::<ValV, ()>::Ok(ValV::Bool(true)),
    ensures
        eval_expr_s(env, ExprV::Logical { op, left: Box::new(left), right: Box::new(e1) })
            == eval_expr_s(env, ExprV::Logical { op, left: Box::new(left), right: Box::new(e2) }),
        eval_expr_s(env, ExprV::Logical { op, left: Box::new(left), right: Box::new(e1) }).res
            == Result::<ValV, ()>::Ok(ValV::Bool(true)),
{
}

/// Overwriting a binding stores exactly the assigned value.
proof fn lemma_frame_assign_get(f: FrameV, name: Seq<char>, v: ValV)
    ensures
        frame_assign(f, name, v) matches Option::Some(g) ==> frame_get(g, name)
            == Option::Some(v),
    decreases f.len(),
{
    if f.len() > 0 && f.last().0 != name {
        lemma_frame_assign_get(f.drop_last(), name, v);
        match frame_assign(f.drop_last(), name, v) {
            Option::Some(g) => {
                assert(g.push(f.last()).drop_last() =~= g);
            },
            Option::None => {},
        }
    }
}

proof fn lemma_chain_assign_get(c: Seq<FrameV>, name: Seq<char>, v: ValV)
    ensures
        chain_assign(c, name, v) matches Option::Some(d) ==> chain_get(d, name)
            == Option::Some(v),
    decreases c.len(),
{
    if c.len() > 0 {
        lemma_frame_assign_get(c.last(), name, v);
        match frame_assign(c.last(), name, v) {
            Option::Some(g) => {
                assert(c.drop_last().push(g).last() == g);
            },
            Option::None => {
                crate::environment::lemma_frame_get_assign(c.last(), name, v);
                lemma_chain_assign_get(c.drop_last(), name, v);
                match chain_assign(c.drop_last(), name, v) {
                    Option::Some(d) => {
                        assert(d.push(c.last()).drop_last() =~= d);
                    },
                    Option::None => {},
                }
            },
        }
    }
}

/// Type soundness of assignment: a successful assignment stores
/// exactly the assigned value, and the variable's dynamic type stays
/// the type it was declared with.
pub proof fn lemma_type_soundness_assign(c: Seq<FrameV>, name: Seq<char>, lv: ValV, v: ValV)
    requires
        chain_get(c, name) == Option::Some(lv),
        crate::semantics::assign_compatible(lv, v),
        chain_assign(c, name, v) is Some,
    ensures
        chain_get(chain_assign(c, name, v).unwrap(), name) == Option::Some(v),
        kind_of(v) == kind_of(lv),
{
    lemma_chain_assign_get(c, name, v);
}

/// Type soundness of declaration: right after a binding is made, the
/// name reads back exactly the declared value.
pub proof fn lemma_type_soundness_define(c: Seq<FrameV>, name: Seq<char>, v: ValV)
    requires
        c.len() >= 1,
    ensures
        chain_get(chain_define(c, name, v), name) == Option::Some(v),
{
    assert(chain_define(c, name, v).last() == c.last().push((name, v)));
}

/// Scope discipline, counted: a block statement opens one scope and
/// closes it again on every exit path, so a finished block leaves
/// exactly the scopes it found.
pub proof fn lemma_block_scope_count(env: Seq<FrameV>, ss: Seq<StmtV>, fuel: nat)
    requires
        env.len() >= 1,
    ensures
        exec_stmt_s(env, StmtV::Block(ss), fuel) matches ExecOut::Done { env: e2, .. }
            ==> e2.len() == env.len(),
{
    lemma_exec_stmt_len(env, StmtV::Block(ss), fuel);
}

/// A name resolves in a chain exactly when some frame binds it.
proof fn lemma_chain_get_none_frames(c: Seq<FrameV>, x: Seq<char>)
    ensures
        (chain_get(c, x) is None) <==> (forall|i: int|
            0 <= i < c.len() ==> frame_get(#[trigger] c[i], x) is None),
    decreases c.len(),
{
    if c.len() > 0 {
        lemma_chain_get_none_frames(c.drop_last(), x);
        assert(c[c.len() - 1] == c.last());
        if chain_get(c, x) is None {
            assert(frame_get(c.last(), x) is None);
            assert(chain_get(c.drop_last(), x) is None);
            assert forall|i: int| 0 <= i < c.len() implies frame_get(
                #[trigger] c[i],
                x,
            ) is None by {
                if i < c.len() - 1 {
                    assert(c.drop_last()[i] == c[i]);
                    assert(frame_get(c.drop_last()[i], x) is None);
                }
            }
        }
        if forall|i: int| 0 <= i < c.len() ==> frame_get(#[trigger] c[i], x) is None {
            assert forall|i: int| 0 <= i < c.drop_last().len() implies frame_get(
                #[trigger] c.drop_last()[i],
                x,
            ) is None by {
                assert(c.drop_last()[i] == c[i]);
                assert(frame_get(c[i], x) is None);
            }
            assert(chain_get(c.drop_last(), x) is None);
            assert(frame_get(c[c.len() - 1], x) is None);
            assert(chain_get(c, x) is None);
        }
    }
}

/// Looking a name up in a frame consults only the names it binds.
proof fn lemma_frame_get_none_same_names(f: FrameV, g: FrameV, x: Seq<char>)
    requires
        same_names(f, g),
        frame_get(f, x) is None,
    ensures
        frame_get(g, x) is None,
    decreases f.len(),
{
    if f.len() > 0 {
        assert(g[f.len() - 1].0 == f[f.len() - 1].0);
        assert(g.last().0 == f.last().0);
        assert(same_names(f.drop_last(), g.drop_last())) by {
            assert forall|j: int|
                0 <= j < f.len() - 1 implies (#[trigger] g.drop_last()[j]).0
                == f.drop_last()[j].0 by {
                assert(g.drop_last()[j] == g[j]);
                assert(f.drop_last()[j] == f[j]);
                assert(g[j].0 == f[j].0);
            }
        };
        lemma_frame_get_none_same_names(f.drop_last(), g.drop_last(), x);
    }
}

/// Scope discipline: a name that was not visible before a block is not
/// visible after it — declarations made inside vanish with the block's
/// frame, on the success and error paths alike.
pub proof fn lemma_block_hides_locals(env: Seq<FrameV>, ss: Seq<StmtV>, fuel: nat, x: Seq<char>)
    requires
        env.len() >= 1,
        chain_get(env, x) is None,
    ensures
        exec_stmt_s(env, StmtV::Block(ss), fuel) matches ExecOut::Done { env: e2, .. }
            ==> chain_get(e2, x) is None,
{
    let pushed = env.push(Seq::empty());
    lemma_exec_stmts_names(pushed, ss, fuel);
    match exec_stmts_s(pushed, ss, fuel) {
        ExecOut::Done { env: d, .. } => {
            let e2 = d.drop_last();
            lemma_chain_get_none_frames(env, x);
            assert forall|i: int| 0 <= i < e2.len() implies frame_get(
                #[trigger] e2[i],
                x,
            ) is None by {
                assert(pushed[i] == env[i]);
                assert(e2[i] == d[i]);
                assert(same_names(env[i], d[i]));
                assert(frame_get(env[i], x) is None);
                lemma_frame_get_none_same_names(env[i], d[i], x);
            }
            lemma_chain_get_none_frames(e2, x);
        },
        ExecOut::Spent => {},
    }
}

/// Scope discipline, the persisting half: for a name the block's own
/// frame never came to bind, the lookup after the block yields exactly
/// what the block's final state held — assignments the block made to
/// outer variables survive its exit.
pub proof fn lemma_block_keeps_outer_values(
    env: Seq<FrameV>,
    ss: Seq<StmtV>,
    fuel: nat,
    x: Seq<char>,
)
    requires
        env.len() >= 1,
        exec_stmts_s(env.push(Seq::empty()), ss, fuel) matches ExecOut::Done { env: d, .. }
            && frame_get(d.last(), x) is None,
    ensures
        match exec_stmts_s(env.push(Seq::empty()), ss, fuel) {
            ExecOut::Done { env: d, .. } => exec_stmt_s(env, StmtV::Block(ss), fuel)
                matches ExecOut::Done { env: e2, .. } && chain_get(e2, x) == chain_get(d, x),
            ExecOut::Spent => true,
        },
{
    lemma_exec_stmts_len(env.push(Seq::empty()), ss, fuel);
}

/// Lexer accounting: a position the scanner passes in silence holds
/// whitespace, a newline, or starts a comment; any other character
/// yields a token or a lexical diagnostic.
pub proof fn lemma_scan_step_accounted(src: Seq<char>, pos: nat, line: nat)
    requires
        pos < src.len(),
    ensures
        ({
            let st = scan_step(src, pos, line);
            st.tok is Some || st.diag is Some || src[pos as int] == ' ' || src[pos as int]
                == '\r' || src[pos as int] == '\t' || src[pos as int] == '\n' || (pos + 1
                < src.len() && src[pos as int] == '/' && src[pos + 1 as int] == '/')
        }),
{
}

/// The scanner proper never fabricates an end-of-input token.
#[verifier::rlimit(100)]
#[verifier::spinoff_prover]
proof fn lemma_scan_rest_no_eof(src: Seq<char>, pos: nat, line: nat)
    ensures
        forall|i: int| 0 <= i < scan_rest(src, pos, line).toks.len() ==> !((#[trigger] scan_rest(
            src,
            pos,
            line,
        ).toks[i]).t_type is EOF),
    decreases src.len() - pos,
{
    reveal(scan_rest);
    if pos < src.len() {
        let st = scan_step(src, pos, line);
        let nx = if st.next <= pos {
            pos + 1
        } else if st.next > src.len() {
            src.len()
        } else {
            st.next
        };
        lemma_scan_rest_no_eof(src, nx, st.line);
        assert(st.tok matches Option::Some(t) ==> !(t.t_type is EOF));
        match st.tok {
            Option::Some(t) => {
                assert(forall|i: int|
                    1 <= i < scan_rest(src, pos, line).toks.len() ==> scan_rest(
                        src,
                        pos,
                        line,
                    ).toks[i] == scan_rest(src, nx, st.line).toks[i - 1]);
            },
            Option::None => {},
        }
    }
}

/// Print round-trip for integer literals: the canonical decimal form
/// of a value reads back as that value, so `print` writes integers in
/// the form the scanner accepts.
pub proof fn lemma_print_int_round_trip(n: nat)
    ensures
        dec_val(dec_str(n)) == n,
        dec_str(n).len() >= 1,
    decreases n,
{
    if n < 10 {
        assert(dec_str(n) == seq![digit_char(n)]);
        assert(seq![digit_char(n)].drop_last() =~= Seq::<char>::empty());
        assert(dec_val(Seq::<char>::empty()) == 0);
        assert((digit_char(n) as u32 - '0' as u32) == n);
    } else {
        lemma_print_int_round_trip(n / 10);
        assert(dec_str(n).drop_last() =~= dec_str(n / 10));
        assert(dec_str(n).last() == digit_char(n % 10));
        assert((digit_char(n % 10) as u32 - '0' as u32) == n % 10);
    }
}

} // verus!
