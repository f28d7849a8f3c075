//! A tree-walking interpreter for a small statically-typed imperative
//! language: source text is scanned into tokens, parsed by recursive
//! descent into an abstract syntax tree, and executed against lexically
//! nested, typed variable bindings.  Program output and diagnostics are
//! returned as lines of text; nothing here touches the outside world.

use vstd::prelude::*;
use vstd::string::*;

pub mod ieee32;
pub mod text;
pub mod value;
pub mod token;
pub mod error;
pub mod environment;
pub mod expr;
pub mod stmt;
pub mod semantics;
pub mod interpreter;
pub mod scanner;
pub mod parser;
pub mod laws;

use crate::text::u32_dec;
use crate::semantics::{report_line, exec_stmts_s, ExecOut, lines_from};
use crate::scanner::{Scanner, scan_text, scan_diags, tokens_view, diags_view};
use crate::parser::{Parser, PList, p_program, pwf};
use crate::interpreter::{Interpreter, run_fuel};
use crate::error::ParseError;

verus! {

/// Runs one program text against an interpreter whose state persists:
/// scan, parse, execute.  Lexical diagnostics come first in `out`,
/// then either the syntax-error diagnostic (and the run fails), or the
/// program's output and runtime diagnostics.  A runtime error shows
/// only in the lines, as the collaborating launcher expects.
#[verifier::rlimit(100)]
pub fn run(text: &String, i: &mut Interpreter, out: &mut Vec<String>) -> (r: Result<
    (),
    ParseError,
>)
    ensures
        old(out)@.is_prefix_of(final(out)@),
        ({
            let toks = scan_text(text@);
            let ldiags = scan_diags(text@);
            match p_program(toks, 0) {
                PList::Failed { diag } => r is Err && final(i)@ == old(i)@ && lines_from(
                    old(out)@,
                    final(out)@,
                ) == ldiags.push(diag),
                PList::Found { ss, next } => r is Ok && match exec_stmts_s(
                    old(i)@,
                    ss,
                    run_fuel(),
                ) {
                    ExecOut::Done { env, lines, ok } => final(i)@ == env && lines_from(
                        old(out)@,
                        final(out)@,
                    ) == ldiags + lines,
                    ExecOut::Spent => true,
                },
            }
        }),
{
    let ghost out0 = out@;
    let mut s = Scanner::new(text.clone());
    s.scan_tokens();
    let ghost ld = scan_diags(text@);
    let mut sdiags = s.diags;
    let ghost sd0 = sdiags@;
    out.append(&mut sdiags);
    proof {
        assert(lines_from(out0, out@) =~= ld);
    }
    let ghost out_l = out@;
    let mut p = Parser::new(s.tokens);
    proof {
        assert(tokens_view(p.tokens@).last() == scan_text(text@).last());
        assert(pwf(p));
    }
    let ast = match p.parse() {
        Result::Ok(ast) => ast,
        Result::Err(e) => {
            let mut pdiags = p.diags;
            let ghost pd = pdiags@;
            out.append(&mut pdiags);
            proof {
                let d = (match p_program(scan_text(text@), 0) {
                    PList::Failed { diag } => diag,
                    PList::Found { ss, next } => Seq::empty(),
                });
                assert(diags_view(pd) =~= Seq::<Seq<char>>::empty().push(d));
                assert(pd.len() == 1);
                assert(diags_view(pd)[0] == pd[0]@);
                assert(pd[0]@ == d);
                assert(lines_from(out0, out@) =~= ld.push(d));
            }
            return Result::Err(e);
        },
    };
    let _ = i.interpret(&ast, out);
    proof {
        crate::semantics::lemma_lines_from_trans(out0, out_l, out@);
        assert(lines_from(out0, out@) =~= ld + lines_from(out_l, out@));
    }
    Result::Ok(())
}

/// Builds one diagnostic line: `<line>: Error <location>: <message>`.
pub fn report(line: u32, where_at: &str, msg: &str) -> (r: String)
    ensures
        r@ == report_line(line, where_at@, msg@),
{
    let mut s = u32_dec(line);
    s.append(": Error ");
    s.append(where_at);
    s.append(": ");
    s.append(msg);
    proof {
        assert(s@ =~= report_line(line, where_at@, msg@));
    }
    s
}

/// Builds a diagnostic line with no location part.
pub fn prerror(line: u32, msg: &str) -> (r: String)
    ensures
        r@ == report_line(line, ""@, msg@),
{
    report(line, "", msg)
}

} // verus!
