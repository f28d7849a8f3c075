//! The scanner: source text to tokens.
//!
//! The source is a sequence of Unicode scalar values; the scanner walks
//! it left to right, emitting one token per lexeme and one diagnostic
//! line per lexical error, and always ends the token stream with a
//! single end-of-input token.  `scan_rest` is the specification: it
//! says, for every position and line number, exactly which tokens and
//! diagnostics the rest of the text produces.
//!
//! Lexical errors (an unknown character, a bare `:`, an unterminated
//! string, a numeric literal the value types cannot hold) produce a
//! diagnostic and the scanner continues; scanning always terminates.

use vstd::prelude::*;
use vstd::string::*;
use crate::token::{Token, TokenType, TokenV, TokenTypeV};
use crate::semantics::report_line;
use crate::ieee32::{real_parse, real_parse_of};
use crate::text::str_eq_str;
use crate::prerror;

verus! {

/// One decimal digit?
pub open spec fn is_digit_c(c: char) -> bool {
    '0' as u32 <= c as u32 && c as u32 <= '9' as u32
}

/// An ASCII letter or underscore?
pub open spec fn is_alpha_c(c: char) -> bool {
    ('a' as u32 <= c as u32 && c as u32 <= 'z' as u32) || ('A' as u32 <= c as u32 && c as u32
        <= 'Z' as u32) || c == '_'
}

/// A letter, digit or underscore?
pub open spec fn is_alnum_c(c: char) -> bool {
    is_digit_c(c) || is_alpha_c(c)
}

/// The first position at or after `i` that does not hold a digit.
pub open spec fn digits_end(src: Seq<char>, i: nat) -> nat
    decreases src.len() - i,
{
    if i >= src.len() || !is_digit_c(src[i as int]) {
        i
    } else {
        digits_end(src, i + 1)
    }
}

/// The first position at or after `i` that does not hold an
/// identifier character.
pub open spec fn ident_end(src: Seq<char>, i: nat) -> nat
    decreases src.len() - i,
{
    if i >= src.len() || !is_alnum_c(src[i as int]) {
        i
    } else {
        ident_end(src, i + 1)
    }
}

/// The first position at or after `i` holding a newline, or the end.
pub open spec fn line_comment_end(src: Seq<char>, i: nat) -> nat
    decreases src.len() - i,
{
    if i >= src.len() || src[i as int] == '\n' {
        i
    } else {
        line_comment_end(src, i + 1)
    }
}

/// The first position at or after `i` holding a double quote, or the
/// end.
pub open spec fn quote_end(src: Seq<char>, i: nat) -> nat
    decreases src.len() - i,
{
    if i >= src.len() || src[i as int] == '"' {
        i
    } else {
        quote_end(src, i + 1)
    }
}

/// How many newlines `src` holds in positions `[i, j)`.
pub open spec fn count_nl(src: Seq<char>, i: nat, j: nat) -> nat
    decreases j - i,
{
    if i >= j || i >= src.len() {
        0
    } else {
        (if src[i as int] == '\n' {
            1nat
        } else {
            0nat
        }) + count_nl(src, i + 1, j)
    }
}

/// The value of a run of decimal digits.
pub open spec fn dec_val(s: Seq<char>) -> nat
    decreases s.len(),
{
    if s.len() == 0 {
        0
    } else {
        (dec_val(s.drop_last()) * 10 + (s.last() as u32 - '0' as u32)) as nat
    }
}

/// The token kind of a keyword lexeme, if it is one.  Keyword
/// recognition is exact-match on identifier lexemes.
pub open spec fn keyword_spec(s: Seq<char>) -> Option<TokenTypeV> {
    if s == "begin"@ {
        Option::Some(TokenTypeV::Begin)
    } else if s == "end"@ {
        Option::Some(TokenTypeV::End)
    } else if s == "procedure"@ {
        Option::Some(TokenTypeV::Procedure)
    } else if s == "function"@ {
        Option::Some(TokenTypeV::Function)
    } else if s == "return"@ {
        Option::Some(TokenTypeV::Return)
    } else if s == "if"@ {
        Option::Some(TokenTypeV::If)
    } else if s == "for"@ {
        Option::Some(TokenTypeV::For)
    } else if s == "repeat"@ {
        Option::Some(TokenTypeV::Repeat)
    } else if s == "until"@ {
        Option::Some(TokenTypeV::Until)
    } else if s == "while"@ {
        Option::Some(TokenTypeV::While)
    } else if s == "else"@ {
        Option::Some(TokenTypeV::Else)
    } else if s == "do"@ {
        Option::Some(TokenTypeV::Do)
    } else if s == "to"@ {
        Option::Some(TokenTypeV::To)
    } else if s == "program"@ {
        Option::Some(TokenTypeV::Program)
    } else if s == "true"@ {
        Option::Some(TokenTypeV::True)
    } else if s == "false"@ {
        Option::Some(TokenTypeV::False)
    } else if s == "and"@ {
        Option::Some(TokenTypeV::And)
    } else if s == "or"@ {
        Option::Some(TokenTypeV::Or)
    } else if s == "nil"@ {
        Option::Some(TokenTypeV::Nil)
    } else if s == "print"@ {
        Option::Some(TokenTypeV::Print)
    } else if s == "real"@ {
        Option::Some(TokenTypeV::Real)
    } else if s == "int"@ {
        Option::Some(TokenTypeV::Int)
    } else if s == "str"@ {
        Option::Some(TokenTypeV::Str)
    } else if s == "bool"@ {
        Option::Some(TokenTypeV::Bool)
    } else {
        Option::None
    }
}

/// A line counter as it is stored in a token; the counter saturates
/// at the width of its type.
pub open spec fn line_u32(line: nat) -> u32 {
    if line <= 0xffff_ffff {
        line as u32
    } else {
        0xffff_ffff
    }
}

/// Advances the line counter, saturating at the width of its type.
pub open spec fn line_add(line: nat, k: nat) -> nat {
    if line + k <= 0xffff_ffff {
        line + k
    } else {
        0xffff_ffff
    }
}

/// A token at a given line.
pub open spec fn tokv(t: TokenTypeV, lexeme: Seq<char>, line: nat) -> TokenV {
    TokenV { t_type: t, lexeme, line: line_u32(line) }
}

/// What one call of `scan_token` does: where the cursor and the line
/// counter move, and which token or diagnostic is emitted.
pub struct StepV {
    pub next: nat,
    pub line: nat,
    pub tok: Option<TokenV>,
    pub diag: Option<Seq<char>>,
}

pub open spec fn step_tok(next: nat, line: nat, t: TokenTypeV, lexeme: Seq<char>) -> StepV {
    StepV { next, line, tok: Option::Some(tokv(t, lexeme, line)), diag: Option::None }
}

pub open spec fn step_none(next: nat, line: nat) -> StepV {
    StepV { next, line, tok: Option::None, diag: Option::None }
}

pub open spec fn step_diag(next: nat, line: nat, d: Seq<char>) -> StepV {
    StepV { next, line, tok: Option::None, diag: Option::Some(d) }
}

/// Scans one token starting at `pos` (which must be in range): single
/// characters map directly; `!=`, `<=`, `>=`, `==`, `:=` are recognized
/// by peeking one character ahead; `//` starts a comment to the end of
/// the line; whitespace is skipped; newline bumps the line counter;
/// `"` starts a string literal; digits start a numeric literal;
/// letters start an identifier or keyword.  A bare `:` and an unknown
/// character produce a diagnostic, as does an unterminated string or
/// an integer literal too large for its type.
pub open spec fn scan_step(src: Seq<char>, pos: nat, line: nat) -> StepV {
    let c = src[pos as int];
    let eq_next = pos + 1 < src.len() && src[pos + 1 as int] == '=';
    if c == '(' {
        step_tok(pos + 1, line, TokenTypeV::LParen, seq![c])
    } else if c == ')' {
        step_tok(pos + 1, line, TokenTypeV::RParen, seq![c])
    } else if c == '{' {
        step_tok(pos + 1, line, TokenTypeV::LBrace, seq![c])
    } else if c == '}' {
        step_tok(pos + 1, line, TokenTypeV::RBrace, seq![c])
    } else if c == ',' {
        step_tok(pos + 1, line, TokenTypeV::Comma, seq![c])
    } else if c == '.' {
        step_tok(pos + 1, line, TokenTypeV::Dot, seq![c])
    } else if c == '-' {
        step_tok(pos + 1, line, TokenTypeV::Minus, seq![c])
    } else if c == '+' {
        step_tok(pos + 1, line, TokenTypeV::Plus, seq![c])
    } else if c == ';' {
        step_tok(pos + 1, line, TokenTypeV::Semicolon, seq![c])
    } else if c == '*' {
        step_tok(pos + 1, line, TokenTypeV::Star, seq![c])
    } else if c == '=' {
        if eq_next {
            step_tok(pos + 2, line, TokenTypeV::EqualEqual, "=="@)
        } else {
            step_tok(pos + 1, line, TokenTypeV::Equal, seq![c])
        }
    } else if c == '!' {
        if eq_next {
            step_tok(pos + 2, line, TokenTypeV::BangEqual, "!="@)
        } else {
            step_tok(pos + 1, line, TokenTypeV::Bang, seq![c])
        }
    } else if c == '<' {
        if eq_next {
            step_tok(pos + 2, line, TokenTypeV::LessEqual, "<="@)
        } else {
            step_tok(pos + 1, line, TokenTypeV::Less, seq![c])
        }
    } else if c == '>' {
        if eq_next {
            step_tok(pos + 2, line, TokenTypeV::GreaterEqual, ">="@)
        } else {
            step_tok(pos + 1, line, TokenTypeV::Greater, seq![c])
        }
    } else if c == ':' {
        if eq_next {
            step_tok(pos + 2, line, TokenTypeV::LetEqual, ":="@)
        } else {
            step_diag(
                pos + 1,
                line,
                report_line(line_u32(line), ""@, "Unexpected character following ':'"@),
            )
        }
    } else if c == '/' {
        if pos + 1 < src.len() && src[pos + 1 as int] == '/' {
            step_none(line_comment_end(src, pos + 2), line)
        } else {
            step_tok(pos + 1, line, TokenTypeV::Slash, seq![c])
        }
    } else if c == ' ' || c == '\r' || c == '\t' {
        step_none(pos + 1, line)
    } else if c == '\n' {
        step_none(pos + 1, line_add(line, 1))
    } else if c == '"' {
        let close = quote_end(src, pos + 1);
        let line2 = line_add(line, count_nl(src, pos + 1, close));
        if close >= src.len() {
            step_diag(
                src.len(),
                line2,
                report_line(line_u32(line2), ""@, "Unterminated string"@),
            )
        } else {
            step_tok(
                close + 1,
                line2,
                TokenTypeV::StrLit(src.subrange(pos + 1 as int, close as int)),
                src.subrange(pos as int, close + 1 as int),
            )
        }
    } else if is_digit_c(c) {
        let iend = digits_end(src, pos + 1);
        if iend + 1 < src.len() && src[iend as int] == '.' && is_digit_c(src[iend + 1 as int]) {
            let fend = digits_end(src, iend + 2);
            let lexeme = src.subrange(pos as int, fend as int);
            match real_parse_of(lexeme) {
                Option::Some(bits) => step_tok(fend, line, TokenTypeV::RealLit(bits), lexeme),
                Option::None => step_diag(
                    fend,
                    line,
                    report_line(line_u32(line), ""@, "malformed numeric literal"@),
                ),
            }
        } else {
            let lexeme = src.subrange(pos as int, iend as int);
            if dec_val(lexeme) > 0xffff_ffff {
                step_diag(
                    iend,
                    line,
                    report_line(line_u32(line), ""@, "malformed numeric literal"@),
                )
            } else {
                step_tok(iend, line, TokenTypeV::IntLit(dec_val(lexeme) as u32), lexeme)
            }
        }
    } else if is_alpha_c(c) {
        let iend = ident_end(src, pos + 1);
        let text = src.subrange(pos as int, iend as int);
        match keyword_spec(text) {
            Option::Some(t) => step_tok(iend, line, t, text),
            Option::None => step_tok(iend, line, TokenTypeV::Ident, text),
        }
    } else {
        step_diag(pos + 1, line, report_line(line_u32(line), ""@, "Unexpected character"@))
    }
}

/// A step never drives the line counter past its saturation point.
pub proof fn lemma_scan_step_line(src: Seq<char>, pos: nat, line: nat)
    requires
        pos < src.len(),
        line <= 0xffff_ffff,
    ensures
        scan_step(src, pos, line).line <= 0xffff_ffff,
        scan_step(src, pos, line).next > pos,
{
    lemma_quote_end(src, pos + 1);
    lemma_line_comment_end(src, pos + 2);
    lemma_digits_end(src, pos + 1);
    lemma_digits_end(src, digits_end(src, pos + 1) + 2);
    lemma_ident_end(src, pos + 1);
}

/// The tokens and diagnostics of the text from `pos` on, and the final
/// line counter; the end-of-input token is not included.
pub struct ScanOut {
    pub toks: Seq<TokenV>,
    pub diags: Seq<Seq<char>>,
    pub line: nat,
}

#[verifier::opaque]
pub open spec fn scan_rest(src: Seq<char>, pos: nat, line: nat) -> ScanOut
    decreases src.len() - pos,
{
    if pos >= src.len() {
        ScanOut { toks: Seq::empty(), diags: Seq::empty(), line }
    } else {
        let st = scan_step(src, pos, line);
        let nx = if st.next <= pos {
            pos + 1
        } else if st.next > src.len() {
            src.len()
        } else {
            st.next
        };
        let rest = scan_rest(src, nx, st.line);
        ScanOut {
            toks: (match st.tok {
                Option::Some(t) => seq![t] + rest.toks,
                Option::None => rest.toks,
            }),
            diags: (match st.diag {
                Option::Some(d) => seq![d] + rest.diags,
                Option::None => rest.diags,
            }),
            line: rest.line,
        }
    }
}

/// The whole token stream of a text: its tokens, ended by a single
/// end-of-input token carrying the final line number.
pub open spec fn scan_text(src: Seq<char>) -> Seq<TokenV> {
    let o = scan_rest(src, 0, 1);
    o.toks.push(tokv(TokenTypeV::EOF, Seq::empty(), o.line))
}

/// The lexical diagnostics of a text.
pub open spec fn scan_diags(src: Seq<char>) -> Seq<Seq<char>> {
    scan_rest(src, 0, 1).diags
}

/// The models of a token list.
pub open spec fn tokens_view(s: Seq<Token>) -> Seq<TokenV> {
    s.map(|i: int, t: Token| t@)
}

/// The text of a diagnostic list.
pub open spec fn diags_view(s: Seq<String>) -> Seq<Seq<char>> {
    s.map(|i: int, d: String| d@)
}

/// What one `scan_token` call must do to the scanner state: exactly
/// what `scan_step` says for the position and line it started at.
pub open spec fn token_step_ok(pre: Scanner, post: Scanner) -> bool {
    let st = scan_step(pre.source@, pre.current as nat, pre.line as nat);
    let nx = if st.next > pre.source@.len() {
        pre.source@.len()
    } else {
        st.next
    };
    &&& post.source@ == pre.source@
    &&& st.next > pre.current
    &&& post.current == nx
    &&& post.line as nat == line_u32(st.line) as nat
    &&& (st.line < 0x1_0000_0000 ==> post.line as nat == st.line)
    &&& tokens_view(post.tokens@) == (match st.tok {
        Option::Some(t) => tokens_view(pre.tokens@).push(t),
        Option::None => tokens_view(pre.tokens@),
    })
    &&& diags_view(post.diags@) == (match st.diag {
        Option::Some(d) => diags_view(pre.diags@).push(d),
        Option::None => diags_view(pre.diags@),
    })
}

/// The scanner: a cursor over the source, the tokens produced so far,
/// and the diagnostics emitted so far.
pub struct Scanner {
    pub source: String,
    pub tokens: Vec<Token>,
    pub start: usize,
    pub current: usize,
    pub line: u32,
    pub diags: Vec<String>,
}

impl Scanner {
    /// A scanner at the start of the text, on line 1.
    pub fn new(source: String) -> (r: Self)
        ensures
            r.source@ == source@,
            r.tokens@.len() == 0,
            r.diags@.len() == 0,
            r.start == 0,
            r.current == 0,
            r.line == 1,
    {
        Scanner {
            source,
            tokens: Vec::new(),
            start: 0,
            current: 0,
            line: 1,
            diags: Vec::new(),
        }
    }

    fn is_at_end(&self) -> (r: bool)
        requires
            self.current <= self.source@.len(),
        ensures
            r == (self.current == self.source@.len()),
    {
        self.current >= self.source.as_str().unicode_len()
    }

    /// Scans the whole text: afterwards `tokens` holds exactly the
    /// token stream of the source (ending in the end-of-input token)
    /// and `diags` exactly its lexical diagnostics.
    pub fn scan_tokens(&mut self)
        requires
            old(self).current == 0,
            old(self).line == 1,
            old(self).tokens@.len() == 0,
            old(self).diags@.len() == 0,
        ensures
            final(self).source@ == old(self).source@,
            tokens_view(final(self).tokens@) == scan_text(old(self).source@),
            diags_view(final(self).diags@) == scan_diags(old(self).source@),
    {
        let ghost src = self.source@;
        let len = self.source.as_str().unicode_len();
        proof {
            reveal(scan_rest);
            assert(tokens_view(self.tokens@) =~= Seq::<TokenV>::empty());
            assert(diags_view(self.diags@) =~= Seq::<Seq<char>>::empty());
        }
        while self.current < len
            invariant
                self.source@ == src,
                len == src.len(),
                src.len() <= usize::MAX,
                self.current <= len,
                scan_rest(src, 0, 1) == (ScanOut {
                    toks: tokens_view(self.tokens@) + scan_rest(
                        src,
                        self.current as nat,
                        self.line_nat(),
                    ).toks,
                    diags: diags_view(self.diags@) + scan_rest(
                        src,
                        self.current as nat,
                        self.line_nat(),
                    ).diags,
                    line: scan_rest(src, self.current as nat, self.line_nat()).line,
                }),
                self.line_nat() < 0x1_0000_0000,
            decreases len - self.current,
        {
            let ghost pos0 = self.current as nat;
            let ghost line0 = self.line_nat();
            let ghost tv0 = tokens_view(self.tokens@);
            let ghost dv0 = diags_view(self.diags@);
            self.start = self.current;
            self.scan_token();
            proof {
                reveal(scan_rest);
                let st = scan_step(src, pos0, line0);
                lemma_scan_step_line(src, pos0, line0);
                let nx = if st.next > src.len() {
                    src.len()
                } else {
                    st.next
                };
                let rest = scan_rest(src, nx, st.line);
                assert(scan_rest(src, pos0, line0) == ScanOut {
                    toks: (match st.tok {
                        Option::Some(t) => seq![t] + rest.toks,
                        Option::None => rest.toks,
                    }),
                    diags: (match st.diag {
                        Option::Some(d) => seq![d] + rest.diags,
                        Option::None => rest.diags,
                    }),
                    line: rest.line,
                });
                match st.tok {
                    Option::Some(t) => {
                        assert(tv0 + (seq![t] + rest.toks) =~= tv0.push(t) + rest.toks);
                    },
                    Option::None => {},
                }
                match st.diag {
                    Option::Some(d) => {
                        assert(dv0 + (seq![d] + rest.diags) =~= dv0.push(d) + rest.diags);
                    },
                    Option::None => {},
                }
            }
        }
        proof {
            reveal(scan_rest);
            assert(scan_rest(src, self.current as nat, self.line_nat()).toks
                =~= Seq::<TokenV>::empty());
            assert(scan_rest(src, self.current as nat, self.line_nat()).diags
                =~= Seq::<Seq<char>>::empty());
        }
        let line_now = self.line;
        self.tokens.push(Token::new(TokenType::EOF, String::new(), line_now));
        proof {
            assert(tokens_view(self.tokens@) =~= tokens_view(self.tokens@.drop_last()).push(
                self.tokens@.last()@,
            ));
            assert(tokens_view(self.tokens@) =~= scan_text(src));
            assert(diags_view(self.diags@) =~= scan_diags(src));
        }
    }

    /// The line counter as a mathematical number.
    pub open spec fn line_nat(&self) -> nat {
        self.line as nat
    }

    /// Scans one token from `current`, mirroring `scan_step`.
    #[verifier::rlimit(100)]
    fn scan_token(&mut self)
        requires
            old(self).start == old(self).current,
            old(self).current < old(self).source@.len(),
            old(self).source@.len() <= usize::MAX,
            old(self).line_nat() < 0x1_0000_0000,
        ensures
            token_step_ok(*old(self), *final(self)),
    {
        let ghost src = self.source@;
        let ghost pos = self.current as nat;
        let ghost line0 = self.line_nat();
        let c = self.advance();
        let eq_next = self.peek() == '=';
        match c {
            '(' => {
                self.push_simple(TokenType::LParen);
            proof {
                assert(token_step_ok(*old(self), *self));
            }
            },
            ')' => {
                self.push_simple(TokenType::RParen);
            proof {
                assert(token_step_ok(*old(self), *self));
            }
            },
            '{' => {
                self.push_simple(TokenType::LBrace);
            proof {
                assert(token_step_ok(*old(self), *self));
            }
            },
            '}' => {
                self.push_simple(TokenType::RBrace);
            proof {
                assert(token_step_ok(*old(self), *self));
            }
            },
            ',' => {
                self.push_simple(TokenType::Comma);
            proof {
                assert(token_step_ok(*old(self), *self));
            }
            },
            '.' => {
                self.push_simple(TokenType::Dot);
            proof {
                assert(token_step_ok(*old(self), *self));
            }
            },
            '-' => {
                self.push_simple(TokenType::Minus);
            proof {
                assert(token_step_ok(*old(self), *self));
            }
            },
            '+' => {
                self.push_simple(TokenType::Plus);
            proof {
                assert(token_step_ok(*old(self), *self));
            }
            },
            ';' => {
                self.push_simple(TokenType::Semicolon);
            proof {
                assert(token_step_ok(*old(self), *self));
            }
            },
            '*' => {
                self.push_simple(TokenType::Star);
            proof {
                assert(token_step_ok(*old(self), *self));
            }
            },
            '=' => {
                if eq_next {
                    let _ = self.advance();
                    self.push_two(TokenType::EqualEqual, "==");
                } else {
                    self.push_simple(TokenType::Equal);
                }
            proof {
                assert(token_step_ok(*old(self), *self));
            }

            },
            '!' => {
                if eq_next {
                    let _ = self.advance();
                    self.push_two(TokenType::BangEqual, "!=");
                } else {
                    self.push_simple(TokenType::Bang);
                }
            proof {
                assert(token_step_ok(*old(self), *self));
            }

            },
            '<' => {
                if eq_next {
                    let _ = self.advance();
                    self.push_two(TokenType::LessEqual, "<=");
                } else {
                    self.push_simple(TokenType::Less);
                }
            proof {
                assert(token_step_ok(*old(self), *self));
            }

            },
            '>' => {
                if eq_next {
                    let _ = self.advance();
                    self.push_two(TokenType::GreaterEqual, ">=");
                } else {
                    self.push_simple(TokenType::Greater);
                }
            proof {
                assert(token_step_ok(*old(self), *self));
            }

            },
            ':' => {
                if eq_next {
                    let _ = self.advance();
                    self.push_two(TokenType::LetEqual, ":=");
                    proof {
                        assert(token_step_ok(*old(self), *self));
                    }
                } else {
                    let line_now = self.line;
                    let d = prerror(line_now, "Unexpected character following ':'");
                    self.diags.push(d);
                    proof {
                        assert(diags_view(self.diags@) =~= diags_view(old(self).diags@).push(
                            self.diags@.last()@,
                        ));
                        assert(token_step_ok(*old(self), *self));
                    }
                }
            },
            '/' => {
                if self.check('/') {
                    while self.peek() != '\n' && !self.is_at_end()
                        invariant
                            self.source@ == src,
                            self.current <= src.len(),
                            pos + 2 <= self.current,
                            src.len() <= usize::MAX,
                            self.tokens@ == old(self).tokens@,
                            self.diags@ == old(self).diags@,
                            self.line == old(self).line,
                            self.start == old(self).start,
                            line_comment_end(src, self.current as nat) == line_comment_end(
                                src,
                                pos + 2,
                            ),
                        decreases src.len() - self.current,
                    {
                        let _ = self.advance();
                    }
                    proof {
                        lemma_line_comment_end(src, pos + 2);
                        assert(self.current as nat == line_comment_end(src, pos + 2));
                        assert(token_step_ok(*old(self), *self));
                    }
                } else {
                    self.push_simple(TokenType::Slash);
                    proof {
                        assert(token_step_ok(*old(self), *self));
                    }
                }
            },
            ' ' | '\r' | '\t' => {
                proof {
                    assert(token_step_ok(*old(self), *self));
                }
            },
            '\n' => {
                self.line = self.line.saturating_add(1);
                proof {
                    assert(token_step_ok(*old(self), *self));
                }
            },
            '"' => {
                self.string();
                proof {
                    lemma_quote_end(src, pos + 1);
                    assert(token_step_ok(*old(self), *self));
                }
            },
            _ => {
                if is_digit_e(c) {
                    self.number();
                    proof {
                        lemma_digits_end(src, pos + 1);
                        lemma_digits_end(src, digits_end(src, pos + 1) + 2);
                        assert(token_step_ok(*old(self), *self));
                    }
                } else if is_alpha_e(c) {
                    self.identifier();
                    proof {
                        lemma_ident_end(src, pos + 1);
                        assert(token_step_ok(*old(self), *self));
                    }
                } else {
                    let line_now = self.line;
                    let d = prerror(line_now, "Unexpected character");
                    self.diags.push(d);
                    proof {
                        assert(diags_view(self.diags@) =~= diags_view(old(self).diags@).push(
                            self.diags@.last()@,
                        ));
                        assert(token_step_ok(*old(self), *self));
                    }
                }
            },
        }
    }

    /// Consumes and yields the character at the cursor.
    fn advance(&mut self) -> (c: char)
        requires
            old(self).current < old(self).source@.len(),
            old(self).source@.len() <= usize::MAX,
        ensures
            c == old(self).source@[old(self).current as int],
            final(self).current == old(self).current + 1,
            final(self).source == old(self).source,
            final(self).tokens == old(self).tokens,
            final(self).diags == old(self).diags,
            final(self).line == old(self).line,
            final(self).start == old(self).start,
    {
        let c = self.source.as_str().get_char(self.current);
        self.current = self.current + 1;
        c
    }

    /// Consumes the character at the cursor when it equals `c`.
    fn check(&mut self, c: char) -> (r: bool)
        requires
            old(self).current <= old(self).source@.len(),
            old(self).source@.len() <= usize::MAX,
        ensures
            r == (old(self).current < old(self).source@.len() && old(self).source@[old(
                self,
            ).current as int] == c),
            final(self).current == if r {
                old(self).current + 1
            } else {
                old(self).current as int
            },
            final(self).source == old(self).source,
            final(self).tokens == old(self).tokens,
            final(self).diags == old(self).diags,
            final(self).line == old(self).line,
            final(self).start == old(self).start,
    {
        if self.is_at_end() {
            return false;
        }
        if self.source.as_str().get_char(self.current) != c {
            return false;
        }
        self.current = self.current + 1;
        true
    }

    /// The character at the cursor, or NUL at the end.
    fn peek(&self) -> (c: char)
        requires
            self.current <= self.source@.len(),
        ensures
            c == if self.current < self.source@.len() {
                self.source@[self.current as int]
            } else {
                '\0'
            },
    {
        if self.is_at_end() {
            return '\0';
        }
        self.source.as_str().get_char(self.current)
    }

    /// The character one past the cursor, or NUL at the end.
    fn peek_next(&self) -> (c: char)
        requires
            self.current <= self.source@.len(),
            self.source@.len() <= usize::MAX,
        ensures
            c == if self.current + 1 < self.source@.len() {
                self.source@[self.current + 1 as int]
            } else {
                '\0'
            },
    {
        let len = self.source.as_str().unicode_len();
        if len == 0 || self.current >= len - 1 {
            return '\0';
        }
        self.source.as_str().get_char(self.current + 1)
    }

    /// Pushes a one-character token whose lexeme starts at `start`.
    fn push_simple(&mut self, t: TokenType)
        requires
            old(self).start < old(self).source@.len(),
            old(self).current == old(self).start + 1,
        ensures
            final(self).source == old(self).source,
            final(self).current == old(self).current,
            final(self).line == old(self).line,
            final(self).start == old(self).start,
            final(self).diags == old(self).diags,
            tokens_view(final(self).tokens@) == tokens_view(old(self).tokens@).push(
                TokenV {
                    t_type: t@,
                    lexeme: seq![old(self).source@[old(self).start as int]],
                    line: old(self).line,
                },
            ),
    {
        let lex = self.source.as_str().substring_char(self.start, self.current).to_owned();
        let line_now = self.line;
        self.tokens.push(Token::new(t, lex, line_now));
        proof {
            assert(old(self).source@.subrange(
                old(self).start as int,
                old(self).start + 1,
            ) =~= seq![old(self).source@[old(self).start as int]]);
            assert(tokens_view(self.tokens@) =~= tokens_view(old(self).tokens@).push(
                self.tokens@.last()@,
            ));
        }
    }

    /// Pushes a two-character token with the given lexeme text.
    fn push_two(&mut self, t: TokenType, lexeme: &str)
        ensures
            final(self).source == old(self).source,
            final(self).current == old(self).current,
            final(self).line == old(self).line,
            final(self).start == old(self).start,
            final(self).diags == old(self).diags,
            tokens_view(final(self).tokens@) == tokens_view(old(self).tokens@).push(
                TokenV { t_type: t@, lexeme: lexeme@, line: old(self).line },
            ),
    {
        let line_now = self.line;
        self.tokens.push(Token::new(t, lexeme.to_owned(), line_now));
        proof {
            assert(tokens_view(self.tokens@) =~= tokens_view(old(self).tokens@).push(
                self.tokens@.last()@,
            ));
        }
    }
}

/// One decimal digit?
fn is_digit_e(c: char) -> (r: bool)
    ensures
        r == is_digit_c(c),
{
    c >= '0' && c <= '9'
}

/// An ASCII letter or underscore?
fn is_alpha_e(c: char) -> (r: bool)
    ensures
        r == is_alpha_c(c),
{
    (c >= 'a' && c <= 'z') || (c >= 'A' && c <= 'Z') || c == '_'
}

} // verus!

verus! {

/// Positions before `digits_end` hold digits; the end is in range.
pub proof fn lemma_digits_end(src: Seq<char>, i: nat)
    ensures
        i <= digits_end(src, i),
        i <= src.len() ==> digits_end(src, i) <= src.len(),
        forall|j: int| i <= j < digits_end(src, i) ==> is_digit_c(#[trigger] src[j]),
        digits_end(src, i) < src.len() ==> !is_digit_c(src[digits_end(src, i) as int]),
    decreases src.len() - i,
{
    if i < src.len() && is_digit_c(src[i as int]) {
        lemma_digits_end(src, i + 1);
    }
}

/// Positions before `ident_end` hold identifier characters.
pub proof fn lemma_ident_end(src: Seq<char>, i: nat)
    ensures
        i <= ident_end(src, i),
        i <= src.len() ==> ident_end(src, i) <= src.len(),
        ident_end(src, i) < src.len() ==> !is_alnum_c(src[ident_end(src, i) as int]),
    decreases src.len() - i,
{
    if i < src.len() && is_alnum_c(src[i as int]) {
        lemma_ident_end(src, i + 1);
    }
}

/// The end of a line comment is in range.
pub proof fn lemma_line_comment_end(src: Seq<char>, i: nat)
    ensures
        i <= line_comment_end(src, i),
        i <= src.len() ==> line_comment_end(src, i) <= src.len(),
    decreases src.len() - i,
{
    if i < src.len() && src[i as int] != '\n' {
        lemma_line_comment_end(src, i + 1);
    }
}

/// The closing quote position is in range.
pub proof fn lemma_quote_end(src: Seq<char>, i: nat)
    ensures
        i <= quote_end(src, i),
        i <= src.len() ==> quote_end(src, i) <= src.len(),
    decreases src.len() - i,
{
    if i < src.len() && src[i as int] != '"' {
        lemma_quote_end(src, i + 1);
    }
}

/// Extending the scanned range by one character adds that character's
/// newline, if it is one.
pub proof fn lemma_count_nl_snoc(src: Seq<char>, i: nat, j: nat)
    requires
        i <= j < src.len(),
    ensures
        count_nl(src, i, j + 1) == count_nl(src, i, j) + (if src[j as int] == '\n' {
            1nat
        } else {
            0nat
        }),
    decreases j - i,
{
    if i < j {
        lemma_count_nl_snoc(src, i + 1, j);
    } else {
        assert(count_nl(src, i + 1, j + 1) == 0);
        assert(count_nl(src, i, j) == 0);
    }
}

/// Appending a digit multiplies the value by ten and adds the digit.
pub proof fn lemma_dec_val_take(s: Seq<char>, i: nat)
    requires
        i < s.len(),
        is_digit_c(s[i as int]),
    ensures
        dec_val(s.take(i + 1 as int)) == dec_val(s.take(i as int)) * 10 + (s[i as int] as u32 - '0' as u32),
{
    assert(s.take(i + 1 as int).drop_last() =~= s.take(i as int));
    assert(s.take(i + 1 as int).last() == s[i as int]);
}

impl Scanner {
    /// The rest of a string literal, after the opening quote: its
    /// value is the text between the quotes, its lexeme the quoted
    /// form; embedded newlines count; reaching the end of input first
    /// is a lexical error.
    fn string(&mut self)
        requires
            old(self).start + 1 == old(self).current,
            old(self).start < old(self).source@.len(),
            old(self).source@.len() <= usize::MAX,
            old(self).source@[old(self).start as int] == '"',
        ensures
            final(self).source@ == old(self).source@,
            final(self).start == old(self).start,
            ({
                let src = old(self).source@;
                let pos = old(self).start as nat;
                let line0 = old(self).line as nat;
                let close = quote_end(src, pos + 1);
                let line2 = line_add(line0, count_nl(src, pos + 1, close));
                &&& final(self).line as nat == line2
                &&& if close >= src.len() {
                    &&& final(self).current == src.len()
                    &&& final(self).tokens@ == old(self).tokens@
                    &&& diags_view(final(self).diags@) == diags_view(old(self).diags@).push(
                        report_line(line_u32(line2), ""@, "Unterminated string"@),
                    )
                } else {
                    &&& final(self).current == close + 1
                    &&& final(self).diags@ == old(self).diags@
                    &&& tokens_view(final(self).tokens@) == tokens_view(old(self).tokens@).push(
                        tokv(
                            TokenTypeV::StrLit(src.subrange(pos + 1 as int, close as int)),
                            src.subrange(pos as int, close + 1 as int),
                            line2,
                        ),
                    )
                }
            }),
    {
        let ghost src = self.source@;
        let ghost pos = self.start as nat;
        let ghost entry = self.current as nat;
        let ghost line0 = self.line as nat;
        proof {
            lemma_quote_end(src, entry);
        }
        while self.peek() != '"' && !self.is_at_end()
            invariant
                self.source@ == src,
                self.start == old(self).start,
                self.tokens@ == old(self).tokens@,
                self.diags@ == old(self).diags@,
                entry <= self.current <= src.len(),
                src.len() <= usize::MAX,
                pos + 1 == entry,
                quote_end(src, self.current as nat) == quote_end(src, entry),
                self.line as nat == line_add(line0, count_nl(src, entry, self.current as nat)),
            decreases src.len() - self.current,
        {
            proof {
                lemma_count_nl_snoc(src, entry, self.current as nat);
            }
            if self.peek() == '\n' {
                self.line = self.line.saturating_add(1);
            }
            let _ = self.advance();
        }
        proof {
            lemma_quote_end(src, self.current as nat);
            if self.current < src.len() {
                assert(quote_end(src, self.current as nat) == self.current as nat);
            }
        }
        if self.is_at_end() {
            let line_now = self.line;
            let d = prerror(line_now, "Unterminated string");
            self.diags.push(d);
            proof {
                assert(diags_view(self.diags@) =~= diags_view(old(self).diags@).push(
                    self.diags@.last()@,
                ));
            }
            return ;
        }
        let _ = self.advance();  // closing quote
        let value = self.source.as_str().substring_char(self.start + 1, self.current - 1)
            .to_owned();
        let lexeme = self.source.as_str().substring_char(self.start, self.current).to_owned();
        let line_now = self.line;
        self.tokens.push(Token::new(TokenType::StrLit(value), lexeme, line_now));
        proof {
            assert(tokens_view(self.tokens@) =~= tokens_view(old(self).tokens@).push(
                self.tokens@.last()@,
            ));
        }
    }

    /// The rest of a numeric literal: a run of digits, optionally
    /// followed by a decimal point and more digits for a real.  The
    /// decoded value rides on the token; a literal whose value does not
    /// fit is a lexical error.
    fn number(&mut self)
        requires
            old(self).start + 1 == old(self).current,
            old(self).start < old(self).source@.len(),
            old(self).source@.len() <= usize::MAX,
            is_digit_c(old(self).source@[old(self).start as int]),
        ensures
            final(self).source@ == old(self).source@,
            final(self).start == old(self).start,
            final(self).line == old(self).line,
            ({
                let src = old(self).source@;
                let pos = old(self).start as nat;
                let line0 = old(self).line as nat;
                let iend = digits_end(src, pos + 1);
                if iend + 1 < src.len() && src[iend as int] == '.' && is_digit_c(src[iend + 1 as int]) {
                    let fend = digits_end(src, iend + 2);
                    let lexeme = src.subrange(pos as int, fend as int);
                    &&& final(self).current == fend
                    &&& match real_parse_of(lexeme) {
                        Option::Some(bits) => final(self).diags@ == old(self).diags@
                            && tokens_view(final(self).tokens@) == tokens_view(
                            old(self).tokens@,
                        ).push(tokv(TokenTypeV::RealLit(bits), lexeme, line0)),
                        Option::None => final(self).tokens@ == old(self).tokens@ && diags_view(
                            final(self).diags@,
                        ) == diags_view(old(self).diags@).push(
                            report_line(line_u32(line0), ""@, "malformed numeric literal"@),
                        ),
                    }
                } else {
                    let lexeme = src.subrange(pos as int, iend as int);
                    &&& final(self).current == iend
                    &&& if dec_val(lexeme) > 0xffff_ffff {
                        final(self).tokens@ == old(self).tokens@ && diags_view(final(self).diags@)
                            == diags_view(old(self).diags@).push(
                            report_line(line_u32(line0), ""@, "malformed numeric literal"@),
                        )
                    } else {
                        final(self).diags@ == old(self).diags@ && tokens_view(final(self).tokens@)
                            == tokens_view(old(self).tokens@).push(
                            tokv(TokenTypeV::IntLit(dec_val(lexeme) as u32), lexeme, line0),
                        )
                    }
                }
            }),
    {
        let ghost src = self.source@;
        let ghost pos = self.start as nat;
        proof {
            lemma_digits_end(src, pos + 1);
        }
        let mut was_real = false;
        while is_digit_e(self.peek()) && !self.is_at_end()
            invariant
                self.source@ == src,
                self.start == old(self).start,
                self.tokens@ == old(self).tokens@,
                self.diags@ == old(self).diags@,
                self.line == old(self).line,
                pos + 1 <= self.current <= src.len(),
                src.len() <= usize::MAX,
                digits_end(src, self.current as nat) == digits_end(src, pos + 1),
            decreases src.len() - self.current,
        {
            let _ = self.advance();
        }
        proof {
            assert(self.current as nat == digits_end(src, pos + 1));
        }
        let nc = self.peek();
        let nn = self.peek_next();
        if nc == '.' && is_digit_e(nn) {
            was_real = true;
            let _ = self.advance();
            proof {
                lemma_digits_end(src, self.current as nat);
            }
            while is_digit_e(self.peek()) && !self.is_at_end()
                invariant
                    self.source@ == src,
                    self.start == old(self).start,
                    self.tokens@ == old(self).tokens@,
                    self.diags@ == old(self).diags@,
                    self.line == old(self).line,
                    pos + 2 <= self.current <= src.len(),
                    src.len() <= usize::MAX,
                    digits_end(src, self.current as nat) == digits_end(
                        src,
                        digits_end(src, pos + 1) + 2,
                    ),
                decreases src.len() - self.current,
            {
                let _ = self.advance();
            }
            proof {
                assert(self.current as nat == digits_end(src, digits_end(src, pos + 1) + 2));
            }
            let lexeme = self.source.as_str().substring_char(self.start, self.current).to_owned();
            match real_parse(lexeme.as_str()) {
                Option::Some(bits) => {
                    let line_now = self.line;
                    self.tokens.push(Token::new(TokenType::RealLit(bits), lexeme, line_now));
                    proof {
                        assert(tokens_view(self.tokens@) =~= tokens_view(old(self).tokens@).push(
                            self.tokens@.last()@,
                        ));
                    }
                },
                Option::None => {
                    let line_now = self.line;
                    let d = prerror(line_now, "malformed numeric literal");
                    self.diags.push(d);
                    proof {
                        assert(diags_view(self.diags@) =~= diags_view(old(self).diags@).push(
                            self.diags@.last()@,
                        ));
                    }
                },
            }
        } else {
            let lexeme = self.source.as_str().substring_char(self.start, self.current).to_owned();
            proof {
                assert(forall|j: int| 0 <= j < lexeme@.len() ==> is_digit_c(
                    #[trigger] lexeme@[j],
                ));
            }
            match parse_u32_digits(lexeme.as_str()) {
                Option::Some(v) => {
                    let line_now = self.line;
                    self.tokens.push(Token::new(TokenType::IntLit(v), lexeme, line_now));
                    proof {
                        assert(tokens_view(self.tokens@) =~= tokens_view(old(self).tokens@).push(
                            self.tokens@.last()@,
                        ));
                    }
                },
                Option::None => {
                    let line_now = self.line;
                    let d = prerror(line_now, "malformed numeric literal");
                    self.diags.push(d);
                    proof {
                        assert(diags_view(self.diags@) =~= diags_view(old(self).diags@).push(
                            self.diags@.last()@,
                        ));
                    }
                },
            }
        }
    }

    /// The rest of an identifier; the keyword table decides its kind.
    fn identifier(&mut self)
        requires
            old(self).start + 1 == old(self).current,
            old(self).start < old(self).source@.len(),
            old(self).source@.len() <= usize::MAX,
            is_alpha_c(old(self).source@[old(self).start as int]),
        ensures
            final(self).source@ == old(self).source@,
            final(self).start == old(self).start,
            final(self).line == old(self).line,
            final(self).diags@ == old(self).diags@,
            ({
                let src = old(self).source@;
                let pos = old(self).start as nat;
                let line0 = old(self).line as nat;
                let iend = ident_end(src, pos + 1);
                let text = src.subrange(pos as int, iend as int);
                &&& final(self).current == iend
                &&& tokens_view(final(self).tokens@) == tokens_view(old(self).tokens@).push(
                    match keyword_spec(text) {
                        Option::Some(t) => tokv(t, text, line0),
                        Option::None => tokv(TokenTypeV::Ident, text, line0),
                    },
                )
            }),
    {
        let ghost src = self.source@;
        let ghost pos = self.start as nat;
        proof {
            lemma_ident_end(src, pos + 1);
        }
        while is_alnum_e(self.peek()) && !self.is_at_end()
            invariant
                self.source@ == src,
                self.start == old(self).start,
                self.tokens@ == old(self).tokens@,
                self.diags@ == old(self).diags@,
                self.line == old(self).line,
                pos + 1 <= self.current <= src.len(),
                src.len() <= usize::MAX,
                ident_end(src, self.current as nat) == ident_end(src, pos + 1),
            decreases src.len() - self.current,
        {
            let _ = self.advance();
        }
        proof {
            assert(self.current as nat == ident_end(src, pos + 1));
        }
        let text = self.source.as_str().substring_char(self.start, self.current).to_owned();
        let line_now = self.line;
        match keyword(text.as_str()) {
            Option::Some(t) => {
                self.tokens.push(Token::new(t, text, line_now));
            },
            Option::None => {
                self.tokens.push(Token::new(TokenType::Ident, text, line_now));
            },
        }
        proof {
            assert(tokens_view(self.tokens@) =~= tokens_view(old(self).tokens@).push(
                self.tokens@.last()@,
            ));
        }
    }
}

/// A letter, digit or underscore?
fn is_alnum_e(c: char) -> (r: bool)
    ensures
        r == is_alnum_c(c),
{
    is_digit_e(c) || is_alpha_e(c)
}

/// The keyword table: the kind of an identifier lexeme that is a
/// keyword.
fn keyword(text: &str) -> (r: Option<TokenType>)
    ensures
        match r {
            Option::Some(t) => keyword_spec(text@) == Option::Some(t@),
            Option::None => keyword_spec(text@) is None,
        },
{
    if str_eq_str(text, "begin") {
        Option::Some(TokenType::Begin)
    } else if str_eq_str(text, "end") {
        Option::Some(TokenType::End)
    } else if str_eq_str(text, "procedure") {
        Option::Some(TokenType::Procedure)
    } else if str_eq_str(text, "function") {
        Option::Some(TokenType::Function)
    } else if str_eq_str(text, "return") {
        Option::Some(TokenType::Return)
    } else if str_eq_str(text, "if") {
        Option::Some(TokenType::If)
    } else if str_eq_str(text, "for") {
        Option::Some(TokenType::For)
    } else if str_eq_str(text, "repeat") {
        Option::Some(TokenType::Repeat)
    } else if str_eq_str(text, "until") {
        Option::Some(TokenType::Until)
    } else if str_eq_str(text, "while") {
        Option::Some(TokenType::While)
    } else if str_eq_str(text, "else") {
        Option::Some(TokenType::Else)
    } else if str_eq_str(text, "do") {
        Option::Some(TokenType::Do)
    } else if str_eq_str(text, "to") {
        Option::Some(TokenType::To)
    } else if str_eq_str(text, "program") {
        Option::Some(TokenType::Program)
    } else if str_eq_str(text, "true") {
        Option::Some(TokenType::True)
    } else if str_eq_str(text, "false") {
        Option::Some(TokenType::False)
    } else if str_eq_str(text, "and") {
        Option::Some(TokenType::And)
    } else if str_eq_str(text, "or") {
        Option::Some(TokenType::Or)
    } else if str_eq_str(text, "nil") {
        Option::Some(TokenType::Nil)
    } else if str_eq_str(text, "print") {
        Option::Some(TokenType::Print)
    } else if str_eq_str(text, "real") {
        Option::Some(TokenType::Real)
    } else if str_eq_str(text, "int") {
        Option::Some(TokenType::Int)
    } else if str_eq_str(text, "str") {
        Option::Some(TokenType::Str)
    } else if str_eq_str(text, "bool") {
        Option::Some(TokenType::Bool)
    } else {
        Option::None
    }
}

/// Decodes a run of decimal digits, refusing a value that does not fit.
fn parse_u32_digits(s: &str) -> (r: Option<u32>)
    requires
        forall|j: int| 0 <= j < s@.len() ==> is_digit_c(#[trigger] s@[j]),
    ensures
        r == if dec_val(s@) <= 0xffff_ffffnat {
            Option::Some(dec_val(s@) as u32)
        } else {
            Option::<u32>::None
        },
{
    let len = s.unicode_len();
    let mut acc: u64 = 0;
    let mut i: usize = 0;
    while i < len
        invariant
            0 <= i <= len,
            len == s@.len(),
            forall|j: int| 0 <= j < s@.len() ==> is_digit_c(#[trigger] s@[j]),
            acc <= 0xffff_ffff ==> acc as nat == dec_val(s@.take(i as int)),
            (acc > 0xffff_ffff) == (dec_val(s@.take(i as int)) > 0xffff_ffff),
            acc <= 0xffff_ffff * 10 + 9,
        decreases len - i,
    {
        let c = s.get_char(i);
        let d = (c as u32) - ('0' as u32);
        proof {
            lemma_dec_val_take(s@, i as nat);
        }
        if acc <= 0xffff_ffff {
            acc = acc * 10 + (d as u64);
        }
        i = i + 1;
    }
    proof {
        assert(s@.take(len as int) =~= s@);
    }
    if acc <= 0xffff_ffff {
        Option::Some(acc as u32)
    } else {
        Option::None
    }
}

} // verus!
