//! The condition expression language: identifier paths, literals,
//! comparisons, existence checks and boolean combinators. Identifiers must
//! resolve exactly in the environment.

use vstd::prelude::*;

use crate::error::AcosError;
use crate::json::JsonValue;
use crate::text::{
    chars_of, is_alphabetic, is_alphanumeric, is_digit, push_text, slice_chars, string_from_chars,
    string_of,
    unicode_alphabetic, unicode_alphanumeric,
};

verus! {

// ── Syntax ──────────────────────────────────────────────────────────────────

/// Comparison operators.
#[derive(Debug, Clone, Copy, PartialEq, Eq, Structural)]
pub enum CmpOp {
    Eq,
    Ne,
    Gt,
    Lt,
    Ge,
    Le,
}

/// Identifier path, e.g. `test.exit_code`; the first segment is the binding.
pub struct Path {
    pub segments: Vec<String>,
}

/// An operand: literal or identifier path.
pub enum Operand {
    Literal(JsonValue),
    Path(Path),
}

/// Parsed expression tree.
pub enum Expr {
    And(Box<Expr>, Box<Expr>),
    Or(Box<Expr>, Box<Expr>),
    Not(Box<Expr>),
    Cmp(Operand, CmpOp, Operand),
    Exists(Path),
    NotExists(Path),
    Lit(bool),
}

/// A lexical token.
pub enum Token {
    Ident(String),
    Number(String),
    Str(String),
    True,
    False,
    Eq,
    Ne,
    Gt,
    Lt,
    Ge,
    Le,
    And,
    Or,
    Not,
    LParen,
    RParen,
    Dot,
    Eof,
}

// ── Abstract syntax (views) ─────────────────────────────────────────────────

pub enum STok {
    Ident(Seq<char>),
    Number(Seq<char>),
    Str(Seq<char>),
    True,
    False,
    Eq,
    Ne,
    Gt,
    Lt,
    Ge,
    Le,
    And,
    Or,
    Not,
    LParen,
    RParen,
    Dot,
    Eof,
}

/// A literal operand: the number's text, a string, a boolean, null, or a
/// composite JSON value (which the parser never builds).
pub enum SLit {
    Num(Seq<char>),
    Str(Seq<char>),
    Bool(bool),
    Null,
    Composite(JsonValue),
}

pub enum SOperand {
    Lit(SLit),
    Path(Seq<Seq<char>>),
}

pub enum SExpr {
    And(Box<SExpr>, Box<SExpr>),
    Or(Box<SExpr>, Box<SExpr>),
    Not(Box<SExpr>),
    Cmp(SOperand, CmpOp, SOperand),
    Exists(Seq<Seq<char>>),
    NotExists(Seq<Seq<char>>),
    Lit(bool),
}

pub open spec fn tok_view(t: Token) -> STok {
    match t {
        Token::Ident(s) => STok::Ident(s@),
        Token::Number(s) => STok::Number(s@),
        Token::Str(s) => STok::Str(s@),
        Token::True => STok::True,
        Token::False => STok::False,
        Token::Eq => STok::Eq,
        Token::Ne => STok::Ne,
        Token::Gt => STok::Gt,
        Token::Lt => STok::Lt,
        Token::Ge => STok::Ge,
        Token::Le => STok::Le,
        Token::And => STok::And,
        Token::Or => STok::Or,
        Token::Not => STok::Not,
        Token::LParen => STok::LParen,
        Token::RParen => STok::RParen,
        Token::Dot => STok::Dot,
        Token::Eof => STok::Eof,
    }
}

pub open spec fn toks_view(ts: Seq<Token>) -> Seq<STok> {
    ts.map_values(|t: Token| tok_view(t))
}

pub open spec fn path_view(p: Path) -> Seq<Seq<char>> {
    crate::refs::views(p.segments@)
}

pub open spec fn lit_view(v: JsonValue) -> SLit {
    match v {
        JsonValue::Number(s) => SLit::Num(s@),
        JsonValue::Str(s) => SLit::Str(s@),
        JsonValue::Bool(b) => SLit::Bool(b),
        JsonValue::Null => SLit::Null,
        _ => SLit::Composite(v),
    }
}

pub open spec fn operand_view(o: Operand) -> SOperand {
    match o {
        Operand::Literal(v) => SOperand::Lit(lit_view(v)),
        Operand::Path(p) => SOperand::Path(path_view(p)),
    }
}

pub open spec fn expr_view(e: Expr) -> SExpr
    decreases e,
{
    match e {
        Expr::And(a, b) => SExpr::And(Box::new(expr_view(*a)), Box::new(expr_view(*b))),
        Expr::Or(a, b) => SExpr::Or(Box::new(expr_view(*a)), Box::new(expr_view(*b))),
        Expr::Not(a) => SExpr::Not(Box::new(expr_view(*a))),
        Expr::Cmp(l, op, r) => SExpr::Cmp(operand_view(l), op, operand_view(r)),
        Expr::Exists(p) => SExpr::Exists(path_view(p)),
        Expr::NotExists(p) => SExpr::NotExists(path_view(p)),
        Expr::Lit(b) => SExpr::Lit(b),
    }
}

/// Whether a literal operand is well formed (literals are numbers, strings or
/// booleans).
pub open spec fn lit_ok(v: JsonValue) -> bool {
    v is Number || v is Str || v is Bool
}

// ── Lexical grammar ─────────────────────────────────────────────────────────

/// End of the run of number characters (digits and dots) from `j` on.
pub open spec fn num_end(s: Seq<char>, j: int) -> int
    decreases s.len() - j,
{
    if j < 0 || j >= s.len() || !num_char(s[j]) {
        j
    } else {
        num_end(s, j + 1)
    }
}

/// End of the run of identifier characters from `j` on.
pub open spec fn ident_end(s: Seq<char>, j: int) -> int
    decreases s.len() - j,
{
    if j < 0 || j >= s.len() || !ident_char(s[j]) {
        j
    } else {
        ident_end(s, j + 1)
    }
}

/// End of a quoted string body started at `j`: the closing quote, or the end.
pub open spec fn quote_end(s: Seq<char>, j: int) -> int
    decreases s.len() - j,
{
    if j < 0 || j >= s.len() || s[j] == '\'' {
        j
    } else {
        quote_end(s, j + 1)
    }
}

pub open spec fn num_char(d: char) -> bool {
    is_digit(d) || d == '.'
}

pub open spec fn ident_char(d: char) -> bool {
    unicode_alphanumeric(d) || d == '_'
}

pub open spec fn dot_count(s: Seq<char>) -> nat
    decreases s.len(),
{
    if s.len() == 0 {
        0
    } else {
        (if s.last() == '.' {
            1nat
        } else {
            0nat
        }) + dot_count(s.drop_last())
    }
}

pub open spec fn cons(t: STok, rest: Option<Seq<STok>>) -> Option<Seq<STok>> {
    match rest {
        Some(ts) => Some(seq![t] + ts),
        None => None,
    }
}

pub proof fn lemma_num_end(s: Seq<char>, j: int, e: int)
    requires
        0 <= j <= e <= s.len(),
        forall|k: int| j <= k < e ==> num_char(#[trigger] s[k]),
        e == s.len() || !num_char(s[e]),
    ensures
        num_end(s, j) == e,
    decreases e - j,
{
    if j < e {
        lemma_num_end(s, j + 1, e);
    }
}

pub proof fn lemma_ident_end(s: Seq<char>, j: int, e: int)
    requires
        0 <= j <= e <= s.len(),
        forall|k: int| j <= k < e ==> ident_char(#[trigger] s[k]),
        e == s.len() || !ident_char(s[e]),
    ensures
        ident_end(s, j) == e,
    decreases e - j,
{
    if j < e {
        lemma_ident_end(s, j + 1, e);
    }
}

pub proof fn lemma_quote_end(s: Seq<char>, j: int, e: int)
    requires
        0 <= j <= e <= s.len(),
        forall|k: int| j <= k < e ==> s[k] != '\'',
        e == s.len() || s[e] == '\'',
    ensures
        quote_end(s, j) == e,
    decreases e - j,
{
    if j < e {
        lemma_quote_end(s, j + 1, e);
    }
}

/// The tokens of `s` from position `i` (ending with `Eof`), or `None` when
/// the text is not lexically valid.
pub open spec fn lex_from(s: Seq<char>, i: int) -> Option<Seq<STok>>
    decreases s.len() + 1 - i,
{
    if i < 0 || i >= s.len() {
        Some(seq![STok::Eof])
    } else {
        let c = s[i];
        let next_is_eq = i + 1 < s.len() && s[i + 1] == '=';
        if c == ' ' || c == '\t' || c == '\n' {
            lex_from(s, i + 1)
        } else if c == '(' {
            cons(STok::LParen, lex_from(s, i + 1))
        } else if c == ')' {
            cons(STok::RParen, lex_from(s, i + 1))
        } else if c == '.' {
            cons(STok::Dot, lex_from(s, i + 1))
        } else if c == '=' {
            if next_is_eq {
                cons(STok::Eq, lex_from(s, i + 2))
            } else {
                None
            }
        } else if c == '!' {
            if next_is_eq {
                cons(STok::Ne, lex_from(s, i + 2))
            } else {
                cons(STok::Not, lex_from(s, i + 1))
            }
        } else if c == '>' {
            if next_is_eq {
                cons(STok::Ge, lex_from(s, i + 2))
            } else {
                cons(STok::Gt, lex_from(s, i + 1))
            }
        } else if c == '<' {
            if next_is_eq {
                cons(STok::Le, lex_from(s, i + 2))
            } else {
                cons(STok::Lt, lex_from(s, i + 1))
            }
        } else if c == '&' {
            if i + 1 < s.len() && s[i + 1] == '&' {
                cons(STok::And, lex_from(s, i + 2))
            } else {
                None
            }
        } else if c == '|' {
            if i + 1 < s.len() && s[i + 1] == '|' {
                cons(STok::Or, lex_from(s, i + 2))
            } else {
                None
            }
        } else if c == '\'' {
            let j = quote_end(s, i + 1);
            if j <= i || j > s.len() {
                None
            } else {
                cons(STok::Str(s.subrange(i + 1, j)), lex_from(s, j + 1))
            }
        } else if is_digit(c) {
            let j = num_end(s, i);
            let text = s.subrange(i, j);
            if j <= i || j > s.len() || dot_count(text) > 1 {
                None
            } else {
                cons(STok::Number(text), lex_from(s, j))
            }
        } else if unicode_alphabetic(c) || c == '_' {
            let j = ident_end(s, i);
            let word = s.subrange(i, j);
            if j <= i || j > s.len() {
                None
            } else if word == "true"@ {
                cons(STok::True, lex_from(s, j))
            } else if word == "false"@ {
                cons(STok::False, lex_from(s, j))
            } else {
                cons(STok::Ident(word), lex_from(s, j))
            }
        } else {
            None
        }
    }
}

/// The tokens of a condition text.
pub open spec fn lex(s: Seq<char>) -> Option<Seq<STok>> {
    lex_from(s, 0)
}

/// The message of the first lexical error of `s` at or after position `i`
/// (empty when there is none).
pub open spec fn lex_error(s: Seq<char>, i: int) -> Seq<char>
    decreases s.len() + 1 - i,
{
    if i < 0 || i >= s.len() {
        seq![]
    } else {
        let c = s[i];
        let next_is_eq = i + 1 < s.len() && s[i + 1] == '=';
        if c == ' ' || c == '\t' || c == '\n' || c == '(' || c == ')' || c == '.' {
            lex_error(s, i + 1)
        } else if c == '=' {
            if next_is_eq {
                lex_error(s, i + 2)
            } else {
                "expected '=='"@
            }
        } else if c == '!' || c == '>' || c == '<' {
            if next_is_eq {
                lex_error(s, i + 2)
            } else {
                lex_error(s, i + 1)
            }
        } else if c == '&' {
            if i + 1 < s.len() && s[i + 1] == '&' {
                lex_error(s, i + 2)
            } else {
                "expected '&&'"@
            }
        } else if c == '|' {
            if i + 1 < s.len() && s[i + 1] == '|' {
                lex_error(s, i + 2)
            } else {
                "expected '||'"@
            }
        } else if c == '\'' {
            let j = quote_end(s, i + 1);
            if j <= i || j > s.len() {
                seq![]
            } else {
                lex_error(s, j + 1)
            }
        } else if is_digit(c) {
            let j = num_end(s, i);
            let text = s.subrange(i, j);
            if j <= i || j > s.len() {
                seq![]
            } else if dot_count(text) > 1 {
                "invalid number '"@ + text + "'"@
            } else {
                lex_error(s, j)
            }
        } else if unicode_alphabetic(c) || c == '_' {
            let j = ident_end(s, i);
            if j <= i || j > s.len() {
                seq![]
            } else {
                lex_error(s, j)
            }
        } else {
            "unexpected character '"@ + seq![c] + "'"@
        }
    }
}

/// The message a malformed condition text is refused with: its first lexical
/// error, else a grammar error.
pub open spec fn parse_error(s: Seq<char>) -> Seq<char> {
    match lex(s) {
        None => lex_error(s, 0),
        Some(t) => match p_or(t, 0) {
            None => "malformed condition expression"@,
            Some(_) => "unexpected token after expression"@,
        },
    }
}


pub open spec fn prepend(p: Seq<STok>, o: Option<Seq<STok>>) -> Option<Seq<STok>> {
    match o {
        Some(ts) => Some(p + ts),
        None => None,
    }
}

pub proof fn lemma_prepend_cons(p: Seq<STok>, t: STok, o: Option<Seq<STok>>)
    ensures
        prepend(p, cons(t, o)) == prepend(p.push(t), o),
{
    match o {
        Some(ts) => {
            assert(p + (seq![t] + ts) =~= p.push(t) + ts);
        },
        None => {},
    }
}

/// A validation failure with the given message: the error of every
/// rejected condition.
pub fn err(m: &str) -> (e: AcosError)
    ensures
        e matches AcosError::ValidationFailure { message } && message@ == m@,
{
    AcosError::ValidationFailure { message: string_of(m) }
}

fn push_tok(toks: &mut Vec<Token>, t: Token)
    ensures
        toks_view(final(toks)@) == toks_view(old(toks)@).push(tok_view(t)),
{
    let ghost before = toks@;
    toks.push(t);
    assert(toks_view(toks@) =~= toks_view(before).push(tok_view(t)));
}

/// Whether the characters `v` spell `word`.
pub fn chars_eq(v: &Vec<char>, word: &str) -> (b: bool)
    ensures
        b == (v@ == word@),
{
    let w = chars_of(word);
    if w.len() != v.len() {
        return false;
    }
    let mut i: usize = 0;
    while i < v.len()
        invariant
            w@ == word@,
            w@.len() == v@.len(),
            i <= v@.len(),
            forall|k: int| 0 <= k < i ==> v@[k] == w@[k],
        decreases v@.len() - i,
    {
        if v[i] != w[i] {
            return false;
        }
        i = i + 1;
    }
    assert(v@ =~= w@);
    true
}

/// Splits a condition text into tokens (ending with `Eof`).
pub fn tokenize(input: &str) -> (r: Result<Vec<Token>, AcosError>)
    ensures
        match lex(input@) {
            Some(ts) => r is Ok && toks_view(r->Ok_0@) == ts,
            None => r matches Err(AcosError::ValidationFailure { message }) && message@ == lex_error(
                input@,
                0,
            ),
        },
{
    let s = chars_of(input);
    let n = s.len();
    let mut toks: Vec<Token> = Vec::new();
    let mut i: usize = 0;
    assert(toks_view(toks@) =~= seq![]);
    assert(prepend(seq![], lex_from(s@, 0)) == lex_from(s@, 0)) by {
        match lex_from(s@, 0) {
            Some(ts) => {
                assert(Seq::<STok>::empty() + ts =~= ts);
            },
            None => {},
        }
    }
    while i < n
        invariant
            n == s@.len(),
            s@ == input@,
            i <= n,
            lex(s@) == prepend(toks_view(toks@), lex_from(s@, i as int)),
            lex_error(s@, 0) == lex_error(s@, i as int),
        decreases n - i,
    {
        let c = s[i];
        let next_eq = i + 1 < n && s[i + 1] == '=';
        if c == ' ' || c == '\t' || c == '\n' {
            i = i + 1;
        } else if c == '(' {
            proof { lemma_prepend_cons(toks_view(toks@), STok::LParen, lex_from(s@, i + 1)); }
            push_tok(&mut toks, Token::LParen);
            i = i + 1;
        } else if c == ')' {
            proof { lemma_prepend_cons(toks_view(toks@), STok::RParen, lex_from(s@, i + 1)); }
            push_tok(&mut toks, Token::RParen);
            i = i + 1;
        } else if c == '.' {
            proof { lemma_prepend_cons(toks_view(toks@), STok::Dot, lex_from(s@, i + 1)); }
            push_tok(&mut toks, Token::Dot);
            i = i + 1;
        } else if c == '=' {
            if next_eq {
                proof { lemma_prepend_cons(toks_view(toks@), STok::Eq, lex_from(s@, i + 2)); }
                push_tok(&mut toks, Token::Eq);
                i = i + 2;
            } else {
                return Err(err("expected '=='"));
            }
        } else if c == '!' {
            if next_eq {
                proof { lemma_prepend_cons(toks_view(toks@), STok::Ne, lex_from(s@, i + 2)); }
                push_tok(&mut toks, Token::Ne);
                i = i + 2;
            } else {
                proof { lemma_prepend_cons(toks_view(toks@), STok::Not, lex_from(s@, i + 1)); }
                push_tok(&mut toks, Token::Not);
                i = i + 1;
            }
        } else if c == '>' {
            if next_eq {
                proof { lemma_prepend_cons(toks_view(toks@), STok::Ge, lex_from(s@, i + 2)); }
                push_tok(&mut toks, Token::Ge);
                i = i + 2;
            } else {
                proof { lemma_prepend_cons(toks_view(toks@), STok::Gt, lex_from(s@, i + 1)); }
                push_tok(&mut toks, Token::Gt);
                i = i + 1;
            }
        } else if c == '<' {
            if next_eq {
                proof { lemma_prepend_cons(toks_view(toks@), STok::Le, lex_from(s@, i + 2)); }
                push_tok(&mut toks, Token::Le);
                i = i + 2;
            } else {
                proof { lemma_prepend_cons(toks_view(toks@), STok::Lt, lex_from(s@, i + 1)); }
                push_tok(&mut toks, Token::Lt);
                i = i + 1;
            }
        } else if c == '&' {
            if i + 1 < n && s[i + 1] == '&' {
                proof { lemma_prepend_cons(toks_view(toks@), STok::And, lex_from(s@, i + 2)); }
                push_tok(&mut toks, Token::And);
                i = i + 2;
            } else {
                return Err(err("expected '&&'"));
            }
        } else if c == '|' {
            if i + 1 < n && s[i + 1] == '|' {
                proof { lemma_prepend_cons(toks_view(toks@), STok::Or, lex_from(s@, i + 2)); }
                push_tok(&mut toks, Token::Or);
                i = i + 2;
            } else {
                return Err(err("expected '||'"));
            }
        } else if c == '\'' {
            let mut j = i + 1;
            while j < n && s[j] != '\''
                invariant
                    n == s@.len(),
                    i < n,
                    i + 1 <= j <= n,
                    forall|k: int| i + 1 <= k < j ==> s@[k] != '\'',
                decreases n - j,
            {
                j = j + 1;
            }
            proof {
                lemma_quote_end(s@, i + 1, j as int);
            }
            let body = slice_chars(&s, i + 1, j);
            let tok = Token::Str(string_from_chars(body.as_slice()));
            proof {
                lemma_prepend_cons(
                    toks_view(toks@),
                    STok::Str(s@.subrange(i + 1, j as int)),
                    lex_from(s@, j + 1),
                );
            }
            push_tok(&mut toks, tok);
            assert(lex_error(s@, i as int) == lex_error(s@, j + 1));
            if j < n {
                i = j + 1;
            } else {
                assert(lex_from(s@, j + 1) == lex_from(s@, n as int));
                assert(lex_error(s@, j + 1) == lex_error(s@, n as int));
                i = n;
            }
        } else if '0' <= c && c <= '9' {
            let mut j = i;
            while j < n && (('0' <= s[j] && s[j] <= '9') || s[j] == '.')
                invariant
                    n == s@.len(),
                    i <= j <= n,
                    forall|k: int| i <= k < j ==> num_char(#[trigger] s@[k]),
                decreases n - j,
            {
                j = j + 1;
            }
            proof {
                lemma_num_end(s@, i as int, j as int);
            }
            let text = slice_chars(&s, i, j);
            let mut dots: usize = 0;
            let mut k: usize = 0;
            while k < text.len()
                invariant
                    k <= text@.len(),
                    dots == dot_count(text@.take(k as int)),
                    dots <= k,
                decreases text@.len() - k,
            {
                assert(text@.take(k + 1).drop_last() =~= text@.take(k as int));
                if text[k] == '.' {
                    dots = dots + 1;
                }
                k = k + 1;
            }
            assert(text@.take(text@.len() as int) =~= text@);
            if dots > 1 {
                let mut m = string_of("invalid number '");
                let t = string_from_chars(text.as_slice());
                push_text(&mut m, t.as_str());
                push_text(&mut m, "'");
                return Err(AcosError::ValidationFailure { message: m });
            }
            proof {
                lemma_prepend_cons(toks_view(toks@), STok::Number(text@), lex_from(s@, j as int));
                assert(lex_error(s@, i as int) == lex_error(s@, j as int));
            }
            push_tok(&mut toks, Token::Number(string_from_chars(text.as_slice())));
            i = j;
        } else if is_alphabetic(c) || c == '_' {
            let first = is_alphanumeric(c);
            let mut j = i;
            while j < n && (is_alphanumeric(s[j]) || s[j] == '_')
                invariant
                    n == s@.len(),
                    i <= j <= n,
                    forall|k: int| i <= k < j ==> ident_char(#[trigger] s@[k]),
                decreases n - j,
            {
                j = j + 1;
            }
            assert(j > i);
            proof {
                lemma_ident_end(s@, i as int, j as int);
            }
            let word = slice_chars(&s, i, j);
            assert(lex_error(s@, i as int) == lex_error(s@, j as int));
            if chars_eq(&word, "true") {
                proof { lemma_prepend_cons(toks_view(toks@), STok::True, lex_from(s@, j as int)); }
                push_tok(&mut toks, Token::True);
            } else if chars_eq(&word, "false") {
                proof { lemma_prepend_cons(toks_view(toks@), STok::False, lex_from(s@, j as int)); }
                push_tok(&mut toks, Token::False);
            } else {
                proof {
                    lemma_prepend_cons(toks_view(toks@), STok::Ident(word@), lex_from(s@, j as int));
                }
                push_tok(&mut toks, Token::Ident(string_from_chars(word.as_slice())));
            }
            i = j;
        } else {
            let mut m = string_of("unexpected character '");
            let mut v: Vec<char> = Vec::new();
            v.push(c);
            crate::text::push_chars(&mut m, v.as_slice());
            push_text(&mut m, "'");
            return Err(AcosError::ValidationFailure { message: m });
        }
    }
    proof {
        lemma_prepend_cons(toks_view(toks@), STok::Eof, lex_from(s@, n as int));
        assert(lex_from(s@, n as int) == Some(seq![STok::Eof]));
    }
    push_tok(&mut toks, Token::Eof);
    proof {
        assert(lex_from(s@, n as int + 1) == Some(Seq::<STok>::empty().push(STok::Eof)));
    }
    Ok(toks)
}


// ── Grammar ─────────────────────────────────────────────────────────────────

pub open spec fn tok_at(t: Seq<STok>, pos: int) -> Option<STok> {
    if 0 <= pos < t.len() {
        Some(t[pos])
    } else {
        None
    }
}

/// Whether a sub-parse that started at `pos` and stopped at `p` advanced
/// within the tokens.
pub open spec fn adv(pos: int, p: int, n: int) -> bool {
    pos < p <= n
}

/// The remaining `.ident` segments of a path.
pub open spec fn p_path_rest(t: Seq<STok>, segs: Seq<Seq<char>>, pos: int) -> Option<
    (Seq<Seq<char>>, int),
>
    decreases t.len() - pos,
{
    if 0 <= pos < t.len() && t[pos] is Dot {
        match tok_at(t, pos + 1) {
            Some(STok::Ident(seg)) => p_path_rest(t, segs.push(seg), pos + 2),
            _ => None,
        }
    } else {
        Some((segs, pos))
    }
}

/// An operand: a literal or an identifier path.
pub open spec fn p_operand(t: Seq<STok>, pos: int) -> Option<(SOperand, int)> {
    match tok_at(t, pos) {
        Some(STok::Number(n)) => Some((SOperand::Lit(SLit::Num(n)), pos + 1)),
        Some(STok::Str(x)) => Some((SOperand::Lit(SLit::Str(x)), pos + 1)),
        Some(STok::True) => Some((SOperand::Lit(SLit::Bool(true)), pos + 1)),
        Some(STok::False) => Some((SOperand::Lit(SLit::Bool(false)), pos + 1)),
        Some(STok::Ident(name)) => match p_path_rest(t, seq![name], pos + 1) {
            Some((segs, p)) => Some((SOperand::Path(segs), p)),
            None => None,
        },
        _ => None,
    }
}

pub open spec fn cmp_op_of(t: STok) -> Option<CmpOp> {
    match t {
        STok::Eq => Some(CmpOp::Eq),
        STok::Ne => Some(CmpOp::Ne),
        STok::Gt => Some(CmpOp::Gt),
        STok::Lt => Some(CmpOp::Lt),
        STok::Ge => Some(CmpOp::Ge),
        STok::Le => Some(CmpOp::Le),
        _ => None,
    }
}

/// Whether the text at `i` spells the comparison operator `op` (`>` and `<`
/// not followed by `=`).
pub open spec fn spells(s: Seq<char>, i: int, op: CmpOp) -> bool {
    let two = |a: char, b: char| 0 <= i && i + 1 < s.len() && s[i] == a && s[i + 1] == b;
    let one = |a: char| 0 <= i < s.len() && s[i] == a && !(i + 1 < s.len() && s[i + 1] == '=');
    match op {
        CmpOp::Eq => two('=', '='),
        CmpOp::Ne => two('!', '='),
        CmpOp::Ge => two('>', '='),
        CmpOp::Le => two('<', '='),
        CmpOp::Gt => one('>'),
        CmpOp::Lt => one('<'),
    }
}

/// The number of characters an operator is spelled with.
pub open spec fn op_len(op: CmpOp) -> int {
    match op {
        CmpOp::Gt | CmpOp::Lt => 1,
        _ => 2,
    }
}

/// The token the lexer makes of an operator's spelling is read by the parser
/// as that same operator: `<=` compares with `Le`, `<` with `Lt`, and so on.
pub proof fn lemma_operator_spelling(s: Seq<char>, i: int, op: CmpOp)
    requires
        spells(s, i, op),
    ensures
        match lex_from(s, i) {
            Some(ts) => ts.len() > 0 && cmp_op_of(ts[0]) == Some(op),
            None => lex_from(s, i + op_len(op)) is None,
        },
{
    match lex_from(s, i + op_len(op)) {
        Some(rest) => {
            assert(lex_from(s, i) == cons(lex_from(s, i)->Some_0[0], Some(rest)));
        },
        None => {},
    }
}

/// Distinct comparison tokens are distinct operators.
pub proof fn lemma_cmp_op_injective(a: STok, b: STok)
    requires
        cmp_op_of(a) is Some,
        cmp_op_of(a) == cmp_op_of(b),
    ensures
        a == b,
{
}

/// A comparison is built with the operator its token denotes.
pub proof fn lemma_finish_operator(t: Seq<STok>, left: SOperand, pos: int, op: CmpOp)
    requires
        0 <= pos < t.len(),
        cmp_op_of(t[pos]) == Some(op),
        p_operand(t, pos + 1) is Some,
    ensures
        p_finish(t, left, pos) matches Some((SExpr::Cmp(l, o, _), _)) && l == left && o == op,
{
}

/// The comparison completing a left operand.
pub open spec fn p_finish(t: Seq<STok>, left: SOperand, pos: int) -> Option<(SExpr, int)> {
    match tok_at(t, pos) {
        Some(tk) => match cmp_op_of(tk) {
            Some(op) => match p_operand(t, pos + 1) {
                Some((right, p)) => Some((SExpr::Cmp(left, op, right), p)),
                None => None,
            },
            None => None,
        },
        None => None,
    }
}

pub open spec fn p_primary(t: Seq<STok>, pos: int) -> Option<(SExpr, int)>
    decreases t.len() - pos, 0int,
{
    if pos < 0 || pos >= t.len() {
        None
    } else {
        match t[pos] {
            STok::LParen => match p_or(t, pos + 1) {
                Some((e, p)) => if adv(pos + 1, p, t.len() as int) && tok_at(t, p) == Some(
                    STok::RParen,
                ) {
                    Some((e, p + 1))
                } else {
                    None
                },
                None => None,
            },
            STok::Ident(name) => if name == "exists"@ || name == "not_exists"@ {
                if tok_at(t, pos + 1) == Some(STok::LParen) {
                    match p_operand(t, pos + 2) {
                        Some((SOperand::Path(segs), p)) => if tok_at(t, p) == Some(STok::RParen) {
                            if name == "not_exists"@ {
                                Some((SExpr::NotExists(segs), p + 1))
                            } else {
                                Some((SExpr::Exists(segs), p + 1))
                            }
                        } else {
                            None
                        },
                        _ => None,
                    }
                } else {
                    None
                }
            } else {
                match p_operand(t, pos) {
                    Some((l, p)) => p_finish(t, l, p),
                    None => None,
                }
            },
            STok::Number(_) | STok::Str(_) => match p_operand(t, pos) {
                Some((l, p)) => p_finish(t, l, p),
                None => None,
            },
            STok::True => Some((SExpr::Lit(true), pos + 1)),
            STok::False => Some((SExpr::Lit(false), pos + 1)),
            _ => None,
        }
    }
}

pub open spec fn p_not(t: Seq<STok>, pos: int) -> Option<(SExpr, int)>
    decreases t.len() - pos, 1int,
{
    if 0 <= pos < t.len() && t[pos] is Not {
        match p_not(t, pos + 1) {
            Some((e, p)) => Some((SExpr::Not(Box::new(e)), p)),
            None => None,
        }
    } else {
        p_primary(t, pos)
    }
}

pub open spec fn p_and_rest(t: Seq<STok>, left: SExpr, pos: int) -> Option<(SExpr, int)>
    decreases t.len() - pos, 2int,
{
    if 0 <= pos < t.len() && t[pos] is And {
        match p_not(t, pos + 1) {
            Some((r, p)) => if adv(pos + 1, p, t.len() as int) {
                p_and_rest(t, SExpr::And(Box::new(left), Box::new(r)), p)
            } else {
                None
            },
            None => None,
        }
    } else {
        Some((left, pos))
    }
}

pub open spec fn p_and(t: Seq<STok>, pos: int) -> Option<(SExpr, int)>
    decreases t.len() - pos, 3int,
{
    match p_not(t, pos) {
        Some((l, p)) => if adv(pos, p, t.len() as int) {
            p_and_rest(t, l, p)
        } else {
            None
        },
        None => None,
    }
}

pub open spec fn p_or_rest(t: Seq<STok>, left: SExpr, pos: int) -> Option<(SExpr, int)>
    decreases t.len() - pos, 4int,
{
    if 0 <= pos < t.len() && t[pos] is Or {
        match p_and(t, pos + 1) {
            Some((r, p)) => if adv(pos + 1, p, t.len() as int) {
                p_or_rest(t, SExpr::Or(Box::new(left), Box::new(r)), p)
            } else {
                None
            },
            None => None,
        }
    } else {
        Some((left, pos))
    }
}

pub open spec fn p_or(t: Seq<STok>, pos: int) -> Option<(SExpr, int)>
    decreases t.len() - pos, 5int,
{
    match p_and(t, pos) {
        Some((l, p)) => if adv(pos, p, t.len() as int) {
            p_or_rest(t, l, p)
        } else {
            None
        },
        None => None,
    }
}

/// The expression a condition text denotes, if it is well formed: the
/// tokens parse as an `or`-expression followed by the end of input.
pub open spec fn parse_spec(s: Seq<char>) -> Option<SExpr> {
    match lex(s) {
        None => None,
        Some(t) => match p_or(t, 0) {
            Some((e, p)) => if tok_at(t, p) == Some(STok::Eof) {
                Some(e)
            } else {
                None
            },
            None => None,
        },
    }
}

// ── Advance lemmas ──────────────────────────────────────────────────────────

pub proof fn lemma_path_rest_adv(t: Seq<STok>, segs: Seq<Seq<char>>, pos: int)
    requires
        0 <= pos <= t.len(),
    ensures
        p_path_rest(t, segs, pos) matches Some((_, p)) ==> pos <= p <= t.len(),
    decreases t.len() - pos,
{
    if 0 <= pos < t.len() && t[pos] is Dot {
        match tok_at(t, pos + 1) {
            Some(STok::Ident(seg)) => lemma_path_rest_adv(t, segs.push(seg), pos + 2),
            _ => {},
        }
    }
}

pub proof fn lemma_operand_adv(t: Seq<STok>, pos: int)
    requires
        0 <= pos,
    ensures
        p_operand(t, pos) matches Some((_, p)) ==> adv(pos, p, t.len() as int),
{
    if 0 <= pos < t.len() {
        match t[pos] {
            STok::Ident(name) => lemma_path_rest_adv(t, seq![name], pos + 1),
            _ => {},
        }
    }
}

pub proof fn lemma_finish_adv(t: Seq<STok>, left: SOperand, pos: int)
    requires
        0 <= pos,
    ensures
        p_finish(t, left, pos) matches Some((_, p)) ==> adv(pos, p, t.len() as int),
{
    lemma_operand_adv(t, pos + 1);
}

pub proof fn lemma_primary_adv(t: Seq<STok>, pos: int)
    requires
        0 <= pos,
    ensures
        p_primary(t, pos) matches Some((_, p)) ==> adv(pos, p, t.len() as int),
{
    if pos < t.len() {
        lemma_operand_adv(t, pos);
        lemma_operand_adv(t, pos + 2);
        match p_operand(t, pos) {
            Some((l, p)) => lemma_finish_adv(t, l, p),
            None => {},
        }
    }
}

pub proof fn lemma_not_adv(t: Seq<STok>, pos: int)
    requires
        0 <= pos,
    ensures
        p_not(t, pos) matches Some((_, p)) ==> adv(pos, p, t.len() as int),
    decreases t.len() - pos,
{
    if 0 <= pos < t.len() && t[pos] is Not {
        lemma_not_adv(t, pos + 1);
    } else {
        lemma_primary_adv(t, pos);
    }
}

pub proof fn lemma_and_rest_adv(t: Seq<STok>, left: SExpr, pos: int)
    requires
        0 <= pos <= t.len(),
    ensures
        p_and_rest(t, left, pos) matches Some((_, p)) ==> pos <= p <= t.len(),
    decreases t.len() - pos,
{
    if 0 <= pos < t.len() && t[pos] is And {
        match p_not(t, pos + 1) {
            Some((r, p)) => if adv(pos + 1, p, t.len() as int) {
                lemma_and_rest_adv(t, SExpr::And(Box::new(left), Box::new(r)), p);
            },
            None => {},
        }
    }
}

pub proof fn lemma_and_adv(t: Seq<STok>, pos: int)
    requires
        0 <= pos,
    ensures
        p_and(t, pos) matches Some((_, p)) ==> adv(pos, p, t.len() as int),
{
    lemma_not_adv(t, pos);
    match p_not(t, pos) {
        Some((l, p)) => if adv(pos, p, t.len() as int) {
            lemma_and_rest_adv(t, l, p);
        },
        None => {},
    }
}

pub proof fn lemma_or_rest_adv(t: Seq<STok>, left: SExpr, pos: int)
    requires
        0 <= pos <= t.len(),
    ensures
        p_or_rest(t, left, pos) matches Some((_, p)) ==> pos <= p <= t.len(),
    decreases t.len() - pos,
{
    if 0 <= pos < t.len() && t[pos] is Or {
        match p_and(t, pos + 1) {
            Some((r, p)) => if adv(pos + 1, p, t.len() as int) {
                lemma_or_rest_adv(t, SExpr::Or(Box::new(left), Box::new(r)), p);
            },
            None => {},
        }
    }
}

pub proof fn lemma_or_adv(t: Seq<STok>, pos: int)
    requires
        0 <= pos,
    ensures
        p_or(t, pos) matches Some((_, p)) ==> adv(pos, p, t.len() as int),
{
    lemma_and_adv(t, pos);
    match p_and(t, pos) {
        Some((l, p)) => if adv(pos, p, t.len() as int) {
            lemma_or_rest_adv(t, l, p);
        },
        None => {},
    }
}


// ── Parser ──────────────────────────────────────────────────────────────────

pub open spec fn parsed<A, B>(r: Result<(A, usize), AcosError>, spec: Option<(B, int)>, view: spec_fn(
    A,
) -> B) -> bool {
    match spec {
        Some((x, p)) => r is Ok && view(r->Ok_0.0) == x && r->Ok_0.1 == p,
        None => r is Err,
    }
}


fn is_dot(toks: &Vec<Token>, p: usize) -> (b: bool)
    requires
        p < toks@.len(),
    ensures
        b == (toks_view(toks@)[p as int] is Dot),
{
    assert(toks_view(toks@)[p as int] == tok_view(toks@[p as int]));
    match &toks[p] {
        Token::Dot => true,
        _ => false,
    }
}

fn parse_operand(toks: &Vec<Token>, pos: usize) -> (r: Result<(Operand, usize), AcosError>)
    ensures
        parsed(r, p_operand(toks_view(toks@), pos as int), |o: Operand| operand_view(o)),
{
    let ghost t = toks_view(toks@);
    if pos >= toks.len() {
        return Err(err("expected operand, found None"));
    }
    assert(t[pos as int] == tok_view(toks@[pos as int]));
    match &toks[pos] {
        Token::Number(n) => Ok(
            (Operand::Literal(JsonValue::Number(n.clone())), pos + 1),
        ),
        Token::Str(x) => Ok((Operand::Literal(JsonValue::Str(x.clone())), pos + 1)),
        Token::True => Ok((Operand::Literal(JsonValue::Bool(true)), pos + 1)),
        Token::False => Ok((Operand::Literal(JsonValue::Bool(false)), pos + 1)),
        Token::Ident(name) => {
            let mut segs: Vec<String> = Vec::new();
            segs.push(name.clone());
            let mut p = pos + 1;
            assert(crate::refs::views(segs@) =~= seq![name@]);
            while p < toks.len() && is_dot(toks, p)
                invariant
                    t == toks_view(toks@),
                    pos < p <= toks@.len(),
                    pos < toks@.len(),
                    t[pos as int] == STok::Ident(name@),
                    p_path_rest(t, seq![name@], pos + 1) == p_path_rest(
                        t,
                        crate::refs::views(segs@),
                        p as int,
                    ),
                decreases toks@.len() - p,
            {
                assert(t[p as int] == tok_view(toks@[p as int]));
                if p + 1 >= toks.len() {
                    return Err(err("expected identifier after '.'"));
                }
                assert(t[p + 1] == tok_view(toks@[p + 1]));
                match &toks[p + 1] {
                    Token::Ident(seg) => {
                        let ghost before = crate::refs::views(segs@);
                        segs.push(seg.clone());
                        assert(crate::refs::views(segs@) =~= before.push(seg@));
                    },
                    _ => {
                        return Err(err("expected identifier after '.'"));
                    },
                }
                p = p + 2;
            }
            proof {
                if p < toks@.len() {
                    assert(t[p as int] == tok_view(toks@[p as int]));
                }
            }
            Ok((Operand::Path(Path { segments: segs }), p))
        },
        _ => Err(err("expected operand")),
    }
}

fn finish_comparison(toks: &Vec<Token>, left: Operand, pos: usize) -> (r: Result<
    (Expr, usize),
    AcosError,
>)
    ensures
        parsed(
            r,
            p_finish(toks_view(toks@), operand_view(left), pos as int),
            |e: Expr| expr_view(e),
        ),
{
    let ghost t = toks_view(toks@);
    if pos >= toks.len() {
        return Err(err("expected comparison operator"));
    }
    assert(t[pos as int] == tok_view(toks@[pos as int]));
    let op = match &toks[pos] {
        Token::Eq => CmpOp::Eq,
        Token::Ne => CmpOp::Ne,
        Token::Gt => CmpOp::Gt,
        Token::Lt => CmpOp::Lt,
        Token::Ge => CmpOp::Ge,
        Token::Le => CmpOp::Le,
        Token::Eof | Token::RParen | Token::And | Token::Or => {
            return Err(
                err("bare operand in condition; use exists(...) or a comparison"),
            );
        },
        _ => {
            return Err(err("expected comparison operator"));
        },
    };
    match parse_operand(toks, pos + 1) {
        Ok((right, p)) => Ok((Expr::Cmp(left, op, right), p)),
        Err(e) => Err(e),
    }
}

fn is_tok_rparen(toks: &Vec<Token>, p: usize) -> (b: bool)
    ensures
        b == (tok_at(toks_view(toks@), p as int) == Some(STok::RParen)),
{
    if p < toks.len() {
        assert(toks_view(toks@)[p as int] == tok_view(toks@[p as int]));
        match &toks[p] {
            Token::RParen => true,
            _ => false,
        }
    } else {
        false
    }
}

fn parse_primary(toks: &Vec<Token>, pos: usize) -> (r: Result<(Expr, usize), AcosError>)
    ensures
        parsed(r, p_primary(toks_view(toks@), pos as int), |e: Expr| expr_view(e)),
    decreases toks@.len() - pos as int, 0int,
{
    let ghost t = toks_view(toks@);
    if pos >= toks.len() {
        return Err(err("unexpected token None"));
    }
    assert(t[pos as int] == tok_view(toks@[pos as int]));
    match &toks[pos] {
        Token::LParen => {
            match parse_or(toks, pos + 1) {
                Err(e) => Err(e),
                Ok((e, p)) => {
                    proof {
                        lemma_or_adv(t, pos + 1);
                    }
                    if is_tok_rparen(toks, p) {
                        Ok((e, p + 1))
                    } else {
                        Err(err("expected RParen"))
                    }
                },
            }
        },
        Token::Ident(name) => {
            let is_exists = crate::text::str_eq(name.as_str(), "exists");
            let is_not_exists = crate::text::str_eq(name.as_str(), "not_exists");
            if is_exists || is_not_exists {
                let lp = pos + 1 < toks.len() && (match &toks[pos + 1] {
                    Token::LParen => true,
                    _ => false,
                });
                proof {
                    if pos + 1 < toks@.len() {
                        assert(t[pos + 1] == tok_view(toks@[pos + 1]));
                    }
                }
                if !lp {
                    return Err(err("expected LParen"));
                }
                match parse_operand(toks, pos + 2) {
                    Err(e) => Err(e),
                    Ok((Operand::Path(path), p)) => {
                        if is_tok_rparen(toks, p) {
                            if is_not_exists {
                                Ok((Expr::NotExists(path), p + 1))
                            } else {
                                Ok((Expr::Exists(path), p + 1))
                            }
                        } else {
                            Err(err("expected RParen"))
                        }
                    },
                    Ok(_) => Err(err("exists() requires an identifier path")),
                }
            } else {
                match parse_operand(toks, pos) {
                    Err(e) => Err(e),
                    Ok((l, p)) => finish_comparison(toks, l, p),
                }
            }
        },
        Token::Number(_) | Token::Str(_) => {
            match parse_operand(toks, pos) {
                Err(e) => Err(e),
                Ok((l, p)) => finish_comparison(toks, l, p),
            }
        },
        Token::True => Ok((Expr::Lit(true), pos + 1)),
        Token::False => Ok((Expr::Lit(false), pos + 1)),
        _ => Err(err("unexpected token")),
    }
}

fn parse_not(toks: &Vec<Token>, pos: usize) -> (r: Result<(Expr, usize), AcosError>)
    ensures
        parsed(r, p_not(toks_view(toks@), pos as int), |e: Expr| expr_view(e)),
    decreases toks@.len() - pos as int, 1int,
{
    let ghost t = toks_view(toks@);
    let is_not = pos < toks.len() && (match &toks[pos] {
        Token::Not => true,
        _ => false,
    });
    proof {
        if pos < toks@.len() {
            assert(t[pos as int] == tok_view(toks@[pos as int]));
        }
    }
    if is_not {
        match parse_not(toks, pos + 1) {
            Ok((e, p)) => Ok((Expr::Not(Box::new(e)), p)),
            Err(e) => Err(e),
        }
    } else {
        parse_primary(toks, pos)
    }
}

fn tok_is(toks: &Vec<Token>, p: usize, and: bool) -> (b: bool)
    ensures
        b == (0 <= p < toks@.len() && (if and {
            toks_view(toks@)[p as int] is And
        } else {
            toks_view(toks@)[p as int] is Or
        })),
{
    if p < toks.len() {
        assert(toks_view(toks@)[p as int] == tok_view(toks@[p as int]));
        match &toks[p] {
            Token::And => and,
            Token::Or => !and,
            _ => false,
        }
    } else {
        false
    }
}

fn parse_and_rest(toks: &Vec<Token>, left: Expr, pos: usize) -> (r: Result<(Expr, usize), AcosError>)
    requires
        pos <= toks@.len(),
    ensures
        parsed(r, p_and_rest(toks_view(toks@), expr_view(left), pos as int), |e: Expr| expr_view(e)),
    decreases toks@.len() - pos as int, 2int,
{
    let ghost t = toks_view(toks@);
    if pos < toks.len() && tok_is(toks, pos, true) {
        match parse_not(toks, pos + 1) {
            Err(e) => Err(e),
            Ok((r, p)) => {
                proof {
                    lemma_not_adv(t, pos + 1);
                }
                parse_and_rest(toks, Expr::And(Box::new(left), Box::new(r)), p)
            },
        }
    } else {
        Ok((left, pos))
    }
}

fn parse_and(toks: &Vec<Token>, pos: usize) -> (r: Result<(Expr, usize), AcosError>)
    ensures
        parsed(r, p_and(toks_view(toks@), pos as int), |e: Expr| expr_view(e)),
    decreases toks@.len() - pos as int, 3int,
{
    let ghost t = toks_view(toks@);
    match parse_not(toks, pos) {
        Err(e) => Err(e),
        Ok((l, p)) => {
            proof {
                lemma_not_adv(t, pos as int);
            }
            parse_and_rest(toks, l, p)
        },
    }
}

fn parse_or_rest(toks: &Vec<Token>, left: Expr, pos: usize) -> (r: Result<(Expr, usize), AcosError>)
    requires
        pos <= toks@.len(),
    ensures
        parsed(r, p_or_rest(toks_view(toks@), expr_view(left), pos as int), |e: Expr| expr_view(e)),
    decreases toks@.len() - pos as int, 4int,
{
    let ghost t = toks_view(toks@);
    if pos < toks.len() && tok_is(toks, pos, false) {
        match parse_and(toks, pos + 1) {
            Err(e) => Err(e),
            Ok((r, p)) => {
                proof {
                    lemma_and_adv(t, pos + 1);
                }
                parse_or_rest(toks, Expr::Or(Box::new(left), Box::new(r)), p)
            },
        }
    } else {
        Ok((left, pos))
    }
}

fn parse_or(toks: &Vec<Token>, pos: usize) -> (r: Result<(Expr, usize), AcosError>)
    ensures
        parsed(r, p_or(toks_view(toks@), pos as int), |e: Expr| expr_view(e)),
    decreases toks@.len() - pos as int, 5int,
{
    let ghost t = toks_view(toks@);
    match parse_and(toks, pos) {
        Err(e) => Err(e),
        Ok((l, p)) => {
            proof {
                lemma_and_adv(t, pos as int);
            }
            parse_or_rest(toks, l, p)
        },
    }
}

/// Parses a condition text. Succeeds exactly on the well-formed conditions,
/// with the expression they denote; a malformed one is a validation failure.
pub fn parse(input: &str) -> (r: Result<Expr, AcosError>)
    ensures
        match parse_spec(input@) {
            Some(e) => r is Ok && expr_view(r->Ok_0) == e,
            None => r matches Err(AcosError::ValidationFailure { message }) && message@
                == parse_error(input@),
        },
{
    let toks = match tokenize(input) {
        Ok(t) => t,
        Err(e) => {
            return Err(e);
        },
    };
    match parse_or(&toks, 0) {
        Err(_) => Err(err("malformed condition expression")),
        Ok((e, p)) => {
            let at_end = p < toks.len() && (match &toks[p] {
                Token::Eof => true,
                _ => false,
            });
            proof {
                if p < toks@.len() {
                    assert(toks_view(toks@)[p as int] == tok_view(toks@[p as int]));
                }
            }
            if at_end {
                Ok(e)
            } else {
                Err(err("unexpected token after expression"))
            }
        },
    }
}


// ── Identifiers ─────────────────────────────────────────────────────────────

pub open spec fn operand_root(o: SOperand) -> Seq<Seq<char>> {
    match o {
        SOperand::Path(segs) => seq![segs[0]],
        SOperand::Lit(_) => seq![],
    }
}

/// The root identifier of every path in the expression, left to right.
pub open spec fn idents(e: SExpr) -> Seq<Seq<char>>
    decreases e,
{
    match e {
        SExpr::And(a, b) => idents(*a) + idents(*b),
        SExpr::Or(a, b) => idents(*a) + idents(*b),
        SExpr::Not(a) => idents(*a),
        SExpr::Cmp(l, _, r) => operand_root(l) + operand_root(r),
        SExpr::Exists(p) => seq![p[0]],
        SExpr::NotExists(p) => seq![p[0]],
        SExpr::Lit(_) => seq![],
    }
}

pub open spec fn operand_wf(o: SOperand) -> bool {
    o matches SOperand::Path(segs) ==> segs.len() > 0
}

/// Every path of the expression has at least one segment.
pub open spec fn expr_wf(e: SExpr) -> bool
    decreases e,
{
    match e {
        SExpr::And(a, b) => expr_wf(*a) && expr_wf(*b),
        SExpr::Or(a, b) => expr_wf(*a) && expr_wf(*b),
        SExpr::Not(a) => expr_wf(*a),
        SExpr::Cmp(l, _, r) => operand_wf(l) && operand_wf(r),
        SExpr::Exists(p) => p.len() > 0,
        SExpr::NotExists(p) => p.len() > 0,
        SExpr::Lit(_) => true,
    }
}

pub proof fn lemma_path_rest_wf(t: Seq<STok>, segs: Seq<Seq<char>>, pos: int)
    requires
        segs.len() > 0,
    ensures
        p_path_rest(t, segs, pos) matches Some((ss, _)) ==> ss.len() > 0,
    decreases t.len() - pos,
{
    if 0 <= pos < t.len() && t[pos] is Dot {
        match tok_at(t, pos + 1) {
            Some(STok::Ident(seg)) => lemma_path_rest_wf(t, segs.push(seg), pos + 2),
            _ => {},
        }
    }
}

pub proof fn lemma_operand_wf(t: Seq<STok>, pos: int)
    ensures
        p_operand(t, pos) matches Some((o, _)) ==> operand_wf(o),
{
    match tok_at(t, pos) {
        Some(STok::Ident(name)) => lemma_path_rest_wf(t, seq![name], pos + 1),
        _ => {},
    }
}

pub proof fn lemma_primary_wf(t: Seq<STok>, pos: int)
    requires
        0 <= pos,
    ensures
        p_primary(t, pos) matches Some((e, _)) ==> expr_wf(e),
    decreases t.len() - pos, 0int,
{
    if pos < t.len() {
        lemma_operand_wf(t, pos);
        lemma_operand_wf(t, pos + 2);
        match p_operand(t, pos) {
            Some((l, p)) => lemma_operand_wf(t, p + 1),
            None => {},
        }
        if t[pos] is LParen {
            lemma_or_wf(t, pos + 1);
        }
    }
}

pub proof fn lemma_not_wf(t: Seq<STok>, pos: int)
    requires
        0 <= pos,
    ensures
        p_not(t, pos) matches Some((e, _)) ==> expr_wf(e),
    decreases t.len() - pos, 1int,
{
    if 0 <= pos < t.len() && t[pos] is Not {
        lemma_not_wf(t, pos + 1);
    } else {
        lemma_primary_wf(t, pos);
    }
}

pub proof fn lemma_and_rest_wf(t: Seq<STok>, left: SExpr, pos: int)
    requires
        0 <= pos,
        expr_wf(left),
    ensures
        p_and_rest(t, left, pos) matches Some((e, _)) ==> expr_wf(e),
    decreases t.len() - pos, 2int,
{
    if 0 <= pos < t.len() && t[pos] is And {
        lemma_not_wf(t, pos + 1);
        match p_not(t, pos + 1) {
            Some((r, p)) => if adv(pos + 1, p, t.len() as int) {
                lemma_and_rest_wf(t, SExpr::And(Box::new(left), Box::new(r)), p);
            },
            None => {},
        }
    }
}

pub proof fn lemma_and_wf(t: Seq<STok>, pos: int)
    requires
        0 <= pos,
    ensures
        p_and(t, pos) matches Some((e, _)) ==> expr_wf(e),
    decreases t.len() - pos, 3int,
{
    lemma_not_wf(t, pos);
    match p_not(t, pos) {
        Some((l, p)) => if adv(pos, p, t.len() as int) {
            lemma_and_rest_wf(t, l, p);
        },
        None => {},
    }
}

pub proof fn lemma_or_rest_wf(t: Seq<STok>, left: SExpr, pos: int)
    requires
        0 <= pos,
        expr_wf(left),
    ensures
        p_or_rest(t, left, pos) matches Some((e, _)) ==> expr_wf(e),
    decreases t.len() - pos, 4int,
{
    if 0 <= pos < t.len() && t[pos] is Or {
        lemma_and_wf(t, pos + 1);
        match p_and(t, pos + 1) {
            Some((r, p)) => if adv(pos + 1, p, t.len() as int) {
                lemma_or_rest_wf(t, SExpr::Or(Box::new(left), Box::new(r)), p);
            },
            None => {},
        }
    }
}

pub proof fn lemma_or_wf(t: Seq<STok>, pos: int)
    requires
        0 <= pos,
    ensures
        p_or(t, pos) matches Some((e, _)) ==> expr_wf(e),
    decreases t.len() - pos, 5int,
{
    lemma_and_wf(t, pos);
    match p_and(t, pos) {
        Some((l, p)) => if adv(pos, p, t.len() as int) {
            lemma_or_rest_wf(t, l, p);
        },
        None => {},
    }
}

/// Every parsed condition has non-empty paths.
pub proof fn lemma_parse_wf(s: Seq<char>)
    ensures
        parse_spec(s) matches Some(e) ==> expr_wf(e),
{
    match lex(s) {
        Some(t) => lemma_or_wf(t, 0),
        None => {},
    }
}

fn push_root(out: &mut Vec<String>, p: &Path)
    requires
        p.segments@.len() > 0,
    ensures
        crate::refs::views(final(out)@) == crate::refs::views(old(out)@).push(path_view(*p)[0]),
{
    let ghost before = crate::refs::views(out@);
    out.push(p.segments[0].clone());
    assert(crate::refs::views(out@) =~= before.push(path_view(*p)[0]));
}

fn collect_into(e: &Expr, out: &mut Vec<String>)
    requires
        expr_wf(expr_view(*e)),
    ensures
        crate::refs::views(final(out)@) == crate::refs::views(old(out)@) + idents(expr_view(*e)),
    decreases e,
{
    let ghost before = crate::refs::views(out@);
    match e {
        Expr::And(a, b) | Expr::Or(a, b) => {
            collect_into(a, out);
            collect_into(b, out);
            assert(crate::refs::views(out@) =~= before + idents(expr_view(*e)));
        },
        Expr::Not(a) => {
            collect_into(a, out);
        },
        Expr::Cmp(l, _, r) => {
            match l {
                Operand::Path(p) => push_root(out, p),
                Operand::Literal(_) => {},
            }
            match r {
                Operand::Path(p) => push_root(out, p),
                Operand::Literal(_) => {},
            }
            assert(crate::refs::views(out@) =~= before + idents(expr_view(*e)));
        },
        Expr::Exists(p) | Expr::NotExists(p) => {
            push_root(out, p);
            assert(crate::refs::views(out@) =~= before + idents(expr_view(*e)));
        },
        Expr::Lit(_) => {
            assert(crate::refs::views(out@) =~= before + idents(expr_view(*e)));
        },
    }
}

/// Collects the root identifier of every path in the expression.
pub fn collect_identifiers(e: &Expr) -> (r: Vec<String>)
    requires
        expr_wf(expr_view(*e)),
    ensures
        crate::refs::views(r@) == idents(expr_view(*e)),
{
    let mut out: Vec<String> = Vec::new();
    assert(crate::refs::views(out@) =~= seq![]);
    collect_into(e, &mut out);
    assert(seq![] + idents(expr_view(*e)) =~= idents(expr_view(*e)));
    out
}

} // verus!
