use vstd::prelude::*;

use crate::errors::{Error, ErrorV};
use crate::table::Table;
use crate::text::{
    bytes_eq, bytes_of_str, clone_bytes, is_ident_b, is_ident_byte, is_ws, is_ws_byte,
    str_to_bytes, subrange_bytes,
};

verus! {

/// The mathematical value of a `Token`.
pub ghost enum TokenV {
    LParen,
    RParen,
    Bang,
    AndOp,
    OrOp,
    XorOp,
    EqOp,
    NeOp,
    Ident(Seq<u8>),
    StrLit(Seq<u8>),
}

/// One lexical token of the boolean-expression language: parentheses, `!`,
/// the infix operators `&&`, `||`, `^^`, the comparisons `==` and `!=`, an
/// identifier, or a quoted string literal (held without its quotes).
pub enum Token {
    LParen,
    RParen,
    Bang,
    AndOp,
    OrOp,
    XorOp,
    EqOp,
    NeOp,
    Ident(Vec<u8>),
    StrLit(Vec<u8>),
}

impl View for Token {
    type V = TokenV;

    open spec fn view(&self) -> TokenV {
        match self {
            Token::LParen => TokenV::LParen,
            Token::RParen => TokenV::RParen,
            Token::Bang => TokenV::Bang,
            Token::AndOp => TokenV::AndOp,
            Token::OrOp => TokenV::OrOp,
            Token::XorOp => TokenV::XorOp,
            Token::EqOp => TokenV::EqOp,
            Token::NeOp => TokenV::NeOp,
            Token::Ident(n) => TokenV::Ident(n@),
            Token::StrLit(x) => TokenV::StrLit(x@),
        }
    }
}

pub open spec fn toks_view(s: Seq<Token>) -> Seq<TokenV> {
    Seq::new(s.len(), |i: int| s[i]@)
}

/// The end of the identifier starting at `i`: the first position at or after
/// `i` holding no identifier byte.
pub open spec fn ident_end(s: Seq<u8>, i: int) -> int
    decreases s.len() - i,
{
    if 0 <= i < s.len() && is_ident_byte(s[i]) {
        ident_end(s, i + 1)
    } else {
        i
    }
}

pub proof fn lemma_ident_end(s: Seq<u8>, i: int)
    requires
        0 <= i <= s.len(),
    ensures
        i <= ident_end(s, i) <= s.len(),
        forall|k: int| i <= k < ident_end(s, i) ==> is_ident_byte(s[k]),
        ident_end(s, i) < s.len() ==> !is_ident_byte(s[ident_end(s, i)]),
    decreases s.len() - i,
{
    if i < s.len() && is_ident_byte(s[i]) {
        lemma_ident_end(s, i + 1);
    }
}

pub proof fn lemma_ident_end_at(s: Seq<u8>, i: int, e: int)
    requires
        0 <= i <= e <= s.len(),
        forall|k: int| i <= k < e ==> is_ident_byte(s[k]),
        e < s.len() ==> !is_ident_byte(s[e]),
    ensures
        ident_end(s, i) == e,
    decreases e - i,
{
    if i < e {
        assert(is_ident_byte(s[i]));
        lemma_ident_end_at(s, i + 1, e);
    }
}

/// The first position at or after `i` holding a quote byte, or `s.len()`.
pub open spec fn quote_pos(s: Seq<u8>, i: int) -> int
    decreases s.len() - i,
{
    if !(0 <= i < s.len()) {
        s.len() as int
    } else if s[i] == 34 {
        i
    } else {
        quote_pos(s, i + 1)
    }
}

pub proof fn lemma_quote_pos(s: Seq<u8>, i: int)
    requires
        0 <= i <= s.len(),
    ensures
        i <= quote_pos(s, i) <= s.len(),
        quote_pos(s, i) < s.len() ==> s[quote_pos(s, i)] == 34,
        forall|k: int| i <= k < quote_pos(s, i) ==> s[k] != 34,
    decreases s.len() - i,
{
    if i < s.len() && s[i] != 34 {
        lemma_quote_pos(s, i + 1);
    }
}

pub proof fn lemma_quote_pos_at(s: Seq<u8>, i: int, j: int)
    requires
        0 <= i <= j <= s.len(),
        forall|k: int| i <= k < j ==> s[k] != 34,
        j < s.len() ==> s[j] == 34,
    ensures
        quote_pos(s, i) == j,
    decreases j - i,
{
    if i < j {
        lemma_quote_pos_at(s, i + 1, j);
    }
}

pub open spec fn tok_cons(t: TokenV, rest: Option<Seq<TokenV>>) -> Option<Seq<TokenV>> {
    match rest {
        Option::None => Option::None,
        Option::Some(r) => Option::Some(seq![t] + r),
    }
}

/// How the expression text at and after position `i` splits into tokens;
/// `None` on a byte no token can start with, a lone `&`, `|`, `^` or `=`, or
/// an unterminated string literal.
pub open spec fn spec_tokenize(s: Seq<u8>, i: int) -> Option<Seq<TokenV>>
    decreases s.len() - i,
    via spec_tokenize_decreases
{
    if !(0 <= i < s.len()) {
        Option::Some(Seq::empty())
    } else {
        let c = s[i];
        if is_ws(c) {
            spec_tokenize(s, i + 1)
        } else if c == 40 {
            tok_cons(TokenV::LParen, spec_tokenize(s, i + 1))
        } else if c == 41 {
            tok_cons(TokenV::RParen, spec_tokenize(s, i + 1))
        } else if c == 38 {
            if i + 1 < s.len() && s[i + 1] == 38 {
                tok_cons(TokenV::AndOp, spec_tokenize(s, i + 2))
            } else {
                Option::None
            }
        } else if c == 124 {
            if i + 1 < s.len() && s[i + 1] == 124 {
                tok_cons(TokenV::OrOp, spec_tokenize(s, i + 2))
            } else {
                Option::None
            }
        } else if c == 94 {
            if i + 1 < s.len() && s[i + 1] == 94 {
                tok_cons(TokenV::XorOp, spec_tokenize(s, i + 2))
            } else {
                Option::None
            }
        } else if c == 61 {
            if i + 1 < s.len() && s[i + 1] == 61 {
                tok_cons(TokenV::EqOp, spec_tokenize(s, i + 2))
            } else {
                Option::None
            }
        } else if c == 33 {
            if i + 1 < s.len() && s[i + 1] == 61 {
                tok_cons(TokenV::NeOp, spec_tokenize(s, i + 2))
            } else {
                tok_cons(TokenV::Bang, spec_tokenize(s, i + 1))
            }
        } else if c == 34 {
            let j = quote_pos(s, i + 1);
            if j < s.len() {
                tok_cons(TokenV::StrLit(s.subrange(i + 1, j)), spec_tokenize(s, j + 1))
            } else {
                Option::None
            }
        } else if is_ident_byte(c) {
            let e = ident_end(s, i);
            tok_cons(TokenV::Ident(s.subrange(i, e)), spec_tokenize(s, e))
        } else {
            Option::None
        }
    }
}

#[via_fn]
proof fn spec_tokenize_decreases(s: Seq<u8>, i: int) {
    if 0 <= i < s.len() {
        lemma_quote_pos(s, i + 1);
        lemma_ident_end(s, i);
        if is_ident_byte(s[i]) {
            assert(ident_end(s, i) > i);
        }
    }
}

pub open spec fn opt_prepend(p: Seq<TokenV>, rest: Option<Seq<TokenV>>) -> Option<Seq<TokenV>> {
    match rest {
        Option::None => Option::None,
        Option::Some(r) => Option::Some(p + r),
    }
}

proof fn lemma_prepend_push(p: Seq<TokenV>, t: TokenV, rest: Option<Seq<TokenV>>)
    ensures
        opt_prepend(p, tok_cons(t, rest)) == opt_prepend(p.push(t), rest),
{
    match rest {
        Option::None => {},
        Option::Some(r) => {
            assert(p + (seq![t] + r) =~= p.push(t) + r);
        },
    }
}

/// Splits the expression text into tokens, or reports that it is malformed.
pub fn tokenize(s: &Vec<u8>) -> (r: Option<Vec<Token>>)
    ensures
        match r {
            Option::Some(v) => spec_tokenize(s@, 0) == Option::Some(toks_view(v@)),
            Option::None => spec_tokenize(s@, 0) is None,
        },
{
    let n = s.len();
    let mut out: Vec<Token> = Vec::new();
    let mut i: usize = 0;
    proof {
        assert(toks_view(out@) =~= Seq::<TokenV>::empty());
    }
    while i < n
        invariant
            i <= n == s@.len(),
            spec_tokenize(s@, 0) == opt_prepend(toks_view(out@), spec_tokenize(s@, i as int)),
        decreases n - i,
    {
        let ghost prev = toks_view(out@);
        let c = s[i];
        if is_ws_byte(c) {
            i += 1;
        } else if c == 40 {
            proof {
                lemma_prepend_push(prev, TokenV::LParen, spec_tokenize(s@, i + 1));
            }
            out.push(Token::LParen);
            proof {
                assert(toks_view(out@) =~= prev.push(TokenV::LParen));
            }
            i += 1;
        } else if c == 41 {
            proof {
                lemma_prepend_push(prev, TokenV::RParen, spec_tokenize(s@, i + 1));
            }
            out.push(Token::RParen);
            proof {
                assert(toks_view(out@) =~= prev.push(TokenV::RParen));
            }
            i += 1;
        } else if c == 38 || c == 124 || c == 94 || c == 61 {
            if i + 1 < n && s[i + 1] == c && c != 61 || c == 61 && i + 1 < n && s[i + 1] == 61 {
                let tk = if c == 38 {
                    Token::AndOp
                } else if c == 124 {
                    Token::OrOp
                } else if c == 94 {
                    Token::XorOp
                } else {
                    Token::EqOp
                };
                proof {
                    lemma_prepend_push(prev, tk@, spec_tokenize(s@, i + 2));
                }
                let ghost tkv = tk@;
                out.push(tk);
                proof {
                    assert(toks_view(out@) =~= prev.push(tkv));
                }
                i += 2;
            } else {
                return Option::None;
            }
        } else if c == 33 {
            if i + 1 < n && s[i + 1] == 61 {
                proof {
                    lemma_prepend_push(prev, TokenV::NeOp, spec_tokenize(s@, i + 2));
                }
                out.push(Token::NeOp);
                proof {
                    assert(toks_view(out@) =~= prev.push(TokenV::NeOp));
                }
                i += 2;
            } else {
                proof {
                    lemma_prepend_push(prev, TokenV::Bang, spec_tokenize(s@, i + 1));
                }
                out.push(Token::Bang);
                proof {
                    assert(toks_view(out@) =~= prev.push(TokenV::Bang));
                }
                i += 1;
            }
        } else if c == 34 {
            let mut j = i + 1;
            while j < n && s[j] != 34
                invariant
                    i + 1 <= j <= n == s@.len(),
                    forall|k: int| i + 1 <= k < j ==> s@[k] != 34,
                decreases n - j,
            {
                j += 1;
            }
            proof {
                lemma_quote_pos_at(s@, i + 1, j as int);
            }
            if j < n {
                let content = subrange_bytes(s, i + 1, j);
                let tk = Token::StrLit(content);
                proof {
                    lemma_prepend_push(
                        prev,
                        TokenV::StrLit(s@.subrange(i + 1, j as int)),
                        spec_tokenize(s@, j + 1),
                    );
                }
                out.push(tk);
                proof {
                    assert(toks_view(out@) =~= prev.push(
                        TokenV::StrLit(s@.subrange(i + 1, j as int)),
                    ));
                }
                i = j + 1;
            } else {
                return Option::None;
            }
        } else if is_ident_b(c) {
            let mut e = i;
            while e < n && is_ident_b(s[e])
                invariant
                    i <= e <= n == s@.len(),
                    forall|k: int| i <= k < e ==> is_ident_byte(s@[k]),
                decreases n - e,
            {
                e += 1;
            }
            proof {
                lemma_ident_end_at(s@, i as int, e as int);
            }
            let name = subrange_bytes(s, i, e);
            let tk = Token::Ident(name);
            proof {
                lemma_prepend_push(
                    prev,
                    TokenV::Ident(s@.subrange(i as int, e as int)),
                    spec_tokenize(s@, e as int),
                );
            }
            out.push(tk);
            proof {
                assert(toks_view(out@) =~= prev.push(
                    TokenV::Ident(s@.subrange(i as int, e as int)),
                ));
            }
            i = e;
        } else {
            return Option::None;
        }
    }
    proof {
        assert(spec_tokenize(s@, i as int) == Option::Some(Seq::<TokenV>::empty()));
        assert(toks_view(out@) + Seq::<TokenV>::empty() =~= toks_view(out@));
    }
    Option::Some(out)
}

/// The mathematical value of a `Term`.
pub ghost enum TermV {
    Ident(Seq<u8>),
    StrLit(Seq<u8>),
}

/// The mathematical value of an `Expr`.
pub ghost enum ExprV {
    Or(Box<ExprV>, Box<ExprV>),
    Xor(Box<ExprV>, Box<ExprV>),
    And(Box<ExprV>, Box<ExprV>),
    Not(Box<ExprV>),
    CmpEq(TermV, TermV),
    CmpNe(TermV, TermV),
    Defined(Seq<u8>),
}

/// One side of a comparison: a bare identifier, resolved through the
/// definition table, or a quoted string literal, used as its content.
pub enum Term {
    Ident(Vec<u8>),
    StrLit(Vec<u8>),
}

/// A parsed boolean expression. `Or`, `Xor` and `And` are the infix
/// operators in rising binding strength; `Not` is `!` applied to a
/// parenthesized expression; `CmpEq`/`CmpNe` compare two terms byte for
/// byte; `Defined` asks whether an identifier has a definition.
pub enum Expr {
    Or(Box<Expr>, Box<Expr>),
    Xor(Box<Expr>, Box<Expr>),
    And(Box<Expr>, Box<Expr>),
    Not(Box<Expr>),
    CmpEq(Term, Term),
    CmpNe(Term, Term),
    Defined(Vec<u8>),
}

pub open spec fn term_view(t: Term) -> TermV {
    match t {
        Term::Ident(n) => TermV::Ident(n@),
        Term::StrLit(x) => TermV::StrLit(x@),
    }
}

pub open spec fn expr_view(e: Expr) -> ExprV
    decreases e,
{
    match e {
        Expr::Or(a, b) => ExprV::Or(Box::new(expr_view(*a)), Box::new(expr_view(*b))),
        Expr::Xor(a, b) => ExprV::Xor(Box::new(expr_view(*a)), Box::new(expr_view(*b))),
        Expr::And(a, b) => ExprV::And(Box::new(expr_view(*a)), Box::new(expr_view(*b))),
        Expr::Not(a) => ExprV::Not(Box::new(expr_view(*a))),
        Expr::CmpEq(l, r) => ExprV::CmpEq(term_view(l), term_view(r)),
        Expr::CmpNe(l, r) => ExprV::CmpNe(term_view(l), term_view(r)),
        Expr::Defined(n) => ExprV::Defined(n@),
    }
}

impl View for Term {
    type V = TermV;

    open spec fn view(&self) -> TermV {
        term_view(*self)
    }
}

impl View for Expr {
    type V = ExprV;

    open spec fn view(&self) -> ExprV {
        expr_view(*self)
    }
}

/// The outcome of a parsing step: the parsed sub-expression and the position
/// after it, or a failure.
pub ghost enum PRes {
    Val(ExprV, int),
    Failed,
}

pub open spec fn term_of(t: TokenV) -> Option<TermV> {
    match t {
        TokenV::Ident(n) => Option::Some(TermV::Ident(n)),
        TokenV::StrLit(x) => Option::Some(TermV::StrLit(x)),
        _ => Option::None,
    }
}

/// A comparison `term (==|!=) term` starting at `i`.
pub open spec fn sp_eq(t: Seq<TokenV>, i: int) -> PRes {
    if 0 <= i && i + 2 < t.len() + 1 && i + 1 < t.len() && (t[i + 1] is EqOp || t[i + 1] is NeOp)
        && i + 2 < t.len() {
        match (term_of(t[i]), term_of(t[i + 2])) {
            (Option::Some(l), Option::Some(r)) => {
                if t[i + 1] is EqOp {
                    PRes::Val(ExprV::CmpEq(l, r), i + 3)
                } else {
                    PRes::Val(ExprV::CmpNe(l, r), i + 3)
                }
            },
            _ => PRes::Failed,
        }
    } else {
        PRes::Failed
    }
}

/// A parenthesized expression starting at `i`.
pub open spec fn sp_paren(t: Seq<TokenV>, i: int) -> PRes
    decreases t.len() - i, 0int,
{
    if 0 <= i < t.len() && t[i] is LParen {
        match sp_or(t, i + 1) {
            PRes::Failed => PRes::Failed,
            PRes::Val(e, j) => {
                if 0 <= j < t.len() && t[j] is RParen {
                    PRes::Val(e, j + 1)
                } else {
                    PRes::Failed
                }
            },
        }
    } else {
        PRes::Failed
    }
}

/// A boolean clause starting at `i`: a negation, a grouping, a comparison,
/// or a definedness test.
pub open spec fn sp_clause(t: Seq<TokenV>, i: int) -> PRes
    decreases t.len() - i, 1int,
{
    if !(0 <= i < t.len()) {
        PRes::Failed
    } else {
        match t[i] {
            TokenV::Bang => {
                if i + 1 < t.len() && t[i + 1] is LParen {
                    match sp_paren(t, i + 1) {
                        PRes::Val(e, j) => PRes::Val(ExprV::Not(Box::new(e)), j),
                        PRes::Failed => PRes::Failed,
                    }
                } else {
                    PRes::Failed
                }
            },
            TokenV::LParen => sp_paren(t, i),
            TokenV::Ident(n) => {
                if i + 1 < t.len() && (t[i + 1] is EqOp || t[i + 1] is NeOp) {
                    sp_eq(t, i)
                } else if n == bytes_of_str("defined"@) && i + 3 < t.len() && t[i + 1] is LParen
                    && t[i + 2] is Ident && t[i + 3] is RParen {
                    PRes::Val(ExprV::Defined(t[i + 2]->Ident_0), i + 4)
                } else {
                    PRes::Failed
                }
            },
            TokenV::StrLit(_) => {
                if i + 1 < t.len() && (t[i + 1] is EqOp || t[i + 1] is NeOp) {
                    sp_eq(t, i)
                } else {
                    PRes::Failed
                }
            },
            _ => PRes::Failed,
        }
    }
}

/// A chain of clauses joined by `&&`, folded to the left.
pub open spec fn sp_and(t: Seq<TokenV>, i: int) -> PRes
    decreases t.len() - i, 2int,
{
    match sp_clause(t, i) {
        PRes::Failed => PRes::Failed,
        PRes::Val(e, j) => {
            if j <= i || j > t.len() {
                PRes::Failed
            } else {
                sp_and_rest(t, j, e)
            }
        },
    }
}

pub open spec fn sp_and_rest(t: Seq<TokenV>, i: int, acc: ExprV) -> PRes
    decreases t.len() - i, 2int,
{
    if 0 <= i < t.len() && t[i] is AndOp {
        match sp_clause(t, i + 1) {
            PRes::Failed => PRes::Failed,
            PRes::Val(e, j) => {
                if j <= i + 1 || j > t.len() {
                    PRes::Failed
                } else {
                    sp_and_rest(t, j, ExprV::And(Box::new(acc), Box::new(e)))
                }
            },
        }
    } else {
        PRes::Val(acc, i)
    }
}

/// A chain of `&&`-chains joined by `^^`, folded to the left.
pub open spec fn sp_xor(t: Seq<TokenV>, i: int) -> PRes
    decreases t.len() - i, 3int,
{
    match sp_and(t, i) {
        PRes::Failed => PRes::Failed,
        PRes::Val(e, j) => {
            if j <= i || j > t.len() {
                PRes::Failed
            } else {
                sp_xor_rest(t, j, e)
            }
        },
    }
}

pub open spec fn sp_xor_rest(t: Seq<TokenV>, i: int, acc: ExprV) -> PRes
    decreases t.len() - i, 3int,
{
    if 0 <= i < t.len() && t[i] is XorOp {
        match sp_and(t, i + 1) {
            PRes::Failed => PRes::Failed,
            PRes::Val(e, j) => {
                if j <= i + 1 || j > t.len() {
                    PRes::Failed
                } else {
                    sp_xor_rest(t, j, ExprV::Xor(Box::new(acc), Box::new(e)))
                }
            },
        }
    } else {
        PRes::Val(acc, i)
    }
}

/// A whole expression: `^^`-chains joined by `||`, folded to the left. The
/// operators bind `||` loosest, then `^^`, then `&&`.
pub open spec fn sp_or(t: Seq<TokenV>, i: int) -> PRes
    decreases t.len() - i, 4int,
{
    match sp_xor(t, i) {
        PRes::Failed => PRes::Failed,
        PRes::Val(e, j) => {
            if j <= i || j > t.len() {
                PRes::Failed
            } else {
                sp_or_rest(t, j, e)
            }
        },
    }
}

pub open spec fn sp_or_rest(t: Seq<TokenV>, i: int, acc: ExprV) -> PRes
    decreases t.len() - i, 4int,
{
    if 0 <= i < t.len() && t[i] is OrOp {
        match sp_xor(t, i + 1) {
            PRes::Failed => PRes::Failed,
            PRes::Val(e, j) => {
                if j <= i + 1 || j > t.len() {
                    PRes::Failed
                } else {
                    sp_or_rest(t, j, ExprV::Or(Box::new(acc), Box::new(e)))
                }
            },
        }
    } else {
        PRes::Val(acc, i)
    }
}

/// The expression tree of a whole input text, if tokenizing succeeds and the
/// parse consumes every token.
pub open spec fn spec_parse_expression(s: Seq<u8>) -> Option<ExprV> {
    match spec_tokenize(s, 0) {
        Option::None => Option::None,
        Option::Some(t) => match sp_or(t, 0) {
            PRes::Failed => Option::None,
            PRes::Val(e, j) => {
                if j == t.len() {
                    Option::Some(e)
                } else {
                    Option::None
                }
            },
        },
    }
}

} // verus!


verus! {

fn tok_is_or(t: &Token) -> (r: bool)
    ensures
        r == (t@ is OrOp),
{
    matches!(t, Token::OrOp)
}

fn tok_is_xor(t: &Token) -> (r: bool)
    ensures
        r == (t@ is XorOp),
{
    matches!(t, Token::XorOp)
}

fn tok_is_and(t: &Token) -> (r: bool)
    ensures
        r == (t@ is AndOp),
{
    matches!(t, Token::AndOp)
}

fn tok_is_lparen(t: &Token) -> (r: bool)
    ensures
        r == (t@ is LParen),
{
    matches!(t, Token::LParen)
}

fn tok_is_rparen(t: &Token) -> (r: bool)
    ensures
        r == (t@ is RParen),
{
    matches!(t, Token::RParen)
}

fn tok_is_cmp(t: &Token) -> (r: bool)
    ensures
        r == (t@ is EqOp || t@ is NeOp),
{
    matches!(t, Token::EqOp | Token::NeOp)
}

fn term_of_tok(t: &Token) -> (r: Option<Term>)
    ensures
        match r {
            Option::Some(tm) => term_of(t@) == Option::Some(tm@),
            Option::None => term_of(t@) is None,
        },
{
    match t {
        Token::Ident(n) => Option::Some(Term::Ident(clone_bytes(n))),
        Token::StrLit(x) => Option::Some(Term::StrLit(clone_bytes(x))),
        _ => Option::None,
    }
}

fn parse_eq(toks: &Vec<Token>, i: usize) -> (r: Option<(Expr, usize)>)
    requires
        i < toks@.len(),
    ensures
        match r {
            Option::Some(p) => sp_eq(toks_view(toks@), i as int) == PRes::Val(p.0@, p.1 as int)
                && i < p.1 <= toks@.len(),
            Option::None => sp_eq(toks_view(toks@), i as int) is Failed,
        },
{
    let n = toks.len();
    if n - i < 3 {
        return Option::None;
    }
    if !tok_is_cmp(&toks[i + 1]) {
        return Option::None;
    }
    let l = match term_of_tok(&toks[i]) {
        Option::Some(tm) => tm,
        Option::None => {
            return Option::None;
        },
    };
    let rt = match term_of_tok(&toks[i + 2]) {
        Option::Some(tm) => tm,
        Option::None => {
            return Option::None;
        },
    };
    let is_eq = matches!(&toks[i + 1], Token::EqOp);
    proof {
        assert(toks_view(toks@)[i + 1] == toks@[i + 1]@);
    }
    if is_eq {
        Option::Some((Expr::CmpEq(l, rt), i + 3))
    } else {
        Option::Some((Expr::CmpNe(l, rt), i + 3))
    }
}

fn parse_paren(toks: &Vec<Token>, i: usize) -> (r: Option<(Expr, usize)>)
    ensures
        match r {
            Option::Some(p) => sp_paren(toks_view(toks@), i as int) == PRes::Val(p.0@, p.1 as int)
                && i < p.1 <= toks@.len(),
            Option::None => sp_paren(toks_view(toks@), i as int) is Failed,
        },
    decreases toks@.len() - i, 0int,
{
    let n = toks.len();
    if i >= n || !tok_is_lparen(&toks[i]) {
        return Option::None;
    }
    match parse_or(toks, i + 1) {
        Option::None => Option::None,
        Option::Some((e, j)) => {
            if j < n && tok_is_rparen(&toks[j]) {
                Option::Some((e, j + 1))
            } else {
                Option::None
            }
        },
    }
}

fn parse_clause(toks: &Vec<Token>, i: usize) -> (r: Option<(Expr, usize)>)
    ensures
        match r {
            Option::Some(p) => sp_clause(toks_view(toks@), i as int) == PRes::Val(p.0@, p.1 as int)
                && i < p.1 <= toks@.len(),
            Option::None => sp_clause(toks_view(toks@), i as int) is Failed,
        },
    decreases toks@.len() - i, 1int,
{
    let n = toks.len();
    if i >= n {
        return Option::None;
    }
    match &toks[i] {
        Token::Bang => {
            if i + 1 < n && tok_is_lparen(&toks[i + 1]) {
                match parse_paren(toks, i + 1) {
                    Option::Some((e, j)) => Option::Some((Expr::Not(Box::new(e)), j)),
                    Option::None => Option::None,
                }
            } else {
                Option::None
            }
        },
        Token::LParen => parse_paren(toks, i),
        Token::Ident(name) => {
            if i + 1 < n && tok_is_cmp(&toks[i + 1]) {
                parse_eq(toks, i)
            } else {
                proof {
                    reveal_strlit("defined");
                }
                let defined_kw = str_to_bytes("defined");
                if bytes_eq(name, &defined_kw) && n - i > 3 && tok_is_lparen(&toks[i + 1])
                    && tok_is_rparen(&toks[i + 3]) {
                    match &toks[i + 2] {
                        Token::Ident(m) => Option::Some(
                            (Expr::Defined(clone_bytes(m)), i + 4),
                        ),
                        _ => Option::None,
                    }
                } else {
                    Option::None
                }
            }
        },
        Token::StrLit(_) => {
            if i + 1 < n && tok_is_cmp(&toks[i + 1]) {
                parse_eq(toks, i)
            } else {
                Option::None
            }
        },
        _ => Option::None,
    }
}

fn parse_and(toks: &Vec<Token>, i: usize) -> (r: Option<(Expr, usize)>)
    ensures
        match r {
            Option::Some(p) => sp_and(toks_view(toks@), i as int) == PRes::Val(p.0@, p.1 as int)
                && i < p.1 <= toks@.len(),
            Option::None => sp_and(toks_view(toks@), i as int) is Failed,
        },
    decreases toks@.len() - i, 2int,
{
    let n = toks.len();
    let (mut acc, mut pos) = match parse_clause(toks, i) {
        Option::None => {
            return Option::None;
        },
        Option::Some(p) => p,
    };
    while pos < n && tok_is_and(&toks[pos])
        invariant
            n == toks@.len(),
            i < pos <= n,
            sp_and(toks_view(toks@), i as int) == sp_and_rest(toks_view(toks@), pos as int, acc@),
        decreases n - pos,
    {
        match parse_clause(toks, pos + 1) {
            Option::None => {
                return Option::None;
            },
            Option::Some((e, j)) => {
                acc = Expr::And(Box::new(acc), Box::new(e));
                pos = j;
            },
        }
    }
    Option::Some((acc, pos))
}

fn parse_xor(toks: &Vec<Token>, i: usize) -> (r: Option<(Expr, usize)>)
    ensures
        match r {
            Option::Some(p) => sp_xor(toks_view(toks@), i as int) == PRes::Val(p.0@, p.1 as int)
                && i < p.1 <= toks@.len(),
            Option::None => sp_xor(toks_view(toks@), i as int) is Failed,
        },
    decreases toks@.len() - i, 3int,
{
    let n = toks.len();
    let (mut acc, mut pos) = match parse_and(toks, i) {
        Option::None => {
            return Option::None;
        },
        Option::Some(p) => p,
    };
    while pos < n && tok_is_xor(&toks[pos])
        invariant
            n == toks@.len(),
            i < pos <= n,
            sp_xor(toks_view(toks@), i as int) == sp_xor_rest(toks_view(toks@), pos as int, acc@),
        decreases n - pos,
    {
        match parse_and(toks, pos + 1) {
            Option::None => {
                return Option::None;
            },
            Option::Some((e, j)) => {
                acc = Expr::Xor(Box::new(acc), Box::new(e));
                pos = j;
            },
        }
    }
    Option::Some((acc, pos))
}

fn parse_or(toks: &Vec<Token>, i: usize) -> (r: Option<(Expr, usize)>)
    ensures
        match r {
            Option::Some(p) => sp_or(toks_view(toks@), i as int) == PRes::Val(p.0@, p.1 as int)
                && i < p.1 <= toks@.len(),
            Option::None => sp_or(toks_view(toks@), i as int) is Failed,
        },
    decreases toks@.len() - i, 4int,
{
    let n = toks.len();
    let (mut acc, mut pos) = match parse_xor(toks, i) {
        Option::None => {
            return Option::None;
        },
        Option::Some(p) => p,
    };
    while pos < n && tok_is_or(&toks[pos])
        invariant
            n == toks@.len(),
            i < pos <= n,
            sp_or(toks_view(toks@), i as int) == sp_or_rest(toks_view(toks@), pos as int, acc@),
        decreases n - pos,
    {
        match parse_xor(toks, pos + 1) {
            Option::None => {
                return Option::None;
            },
            Option::Some((e, j)) => {
                acc = Expr::Or(Box::new(acc), Box::new(e));
                pos = j;
            },
        }
    }
    Option::Some((acc, pos))
}

} // verus!

verus! {

/// What a term stands for: a string literal is its content; an identifier is
/// its value in the definition table, and one without a definition is the
/// not-defined failure naming it.
pub open spec fn sp_term(tm: TermV, defs: Map<Seq<u8>, Seq<u8>>) -> Result<Seq<u8>, ErrorV> {
    match tm {
        TermV::Ident(n) => {
            if defs.contains_key(n) {
                Result::Ok(defs[n])
            } else {
                Result::Err(ErrorV::NotDefined(n))
            }
        },
        TermV::StrLit(x) => Result::Ok(x),
    }
}

/// The value of an expression under a definition table. Both operands of an
/// infix operator are evaluated, left first, and the first failure wins:
/// there is no short-circuiting across operands.
pub open spec fn sp_eval(e: ExprV, defs: Map<Seq<u8>, Seq<u8>>) -> Result<bool, ErrorV>
    decreases e,
{
    match e {
        ExprV::Or(a, b) => match (sp_eval(*a, defs), sp_eval(*b, defs)) {
            (Result::Err(er), _) => Result::Err(er),
            (Result::Ok(_), Result::Err(er)) => Result::Err(er),
            (Result::Ok(l), Result::Ok(r)) => Result::Ok(l || r),
        },
        ExprV::Xor(a, b) => match (sp_eval(*a, defs), sp_eval(*b, defs)) {
            (Result::Err(er), _) => Result::Err(er),
            (Result::Ok(_), Result::Err(er)) => Result::Err(er),
            (Result::Ok(l), Result::Ok(r)) => Result::Ok(l != r),
        },
        ExprV::And(a, b) => match (sp_eval(*a, defs), sp_eval(*b, defs)) {
            (Result::Err(er), _) => Result::Err(er),
            (Result::Ok(_), Result::Err(er)) => Result::Err(er),
            (Result::Ok(l), Result::Ok(r)) => Result::Ok(l && r),
        },
        ExprV::Not(a) => match sp_eval(*a, defs) {
            Result::Err(er) => Result::Err(er),
            Result::Ok(v) => Result::Ok(!v),
        },
        ExprV::CmpEq(l, r) => match (sp_term(l, defs), sp_term(r, defs)) {
            (Result::Err(er), _) => Result::Err(er),
            (Result::Ok(_), Result::Err(er)) => Result::Err(er),
            (Result::Ok(a), Result::Ok(b)) => Result::Ok(a == b),
        },
        ExprV::CmpNe(l, r) => match (sp_term(l, defs), sp_term(r, defs)) {
            (Result::Err(er), _) => Result::Err(er),
            (Result::Ok(_), Result::Err(er)) => Result::Err(er),
            (Result::Ok(a), Result::Ok(b)) => Result::Ok(a != b),
        },
        ExprV::Defined(n) => Result::Ok(defs.contains_key(n)),
    }
}

fn eval_term<'a>(tm: &'a Term, defs: &'a Table<Vec<u8>>) -> (r: Result<&'a Vec<u8>, Error>)
    requires
        defs.wf(),
    ensures
        match r {
            Result::Ok(v) => sp_term(tm@, defs@) == Result::<Seq<u8>, ErrorV>::Ok(v@),
            Result::Err(e) => sp_term(tm@, defs@) == Result::<Seq<u8>, ErrorV>::Err(e@),
        },
{
    match tm {
        Term::Ident(n) => match defs.get(n) {
            Option::Some(v) => Result::Ok(v),
            Option::None => Result::Err(Error::NotDefined(clone_bytes(n))),
        },
        Term::StrLit(x) => Result::Ok(x),
    }
}

fn eval_expr(e: &Expr, defs: &Table<Vec<u8>>) -> (r: Result<bool, Error>)
    requires
        defs.wf(),
    ensures
        match r {
            Result::Ok(b) => sp_eval(e@, defs@) == Result::<bool, ErrorV>::Ok(b),
            Result::Err(er) => sp_eval(e@, defs@) == Result::<bool, ErrorV>::Err(er@),
        },
    decreases *e,
{
    match e {
        Expr::Or(a, b) => {
            let l = match eval_expr(a, defs) {
                Result::Ok(v) => v,
                Result::Err(er) => {
                    return Result::Err(er);
                },
            };
            match eval_expr(b, defs) {
                Result::Ok(r2) => Result::Ok(l || r2),
                Result::Err(er) => Result::Err(er),
            }
        },
        Expr::Xor(a, b) => {
            let l = match eval_expr(a, defs) {
                Result::Ok(v) => v,
                Result::Err(er) => {
                    return Result::Err(er);
                },
            };
            match eval_expr(b, defs) {
                Result::Ok(r2) => Result::Ok(l != r2),
                Result::Err(er) => Result::Err(er),
            }
        },
        Expr::And(a, b) => {
            let l = match eval_expr(a, defs) {
                Result::Ok(v) => v,
                Result::Err(er) => {
                    return Result::Err(er);
                },
            };
            match eval_expr(b, defs) {
                Result::Ok(r2) => Result::Ok(l && r2),
                Result::Err(er) => Result::Err(er),
            }
        },
        Expr::Not(a) => match eval_expr(a, defs) {
            Result::Ok(v) => Result::Ok(!v),
            Result::Err(er) => Result::Err(er),
        },
        Expr::CmpEq(l, r) => {
            let lv = match eval_term(l, defs) {
                Result::Ok(v) => v,
                Result::Err(er) => {
                    return Result::Err(er);
                },
            };
            match eval_term(r, defs) {
                Result::Ok(rv) => Result::Ok(bytes_eq(lv, rv)),
                Result::Err(er) => Result::Err(er),
            }
        },
        Expr::CmpNe(l, r) => {
            let lv = match eval_term(l, defs) {
                Result::Ok(v) => v,
                Result::Err(er) => {
                    return Result::Err(er);
                },
            };
            match eval_term(r, defs) {
                Result::Ok(rv) => Result::Ok(!bytes_eq(lv, rv)),
                Result::Err(er) => Result::Err(er),
            }
        },
        Expr::Defined(n) => Result::Ok(defs.contains_key(n)),
    }
}

/// The message reported for a malformed expression.
pub open spec fn parse_error_msg() -> Seq<u8> {
    bytes_of_str("malformed boolean expression"@)
}

/// The value of a whole expression text under a definition table: the
/// parsing failure for malformed text, otherwise the evaluator's verdict.
#[verifier::opaque]
pub open spec fn spec_parse_boolean_expression(s: Seq<u8>, defs: Map<Seq<u8>, Seq<u8>>) -> Result<
    bool,
    ErrorV,
> {
    match spec_parse_expression(s) {
        Option::None => Result::Err(ErrorV::Parsing(parse_error_msg())),
        Option::Some(e) => sp_eval(e, defs),
    }
}

/// The recursive-descent parser of the boolean-expression grammar.
pub struct BooleanExpressionParser;

impl BooleanExpressionParser {
    /// Parses a whole expression text into its tree; every token must be
    /// consumed.
    pub fn parse(input: &Vec<u8>) -> (r: Option<Expr>)
        ensures
            match r {
                Option::Some(e) => spec_parse_expression(input@) == Option::Some(e@),
                Option::None => spec_parse_expression(input@) is None,
            },
    {
        let toks = match tokenize(input) {
            Option::Some(t) => t,
            Option::None => {
                return Option::None;
            },
        };
        match parse_or(&toks, 0) {
            Option::None => Option::None,
            Option::Some((e, j)) => {
                if j == toks.len() {
                    Option::Some(e)
                } else {
                    Option::None
                }
            },
        }
    }
}

/// Parses and evaluates a boolean expression against the definition table.
pub fn parse_boolean_expression(input: &Vec<u8>, definitions: &Table<Vec<u8>>) -> (r: Result<
    bool,
    Error,
>)
    requires
        definitions.wf(),
    ensures
        match r {
            Result::Ok(b) => spec_parse_boolean_expression(input@, definitions@)
                == Result::<bool, ErrorV>::Ok(b),
            Result::Err(e) => spec_parse_boolean_expression(input@, definitions@)
                == Result::<bool, ErrorV>::Err(e@),
        },
{
    proof {
        reveal(spec_parse_boolean_expression);
    }
    match BooleanExpressionParser::parse(input) {
        Option::None => {
            proof {
                reveal_strlit("malformed boolean expression");
            }
            Result::Err(Error::Parsing(str_to_bytes("malformed boolean expression")))
        },
        Option::Some(e) => eval_expr(&e, definitions),
    }
}

} // verus!

verus! {

/// `A && B || C` groups as `(A && B) || C`: over the token chain
/// `defined(x) && defined(y) || defined(z)`, for any identifiers and any
/// definition table, the parser builds the conjunction inside the
/// disjunction, and the whole evaluates to
/// `(x defined && y defined) || z defined`.
pub proof fn lemma_and_binds_tighter_than_or(
    x: Seq<u8>,
    y: Seq<u8>,
    z: Seq<u8>,
    defs: Map<Seq<u8>, Seq<u8>>,
)
    ensures
        ({
            let t = seq![
                TokenV::Ident(bytes_of_str("defined"@)),
                TokenV::LParen,
                TokenV::Ident(x),
                TokenV::RParen,
                TokenV::AndOp,
                TokenV::Ident(bytes_of_str("defined"@)),
                TokenV::LParen,
                TokenV::Ident(y),
                TokenV::RParen,
                TokenV::OrOp,
                TokenV::Ident(bytes_of_str("defined"@)),
                TokenV::LParen,
                TokenV::Ident(z),
                TokenV::RParen,
            ];
            let tree = ExprV::Or(
                Box::new(
                    ExprV::And(Box::new(ExprV::Defined(x)), Box::new(ExprV::Defined(y))),
                ),
                Box::new(ExprV::Defined(z)),
            );
            &&& sp_or(t, 0) == PRes::Val(tree, 14)
            &&& sp_eval(tree, defs) == Result::<bool, ErrorV>::Ok(
                (defs.contains_key(x) && defs.contains_key(y)) || defs.contains_key(z),
            )
        }),
{
    let t = seq![
        TokenV::Ident(bytes_of_str("defined"@)),
        TokenV::LParen,
        TokenV::Ident(x),
        TokenV::RParen,
        TokenV::AndOp,
        TokenV::Ident(bytes_of_str("defined"@)),
        TokenV::LParen,
        TokenV::Ident(y),
        TokenV::RParen,
        TokenV::OrOp,
        TokenV::Ident(bytes_of_str("defined"@)),
        TokenV::LParen,
        TokenV::Ident(z),
        TokenV::RParen,
    ];
    let dx = ExprV::Defined(x);
    let dy = ExprV::Defined(y);
    let dz = ExprV::Defined(z);
    let conj = ExprV::And(Box::new(dx), Box::new(dy));
    let tree = ExprV::Or(Box::new(conj), Box::new(dz));
    assert(sp_clause(t, 0) == PRes::Val(dx, 4));
    assert(sp_clause(t, 5) == PRes::Val(dy, 9));
    assert(sp_clause(t, 10) == PRes::Val(dz, 14));
    assert(sp_and_rest(t, 9, conj) == PRes::Val(conj, 9));
    assert(sp_and_rest(t, 4, dx) == PRes::Val(conj, 9));
    assert(sp_and(t, 0) == PRes::Val(conj, 9));
    assert(sp_xor_rest(t, 9, conj) == PRes::Val(conj, 9));
    assert(sp_xor(t, 0) == PRes::Val(conj, 9));
    assert(sp_and_rest(t, 14, dz) == PRes::Val(dz, 14));
    assert(sp_and(t, 10) == PRes::Val(dz, 14));
    assert(sp_xor_rest(t, 14, dz) == PRes::Val(dz, 14));
    assert(sp_xor(t, 10) == PRes::Val(dz, 14));
    assert(sp_or_rest(t, 14, tree) == PRes::Val(tree, 14));
    assert(sp_or_rest(t, 9, conj) == PRes::Val(tree, 14));
    assert(sp_or(t, 0) == PRes::Val(tree, 14));
    assert(sp_eval(dx, defs) == Result::<bool, ErrorV>::Ok(defs.contains_key(x)));
    assert(sp_eval(dy, defs) == Result::<bool, ErrorV>::Ok(defs.contains_key(y)));
    assert(sp_eval(dz, defs) == Result::<bool, ErrorV>::Ok(defs.contains_key(z)));
    assert(sp_eval(conj, defs) == Result::<bool, ErrorV>::Ok(
        defs.contains_key(x) && defs.contains_key(y),
    ));
}

/// `A || B && C` groups as `A || (B && C)`: over the token chain
/// `defined(x) || defined(y) && defined(z)`, for any identifiers and any
/// definition table, the parser builds the conjunction on the right of the
/// disjunction, and the whole evaluates to
/// `x defined || (y defined && z defined)`.
pub proof fn lemma_or_binds_looser_than_and(
    x: Seq<u8>,
    y: Seq<u8>,
    z: Seq<u8>,
    defs: Map<Seq<u8>, Seq<u8>>,
)
    ensures
        ({
            let t = seq![
                TokenV::Ident(bytes_of_str("defined"@)),
                TokenV::LParen,
                TokenV::Ident(x),
                TokenV::RParen,
                TokenV::OrOp,
                TokenV::Ident(bytes_of_str("defined"@)),
                TokenV::LParen,
                TokenV::Ident(y),
                TokenV::RParen,
                TokenV::AndOp,
                TokenV::Ident(bytes_of_str("defined"@)),
                TokenV::LParen,
                TokenV::Ident(z),
                TokenV::RParen,
            ];
            let tree = ExprV::Or(
                Box::new(ExprV::Defined(x)),
                Box::new(
                    ExprV::And(Box::new(ExprV::Defined(y)), Box::new(ExprV::Defined(z))),
                ),
            );
            &&& sp_or(t, 0) == PRes::Val(tree, 14)
            &&& sp_eval(tree, defs) == Result::<bool, ErrorV>::Ok(
                defs.contains_key(x) || (defs.contains_key(y) && defs.contains_key(z)),
            )
        }),
{
    let t = seq![
        TokenV::Ident(bytes_of_str("defined"@)),
        TokenV::LParen,
        TokenV::Ident(x),
        TokenV::RParen,
        TokenV::OrOp,
        TokenV::Ident(bytes_of_str("defined"@)),
        TokenV::LParen,
        TokenV::Ident(y),
        TokenV::RParen,
        TokenV::AndOp,
        TokenV::Ident(bytes_of_str("defined"@)),
        TokenV::LParen,
        TokenV::Ident(z),
        TokenV::RParen,
    ];
    let dx = ExprV::Defined(x);
    let dy = ExprV::Defined(y);
    let dz = ExprV::Defined(z);
    let conj = ExprV::And(Box::new(dy), Box::new(dz));
    let tree = ExprV::Or(Box::new(dx), Box::new(conj));
    assert(sp_clause(t, 0) == PRes::Val(dx, 4));
    assert(sp_clause(t, 5) == PRes::Val(dy, 9));
    assert(sp_clause(t, 10) == PRes::Val(dz, 14));
    assert(sp_and_rest(t, 4, dx) == PRes::Val(dx, 4));
    assert(sp_and(t, 0) == PRes::Val(dx, 4));
    assert(sp_xor_rest(t, 4, dx) == PRes::Val(dx, 4));
    assert(sp_xor(t, 0) == PRes::Val(dx, 4));
    assert(sp_and_rest(t, 14, conj) == PRes::Val(conj, 14));
    assert(sp_and_rest(t, 9, dy) == PRes::Val(conj, 14));
    assert(sp_and(t, 5) == PRes::Val(conj, 14));
    assert(sp_xor_rest(t, 14, conj) == PRes::Val(conj, 14));
    assert(sp_xor(t, 5) == PRes::Val(conj, 14));
    assert(sp_or_rest(t, 14, tree) == PRes::Val(tree, 14));
    assert(sp_or_rest(t, 4, dx) == PRes::Val(tree, 14));
    assert(sp_or(t, 0) == PRes::Val(tree, 14));
    assert(sp_eval(dx, defs) == Result::<bool, ErrorV>::Ok(defs.contains_key(x)));
    assert(sp_eval(dy, defs) == Result::<bool, ErrorV>::Ok(defs.contains_key(y)));
    assert(sp_eval(dz, defs) == Result::<bool, ErrorV>::Ok(defs.contains_key(z)));
    assert(sp_eval(conj, defs) == Result::<bool, ErrorV>::Ok(
        defs.contains_key(y) && defs.contains_key(z),
    ));
}

} // verus!
