//! Recursive-descent parsing of tokens into a program.
//!
//! Grammar (`*` binds tighter than `+` and `-`, both left-associative):
//!   statement := `signal` [`input`|`output`] ident `;`
//!              | `assert_bool` `(` ident `)` `;`
//!              | `if` ident `then` statement [`else` statement]
//!              | ident `<==` expr `;` | ident `===` expr `;`
//!   expr := term { (`+`|`-`) term },  term := unary { `*` unary }
//!   unary := [`-`] primary,  primary := number | ident | `(` expr `)`

use vstd::prelude::*;

use crate::ast::{Expr, Program, SignalDecl, SignalKind, SpecExpr, SpecStatement, Statement};
use crate::error::CompileError;
use crate::lexer::{
    kind_tag, kind_text, lemma_lex_ends_with_eof, lex_from, located, SpecToken, SpecTokenKind, Token,
    TokenKind,
};

verus! {

/// Where parsing stopped and why.
pub ghost struct ParseFailure {
    pub line: nat,
    pub col: nat,
    pub message: Seq<char>,
}

/// The token at position `i`; past the end, the last token.
pub open spec fn tok_at(t: Seq<SpecToken>, i: int) -> SpecToken {
    if 0 <= i < t.len() {
        t[i]
    } else {
        t.last()
    }
}

/// A failure at `tok` with `message`.
pub open spec fn fail_at(tok: SpecToken, message: Seq<char>) -> ParseFailure {
    ParseFailure { line: tok.line, col: tok.col, message }
}

/// Whether the token at `i` has the kind `k` (any identifier or number counts
/// as any other).
pub open spec fn is_kind(t: Seq<SpecToken>, i: int, k: SpecTokenKind) -> bool {
    kind_tag(tok_at(t, i).kind) == kind_tag(k)
}

/// Consuming a token of kind `expected` at `i`: the next position, or the
/// failure "expected X, got Y".
pub open spec fn check_kind(t: Seq<SpecToken>, i: int, expected: SpecTokenKind) -> Result<int, ParseFailure> {
    if is_kind(t, i, expected) {
        Ok(i + 1)
    } else {
        Err(
            fail_at(
                tok_at(t, i),
                "expected "@ + kind_text(expected) + ", got "@ + kind_text(tok_at(t, i).kind),
            ),
        )
    }
}

/// The name of an identifier token (empty for other tokens).
pub open spec fn ident_name(k: SpecTokenKind) -> Seq<char> {
    match k {
        SpecTokenKind::Ident(s) => s,
        _ => Seq::empty(),
    }
}

/// What `check_kind` expects where it expects an identifier.
pub open spec fn any_ident() -> SpecTokenKind {
    SpecTokenKind::Ident(Seq::empty())
}

/// An expression from `i`: the expression and the position after it.
pub open spec fn p_expr(t: Seq<SpecToken>, i: int) -> Result<(SpecExpr, int), ParseFailure>
    decreases t.len() - i, 5int,
{
    p_additive(t, i)
}

/// A sum or difference of terms from `i`.
pub open spec fn p_additive(t: Seq<SpecToken>, i: int) -> Result<(SpecExpr, int), ParseFailure>
    decreases t.len() - i, 4int,
{
    match p_multiplicative(t, i) {
        Err(f) => Err(f),
        Ok((l, j)) => if i <= j <= t.len() {
            p_additive_rest(t, l, j)
        } else {
            Ok((l, j))
        },
    }
}

/// The rest of a sum after the terms folded so far into `l`, from `j`.
pub open spec fn p_additive_rest(t: Seq<SpecToken>, l: SpecExpr, j: int) -> Result<
    (SpecExpr, int),
    ParseFailure,
>
    decreases t.len() - j, 3int,
{
    if !(0 <= j < t.len()) {
        Ok((l, j))
    } else if is_kind(t, j, SpecTokenKind::Plus) || is_kind(t, j, SpecTokenKind::Minus) {
        match p_multiplicative(t, j + 1) {
            Err(f) => Err(f),
            Ok((r, k)) => {
                let combined = if is_kind(t, j, SpecTokenKind::Plus) {
                    SpecExpr::Add(Box::new(l), Box::new(r))
                } else {
                    SpecExpr::Sub(Box::new(l), Box::new(r))
                };
                if j < k <= t.len() {
                    p_additive_rest(t, combined, k)
                } else {
                    Ok((combined, k))
                }
            },
        }
    } else {
        Ok((l, j))
    }
}

/// A product of unary expressions from `i`.
pub open spec fn p_multiplicative(t: Seq<SpecToken>, i: int) -> Result<(SpecExpr, int), ParseFailure>
    decreases t.len() - i, 2int,
{
    match p_unary(t, i) {
        Err(f) => Err(f),
        Ok((l, j)) => if i <= j <= t.len() {
            p_multiplicative_rest(t, l, j)
        } else {
            Ok((l, j))
        },
    }
}

/// The rest of a product after the factors folded so far into `l`, from `j`.
pub open spec fn p_multiplicative_rest(t: Seq<SpecToken>, l: SpecExpr, j: int) -> Result<
    (SpecExpr, int),
    ParseFailure,
>
    decreases t.len() - j, 0int,
{
    if !(0 <= j < t.len()) {
        Ok((l, j))
    } else if is_kind(t, j, SpecTokenKind::Star) {
        match p_unary(t, j + 1) {
            Err(f) => Err(f),
            Ok((r, k)) => {
                let combined = SpecExpr::Mul(Box::new(l), Box::new(r));
                if j < k <= t.len() {
                    p_multiplicative_rest(t, combined, k)
                } else {
                    Ok((combined, k))
                }
            },
        }
    } else {
        Ok((l, j))
    }
}

/// An optionally negated primary expression from `i`.
pub open spec fn p_unary(t: Seq<SpecToken>, i: int) -> Result<(SpecExpr, int), ParseFailure>
    decreases t.len() - i, 1int,
{
    if is_kind(t, i, SpecTokenKind::Minus) && 0 <= i < t.len() {
        match p_primary(t, i + 1) {
            Err(f) => Err(f),
            Ok((e, j)) => Ok((SpecExpr::Neg(Box::new(e)), j)),
        }
    } else {
        p_primary(t, i)
    }
}

/// A number, an identifier or a parenthesized expression from `i`.
pub open spec fn p_primary(t: Seq<SpecToken>, i: int) -> Result<(SpecExpr, int), ParseFailure>
    decreases t.len() - i, 0int,
{
    let tok = tok_at(t, i);
    match tok.kind {
        SpecTokenKind::BigInt(n) => Ok((SpecExpr::Const(n), i + 1)),
        SpecTokenKind::Ident(s) => Ok((SpecExpr::Var(s), i + 1)),
        SpecTokenKind::ParenOpen => if 0 <= i < t.len() {
            match p_expr(t, i + 1) {
                Err(f) => Err(f),
                Ok((e, j)) => match check_kind(t, j, SpecTokenKind::ParenClose) {
                    Err(f) => Err(f),
                    Ok(k) => Ok((e, k)),
                },
            }
        } else {
            Err(fail_at(tok, "expected expression, got "@ + kind_text(tok.kind)))
        },
        _ => Err(fail_at(tok, "expected expression, got "@ + kind_text(tok.kind))),
    }
}

/// A statement from `i`: the statement and the position after it.
pub open spec fn p_statement(t: Seq<SpecToken>, i: int) -> Result<(SpecStatement, int), ParseFailure>
    decreases t.len() - i,
{
    let tok = tok_at(t, i);
    match tok.kind {
        SpecTokenKind::KeywordSignal => {
            let (kind, i2) = if is_kind(t, i + 1, SpecTokenKind::KeywordInput) {
                (SignalKind::Input, i + 2)
            } else if is_kind(t, i + 1, SpecTokenKind::KeywordOutput) {
                (SignalKind::Output, i + 2)
            } else {
                (SignalKind::Intermediate, i + 1)
            };
            match check_kind(t, i2, any_ident()) {
                Err(f) => Err(f),
                Ok(i3) => match check_kind(t, i3, SpecTokenKind::Semi) {
                    Err(f) => Err(f),
                    Ok(i4) => Ok(
                        (SpecStatement::SignalDecl(kind, ident_name(tok_at(t, i2).kind)), i4),
                    ),
                },
            }
        },
        SpecTokenKind::KeywordAssertBool => match check_kind(t, i + 1, SpecTokenKind::ParenOpen) {
            Err(f) => Err(f),
            Ok(i2) => match check_kind(t, i2, any_ident()) {
                Err(f) => Err(f),
                Ok(i3) => match check_kind(t, i3, SpecTokenKind::ParenClose) {
                    Err(f) => Err(f),
                    Ok(i4) => match check_kind(t, i4, SpecTokenKind::Semi) {
                        Err(f) => Err(f),
                        Ok(i5) => Ok(
                            (SpecStatement::AssertBool(ident_name(tok_at(t, i2).kind)), i5),
                        ),
                    },
                },
            },
        },
        SpecTokenKind::KeywordIf => match check_kind(t, i + 1, any_ident()) {
            Err(f) => Err(f),
            Ok(i2) => match check_kind(t, i2, SpecTokenKind::KeywordThen) {
                Err(f) => Err(f),
                Ok(i3) => if i < i3 <= t.len() {
                    let cond = ident_name(tok_at(t, i + 1).kind);
                    match p_statement(t, i3) {
                        Err(f) => Err(f),
                        Ok((th, j)) => if is_kind(t, j, SpecTokenKind::KeywordElse) {
                            if i < j < t.len() {
                                match p_statement(t, j + 1) {
                                    Err(f) => Err(f),
                                    Ok((el, k)) => Ok(
                                        (
                                            SpecStatement::Conditional(
                                                cond,
                                                Box::new(th),
                                                Some(Box::new(el)),
                                            ),
                                            k,
                                        ),
                                    ),
                                }
                            } else {
                                Err(fail_at(tok, Seq::empty()))
                            }
                        } else {
                            Ok((SpecStatement::Conditional(cond, Box::new(th), None), j))
                        },
                    }
                } else {
                    Err(fail_at(tok, Seq::empty()))
                },
            },
        },
        SpecTokenKind::Ident(name) => {
            let next = tok_at(t, i + 1);
            if is_kind(t, i + 1, SpecTokenKind::LArrow) {
                match p_expr(t, i + 2) {
                    Err(f) => Err(f),
                    Ok((v, j)) => match check_kind(t, j, SpecTokenKind::Semi) {
                        Err(f) => Err(f),
                        Ok(k) => Ok((SpecStatement::Assign(name, v), k)),
                    },
                }
            } else if is_kind(t, i + 1, SpecTokenKind::TripleEqual) {
                match p_expr(t, i + 2) {
                    Err(f) => Err(f),
                    Ok((rhs, j)) => match check_kind(t, j, SpecTokenKind::Semi) {
                        Err(f) => Err(f),
                        Ok(k) => Ok((SpecStatement::Constraint(SpecExpr::Var(name), rhs), k)),
                    },
                }
            } else {
                Err(
                    fail_at(
                        next,
                        "expected '<==' or '===' after identifier, got "@ + kind_text(next.kind),
                    ),
                )
            }
        },
        _ => Err(fail_at(tok, "unexpected token: "@ + kind_text(tok.kind))),
    }
}

/// The statements from `i` up to the first `Eof`.
pub open spec fn p_statements(t: Seq<SpecToken>, i: int) -> Result<Seq<SpecStatement>, ParseFailure>
    decreases t.len() - i,
{
    if is_kind(t, i, SpecTokenKind::Eof) {
        Ok(Seq::empty())
    } else {
        match p_statement(t, i) {
            Err(f) => Err(f),
            Ok((s, j)) => if i < j <= t.len() {
                match p_statements(t, j) {
                    Err(f) => Err(f),
                    Ok(rest) => Ok(seq![s] + rest),
                }
            } else {
                Err(fail_at(tok_at(t, i), Seq::empty()))
            },
        }
    }
}

/// Whether `e` is the parser error for `f`.
pub open spec fn is_parse_error(e: CompileError, f: ParseFailure) -> bool {
    e matches CompileError::ParserError { line, col, message } && line == f.line && col == f.col
        && message@ == f.message
}

/// Tokens that the parser can run on: at least one, the last being `Eof`.
pub open spec fn well_terminated(t: Seq<SpecToken>) -> bool {
    t.len() > 0 && t.last().kind == SpecTokenKind::Eof
}

/// The tokens that lexing produces are well terminated, so the parser can
/// take them as they are.
pub proof fn lemma_lexed_well_terminated(s: Seq<char>, i: int)
    ensures
        lex_from(s, i) matches Ok(toks) ==> well_terminated(located(s, toks)),
{
    lemma_lex_ends_with_eof(s, i);
}

/// Whether a token is `+` or `-`.
pub open spec fn is_additive_op(t: Seq<SpecToken>, j: int) -> bool {
    is_kind(t, j, SpecTokenKind::Plus) || is_kind(t, j, SpecTokenKind::Minus)
}

/// The terms `ts` folded from the left: each term after the first joined to
/// everything before it by the operator that precedes it, `+` at a `Plus`
/// and `-` at a `Minus`; `ends[m]` is where term `m` ends, so the operator
/// before term `m + 1` stands there.
pub open spec fn fold_left_terms(t: Seq<SpecToken>, ts: Seq<SpecExpr>, ends: Seq<int>) -> SpecExpr
    decreases ts.len(),
{
    if ts.len() <= 1 {
        ts[0]
    } else {
        let l = fold_left_terms(t, ts.drop_last(), ends.drop_last());
        let r = ts.last();
        if is_kind(t, ends[ts.len() - 2], SpecTokenKind::Plus) {
            SpecExpr::Add(Box::new(l), Box::new(r))
        } else {
            SpecExpr::Sub(Box::new(l), Box::new(r))
        }
    }
}

/// Whether `ts` are the products of a sum from `i`, ending at `ends`: the
/// first is the product at `i`, and each next one is the product right
/// after a `+` or `-` where the one before it ends.
pub open spec fn is_term_chain(t: Seq<SpecToken>, i: int, ts: Seq<SpecExpr>, ends: Seq<int>) -> bool {
    &&& ts.len() > 0
    &&& ends.len() == ts.len()
    &&& p_multiplicative(t, i) == Ok::<(SpecExpr, int), ParseFailure>((ts[0], ends[0]))
    &&& forall|m: int|
        0 <= m < ts.len() - 1 ==> is_additive_op(t, ends[m]) && #[trigger] p_multiplicative(
            t,
            ends[m] + 1,
        ) == Ok::<(SpecExpr, int), ParseFailure>((ts[m + 1], ends[m + 1]))
}

proof fn lemma_additive_rest_fold(t: Seq<SpecToken>, i: int, ts: Seq<SpecExpr>, ends: Seq<int>)
    requires
        is_term_chain(t, i, ts, ends),
        p_additive_rest(t, fold_left_terms(t, ts, ends), ends.last()) is Ok,
    ensures
        ({
            let (e, k) = p_additive_rest(t, fold_left_terms(t, ts, ends), ends.last())->Ok_0;
            exists|ts2: Seq<SpecExpr>, ends2: Seq<int>|
                is_term_chain(t, i, ts2, ends2) && ends2.last() == k && e == fold_left_terms(
                    t,
                    ts2,
                    ends2,
                )
        }),
    decreases t.len() - ends.last(),
{
    let j = ends.last();
    let l = fold_left_terms(t, ts, ends);
    let (e, k) = p_additive_rest(t, l, j)->Ok_0;
    if 0 <= j < t.len() && is_additive_op(t, j) {
        let (r, k1) = p_multiplicative(t, j + 1)->Ok_0;
        let ts2 = ts.push(r);
        let ends2 = ends.push(k1);
        assert(ts2.drop_last() =~= ts);
        assert(ends2.drop_last() =~= ends);
        assert(ends2[ts2.len() - 2] == j);
        assert(is_term_chain(t, i, ts2, ends2)) by {
            assert forall|m: int| 0 <= m < ts2.len() - 1 implies is_additive_op(t, ends2[m])
                && #[trigger] p_multiplicative(t, ends2[m] + 1) == Ok::<(SpecExpr, int), ParseFailure>(
                (ts2[m + 1], ends2[m + 1])) by {
                if m < ts.len() - 1 {
                    assert(ends2[m] == ends[m] && ts2[m + 1] == ts[m + 1] && ends2[m + 1] == ends[m + 1]);
                }
            }
        }
        if j < k1 <= t.len() {
            lemma_additive_rest_fold(t, i, ts2, ends2);
        } else {
            assert(e == fold_left_terms(t, ts2, ends2));
        }
    } else {
        assert(e == l && k == j);
    }
}

/// A sum is parsed left-associatively: its value is the products it
/// consists of, each joined to everything before it by the `+` or `-` that
/// precedes it (so `a - b - c` is `(a - b) - c`, and `a - b + c` is
/// `(a - b) + c`), and it ends where its last product ends.
pub proof fn lemma_additive_left_fold(t: Seq<SpecToken>, i: int)
    ensures
        p_additive(t, i) matches Ok((e, k)) ==> exists|ts: Seq<SpecExpr>, ends: Seq<int>|
            is_term_chain(t, i, ts, ends) && ends.last() == k && e == fold_left_terms(t, ts, ends),
{
    if let Ok((e, k)) = p_additive(t, i) {
        let (l, j) = p_multiplicative(t, i)->Ok_0;
        let ts = seq![l];
        let ends = seq![j];
        assert(is_term_chain(t, i, ts, ends));
        assert(fold_left_terms(t, ts, ends) == l);
        if i <= j <= t.len() {
            lemma_additive_rest_fold(t, i, ts, ends);
        }
    }
}

/// The factors `fs` multiplied from the left: each factor after the first
/// is the right operand of a product whose left operand is everything
/// before it.
pub open spec fn fold_left_factors(fs: Seq<SpecExpr>) -> SpecExpr
    decreases fs.len(),
{
    if fs.len() <= 1 {
        fs[0]
    } else {
        SpecExpr::Mul(Box::new(fold_left_factors(fs.drop_last())), Box::new(fs.last()))
    }
}

/// Whether `fs` are the factors of a product from `i`, ending at `ends`:
/// the first is the unary expression at `i`, and each next one is the
/// unary expression right after a `*` where the one before it ends.
pub open spec fn is_factor_chain(t: Seq<SpecToken>, i: int, fs: Seq<SpecExpr>, ends: Seq<int>) -> bool {
    &&& fs.len() > 0
    &&& ends.len() == fs.len()
    &&& p_unary(t, i) == Ok::<(SpecExpr, int), ParseFailure>((fs[0], ends[0]))
    &&& forall|m: int|
        0 <= m < fs.len() - 1 ==> is_kind(t, ends[m], SpecTokenKind::Star) && #[trigger] p_unary(
            t,
            ends[m] + 1,
        ) == Ok::<(SpecExpr, int), ParseFailure>((fs[m + 1], ends[m + 1]))
}

proof fn lemma_multiplicative_rest_fold(t: Seq<SpecToken>, i: int, fs: Seq<SpecExpr>, ends: Seq<int>)
    requires
        is_factor_chain(t, i, fs, ends),
        p_multiplicative_rest(t, fold_left_factors(fs), ends.last()) is Ok,
    ensures
        ({
            let (e, k) = p_multiplicative_rest(t, fold_left_factors(fs), ends.last())->Ok_0;
            exists|fs2: Seq<SpecExpr>, ends2: Seq<int>|
                is_factor_chain(t, i, fs2, ends2) && ends2.last() == k && e == fold_left_factors(fs2)
        }),
    decreases t.len() - ends.last(),
{
    let j = ends.last();
    let l = fold_left_factors(fs);
    let (e, k) = p_multiplicative_rest(t, l, j)->Ok_0;
    if 0 <= j < t.len() && is_kind(t, j, SpecTokenKind::Star) {
        let (r, k1) = p_unary(t, j + 1)->Ok_0;
        let fs2 = fs.push(r);
        let ends2 = ends.push(k1);
        assert(fs2.drop_last() =~= fs);
        assert(is_factor_chain(t, i, fs2, ends2)) by {
            assert forall|m: int| 0 <= m < fs2.len() - 1 implies is_kind(t, ends2[m], SpecTokenKind::Star)
                && #[trigger] p_unary(t, ends2[m] + 1) == Ok::<(SpecExpr, int), ParseFailure>(
                (fs2[m + 1], ends2[m + 1])) by {
                if m < fs.len() - 1 {
                    assert(ends2[m] == ends[m] && fs2[m + 1] == fs[m + 1] && ends2[m + 1] == ends[m + 1]);
                }
            }
        }
        if j < k1 <= t.len() {
            lemma_multiplicative_rest_fold(t, i, fs2, ends2);
        } else {
            assert(e == fold_left_factors(fs2));
        }
    } else {
        assert(e == l && k == j);
    }
}

/// A product is parsed left-associatively: its value is the unary
/// expressions it consists of, each the right operand of a product whose
/// left operand is everything before it (so `a * b * c` is `(a * b) * c`),
/// and it ends where its last factor ends.
pub proof fn lemma_multiplicative_left_fold(t: Seq<SpecToken>, i: int)
    ensures
        p_multiplicative(t, i) matches Ok((e, k)) ==> exists|fs: Seq<SpecExpr>, ends: Seq<int>|
            is_factor_chain(t, i, fs, ends) && ends.last() == k && e == fold_left_factors(fs),
{
    if let Ok((e, k)) = p_multiplicative(t, i) {
        let (l, j) = p_unary(t, i)->Ok_0;
        let fs = seq![l];
        let ends = seq![j];
        assert(is_factor_chain(t, i, fs, ends));
        assert(fold_left_factors(fs) == l);
        if i <= j <= t.len() {
            lemma_multiplicative_rest_fold(t, i, fs, ends);
        }
    }
}

/// Before the end of well-terminated tokens, a token that is not `Eof` is
/// followed by another token.
proof fn lemma_not_eof_has_next(t: Seq<SpecToken>, i: int)
    requires
        well_terminated(t),
        0 <= i,
        !is_kind(t, i, SpecTokenKind::Eof),
    ensures
        i + 1 < t.len(),
{
}

fn error_at(tok: &Token, message: String) -> (r: CompileError)
    ensures
        is_parse_error(r, fail_at(tok.model(), message@)),
{
    CompileError::ParserError { line: tok.line, col: tok.col, message }
}

/// A parser over a sequence of tokens, at a position in it.
pub struct Parser {
    tokens: Vec<Token>,
    pos: usize,
}

impl Parser {
    /// The models of the tokens.
    pub closed spec fn token_models(&self) -> Seq<SpecToken> {
        self.tokens@.map_values(|t: Token| t.model())
    }

    /// The position of the next token to read.
    pub closed spec fn position(&self) -> int {
        self.pos as int
    }

    /// A parser at the first of `tokens`.
    pub fn new(tokens: Vec<Token>) -> (r: Parser)
        ensures
            r.token_models() == tokens@.map_values(|t: Token| t.model()),
            r.position() == 0,
    {
        Parser { tokens, pos: 0 }
    }

    fn token_count(&self) -> (n: usize)
        ensures
            n == self.token_models().len(),
    {
        self.tokens.len()
    }

    fn current(&self, pos: usize) -> (r: &Token)
        requires
            self.tokens@.len() > 0,
        ensures
            r.model() == tok_at(self.token_models(), pos as int),
    {
        if pos < self.tokens.len() {
            &self.tokens[pos]
        } else {
            &self.tokens[self.tokens.len() - 1]
        }
    }

    fn match_kind(&self, pos: usize, kind: &TokenKind) -> (r: bool)
        requires
            self.tokens@.len() > 0,
        ensures
            r == is_kind(self.token_models(), pos as int, kind.model()),
    {
        self.current(pos).kind.tag() == kind.tag()
    }

    fn expect(&self, pos: usize, expected: &TokenKind) -> (r: Result<usize, CompileError>)
        requires
            well_terminated(self.token_models()),
            expected.model() != SpecTokenKind::Eof,
        ensures
            match check_kind(self.token_models(), pos as int, expected.model()) {
                Ok(j) => r == Ok::<usize, CompileError>(j as usize) && j < self.token_models().len(),
                Err(f) => r matches Err(e) && is_parse_error(e, f),
            },
    {
        let tok = self.current(pos);
        let _len = self.token_count(); // the token count, which fits in a usize, bounds every position
        if tok.kind.tag() == expected.tag() {
            proof {
                lemma_not_eof_has_next(self.token_models(), pos as int);
            }
            Ok(pos + 1)
        } else {
            let mut message = String::from_str("expected ");
            message.append(expected.render().as_str());
            message.append(", got ");
            message.append(tok.kind.render().as_str());
            Err(error_at(tok, message))
        }
    }

    /// The name of the identifier at `pos`, which `expect` has accepted.
    fn ident_at(&self, pos: usize) -> (r: String)
        requires
            pos < self.tokens@.len(),
        ensures
            r@ == ident_name(self.token_models()[pos as int].kind),
    {
        match &self.tokens[pos].kind {
            TokenKind::Ident(s) => s.clone(),
            _ => String::new(),
        }
    }

    fn parse_expr(&self, pos: usize) -> (r: Result<(Expr, usize), CompileError>)
        requires
            well_terminated(self.token_models()),
            pos < self.token_models().len(),
        ensures
            match p_expr(self.token_models(), pos as int) {
                Ok((e, j)) => r matches Ok((x, k)) && x.model() == e && k == j && pos < j
                    < self.token_models().len(),
                Err(f) => r matches Err(e) && is_parse_error(e, f),
            },
        decreases self.token_models().len() - pos, 5int,
    {
        self.parse_additive(pos)
    }

    fn parse_additive(&self, pos: usize) -> (r: Result<(Expr, usize), CompileError>)
        requires
            well_terminated(self.token_models()),
            pos < self.token_models().len(),
        ensures
            match p_additive(self.token_models(), pos as int) {
                Ok((e, j)) => r matches Ok((x, k)) && x.model() == e && k == j && pos < j
                    < self.token_models().len(),
                Err(f) => r matches Err(e) && is_parse_error(e, f),
            },
        decreases self.token_models().len() - pos, 4int,
    {
        let ghost t = self.token_models();
        let (mut left, mut at) = match self.parse_multiplicative(pos) {
            Ok(v) => v,
            Err(e) => return Err(e),
        };
        loop
            invariant
                t == self.token_models(),
                well_terminated(t),
                pos < at < t.len(),
                p_additive(t, pos as int) == p_additive_rest(t, left.model(), at as int),
            ensures
                pos < at < t.len(),
                p_additive(t, pos as int) == Ok::<(SpecExpr, int), ParseFailure>(
                    (left.model(), at as int),
                ),
            decreases t.len() - at,
        {
            let _len = self.token_count(); // the token count, which fits in a usize, bounds every position
            let is_plus = self.match_kind(at, &TokenKind::Plus);
            let is_minus = self.match_kind(at, &TokenKind::Minus);
            if !is_plus && !is_minus {
                break;
            }
            let (right, next) = match self.parse_multiplicative(at + 1) {
                Ok(v) => v,
                Err(e) => return Err(e),
            };
            left = if is_plus {
                Expr::Add(Box::new(left), Box::new(right))
            } else {
                Expr::Sub(Box::new(left), Box::new(right))
            };
            at = next;
        }
        Ok((left, at))
    }

    fn parse_multiplicative(&self, pos: usize) -> (r: Result<(Expr, usize), CompileError>)
        requires
            well_terminated(self.token_models()),
            pos < self.token_models().len(),
        ensures
            match p_multiplicative(self.token_models(), pos as int) {
                Ok((e, j)) => r matches Ok((x, k)) && x.model() == e && k == j && pos < j
                    < self.token_models().len(),
                Err(f) => r matches Err(e) && is_parse_error(e, f),
            },
        decreases self.token_models().len() - pos, 2int,
    {
        let ghost t = self.token_models();
        let (mut left, mut at) = match self.parse_unary(pos) {
            Ok(v) => v,
            Err(e) => return Err(e),
        };
        loop
            invariant
                t == self.token_models(),
                well_terminated(t),
                pos < at < t.len(),
                p_multiplicative(t, pos as int) == p_multiplicative_rest(t, left.model(), at as int),
            ensures
                pos < at < t.len(),
                p_multiplicative(t, pos as int) == Ok::<(SpecExpr, int), ParseFailure>(
                    (left.model(), at as int),
                ),
            decreases t.len() - at,
        {
            let _len = self.token_count(); // the token count, which fits in a usize, bounds every position
            if !self.match_kind(at, &TokenKind::Star) {
                break;
            }
            let (right, next) = match self.parse_unary(at + 1) {
                Ok(v) => v,
                Err(e) => return Err(e),
            };
            left = Expr::Mul(Box::new(left), Box::new(right));
            at = next;
        }
        Ok((left, at))
    }

    fn parse_unary(&self, pos: usize) -> (r: Result<(Expr, usize), CompileError>)
        requires
            well_terminated(self.token_models()),
            pos < self.token_models().len(),
        ensures
            match p_unary(self.token_models(), pos as int) {
                Ok((e, j)) => r matches Ok((x, k)) && x.model() == e && k == j && pos < j
                    < self.token_models().len(),
                Err(f) => r matches Err(e) && is_parse_error(e, f),
            },
        decreases self.token_models().len() - pos, 1int,
    {
        let _len = self.token_count(); // the token count, which fits in a usize, bounds every position
        if self.match_kind(pos, &TokenKind::Minus) {
            proof {
                lemma_not_eof_has_next(self.token_models(), pos as int);
            }
            let (expr, next) = match self.parse_primary(pos + 1) {
                Ok(v) => v,
                Err(e) => return Err(e),
            };
            Ok((Expr::Neg(Box::new(expr)), next))
        } else {
            self.parse_primary(pos)
        }
    }

    fn parse_primary(&self, pos: usize) -> (r: Result<(Expr, usize), CompileError>)
        requires
            well_terminated(self.token_models()),
            pos < self.token_models().len(),
        ensures
            match p_primary(self.token_models(), pos as int) {
                Ok((e, j)) => r matches Ok((x, k)) && x.model() == e && k == j && pos < j
                    < self.token_models().len(),
                Err(f) => r matches Err(e) && is_parse_error(e, f),
            },
        decreases self.token_models().len() - pos, 0int,
    {
        let ghost t = self.token_models();
        let _len = self.token_count(); // the token count, which fits in a usize, bounds every position
        let tok = self.current(pos);
        match &tok.kind {
            TokenKind::BigInt(n) => {
                proof {
                    lemma_not_eof_has_next(t, pos as int);
                }
                Ok((Expr::Const(n.clone()), pos + 1))
            },
            TokenKind::Ident(s) => {
                proof {
                    lemma_not_eof_has_next(t, pos as int);
                }
                Ok((Expr::Var(s.clone()), pos + 1))
            },
            TokenKind::ParenOpen => {
                proof {
                    lemma_not_eof_has_next(t, pos as int);
                }
                let (expr, next) = match self.parse_expr(pos + 1) {
                    Ok(v) => v,
                    Err(e) => return Err(e),
                };
                let after = match self.expect(next, &TokenKind::ParenClose) {
                    Ok(v) => v,
                    Err(e) => return Err(e),
                };
                Ok((expr, after))
            },
            _ => {
                let mut message = String::from_str("expected expression, got ");
                message.append(tok.kind.render().as_str());
                Err(error_at(tok, message))
            },
        }
    }

    fn parse_statement(&self, pos: usize) -> (r: Result<(Statement, usize), CompileError>)
        requires
            well_terminated(self.token_models()),
            pos < self.token_models().len(),
        ensures
            match p_statement(self.token_models(), pos as int) {
                Ok((st, j)) => r matches Ok((x, k)) && x.model() == st && k == j && pos < j
                    < self.token_models().len(),
                Err(f) => r matches Err(e) && is_parse_error(e, f),
            },
        decreases self.token_models().len() - pos,
    {
        let ghost t = self.token_models();
        let _len = self.token_count(); // the token count, which fits in a usize, bounds every position
        let tok = self.current(pos);
        match &tok.kind {
            TokenKind::KeywordSignal => {
                proof {
                    lemma_not_eof_has_next(t, pos as int);
                }
                let at = pos + 1;
                let (kind, name_at) = if self.match_kind(at, &TokenKind::KeywordInput) {
                    proof {
                        lemma_not_eof_has_next(t, at as int);
                    }
                    (SignalKind::Input, at + 1)
                } else if self.match_kind(at, &TokenKind::KeywordOutput) {
                    proof {
                        lemma_not_eof_has_next(t, at as int);
                    }
                    (SignalKind::Output, at + 1)
                } else {
                    (SignalKind::Intermediate, at)
                };
                let semi_at = match self.expect(name_at, &TokenKind::Ident(String::new())) {
                    Ok(v) => v,
                    Err(e) => return Err(e),
                };
                let name = self.ident_at(name_at);
                let end = match self.expect(semi_at, &TokenKind::Semi) {
                    Ok(v) => v,
                    Err(e) => return Err(e),
                };
                Ok((Statement::SignalDecl(SignalDecl { kind, name }), end))
            },
            TokenKind::KeywordAssertBool => {
                proof {
                    lemma_not_eof_has_next(t, pos as int);
                }
                let name_at = match self.expect(pos + 1, &TokenKind::ParenOpen) {
                    Ok(v) => v,
                    Err(e) => return Err(e),
                };
                let close_at = match self.expect(name_at, &TokenKind::Ident(String::new())) {
                    Ok(v) => v,
                    Err(e) => return Err(e),
                };
                let name = self.ident_at(name_at);
                let semi_at = match self.expect(close_at, &TokenKind::ParenClose) {
                    Ok(v) => v,
                    Err(e) => return Err(e),
                };
                let end = match self.expect(semi_at, &TokenKind::Semi) {
                    Ok(v) => v,
                    Err(e) => return Err(e),
                };
                Ok((Statement::AssertBool(name), end))
            },
            TokenKind::KeywordIf => {
                proof {
                    lemma_not_eof_has_next(t, pos as int);
                }
                let then_at = match self.expect(pos + 1, &TokenKind::Ident(String::new())) {
                    Ok(v) => v,
                    Err(e) => return Err(e),
                };
                let condition = self.ident_at(pos + 1);
                let body_at = match self.expect(then_at, &TokenKind::KeywordThen) {
                    Ok(v) => v,
                    Err(e) => return Err(e),
                };
                let (then_stmt, after_then) = match self.parse_statement(body_at) {
                    Ok(v) => v,
                    Err(e) => return Err(e),
                };
                if self.match_kind(after_then, &TokenKind::KeywordElse) {
                    proof {
                        lemma_not_eof_has_next(t, after_then as int);
                    }
                    let (else_stmt, end) = match self.parse_statement(after_then + 1) {
                        Ok(v) => v,
                        Err(e) => return Err(e),
                    };
                    Ok(
                        (
                            Statement::Conditional {
                                condition,
                                then_stmt: Box::new(then_stmt),
                                else_stmt: Some(Box::new(else_stmt)),
                            },
                            end,
                        ),
                    )
                } else {
                    Ok(
                        (
                            Statement::Conditional {
                                condition,
                                then_stmt: Box::new(then_stmt),
                                else_stmt: None,
                            },
                            after_then,
                        ),
                    )
                }
            },
            TokenKind::Ident(name) => {
                proof {
                    lemma_not_eof_has_next(t, pos as int);
                }
                let next_at = pos + 1;
                let next = self.current(next_at);
                if self.match_kind(next_at, &TokenKind::LArrow) {
                    proof {
                        lemma_not_eof_has_next(t, next_at as int);
                    }
                    let (value, semi_at) = match self.parse_expr(next_at + 1) {
                        Ok(v) => v,
                        Err(e) => return Err(e),
                    };
                    let end = match self.expect(semi_at, &TokenKind::Semi) {
                        Ok(v) => v,
                        Err(e) => return Err(e),
                    };
                    Ok((Statement::Assign { target: name.clone(), value }, end))
                } else if self.match_kind(next_at, &TokenKind::TripleEqual) {
                    proof {
                        lemma_not_eof_has_next(t, next_at as int);
                    }
                    let (rhs, semi_at) = match self.parse_expr(next_at + 1) {
                        Ok(v) => v,
                        Err(e) => return Err(e),
                    };
                    let end = match self.expect(semi_at, &TokenKind::Semi) {
                        Ok(v) => v,
                        Err(e) => return Err(e),
                    };
                    Ok((Statement::Constraint { lhs: Expr::Var(name.clone()), rhs }, end))
                } else {
                    let mut message = String::from_str("expected '<==' or '===' after identifier, got ");
                    message.append(next.kind.render().as_str());
                    Err(error_at(next, message))
                }
            },
            _ => {
                let mut message = String::from_str("unexpected token: ");
                message.append(tok.kind.render().as_str());
                Err(error_at(tok, message))
            },
        }
    }

    /// Whether `parse` can run: the tokens end with `Eof` and the position
    /// is among them (as it is for the tokens that lexing produces).
    pub fn can_parse(&self) -> (r: bool)
        ensures
            r == (well_terminated(self.token_models()) && self.position()
                < self.token_models().len()),
    {
        let n = self.tokens.len();
        if n == 0 || self.pos >= n {
            return false;
        }
        let last = &self.tokens[n - 1];
        assert(self.token_models().last() == last.model());
        last.kind.tag() == 20
    }

    /// Parses statements up to the first `Eof` token.
    pub fn parse(&mut self) -> (r: Result<Program, CompileError>)
        requires
            well_terminated(old(self).token_models()),
            old(self).position() < old(self).token_models().len(),
        ensures
            final(self).token_models() == old(self).token_models(),
            match p_statements(old(self).token_models(), old(self).position()) {
                Ok(stmts) => r matches Ok(p) && p.model() == stmts,
                Err(f) => r matches Err(e) && is_parse_error(e, f),
            },
    {
        let ghost t = self.token_models();
        let ghost start = self.pos as int;
        let mut statements: Vec<Statement> = Vec::new();
        assert(statements@.map_values(|s: Statement| s.model()) =~= Seq::<SpecStatement>::empty());
        assert(p_statements(t, start) == prepend_statements(Seq::empty(), p_statements(t, start))) by {
            match p_statements(t, start) {
                Ok(r) => assert(Seq::<SpecStatement>::empty() + r =~= r),
                Err(_) => {},
            }
        }
        loop
            invariant
                t == self.token_models(),
                t == old(self).token_models(),
                start == old(self).position(),
                well_terminated(t),
                self.pos < t.len(),
                p_statements(t, start) == prepend_statements(
                    statements@.map_values(|s: Statement| s.model()),
                    p_statements(t, self.pos as int),
                ),
            ensures
                self.pos < t.len(),
                p_statements(t, start) == Ok::<Seq<SpecStatement>, ParseFailure>(
                    statements@.map_values(|s: Statement| s.model()),
                ),
            decreases t.len() - self.pos,
        {
            if self.match_kind(self.pos, &TokenKind::Eof) {
                proof {
                    let done = statements@.map_values(|s: Statement| s.model());
                    assert(done + Seq::<SpecStatement>::empty() =~= done);
                }
                break;
            }
            let ghost before = statements@.map_values(|s: Statement| s.model());
            let ghost here = self.pos as int;
            let (stmt, next) = match self.parse_statement(self.pos) {
                Ok(v) => v,
                Err(e) => return Err(e),
            };
            let ghost m = stmt.model();
            statements.push(stmt);
            self.pos = next;
            proof {
                assert(statements@.map_values(|s: Statement| s.model()) =~= before.push(m));
                match p_statements(t, self.pos as int) {
                    Ok(r) => assert(before + (seq![m] + r) =~= before.push(m) + r),
                    Err(_) => {},
                }
            }
        }
        Ok(Program { statements })
    }
}

/// `done` followed by the statements of `rest`, or the failure of `rest`.
pub open spec fn prepend_statements(
    done: Seq<SpecStatement>,
    rest: Result<Seq<SpecStatement>, ParseFailure>,
) -> Result<Seq<SpecStatement>, ParseFailure> {
    match rest {
        Ok(r) => Ok(done + r),
        Err(f) => Err(f),
    }
}

} // verus!
