//! Trivia between tokens only separates them: replacing one run of
//! spaces, tabs and line breaks by another leaves the token kinds as they
//! were (only their lines and columns move), and a `//` comment ends at the
//! next line break.

use vstd::prelude::*;

use crate::lexer::{
    digits_end, ident_end, is_ident_continue, is_space, lemma_digits_end, lemma_ident_end,
    lemma_skip_trivia_forward,
    lemma_token_at_advances, lex_from, skip_comment, skip_trivia, token_at, LexFailure,
    SpecTokenKind,
};
use crate::natural::is_decimal_digit;

verus! {

/// The kinds of lexed tokens, in order.
pub open spec fn token_kinds(t: Seq<(SpecTokenKind, int)>) -> Seq<SpecTokenKind> {
    t.map_values(|x: (SpecTokenKind, int)| x.0)
}

/// Whether two lexings agree but for positions: both give tokens of the
/// same kinds, or both fail for the same reason.
pub open spec fn same_lexing(
    r1: Result<Seq<(SpecTokenKind, int)>, (LexFailure, int)>,
    r2: Result<Seq<(SpecTokenKind, int)>, (LexFailure, int)>,
) -> bool {
    match r1 {
        Ok(t1) => r2 matches Ok(t2) && token_kinds(t1) == token_kinds(t2),
        Err((f1, _)) => r2 matches Err((f2, _)) && f1 == f2,
    }
}

/// Whether `s` holds no `//`.
pub open spec fn no_comment(s: Seq<char>) -> bool {
    forall|k: int| 0 <= k && k + 1 < s.len() ==> !(#[trigger] s[k] == '/' && s[k + 1] == '/')
}

/// Whether every character of `w` is a space, tab or line break.
pub open spec fn all_space(w: Seq<char>) -> bool {
    forall|k: int| 0 <= k < w.len() ==> is_space(#[trigger] w[k])
}

/// Whether `s1` from `j1` and `s2` from `j2` hold the same `l` characters,
/// and both then end, or both go on with a space.
pub open spec fn agree(s1: Seq<char>, j1: int, s2: Seq<char>, j2: int, l: int) -> bool {
    &&& 0 <= j1
    &&& 0 <= j2
    &&& 0 <= l
    &&& j1 + l <= s1.len()
    &&& j2 + l <= s2.len()
    &&& forall|k: int| 0 <= k < l ==> #[trigger] s1[j1 + k] == s2[j2 + k]
    &&& (j1 + l == s1.len() && j2 + l == s2.len()) || (j1 + l < s1.len() && j2 + l < s2.len()
        && is_space(s1[j1 + l]) && is_space(s2[j2 + l]))
}

proof fn lemma_digits_agree(s1: Seq<char>, j1: int, s2: Seq<char>, j2: int, l: int, x: int)
    requires
        agree(s1, j1, s2, j2, l),
        0 <= x <= l,
    ensures
        digits_end(s1, j1 + x) - j1 == digits_end(s2, j2 + x) - j2,
        digits_end(s1, j1 + x) <= j1 + l,
    decreases l - x,
{
    if x < l {
        assert(s1[j1 + x] == s2[j2 + x]);
        if is_decimal_digit(s1[j1 + x]) {
            lemma_digits_agree(s1, j1, s2, j2, l, x + 1);
        }
    }
}

proof fn lemma_ident_agree(s1: Seq<char>, j1: int, s2: Seq<char>, j2: int, l: int, x: int)
    requires
        agree(s1, j1, s2, j2, l),
        0 <= x <= l,
    ensures
        ident_end(s1, j1 + x) - j1 == ident_end(s2, j2 + x) - j2,
        ident_end(s1, j1 + x) <= j1 + l,
    decreases l - x,
{
    if x < l {
        assert(s1[j1 + x] == s2[j2 + x]);
        if is_ident_continue(s1[j1 + x]) {
            lemma_ident_agree(s1, j1, s2, j2, l, x + 1);
        }
    }
}

/// A token reads only the characters up to the next space: where two texts
/// agree up to it, the token is the same and ends at the same distance.
proof fn lemma_token_agree(s1: Seq<char>, j1: int, s2: Seq<char>, j2: int, l: int)
    requires
        agree(s1, j1, s2, j2, l),
        0 < l,
    ensures
        match token_at(s1, j1) {
            Ok((k1, e1)) => token_at(s2, j2) matches Ok((k2, e2)) && k1 == k2 && e1 - j1 == e2 - j2
                && e1 <= j1 + l,
            Err(f1) => token_at(s2, j2) matches Err(f2) && f1 == f2,
        },
{
    assert(s1[j1 + 0] == s2[j2 + 0]);
    let c = s1[j1];
    if l > 1 {
        assert(s1[j1 + 1] == s2[j2 + 1]);
    }
    if l > 2 {
        assert(s1[j1 + 2] == s2[j2 + 2]);
    }
    if is_decimal_digit(c) {
        lemma_digits_end(s1, j1);
        lemma_digits_end(s2, j2);
        lemma_digits_agree(s1, j1, s2, j2, l, 0);
        let e1 = digits_end(s1, j1);
        let e2 = digits_end(s2, j2);
        assert(s1.subrange(j1, e1) =~= s2.subrange(j2, e2)) by {
            assert forall|k: int| 0 <= k < e1 - j1 implies s1.subrange(j1, e1)[k] == s2.subrange(
                j2,
                e2,
            )[k] by {
                assert(s1[j1 + k] == s2[j2 + k]);
            }
        }
    } else if crate::lexer::is_ident_start(c) {
        lemma_ident_end(s1, j1);
        lemma_ident_end(s2, j2);
        lemma_ident_agree(s1, j1, s2, j2, l, 0);
        let e1 = ident_end(s1, j1);
        let e2 = ident_end(s2, j2);
        assert(s1.subrange(j1, e1) =~= s2.subrange(j2, e2)) by {
            assert forall|k: int| 0 <= k < e1 - j1 implies s1.subrange(j1, e1)[k] == s2.subrange(
                j2,
                e2,
            )[k] by {
                assert(s1[j1 + k] == s2[j2 + k]);
            }
        }
    }
}

/// Skipping trivia depends only on the text from where it starts.
proof fn lemma_skip_shift(s1: Seq<char>, i1: int, s2: Seq<char>, i2: int)
    requires
        0 <= i1 <= s1.len(),
        0 <= i2 <= s2.len(),
        s1.subrange(i1, s1.len() as int) == s2.subrange(i2, s2.len() as int),
    ensures
        skip_trivia(s1, i1) - i1 == skip_trivia(s2, i2) - i2,
        skip_comment(s1, i1) - i1 == skip_comment(s2, i2) - i2,
    decreases s1.len() - i1,
{
    assert(s1.subrange(i1, s1.len() as int).len() == s1.len() - i1);
    assert(s1.len() - i1 == s2.len() - i2);
    if i1 < s1.len() {
        let t1 = s1.subrange(i1, s1.len() as int);
        let t2 = s2.subrange(i2, s2.len() as int);
        assert(s1[i1] == t1[0] && s2[i2] == t2[0]);
        assert(s1.subrange(i1 + 1, s1.len() as int) =~= t1.subrange(1, t1.len() as int));
        assert(s2.subrange(i2 + 1, s2.len() as int) =~= t2.subrange(1, t2.len() as int));
        lemma_skip_shift(s1, i1 + 1, s2, i2 + 1);
        if i1 + 1 < s1.len() {
            assert(s1[i1 + 1] == t1[1] && s2[i2 + 1] == t2[1]);
            if i1 + 2 <= s1.len() {
                assert(s1.subrange(i1 + 2, s1.len() as int) =~= t1.subrange(2, t1.len() as int));
                assert(s2.subrange(i2 + 2, s2.len() as int) =~= t2.subrange(2, t2.len() as int));
                lemma_skip_shift(s1, i1 + 2, s2, i2 + 2);
            }
        }
    }
}

proof fn lemma_same_cons(
    k: SpecTokenKind,
    j1: int,
    j2: int,
    r1: Result<Seq<(SpecTokenKind, int)>, (LexFailure, int)>,
    r2: Result<Seq<(SpecTokenKind, int)>, (LexFailure, int)>,
)
    requires
        same_lexing(r1, r2),
    ensures
        same_lexing(
            match r1 {
                Ok(rest) => Ok(seq![(k, j1)] + rest),
                Err(x) => Err(x),
            },
            match r2 {
                Ok(rest) => Ok(seq![(k, j2)] + rest),
                Err(x) => Err(x),
            },
        ),
{
    if let (Ok(t1), Ok(t2)) = (r1, r2) {
        assert(token_kinds(seq![(k, j1)] + t1) =~= seq![k] + token_kinds(t1));
        assert(token_kinds(seq![(k, j2)] + t2) =~= seq![k] + token_kinds(t2));
    }
}

/// Lexing depends only on the text from where it starts.
proof fn lemma_lex_shift(s1: Seq<char>, i1: int, s2: Seq<char>, i2: int)
    requires
        0 <= i1 <= s1.len(),
        0 <= i2 <= s2.len(),
        s1.subrange(i1, s1.len() as int) == s2.subrange(i2, s2.len() as int),
    ensures
        same_lexing(lex_from(s1, i1), lex_from(s2, i2)),
    decreases s1.len() - i1,
{
    assert(s1.subrange(i1, s1.len() as int).len() == s1.len() - i1);
    assert(s1.len() - i1 == s2.len() - i2);
    lemma_skip_shift(s1, i1, s2, i2);
    lemma_skip_trivia_forward(s1, i1);
    lemma_skip_trivia_forward(s2, i2);
    let j1 = skip_trivia(s1, i1);
    let j2 = skip_trivia(s2, i2);
    if j1 < s1.len() {
        let l = s1.len() - j1;
        assert forall|k: int| 0 <= k < l implies #[trigger] s1[j1 + k] == s2[j2 + k] by {
            assert(s1[j1 + k] == s1.subrange(i1, s1.len() as int)[j1 - i1 + k]);
            assert(s2[j2 + k] == s2.subrange(i2, s2.len() as int)[j1 - i1 + k]);
        }
        assert(agree(s1, j1, s2, j2, l));
        lemma_token_agree(s1, j1, s2, j2, l);
        lemma_token_at_advances(s1, j1);
        lemma_token_at_advances(s2, j2);
        if let Ok((k, e1)) = token_at(s1, j1) {
            let e2 = e1 - j1 + j2;
            assert(s1.subrange(e1, s1.len() as int) =~= s2.subrange(e2, s2.len() as int)) by {
                assert forall|x: int| 0 <= x < s1.len() - e1 implies s1.subrange(e1, s1.len() as int)[x]
                    == s2.subrange(e2, s2.len() as int)[x] by {
                    assert(s1[j1 + (e1 - j1 + x)] == s2[j2 + (e1 - j1 + x)]);
                }
            }
            lemma_lex_shift(s1, e1, s2, e2);
            lemma_same_cons(k, j1, j2, lex_from(s1, e1), lex_from(s2, e2));
        }
    } else {
        assert(token_kinds(seq![(SpecTokenKind::Eof, j1)]) =~= seq![SpecTokenKind::Eof]);
        assert(token_kinds(seq![(SpecTokenKind::Eof, j2)]) =~= seq![SpecTokenKind::Eof]);
    }
}

/// A space before the next token changes nothing.
proof fn lemma_lex_space_step(s: Seq<char>, i: int)
    requires
        0 <= i < s.len(),
        is_space(s[i]),
    ensures
        lex_from(s, i) == lex_from(s, i + 1),
{
    assert(skip_trivia(s, i) == skip_trivia(s, i + 1));
}

/// Lexing from anywhere in a run of spaces is lexing from its end.
proof fn lemma_lex_run(s: Seq<char>, i: int, r: int)
    requires
        0 <= i <= r <= s.len(),
        forall|k: int| i <= k < r ==> is_space(#[trigger] s[k]),
    ensures
        lex_from(s, i) == lex_from(s, r),
    decreases r - i,
{
    if i < r {
        lemma_lex_space_step(s, i);
        lemma_lex_run(s, i + 1, r);
    }
}

/// Lexing `a + w1 + b` and `a + w2 + b` from a position `i` within `a`
/// agree, for runs `w1`, `w2` of spaces and `a` free of `//`.
proof fn lemma_lex_prefix(a: Seq<char>, w1: Seq<char>, w2: Seq<char>, b: Seq<char>, i: int)
    requires
        0 <= i <= a.len(),
        w1.len() > 0,
        w2.len() > 0,
        all_space(w1),
        all_space(w2),
        no_comment(a + w1 + b),
    ensures
        same_lexing(lex_from(a + w1 + b, i), lex_from(a + w2 + b, i)),
    decreases a.len() - i,
{
    let s1 = a + w1 + b;
    let s2 = a + w2 + b;
    let r1: int = a.len() + w1.len() as int;
    let r2: int = a.len() + w2.len() as int;
    if i == a.len() {
        assert forall|k: int| i <= k < r1 implies is_space(#[trigger] s1[k]) by {
            assert(s1[k] == w1[k - a.len()]);
        }
        assert forall|k: int| i <= k < r2 implies is_space(#[trigger] s2[k]) by {
            assert(s2[k] == w2[k - a.len()]);
        }
        lemma_lex_run(s1, i, r1);
        lemma_lex_run(s2, i, r2);
        assert(s1.subrange(r1, s1.len() as int) =~= b);
        assert(s2.subrange(r2, s2.len() as int) =~= b);
        lemma_lex_shift(s1, r1, s2, r2);
    } else {
        assert(s1[i] == a[i] && s2[i] == a[i]);
        if is_space(a[i]) {
            lemma_lex_space_step(s1, i);
            lemma_lex_space_step(s2, i);
            lemma_lex_prefix(a, w1, w2, b, i + 1);
        } else {
            let l = a.len() - i;
            assert(s1[a.len() as int] == w1[0] && s2[a.len() as int] == w2[0]);
            assert forall|k: int| 0 <= k < l implies #[trigger] s1[i + k] == s2[i + k] by {
                assert(s1[i + k] == a[i + k] && s2[i + k] == a[i + k]);
            }
            assert(agree(s1, i, s2, i, l));
            assert(!(s1[i] == '/' && s1[i + 1] == '/'));
            if i + 1 < a.len() {
                assert(s2[i + 1] == s1[i + 1]);
            }
            assert(skip_trivia(s1, i) == i);
            assert(skip_trivia(s2, i) == i);
            lemma_token_agree(s1, i, s2, i, l);
            lemma_token_at_advances(s1, i);
            if let Ok((k, e)) = token_at(s1, i) {
                lemma_lex_prefix(a, w1, w2, b, e);
                lemma_same_cons(k, i, i, lex_from(s1, e), lex_from(s2, e));
            }
        }
    }
}

/// Replacing one non-empty run of spaces, tabs and line breaks by another,
/// in a text free of `//` comments, keeps the lexing: the same token kinds
/// in the same order, or the same failure.
pub proof fn lemma_whitespace_run_replaced(a: Seq<char>, w1: Seq<char>, w2: Seq<char>, b: Seq<char>)
    requires
        w1.len() > 0,
        w2.len() > 0,
        all_space(w1),
        all_space(w2),
        no_comment(a + w1 + b),
    ensures
        same_lexing(lex_from(a + w1 + b, 0), lex_from(a + w2 + b, 0)),
{
    lemma_lex_prefix(a, w1, w2, b, 0);
}

proof fn lemma_comment_run(s: Seq<char>, k: int, j: int)
    requires
        0 <= k <= j < s.len(),
        s[j] == '\n',
        forall|x: int| k <= x < j ==> s[x] != '\n',
    ensures
        skip_comment(s, k) == skip_trivia(s, j + 1),
    decreases j - k,
{
    if k < j {
        lemma_comment_run(s, k + 1, j);
    }
}

/// A `//` comment ends at the first line break after it: skipping trivia
/// from the comment lands where skipping from the next line does, and
/// lexing from the comment gives what lexing from the next line gives.
pub proof fn lemma_comment_ends_at_newline(s: Seq<char>, i: int, j: int)
    requires
        0 <= i,
        i + 2 <= j < s.len(),
        s[i] == '/',
        s[i + 1] == '/',
        s[j] == '\n',
        forall|k: int| i + 2 <= k < j ==> s[k] != '\n',
    ensures
        skip_trivia(s, i) == skip_trivia(s, j + 1),
        lex_from(s, i) == lex_from(s, j + 1),
{
    lemma_comment_run(s, i + 2, j);
    assert(!is_space(s[i]));
    assert(skip_trivia(s, i) == skip_comment(s, i + 2));
}

} // verus!
