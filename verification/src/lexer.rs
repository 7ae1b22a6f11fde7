//! Turning source text into tokens.

use vstd::prelude::*;

use crate::error::CompileError;
use crate::natural::{decimal_text, decimal_value, is_decimal_digit, Natural};

verus! {

/// The kinds of token.
#[derive(Debug)]
pub enum TokenKind {
    KeywordSignal,
    KeywordInput,
    KeywordOutput,
    KeywordAssertBool,
    KeywordIf,
    KeywordThen,
    KeywordElse,
    Ident(String),
    BigInt(Natural),
    Plus,
    Star,
    Minus,
    Equal,
    DoubleEqual,
    TripleEqual,
    LArrow,
    ParenOpen,
    ParenClose,
    Semi,
    Comma,
    Eof,
}

/// The mathematical value of a token kind.
pub ghost enum SpecTokenKind {
    KeywordSignal,
    KeywordInput,
    KeywordOutput,
    KeywordAssertBool,
    KeywordIf,
    KeywordThen,
    KeywordElse,
    Ident(Seq<char>),
    BigInt(nat),
    Plus,
    Star,
    Minus,
    Equal,
    DoubleEqual,
    TripleEqual,
    LArrow,
    ParenOpen,
    ParenClose,
    Semi,
    Comma,
    Eof,
}

impl TokenKind {
    /// The model of this token kind.
    pub open spec fn model(&self) -> SpecTokenKind {
        match self {
            TokenKind::KeywordSignal => SpecTokenKind::KeywordSignal,
            TokenKind::KeywordInput => SpecTokenKind::KeywordInput,
            TokenKind::KeywordOutput => SpecTokenKind::KeywordOutput,
            TokenKind::KeywordAssertBool => SpecTokenKind::KeywordAssertBool,
            TokenKind::KeywordIf => SpecTokenKind::KeywordIf,
            TokenKind::KeywordThen => SpecTokenKind::KeywordThen,
            TokenKind::KeywordElse => SpecTokenKind::KeywordElse,
            TokenKind::Ident(s) => SpecTokenKind::Ident(s@),
            TokenKind::BigInt(n) => SpecTokenKind::BigInt(n@),
            TokenKind::Plus => SpecTokenKind::Plus,
            TokenKind::Star => SpecTokenKind::Star,
            TokenKind::Minus => SpecTokenKind::Minus,
            TokenKind::Equal => SpecTokenKind::Equal,
            TokenKind::DoubleEqual => SpecTokenKind::DoubleEqual,
            TokenKind::TripleEqual => SpecTokenKind::TripleEqual,
            TokenKind::LArrow => SpecTokenKind::LArrow,
            TokenKind::ParenOpen => SpecTokenKind::ParenOpen,
            TokenKind::ParenClose => SpecTokenKind::ParenClose,
            TokenKind::Semi => SpecTokenKind::Semi,
            TokenKind::Comma => SpecTokenKind::Comma,
            TokenKind::Eof => SpecTokenKind::Eof,
        }
    }
}

/// A number for each kind of token, the same for all identifiers and for all numbers.
pub open spec fn kind_tag(k: SpecTokenKind) -> nat {
    match k {
        SpecTokenKind::KeywordSignal => 0,
        SpecTokenKind::KeywordInput => 1,
        SpecTokenKind::KeywordOutput => 2,
        SpecTokenKind::KeywordAssertBool => 3,
        SpecTokenKind::KeywordIf => 4,
        SpecTokenKind::KeywordThen => 5,
        SpecTokenKind::KeywordElse => 6,
        SpecTokenKind::Ident(_) => 7,
        SpecTokenKind::BigInt(_) => 8,
        SpecTokenKind::Plus => 9,
        SpecTokenKind::Star => 10,
        SpecTokenKind::Minus => 11,
        SpecTokenKind::Equal => 12,
        SpecTokenKind::DoubleEqual => 13,
        SpecTokenKind::TripleEqual => 14,
        SpecTokenKind::LArrow => 15,
        SpecTokenKind::ParenOpen => 16,
        SpecTokenKind::ParenClose => 17,
        SpecTokenKind::Semi => 18,
        SpecTokenKind::Comma => 19,
        SpecTokenKind::Eof => 20,
    }
}

/// How a token kind is written in messages: its text, the identifier itself,
/// the number in decimal, or `<eof>`.
pub open spec fn kind_text(k: SpecTokenKind) -> Seq<char> {
    match k {
        SpecTokenKind::KeywordSignal => "signal"@,
        SpecTokenKind::KeywordInput => "input"@,
        SpecTokenKind::KeywordOutput => "output"@,
        SpecTokenKind::KeywordAssertBool => "assert_bool"@,
        SpecTokenKind::KeywordIf => "if"@,
        SpecTokenKind::KeywordThen => "then"@,
        SpecTokenKind::KeywordElse => "else"@,
        SpecTokenKind::Ident(s) => s,
        SpecTokenKind::BigInt(n) => decimal_text(n),
        SpecTokenKind::Plus => "+"@,
        SpecTokenKind::Star => "*"@,
        SpecTokenKind::Minus => "-"@,
        SpecTokenKind::Equal => "="@,
        SpecTokenKind::DoubleEqual => "=="@,
        SpecTokenKind::TripleEqual => "==="@,
        SpecTokenKind::LArrow => "<=="@,
        SpecTokenKind::ParenOpen => "("@,
        SpecTokenKind::ParenClose => ")"@,
        SpecTokenKind::Semi => ";"@,
        SpecTokenKind::Comma => ","@,
        SpecTokenKind::Eof => "<eof>"@,
    }
}

impl TokenKind {
    /// The number of this kind of token (see `kind_tag`).
    pub fn tag(&self) -> (r: u8)
        ensures
            r as nat == kind_tag(self.model()),
    {
        match self {
            TokenKind::KeywordSignal => 0,
            TokenKind::KeywordInput => 1,
            TokenKind::KeywordOutput => 2,
            TokenKind::KeywordAssertBool => 3,
            TokenKind::KeywordIf => 4,
            TokenKind::KeywordThen => 5,
            TokenKind::KeywordElse => 6,
            TokenKind::Ident(_) => 7,
            TokenKind::BigInt(_) => 8,
            TokenKind::Plus => 9,
            TokenKind::Star => 10,
            TokenKind::Minus => 11,
            TokenKind::Equal => 12,
            TokenKind::DoubleEqual => 13,
            TokenKind::TripleEqual => 14,
            TokenKind::LArrow => 15,
            TokenKind::ParenOpen => 16,
            TokenKind::ParenClose => 17,
            TokenKind::Semi => 18,
            TokenKind::Comma => 19,
            TokenKind::Eof => 20,
        }
    }

    /// How this token kind is written in messages.
    pub fn render(&self) -> (r: String)
        ensures
            r@ == kind_text(self.model()),
    {
        match self {
            TokenKind::KeywordSignal => String::from_str("signal"),
            TokenKind::KeywordInput => String::from_str("input"),
            TokenKind::KeywordOutput => String::from_str("output"),
            TokenKind::KeywordAssertBool => String::from_str("assert_bool"),
            TokenKind::KeywordIf => String::from_str("if"),
            TokenKind::KeywordThen => String::from_str("then"),
            TokenKind::KeywordElse => String::from_str("else"),
            TokenKind::Ident(s) => s.clone(),
            TokenKind::BigInt(n) => n.to_decimal_string(),
            TokenKind::Plus => String::from_str("+"),
            TokenKind::Star => String::from_str("*"),
            TokenKind::Minus => String::from_str("-"),
            TokenKind::Equal => String::from_str("="),
            TokenKind::DoubleEqual => String::from_str("=="),
            TokenKind::TripleEqual => String::from_str("==="),
            TokenKind::LArrow => String::from_str("<=="),
            TokenKind::ParenOpen => String::from_str("("),
            TokenKind::ParenClose => String::from_str(")"),
            TokenKind::Semi => String::from_str(";"),
            TokenKind::Comma => String::from_str(","),
            TokenKind::Eof => String::from_str("<eof>"),
        }
    }
}

/// A token with the line and column (both from 1) where it starts.
#[derive(Debug)]
pub struct Token {
    pub kind: TokenKind,
    pub line: usize,
    pub col: usize,
}

/// The mathematical value of a token.
pub ghost struct SpecToken {
    pub kind: SpecTokenKind,
    pub line: nat,
    pub col: nat,
}

impl Token {
    /// The model of this token.
    pub open spec fn model(&self) -> SpecToken {
        SpecToken { kind: self.kind.model(), line: self.line as nat, col: self.col as nat }
    }

    /// The token `kind` at `line`, `col`.
    pub fn new(kind: TokenKind, line: usize, col: usize) -> (r: Token)
        ensures
            r.kind == kind,
            r.line == line,
            r.col == col,
    {
        Token { kind, line, col }
    }
}

/// Why lexing stopped.
pub ghost enum LexFailure {
    /// `<=` not followed by `=`.
    LessEqual,
    /// `<` not followed by `=`.
    Less,
    /// A character that starts no token.
    Character(char),
}

/// The message of the error for `f`.
pub open spec fn lex_failure_message(f: LexFailure) -> Seq<char> {
    match f {
        LexFailure::LessEqual => "unexpected token: <="@,
        LexFailure::Less => "unexpected token: <"@,
        LexFailure::Character(c) => "unexpected character: '"@ + seq![c] + "'"@,
    }
}

/// Space, tab, carriage return or newline.
pub open spec fn is_space(c: char) -> bool {
    c == ' ' || c == '\t' || c == '\r' || c == '\n'
}

/// An ASCII letter.
pub open spec fn is_ascii_letter(c: char) -> bool {
    (65 <= c as int <= 90) || (97 <= c as int <= 122)
}

/// A character that can start an identifier.
pub open spec fn is_ident_start(c: char) -> bool {
    is_ascii_letter(c) || c == '_'
}

/// A character that can continue an identifier.
pub open spec fn is_ident_continue(c: char) -> bool {
    is_ascii_letter(c) || is_decimal_digit(c) || c == '_'
}

/// The position after the spaces and `//` comments that start at `i`.
pub open spec fn skip_trivia(s: Seq<char>, i: int) -> int
    decreases s.len() - i,
{
    if 0 <= i < s.len() && is_space(s[i]) {
        skip_trivia(s, i + 1)
    } else if 0 <= i && i + 1 < s.len() && s[i] == '/' && s[i + 1] == '/' {
        skip_comment(s, i + 2)
    } else {
        i
    }
}

/// The position after the rest of a comment from `i` and the trivia after it.
pub open spec fn skip_comment(s: Seq<char>, i: int) -> int
    decreases s.len() - i,
{
    if 0 <= i < s.len() {
        if s[i] == '\n' {
            skip_trivia(s, i + 1)
        } else {
            skip_comment(s, i + 1)
        }
    } else {
        i
    }
}

/// The line and column of position `i`: both start at 1, a newline moves to
/// the next line's first column, any other character one column right.
pub open spec fn line_col(s: Seq<char>, i: int) -> (nat, nat)
    decreases i,
{
    if i <= 0 {
        (1, 1)
    } else {
        let (l, c) = line_col(s, i - 1);
        if s[i - 1] == '\n' {
            (l + 1, 1)
        } else {
            (l, c + 1)
        }
    }
}

/// The end of the run of decimal digits that starts at `i`.
pub open spec fn digits_end(s: Seq<char>, i: int) -> int
    decreases s.len() - i,
{
    if 0 <= i < s.len() && is_decimal_digit(s[i]) {
        digits_end(s, i + 1)
    } else {
        i
    }
}

/// The end of the run of identifier characters that starts at `i`.
pub open spec fn ident_end(s: Seq<char>, i: int) -> int
    decreases s.len() - i,
{
    if 0 <= i < s.len() && is_ident_continue(s[i]) {
        ident_end(s, i + 1)
    } else {
        i
    }
}

/// A keyword, or else an identifier.
pub open spec fn keyword_or_ident(w: Seq<char>) -> SpecTokenKind {
    if w == "signal"@ {
        SpecTokenKind::KeywordSignal
    } else if w == "input"@ {
        SpecTokenKind::KeywordInput
    } else if w == "output"@ {
        SpecTokenKind::KeywordOutput
    } else if w == "assert_bool"@ {
        SpecTokenKind::KeywordAssertBool
    } else if w == "if"@ {
        SpecTokenKind::KeywordIf
    } else if w == "then"@ {
        SpecTokenKind::KeywordThen
    } else if w == "else"@ {
        SpecTokenKind::KeywordElse
    } else {
        SpecTokenKind::Ident(w)
    }
}

/// The token that starts at `j` (longest match) and where it ends.
pub open spec fn token_at(s: Seq<char>, j: int) -> Result<(SpecTokenKind, int), LexFailure> {
    let c = s[j];
    if c == '+' {
        Ok((SpecTokenKind::Plus, j + 1))
    } else if c == '*' {
        Ok((SpecTokenKind::Star, j + 1))
    } else if c == '-' {
        Ok((SpecTokenKind::Minus, j + 1))
    } else if c == '(' {
        Ok((SpecTokenKind::ParenOpen, j + 1))
    } else if c == ')' {
        Ok((SpecTokenKind::ParenClose, j + 1))
    } else if c == ';' {
        Ok((SpecTokenKind::Semi, j + 1))
    } else if c == ',' {
        Ok((SpecTokenKind::Comma, j + 1))
    } else if c == '=' {
        if j + 1 < s.len() && s[j + 1] == '=' {
            if j + 2 < s.len() && s[j + 2] == '=' {
                Ok((SpecTokenKind::TripleEqual, j + 3))
            } else {
                Ok((SpecTokenKind::DoubleEqual, j + 2))
            }
        } else {
            Ok((SpecTokenKind::Equal, j + 1))
        }
    } else if c == '<' {
        if j + 1 < s.len() && s[j + 1] == '=' {
            if j + 2 < s.len() && s[j + 2] == '=' {
                Ok((SpecTokenKind::LArrow, j + 3))
            } else {
                Err(LexFailure::LessEqual)
            }
        } else {
            Err(LexFailure::Less)
        }
    } else if is_decimal_digit(c) {
        let e = digits_end(s, j);
        Ok((SpecTokenKind::BigInt(decimal_value(s.subrange(j, e))), e))
    } else if is_ident_start(c) {
        let e = ident_end(s, j);
        Ok((keyword_or_ident(s.subrange(j, e)), e))
    } else {
        Err(LexFailure::Character(c))
    }
}

/// Skipping trivia never moves backwards.
pub proof fn lemma_skip_trivia_forward(s: Seq<char>, i: int)
    requires
        0 <= i,
    ensures
        skip_trivia(s, i) >= i,
    decreases s.len() - i, 1int,
{
    if 0 <= i < s.len() && is_space(s[i]) {
        lemma_skip_trivia_forward(s, i + 1);
    } else if 0 <= i && i + 1 < s.len() && s[i] == '/' && s[i + 1] == '/' {
        lemma_skip_comment_forward(s, i + 2);
    }
}

/// Skipping the rest of a comment never moves backwards.
pub proof fn lemma_skip_comment_forward(s: Seq<char>, i: int)
    requires
        0 <= i,
    ensures
        skip_comment(s, i) >= i,
    decreases s.len() - i, 0int,
{
    if 0 <= i < s.len() {
        if s[i] == '\n' {
            lemma_skip_trivia_forward(s, i + 1);
        } else {
            lemma_skip_comment_forward(s, i + 1);
        }
    }
}

/// A run of digits ends after its start, and within the text.
pub proof fn lemma_digits_end(s: Seq<char>, i: int)
    requires
        0 <= i <= s.len(),
    ensures
        i <= digits_end(s, i) <= s.len(),
        i < s.len() && is_decimal_digit(s[i]) ==> digits_end(s, i) > i,
        forall|k: int| i <= k < digits_end(s, i) ==> is_decimal_digit(#[trigger] s[k]),
    decreases s.len() - i,
{
    if 0 <= i < s.len() && is_decimal_digit(s[i]) {
        lemma_digits_end(s, i + 1);
    }
}

/// A run of identifier characters ends after its start, and within the text.
pub proof fn lemma_ident_end(s: Seq<char>, i: int)
    requires
        0 <= i <= s.len(),
    ensures
        i <= ident_end(s, i) <= s.len(),
        i < s.len() && is_ident_continue(s[i]) ==> ident_end(s, i) > i,
    decreases s.len() - i,
{
    if 0 <= i < s.len() && is_ident_continue(s[i]) {
        lemma_ident_end(s, i + 1);
    }
}

/// A token ends after it starts, and within the text.
pub proof fn lemma_token_at_advances(s: Seq<char>, j: int)
    requires
        0 <= j < s.len(),
    ensures
        token_at(s, j) matches Ok((_, e)) ==> j < e <= s.len(),
{
    lemma_digits_end(s, j);
    lemma_ident_end(s, j);
}

/// The tokens from position `i` on, each with its start position, ending in
/// `Eof` at the end of the text; or why and where lexing stops.
pub open spec fn lex_from(s: Seq<char>, i: int) -> Result<Seq<(SpecTokenKind, int)>, (LexFailure, int)>
    decreases s.len() - i,
{
    if i < 0 {
        Ok(seq![(SpecTokenKind::Eof, i)])
    } else {
        let j = skip_trivia(s, i);
        if j >= s.len() {
            Ok(seq![(SpecTokenKind::Eof, j)])
        } else {
            proof {
                lemma_skip_trivia_forward(s, i);
                lemma_token_at_advances(s, j);
            }
            match token_at(s, j) {
                Err(f) => Err((f, j)),
                Ok((k, e)) => match lex_from(s, e) {
                    Ok(rest) => Ok(seq![(k, j)] + rest),
                    Err(x) => Err(x),
                },
            }
        }
    }
}

/// Lexing that succeeds ends with exactly one `Eof`, as the last token.
pub proof fn lemma_lex_ends_with_eof(s: Seq<char>, i: int)
    ensures
        lex_from(s, i) matches Ok(toks) ==> toks.len() > 0 && toks.last().0 == SpecTokenKind::Eof,
    decreases s.len() - i,
{
    if i >= 0 {
        let j = skip_trivia(s, i);
        if j < s.len() {
            lemma_skip_trivia_forward(s, i);
            lemma_token_at_advances(s, j);
            if let Ok((k, e)) = token_at(s, j) {
                lemma_lex_ends_with_eof(s, e);
                if let Ok(rest) = lex_from(s, e) {
                    assert((seq![(k, j)] + rest).last() == rest.last());
                }
            }
        }
    }
}

/// Tokens with their start positions turned into lines and columns.
pub open spec fn located(s: Seq<char>, toks: Seq<(SpecTokenKind, int)>) -> Seq<SpecToken> {
    toks.map_values(
        |t: (SpecTokenKind, int)|
            SpecToken { kind: t.0, line: line_col(s, t.1).0, col: line_col(s, t.1).1 },
    )
}

/// `tokens` followed by the tokens of `rest`, or the failure of `rest`.
pub open spec fn prepend(
    tokens: Seq<(SpecTokenKind, int)>,
    rest: Result<Seq<(SpecTokenKind, int)>, (LexFailure, int)>,
) -> Result<Seq<(SpecTokenKind, int)>, (LexFailure, int)> {
    match rest {
        Ok(r) => Ok(tokens + r),
        Err(x) => Err(x),
    }
}

/// Locating one more token appends its located form.
proof fn lemma_located_push(s: Seq<char>, prefix: Seq<(SpecTokenKind, int)>, item: (SpecTokenKind, int))
    ensures
        located(s, prefix.push(item)) == located(s, prefix).push(
            SpecToken { kind: item.0, line: line_col(s, item.1).0, col: line_col(s, item.1).1 },
        ),
{
    assert(located(s, prefix.push(item)) =~= located(s, prefix).push(
        SpecToken { kind: item.0, line: line_col(s, item.1).0, col: line_col(s, item.1).1 },
    ));
}

/// A line or column number never exceeds the position plus one.
proof fn lemma_line_col_bound(s: Seq<char>, i: int)
    requires
        0 <= i,
    ensures
        line_col(s, i).0 <= i + 1,
        line_col(s, i).1 <= i + 1,
    decreases i,
{
    if i > 0 {
        lemma_line_col_bound(s, i - 1);
    }
}

/// `String::push`.
#[verifier::external_body]
fn push_char(s: &mut String, c: char)
    ensures
        final(s)@ == old(s)@.push(c),
{
    s.push(c);
}

fn char_is_digit(c: char) -> (r: bool)
    ensures
        r == is_decimal_digit(c),
{
    let v = c as u32;
    48 <= v && v <= 57
}

fn char_is_letter(c: char) -> (r: bool)
    ensures
        r == is_ascii_letter(c),
{
    let v = c as u32;
    (65 <= v && v <= 90) || (97 <= v && v <= 122)
}

/// A lexer over a text: a position in it and that position's line and column.
pub struct Lexer {
    source: Vec<char>,
    pos: usize,
    line: usize,
    col: usize,
}

impl Lexer {
    /// The characters of the text.
    pub closed spec fn chars(&self) -> Seq<char> {
        self.source@
    }

    /// The position of the next character to read.
    pub closed spec fn position(&self) -> int {
        self.pos as int
    }

    /// The position is within the text, the line and column are those of the
    /// position, and they can grow to the end of the text.
    pub closed spec fn wf(&self) -> bool {
        &&& self.pos <= self.source@.len()
        &&& self.source@.len() + 2 < usize::MAX
        &&& (self.line as nat, self.col as nat) == line_col(self.source@, self.pos as int)
    }

    /// A lexer at the start of `source`.
    pub fn new(source: &str) -> (r: Lexer)
        requires
            source@.len() + 2 < usize::MAX,
        ensures
            r.wf(),
            r.chars() == source@,
            r.position() == 0,
    {
        let mut chars: Vec<char> = Vec::new();
        for c in it: source.chars()
            invariant
                it.seq() == source@,
                chars@ == it.seq().take(it.index()),
        {
            let ghost i = it.index();
            assert(it.seq().take(i + 1) =~= it.seq().take(i).push(c));
            chars.push(c);
        }
        assert(source@.take(source@.len() as int) =~= source@);
        Lexer { source: chars, pos: 0, line: 1, col: 1 }
    }

    fn peek(&self) -> (r: Option<char>)
        requires
            self.wf(),
        ensures
            r == if self.pos < self.source@.len() {
                Some(self.source@[self.pos as int])
            } else {
                None::<char>
            },
    {
        if self.pos < self.source.len() {
            Some(self.source[self.pos])
        } else {
            None
        }
    }

    fn advance(&mut self) -> (r: Option<char>)
        requires
            old(self).wf(),
        ensures
            final(self).wf(),
            final(self).source@ == old(self).source@,
            old(self).pos < old(self).source@.len() ==> final(self).pos == old(self).pos + 1 && r
                == Some(old(self).source@[old(self).pos as int]),
            old(self).pos >= old(self).source@.len() ==> final(self).pos == old(self).pos && r
                is None,
    {
        if self.pos < self.source.len() {
            let c = self.source[self.pos];
            proof {
                lemma_line_col_bound(self.source@, self.pos as int);
            }
            self.pos = self.pos + 1;
            if c == '\n' {
                self.line = self.line + 1;
                self.col = 1;
            } else {
                self.col = self.col + 1;
            }
            Some(c)
        } else {
            None
        }
    }

    fn peek_ahead(&self, offset: usize) -> (r: Option<char>)
        requires
            self.wf(),
            offset <= 2,
        ensures
            r == if self.pos + offset < self.source@.len() {
                Some(self.source@[self.pos + offset])
            } else {
                None::<char>
            },
    {
        let at = self.pos + offset;
        if at < self.source.len() {
            Some(self.source[at])
        } else {
            None
        }
    }

    fn skip_whitespace_and_comments(&mut self)
        requires
            old(self).wf(),
        ensures
            final(self).wf(),
            final(self).source@ == old(self).source@,
            final(self).pos == skip_trivia(old(self).source@, old(self).pos as int),
    {
        let ghost s = self.source@;
        let ghost target = skip_trivia(s, self.pos as int);
        loop
            invariant
                self.wf(),
                s == old(self).source@,
                target == skip_trivia(old(self).source@, old(self).pos as int),
                self.source@ == s,
                target == skip_trivia(s, self.pos as int),
            decreases s.len() - self.pos,
        {
            match self.peek() {
                Some(c) => {
                    if c == ' ' || c == '\t' || c == '\r' || c == '\n' {
                        self.advance();
                    } else {
                        let is_comment = c == '/' && match self.peek_ahead(1) {
                            Some(d) => d == '/',
                            None => false,
                        };
                        if is_comment {
                            let ghost start = self.pos as int;
                            assert(skip_comment(s, start + 1) == skip_comment(s, start + 2));
                            assert(skip_comment(s, start) == skip_comment(s, start + 1));
                            loop
                                invariant
                                    self.wf(),
                                    self.source@ == s,
                                    target == skip_comment(s, self.pos as int),
                                    self.pos >= start,
                                    0 <= start < s.len(),
                                    s[start] == '/',
                                ensures
                                    self.wf(),
                                    self.source@ == s,
                                    target == skip_comment(s, self.pos as int),
                                    self.pos > start,
                                    self.pos == s.len() || s[self.pos as int] == '\n',
                                decreases s.len() - self.pos,
                            {
                                match self.peek() {
                                    Some(d) => {
                                        if d == '\n' {
                                            break;
                                        }
                                        self.advance();
                                    },
                                    None => break,
                                }
                            }
                            assert(target == skip_trivia(s, self.pos as int));
                        } else {
                            return;
                        }
                    }
                },
                None => return,
            }
        }
    }

    /// Reads the token at the current position, which holds a character.
    fn lex_token(&mut self) -> (r: Result<TokenKind, CompileError>)
        requires
            old(self).wf(),
            old(self).pos < old(self).source@.len(),
        ensures
            final(self).wf(),
            final(self).source@ == old(self).source@,
            match token_at(old(self).source@, old(self).pos as int) {
                Ok((k, e)) => r matches Ok(t) && t.model() == k && final(self).pos == e,
                Err(f) => r matches Err(CompileError::LexerError { line, col, message })
                    && line == old(self).line && col == old(self).col
                    && message@ == lex_failure_message(f),
            },
    {
        let ghost s = self.source@;
        let ghost j = self.pos as int;
        let ch = self.source[self.pos];
        if ch == '+' {
            self.advance();
            Ok(TokenKind::Plus)
        } else if ch == '*' {
            self.advance();
            Ok(TokenKind::Star)
        } else if ch == '-' {
            self.advance();
            Ok(TokenKind::Minus)
        } else if ch == '(' {
            self.advance();
            Ok(TokenKind::ParenOpen)
        } else if ch == ')' {
            self.advance();
            Ok(TokenKind::ParenClose)
        } else if ch == ';' {
            self.advance();
            Ok(TokenKind::Semi)
        } else if ch == ',' {
            self.advance();
            Ok(TokenKind::Comma)
        } else if ch == '=' {
            self.advance();
            if self.peek() == Some('=') {
                self.advance();
                if self.peek() == Some('=') {
                    self.advance();
                    Ok(TokenKind::TripleEqual)
                } else {
                    Ok(TokenKind::DoubleEqual)
                }
            } else {
                Ok(TokenKind::Equal)
            }
        } else if ch == '<' {
            let err_line = self.line;
            let err_col = self.col;
            self.advance();
            if self.peek() == Some('=') {
                self.advance();
                if self.peek() == Some('=') {
                    self.advance();
                    Ok(TokenKind::LArrow)
                } else {
                    Err(
                        CompileError::LexerError {
                            line: err_line,
                            col: err_col,
                            message: String::from_str("unexpected token: <="),
                        },
                    )
                }
            } else {
                Err(
                    CompileError::LexerError {
                        line: err_line,
                        col: err_col,
                        message: String::from_str("unexpected token: <"),
                    },
                )
            }
        } else if char_is_digit(ch) {
            let mut num_str = String::new();
            proof {
                lemma_digits_end(s, j);
            }
            loop
                invariant
                    self.wf(),
                    self.source@ == s,
                    0 <= j < s.len(),
                    j <= self.pos <= digits_end(s, j),
                    digits_end(s, j) == digits_end(s, self.pos as int),
                    num_str@ == s.subrange(j, self.pos as int),
                ensures
                    self.wf(),
                    self.source@ == s,
                    self.pos == digits_end(s, j),
                    num_str@ == s.subrange(j, self.pos as int),
                decreases s.len() - self.pos,
            {
                let more = match self.peek() {
                    Some(c) => char_is_digit(c),
                    None => false,
                };
                if !more {
                    break;
                }
                let c = self.advance().unwrap();
                proof {
                    lemma_digits_end(s, self.pos as int);
                }
                push_char(&mut num_str, c);
                assert(num_str@ =~= s.subrange(j, self.pos as int));
            }
            assert forall|i: int| 0 <= i < num_str@.len() implies is_decimal_digit(#[trigger] num_str@[i]) by {
                assert(num_str@[i] == s[j + i]);
            }
            let n = Natural::parse_decimal(num_str.as_str());
            Ok(TokenKind::BigInt(n))
        } else if char_is_letter(ch) || ch == '_' {
            let mut ident = String::new();
            proof {
                lemma_ident_end(s, j);
            }
            loop
                invariant
                    self.wf(),
                    self.source@ == s,
                    0 <= j < s.len(),
                    j <= self.pos <= ident_end(s, j),
                    ident_end(s, j) == ident_end(s, self.pos as int),
                    ident@ == s.subrange(j, self.pos as int),
                ensures
                    self.wf(),
                    self.source@ == s,
                    self.pos == ident_end(s, j),
                    ident@ == s.subrange(j, self.pos as int),
                decreases s.len() - self.pos,
            {
                let more = match self.peek() {
                    Some(c) => char_is_letter(c) || char_is_digit(c) || c == '_',
                    None => false,
                };
                if !more {
                    break;
                }
                let c = self.advance().unwrap();
                proof {
                    lemma_ident_end(s, self.pos as int);
                }
                push_char(&mut ident, c);
                assert(ident@ =~= s.subrange(j, self.pos as int));
            }
            if ident == String::from_str("signal") {
                Ok(TokenKind::KeywordSignal)
            } else if ident == String::from_str("input") {
                Ok(TokenKind::KeywordInput)
            } else if ident == String::from_str("output") {
                Ok(TokenKind::KeywordOutput)
            } else if ident == String::from_str("assert_bool") {
                Ok(TokenKind::KeywordAssertBool)
            } else if ident == String::from_str("if") {
                Ok(TokenKind::KeywordIf)
            } else if ident == String::from_str("then") {
                Ok(TokenKind::KeywordThen)
            } else if ident == String::from_str("else") {
                Ok(TokenKind::KeywordElse)
            } else {
                Ok(TokenKind::Ident(ident))
            }
        } else {
            let err_line = self.line;
            let err_col = self.col;
            self.advance();
            let mut message = String::from_str("unexpected character: '");
            push_char(&mut message, ch);
            message.append("'");
            Err(CompileError::LexerError { line: err_line, col: err_col, message })
        }
    }

    /// Reads all tokens from the current position on, ending with `Eof`.
    pub fn tokenize(&mut self) -> (r: Result<Vec<Token>, CompileError>)
        requires
            old(self).wf(),
        ensures
            final(self).wf(),
            final(self).chars() == old(self).chars(),
            match lex_from(old(self).chars(), old(self).position()) {
                Ok(toks) => r matches Ok(v) && v@.map_values(|t: Token| t.model()) == located(
                    old(self).chars(),
                    toks,
                ),
                Err((f, j)) => r matches Err(CompileError::LexerError { line, col, message })
                    && line == line_col(old(self).chars(), j).0 && col == line_col(
                    old(self).chars(),
                    j,
                ).1 && message@ == lex_failure_message(f),
            },
    {
        let ghost s = self.source@;
        let ghost start = self.pos as int;
        let mut tokens: Vec<Token> = Vec::new();
        let ghost mut prefix: Seq<(SpecTokenKind, int)> = Seq::empty();
        assert(prepend(prefix, lex_from(s, start)) =~= lex_from(s, start)) by {
            match lex_from(s, start) {
                Ok(r) => assert(prefix + r =~= r),
                Err(_) => {},
            }
        }
        assert(tokens@.map_values(|t: Token| t.model()) =~= located(s, prefix));
        loop
            invariant_except_break
                lex_from(s, start) == prepend(prefix, lex_from(s, self.pos as int)),
            invariant
                self.wf(),
                self.source@ == s,
                s == old(self).source@,
                start == old(self).pos,
                0 <= start,
                tokens@.map_values(|t: Token| t.model()) == located(s, prefix),
            ensures
                self.wf(),
                self.source@ == s,
                lex_from(s, start) == Ok::<Seq<(SpecTokenKind, int)>, (LexFailure, int)>(prefix),
                tokens@.map_values(|t: Token| t.model()) == located(s, prefix),
            decreases s.len() - self.pos,
        {
            let ghost here = self.pos as int;
            self.skip_whitespace_and_comments();
            let line = self.line;
            let col = self.col;
            let ghost j = self.pos as int;
            proof {
                lemma_skip_trivia_forward(s, here);
            }
            if self.pos >= self.source.len() {
                let ghost old_tokens = tokens@;
                let tok = Token::new(TokenKind::Eof, line, col);
                tokens.push(tok);
                proof {
                    let item = (SpecTokenKind::Eof, j);
                    assert(lex_from(s, here) == Ok::<Seq<(SpecTokenKind, int)>, (LexFailure, int)>(seq![item]));
                    assert(prefix + seq![item] =~= prefix.push(item));
                    lemma_located_push(s, prefix, item);
                    assert(tokens@ =~= old_tokens.push(tok));
                    assert(tokens@.map_values(|t: Token| t.model()) =~= old_tokens.map_values(|t: Token| t.model()).push(tok.model()));
                    prefix = prefix.push(item);
                }
                break;
            }
            proof {
                lemma_token_at_advances(s, j);
            }
            match self.lex_token() {
                Ok(kind) => {
                    let ghost k = kind.model();
                    let ghost old_tokens = tokens@;
                    let tok = Token::new(kind, line, col);
                    tokens.push(tok);
                    proof {
                        lemma_located_push(s, prefix, (k, j));
                        assert(tokens@ =~= old_tokens.push(tok));
                        assert(tokens@.map_values(|t: Token| t.model()) =~= old_tokens.map_values(|t: Token| t.model()).push(tok.model()));
                        let item = (k, j);
                        let rest = lex_from(s, self.pos as int);
                        assert(prepend(prefix, lex_from(s, here)) == prepend(prefix.push(item), rest)) by {
                            match rest {
                                Ok(r) => assert(prefix + (seq![item] + r) =~= prefix.push(item) + r),
                                Err(_) => {},
                            }
                        }
                        prefix = prefix.push(item);
                    }
                },
                Err(e) => {
                    return Err(e);
                },
            }
        }
        Ok(tokens)
    }
}

} // verus!
