//! Lexer: converts Jabr source text into a flat stream of tokens.
//!
//! A single-pass scanner that walks the source character by character and
//! emits tokens with line/column tracking for error reporting. What it
//! produces is stated by the spec function `lex`, which reads the source
//! as a sequence of characters.
use vstd::prelude::*;
use vstd::string::StringExecFns;
use vstd::string::StrSliceExecFns;
use crate::text::{decimal, decimal_text, push_char, string_from_chars};
use crate::token::{SpecToken, SpecTokenKind, Token, TokenKind, tokens_view};

verus! {

// ── Character classes ────────────────────────────────────────────────

/// Whether `char::is_alphabetic` holds of `c` (the Unicode Alphabetic property).
pub uninterp spec fn char_is_alphabetic(c: char) -> bool;

/// Whether `char::is_alphanumeric` holds of `c` (Alphabetic or a numeric category).
pub uninterp spec fn char_is_alphanumeric(c: char) -> bool;

/// An ASCII character: code point below 128.
pub open spec fn is_ascii_char(c: char) -> bool {
    (c as u32) < 128
}

/// An ASCII letter.
pub open spec fn is_ascii_letter(c: char) -> bool {
    ('a' <= c && c <= 'z') || ('A' <= c && c <= 'Z')
}

/// Trusted: calls `char::is_alphabetic`, which holds of the chars with the
/// Unicode Alphabetic property; the result is named `char_is_alphabetic`,
/// since the Unicode tables behind it take pages. Among ASCII chars that
/// property holds of the letters alone, and the contract says so.
#[verifier::external_body]
fn is_alphabetic(c: char) -> (res: bool)
    ensures
        res == char_is_alphabetic(c),
        is_ascii_char(c) ==> res == is_ascii_letter(c),
{
    c.is_alphabetic()
}

/// Trusted: calls `char::is_alphanumeric`, which holds of the chars that
/// `is_alphabetic` or `is_numeric` (Unicode number categories) holds of; the
/// result is named `char_is_alphanumeric`. The contract says that it holds
/// of every char that `is_alphabetic` holds of, and that among ASCII chars it
/// holds of the letters and the digits alone.
#[verifier::external_body]
fn is_alphanumeric(c: char) -> (res: bool)
    ensures
        res == char_is_alphanumeric(c),
        char_is_alphabetic(c) ==> res,
        is_ascii_char(c) ==> res == (is_ascii_letter(c) || is_digit(c)),
{
    c.is_alphanumeric()
}

pub open spec fn is_space(c: char) -> bool {
    c == ' ' || c == '\t' || c == '\r' || c == '\n'
}

pub open spec fn is_digit(c: char) -> bool {
    '0' <= c && c <= '9'
}

/// A character that may start an identifier or keyword: an alphabetic
/// character (among ASCII ones, a letter) or `_`.
pub open spec fn is_ident_start(c: char) -> bool {
    if is_ascii_char(c) {
        is_ascii_letter(c) || c == '_'
    } else {
        char_is_alphabetic(c)
    }
}

/// A character that may continue an identifier or keyword: an alphanumeric
/// character (among ASCII ones, a letter or a digit) or `_`.
pub open spec fn is_ident_continue(c: char) -> bool {
    if is_ascii_char(c) {
        is_ascii_letter(c) || is_digit(c) || c == '_'
    } else {
        char_is_alphanumeric(c)
    }
}

// ── Positions ────────────────────────────────────────────────────────

/// The 1-based (line, column) of index `i` in `s`: each newline starts a
/// new line at column 1, every other character moves one column on.
pub open spec fn line_col(s: Seq<char>, i: int) -> (int, int)
    decreases i,
{
    if i <= 0 {
        (1, 1)
    } else {
        let (l, c) = line_col(s, i - 1);
        if s[i - 1] == '\n' {
            (l + 1, 1)
        } else {
            (l, c + 1)
        }
    }
}

/// The index at which a line comment starting at `i` ends: the next newline,
/// or the end of the source.
pub open spec fn comment_end(s: Seq<char>, i: int) -> int
    decreases s.len() - i,
{
    if i < 0 || i >= s.len() || s[i] == '\n' {
        i
    } else {
        comment_end(s, i + 1)
    }
}

/// The first index at or after `i` that is neither whitespace nor inside a
/// `//` comment.
pub open spec fn skip_trivia(s: Seq<char>, i: int) -> int
    decreases s.len() - i,
{
    if 0 <= i < s.len() && is_space(s[i]) {
        skip_trivia(s, i + 1)
    } else if 0 <= i && i + 1 < s.len() && s[i] == '/' && s[i + 1] == '/' {
        proof {
            lemma_comment_end(s, i + 1);
        }
        skip_trivia(s, comment_end(s, i + 1))
    } else {
        i
    }
}

/// The end of a number literal whose next character is at `i`: digits, and at
/// most one `.` that is followed by a digit.
pub open spec fn number_end(s: Seq<char>, i: int, has_dot: bool) -> int
    decreases s.len() - i,
{
    if 0 <= i < s.len() && is_digit(s[i]) {
        number_end(s, i + 1, has_dot)
    } else if 0 <= i && i + 1 < s.len() && s[i] == '.' && !has_dot && is_digit(s[i + 1]) {
        number_end(s, i + 1, true)
    } else {
        i
    }
}

/// The end of the identifier characters that follow index `i`.
pub open spec fn ident_end(s: Seq<char>, i: int) -> int
    decreases s.len() - i,
{
    if 0 <= i < s.len() && is_ident_continue(s[i]) {
        ident_end(s, i + 1)
    } else {
        i
    }
}

// ── Token texts ──────────────────────────────────────────────────────

/// The character that an escape sequence `\c` stands for.
pub open spec fn unescape(c: char) -> char {
    if c == 'n' {
        '\n'
    } else if c == 't' {
        '\t'
    } else {
        c
    }
}

/// The body of a string literal whose characters start at `i` (just after the
/// opening quote): the characters it stands for, and the index just after the
/// closing quote; or the error message.
pub open spec fn string_body(s: Seq<char>, i: int) -> Result<(Seq<char>, int), Seq<char>>
    decreases s.len() - i,
{
    if i < 0 || i >= s.len() {
        Err("Unterminated string literal"@)
    } else if s[i] == '"' {
        Ok((Seq::empty(), i + 1))
    } else if s[i] == '\\' {
        if i + 1 >= s.len() {
            Err("Unterminated string escape"@)
        } else {
            match string_body(s, i + 2) {
                Ok((b, e)) => Ok((seq![unescape(s[i + 1])] + b, e)),
                Err(m) => Err(m),
            }
        }
    } else {
        match string_body(s, i + 1) {
            Ok((b, e)) => Ok((seq![s[i]] + b, e)),
            Err(m) => Err(m),
        }
    }
}

/// The token kind of a word: a keyword, or else an identifier.
pub open spec fn word_kind(w: Seq<char>) -> SpecTokenKind {
    if w == "let"@ {
        SpecTokenKind::Let
    } else if w == "fn"@ {
        SpecTokenKind::Fn
    } else if w == "print"@ {
        SpecTokenKind::Print
    } else if w == "return"@ {
        SpecTokenKind::Return
    } else if w == "true"@ {
        SpecTokenKind::True
    } else if w == "false"@ {
        SpecTokenKind::False
    } else if w == "if"@ {
        SpecTokenKind::If
    } else if w == "else"@ {
        SpecTokenKind::Else
    } else if w == "while"@ {
        SpecTokenKind::While
    } else if w == "and"@ {
        SpecTokenKind::And
    } else if w == "or"@ {
        SpecTokenKind::Or
    } else {
        SpecTokenKind::Ident(w)
    }
}

/// The message for a character that starts no token.
pub open spec fn unexpected_char_message(c: char, line: int, col: int) -> Seq<char> {
    "Unexpected character '"@ + seq![c] + "' at "@ + decimal(line as nat) + seq![':'] + decimal(
        col as nat,
    )
}

/// An operator or delimiter that starts at `i`: its kind and its end, or
/// `None` where the character at `i` starts no such token.
pub open spec fn punct(s: Seq<char>, i: int) -> Option<(SpecTokenKind, int)> {
    let c = s[i];
    let eq_next = i + 1 < s.len() && s[i + 1] == '=';
    if c == '+' {
        Some((SpecTokenKind::Plus, i + 1))
    } else if c == '-' {
        Some((SpecTokenKind::Minus, i + 1))
    } else if c == '*' {
        Some((SpecTokenKind::Star, i + 1))
    } else if c == '/' {
        Some((SpecTokenKind::Slash, i + 1))
    } else if c == '%' {
        Some((SpecTokenKind::Percent, i + 1))
    } else if c == '(' {
        Some((SpecTokenKind::LParen, i + 1))
    } else if c == ')' {
        Some((SpecTokenKind::RParen, i + 1))
    } else if c == '{' {
        Some((SpecTokenKind::LBrace, i + 1))
    } else if c == '}' {
        Some((SpecTokenKind::RBrace, i + 1))
    } else if c == ',' {
        Some((SpecTokenKind::Comma, i + 1))
    } else if c == ';' {
        Some((SpecTokenKind::Semicolon, i + 1))
    } else if c == ':' {
        Some((SpecTokenKind::Colon, i + 1))
    } else if c == '=' {
        if eq_next {
            Some((SpecTokenKind::EqEq, i + 2))
        } else {
            Some((SpecTokenKind::Assign, i + 1))
        }
    } else if c == '!' {
        if eq_next {
            Some((SpecTokenKind::BangEq, i + 2))
        } else {
            Some((SpecTokenKind::Bang, i + 1))
        }
    } else if c == '<' {
        if eq_next {
            Some((SpecTokenKind::LtEq, i + 2))
        } else {
            Some((SpecTokenKind::Lt, i + 1))
        }
    } else if c == '>' {
        if eq_next {
            Some((SpecTokenKind::GtEq, i + 2))
        } else {
            Some((SpecTokenKind::Gt, i + 1))
        }
    } else {
        None
    }
}

/// The token that starts at index `i` (0 <= i < s.len()): its kind and the
/// index just after it, or the error message.
pub open spec fn scan_token(s: Seq<char>, i: int) -> Result<(SpecTokenKind, int), Seq<char>> {
    let c = s[i];
    if is_digit(c) {
        let e = number_end(s, i, false);
        Ok((SpecTokenKind::Number(s.subrange(i, e)), e))
    } else if c == '"' {
        match string_body(s, i + 1) {
            Ok((b, e)) => Ok((SpecTokenKind::String(b), e)),
            Err(m) => Err(m),
        }
    } else if is_ident_start(c) {
        let e = ident_end(s, i + 1);
        Ok((word_kind(s.subrange(i, e)), e))
    } else {
        match punct(s, i) {
            Some((k, e)) => Ok((k, e)),
            None => Err(unexpected_char_message(c, line_col(s, i).0, line_col(s, i).1)),
        }
    }
}

/// The tokens of `s` from index `i` on, ending with one `Eof`; or the message
/// of the first error.
pub open spec fn lex(s: Seq<char>, i: int) -> Result<Seq<SpecToken>, Seq<char>>
    decreases s.len() - i,
{
    if i < 0 || i > s.len() {
        Err(Seq::empty())
    } else {
        let j = skip_trivia(s, i);
        let (l, c) = line_col(s, j);
        if j >= s.len() {
            Ok(seq![SpecToken { kind: SpecTokenKind::Eof, line: l, col: c }])
        } else {
            match scan_token(s, j) {
                Err(m) => Err(m),
                Ok((k, e)) => {
                    proof {
                        lemma_skip_trivia(s, i);
                        lemma_scan_token(s, j);
                    }
                    match lex(s, e) {
                        Ok(rest) => Ok(seq![SpecToken { kind: k, line: l, col: c }] + rest),
                        Err(m) => Err(m),
                    }
                },
            }
        }
    }
}

/// Lexing, when it succeeds, ends with exactly one end-of-input token, and
/// that token is the last.
pub proof fn lemma_lex_ends_with_eof(s: Seq<char>, i: int)
    requires
        0 <= i <= s.len(),
    ensures
        lex(s, i) matches Ok(toks) ==> {
            &&& toks.len() > 0
            &&& toks[toks.len() - 1].kind is Eof
            &&& forall|j: int| 0 <= j < toks.len() - 1 ==> !(#[trigger] toks[j].kind is Eof)
        },
    decreases s.len() - i,
{
    lemma_skip_trivia(s, i);
    let j = skip_trivia(s, i);
    if j < s.len() {
        lemma_scan_token(s, j);
        if let Ok((k, e)) = scan_token(s, j) {
            lemma_ident_end(s, j + 1);
            lemma_lex_ends_with_eof(s, e);
            if let Ok(rest) = lex(s, e) {
                let (l, c) = line_col(s, j);
                let toks = seq![SpecToken { kind: k, line: l, col: c }] + rest;
                assert(lex(s, i) == Ok::<Seq<SpecToken>, Seq<char>>(toks));
                assert forall|m: int| 0 <= m < toks.len() - 1 implies !(#[trigger] toks[m].kind is Eof) by {
                    if m > 0 {
                        assert(toks[m] == rest[m - 1]);
                    }
                }
            }
        }
    }
}

/// Position `a` (line, column) comes before position `b`.
pub open spec fn pos_before(a: (int, int), b: (int, int)) -> bool {
    a.0 < b.0 || (a.0 == b.0 && a.1 < b.1)
}

/// The (line, column) at which a token starts.
pub open spec fn token_pos(t: SpecToken) -> (int, int) {
    (t.line, t.col)
}

/// Later indices have later positions.
pub proof fn lemma_line_col_increasing(s: Seq<char>, i: int, j: int)
    requires
        0 <= i < j,
    ensures
        pos_before(line_col(s, i), line_col(s, j)),
    decreases j - i,
{
    if i + 1 < j {
        lemma_line_col_increasing(s, i, j - 1);
    }
}

/// The tokens come in source order: each starts at a later line and column
/// than the one before, and none before the index lexing starts from.
pub proof fn lemma_lex_in_source_order(s: Seq<char>, i: int)
    requires
        0 <= i <= s.len(),
    ensures
        lex(s, i) matches Ok(toks) ==> {
            &&& forall|k: int| 0 <= k < toks.len() ==> !pos_before(#[trigger] token_pos(toks[k]), line_col(s, i))
            &&& forall|j: int, k: int| 0 <= j < k < toks.len() ==> pos_before(
                #[trigger] token_pos(toks[j]),
                #[trigger] token_pos(toks[k]),
            )
        },
    decreases s.len() - i,
{
    lemma_skip_trivia(s, i);
    let j0 = skip_trivia(s, i);
    if i < j0 {
        lemma_line_col_increasing(s, i, j0);
    }
    if j0 < s.len() {
        lemma_scan_token(s, j0);
        if let Ok((k0, e)) = scan_token(s, j0) {
            lemma_lex_in_source_order(s, e);
            lemma_line_col_increasing(s, j0, e);
            if i < j0 {
                lemma_line_col_increasing(s, i, e);
            }
            if let Ok(rest) = lex(s, e) {
                let first = SpecToken { kind: k0, line: line_col(s, j0).0, col: line_col(s, j0).1 };
                let toks = seq![first] + rest;
                assert(lex(s, i) == Ok::<Seq<SpecToken>, Seq<char>>(toks));
                assert forall|k: int| 0 <= k < toks.len() implies !pos_before(
                    #[trigger] token_pos(toks[k]),
                    line_col(s, i),
                ) by {
                    if k > 0 {
                        assert(toks[k] == rest[k - 1]);
                        assert(!pos_before(token_pos(rest[k - 1]), line_col(s, e)));
                    }
                }
                assert forall|a: int, b: int| 0 <= a < b < toks.len() implies pos_before(
                    #[trigger] token_pos(toks[a]),
                    #[trigger] token_pos(toks[b]),
                ) by {
                    assert(toks[b] == rest[b - 1]);
                    assert(!pos_before(token_pos(rest[b - 1]), line_col(s, e)));
                    if a > 0 {
                        assert(toks[a] == rest[a - 1]);
                        assert(pos_before(token_pos(rest[a - 1]), token_pos(rest[b - 1])));
                    }
                }
            }
        }
    }
}

/// What `line_col` means: the line is one more than the number of newlines
/// before index `i`, and the column is one more than the number of characters
/// between the last of those newlines (or the start) and `i`.
pub proof fn lemma_line_col_meaning(s: Seq<char>, i: int)
    requires
        0 <= i <= s.len(),
    ensures
        line_col(s, i).0 == 1 + newline_count(s, i),
        exists|j: int| #[trigger] line_starts_at(s, j, i) && line_col(s, i).1 == i - j + 1,
    decreases i,
{
    if i > 0 {
        lemma_line_col_meaning(s, i - 1);
        if s[i - 1] == '\n' {
            assert(line_starts_at(s, i, i));
        } else {
            let j = choose|j: int|
                #[trigger] line_starts_at(s, j, i - 1) && line_col(s, i - 1).1 == i - 1 - j + 1;
            assert(line_starts_at(s, j, i));
        }
    } else {
        assert(line_starts_at(s, 0, i));
    }
}

/// Index `j` starts the line that index `i` lies on: it is the start of the
/// source or follows a newline, and no newline lies from `j` up to `i`.
pub open spec fn line_starts_at(s: Seq<char>, j: int, i: int) -> bool {
    &&& 0 <= j <= i
    &&& (j == 0 || s[j - 1] == '\n')
    &&& forall|k: int| j <= k < i ==> s[k] != '\n'
}

/// The number of newlines among the first `i` characters of `s`.
pub open spec fn newline_count(s: Seq<char>, i: int) -> int
    decreases i,
{
    if i <= 0 {
        0
    } else {
        newline_count(s, i - 1) + if s[i - 1] == '\n' {
            1int
        } else {
            0int
        }
    }
}

// ── Lemmas on the scanning functions ─────────────────────────────────

pub proof fn lemma_comment_end(s: Seq<char>, i: int)
    requires
        0 <= i <= s.len(),
    ensures
        i <= comment_end(s, i) <= s.len(),
    decreases s.len() - i,
{
    if i < s.len() && s[i] != '\n' {
        lemma_comment_end(s, i + 1);
    }
}

pub proof fn lemma_skip_trivia(s: Seq<char>, i: int)
    requires
        0 <= i <= s.len(),
    ensures
        i <= skip_trivia(s, i) <= s.len(),
    decreases s.len() - i,
{
    if i < s.len() && is_space(s[i]) {
        lemma_skip_trivia(s, i + 1);
    } else if i + 1 < s.len() && s[i] == '/' && s[i + 1] == '/' {
        lemma_comment_end(s, i + 1);
        lemma_skip_trivia(s, comment_end(s, i + 1));
    }
}

pub proof fn lemma_number_end(s: Seq<char>, i: int, has_dot: bool)
    requires
        0 <= i <= s.len(),
    ensures
        i <= number_end(s, i, has_dot) <= s.len(),
    decreases s.len() - i,
{
    if i < s.len() && is_digit(s[i]) {
        lemma_number_end(s, i + 1, has_dot);
    } else if i + 1 < s.len() && s[i] == '.' && !has_dot && is_digit(s[i + 1]) {
        lemma_number_end(s, i + 1, true);
    }
}

pub proof fn lemma_ident_end(s: Seq<char>, i: int)
    requires
        0 <= i <= s.len(),
    ensures
        i <= ident_end(s, i) <= s.len(),
    decreases s.len() - i,
{
    if i < s.len() && is_ident_continue(s[i]) {
        lemma_ident_end(s, i + 1);
    }
}

pub proof fn lemma_string_body(s: Seq<char>, i: int)
    requires
        0 <= i,
    ensures
        string_body(s, i) matches Ok((b, e)) ==> i < e <= s.len(),
    decreases s.len() - i,
{
    if 0 <= i < s.len() && s[i] != '"' {
        if s[i] == '\\' {
            if i + 1 < s.len() {
                lemma_string_body(s, i + 2);
            }
        } else {
            lemma_string_body(s, i + 1);
        }
    }
}

pub proof fn lemma_scan_token(s: Seq<char>, i: int)
    requires
        0 <= i < s.len(),
    ensures
        scan_token(s, i) matches Ok((k, e)) ==> i < e <= s.len(),
{
    let c = s[i];
    if is_digit(c) {
        lemma_number_end(s, i + 1, false);
        assert(number_end(s, i, false) == number_end(s, i + 1, false));
    } else if c == '"' {
        lemma_string_body(s, i + 1);
    } else if is_ident_start(c) {
        lemma_ident_end(s, i + 1);
    }
}

pub proof fn lemma_line_col_bounds(s: Seq<char>, i: int)
    requires
        0 <= i,
    ensures
        1 <= line_col(s, i).0 <= i + 1,
        1 <= line_col(s, i).1 <= i + 1,
    decreases i,
{
    if i > 0 {
        lemma_line_col_bounds(s, i - 1);
    }
}


/// `prefix` put in front of the tokens of a lexing outcome; errors pass through.
pub open spec fn prefixed(prefix: Seq<SpecToken>, r: Result<Seq<SpecToken>, Seq<char>>) -> Result<
    Seq<SpecToken>,
    Seq<char>,
> {
    match r {
        Ok(rest) => Ok(prefix + rest),
        Err(m) => Err(m),
    }
}

/// `prefix` put in front of the body of a string-literal outcome.
pub open spec fn body_prefixed(prefix: Seq<char>, r: Result<(Seq<char>, int), Seq<char>>) -> Result<
    (Seq<char>, int),
    Seq<char>,
> {
    match r {
        Ok((b, e)) => Ok((prefix + b, e)),
        Err(m) => Err(m),
    }
}

/// Whether `chars[start..end]` spells `word`.
fn word_matches(chars: &Vec<char>, start: usize, end: usize, word: &str) -> (res: bool)
    requires
        start <= end <= chars@.len(),
    ensures
        res == (chars@.subrange(start as int, end as int) == word@),
{
    let n = word.unicode_len();
    if end - start != n {
        return false;
    }
    let mut i: usize = 0;
    while i < n
        invariant
            n == word@.len(),
            end - start == n,
            start <= end <= chars@.len(),
            i <= n,
            forall|j: int| 0 <= j < i ==> chars@[start + j] == word@[j],
        decreases n - i,
    {
        if chars[start + i] != word.get_char(i) {
            assert(chars@.subrange(start as int, end as int)[i as int] != word@[i as int]);
            return false;
        }
        i = i + 1;
    }
    assert(chars@.subrange(start as int, end as int) =~= word@);
    true
}

/// The character that the escape sequence `\c` stands for.
fn unescape_char(c: char) -> (res: char)
    ensures
        res == unescape(c),
{
    match c {
        'n' => '\n',
        't' => '\t',
        '\\' => '\\',
        '"' => '"',
        other => other,
    }
}

/// The hand-written scanner: the source as characters, the current index,
/// and the 1-based line and column of that index.
pub struct Lexer {
    source: Vec<char>,
    pos: usize,
    line: usize,
    col: usize,
}

impl Lexer {
    /// The source, as characters.
    pub closed spec fn text(&self) -> Seq<char> {
        self.source@
    }

    /// The index of the next character to read.
    pub closed spec fn position(&self) -> int {
        self.pos as int
    }

    /// The line of the current index, counted from 1.
    pub closed spec fn line_no(&self) -> int {
        self.line as int
    }

    /// The column of the current index, counted from 1.
    pub closed spec fn col_no(&self) -> int {
        self.col as int
    }

    /// In a well-formed lexer the index lies within the source, and the line
    /// and column are those of the index.
    pub proof fn lemma_wf_position(lx: &Lexer)
        requires
            lx.wf(),
        ensures
            0 <= lx.position() <= lx.text().len(),
            lx.line_no() == line_col(lx.text(), lx.position()).0,
            lx.col_no() == line_col(lx.text(), lx.position()).1,
    {
    }

    /// The index lies within the source, and the line and column are those of the index.
    pub closed spec fn wf(&self) -> bool {
        &&& self.source@.len() < usize::MAX
        &&& self.pos <= self.source@.len()
        &&& self.line as int == line_col(self.source@, self.pos as int).0
        &&& self.col as int == line_col(self.source@, self.pos as int).1
    }

    /// A lexer at the start of `source`. The number of characters must leave
    /// room for the line number after the last one.
    pub fn new(source: &str) -> (lx: Lexer)
        requires
            source@.len() < usize::MAX,
        ensures
            lx.wf(),
            lx.text() == source@,
            lx.position() == 0,
            lx.line_no() == 1,
            lx.col_no() == 1,
    {
        let mut chars: Vec<char> = Vec::new();
        for c in it: source.chars()
            invariant
                it.seq() == source@,
                chars@ == it.seq().take(it.index() as int),
        {
            chars.push(c);
            assert(chars@ =~= it.seq().take(it.index() + 1));
        }
        assert(chars@ =~= source@);
        Lexer { source: chars, pos: 0, line: 1, col: 1 }
    }

    fn peek(&self) -> (res: Option<char>)
        requires
            self.wf(),
        ensures
            res == (if self.pos < self.source@.len() {
                Some(self.source@[self.pos as int])
            } else {
                None::<char>
            }),
    {
        if self.pos < self.source.len() {
            Some(self.source[self.pos])
        } else {
            None
        }
    }

    fn peek_next(&self) -> (res: Option<char>)
        requires
            self.wf(),
        ensures
            res == (if self.pos + 1 < self.source@.len() {
                Some(self.source@[self.pos + 1])
            } else {
                None::<char>
            }),
    {
        if self.pos < self.source.len() && self.pos + 1 < self.source.len() {
            Some(self.source[self.pos + 1])
        } else {
            None
        }
    }

    fn advance(&mut self) -> (res: Option<char>)
        requires
            old(self).wf(),
        ensures
            final(self).wf(),
            final(self).source == old(self).source,
            old(self).pos < old(self).source@.len() ==> {
                let c = old(self).source@[old(self).pos as int];
                &&& final(self).pos == old(self).pos + 1
                &&& res == Some(c)
                &&& c == '\n' ==> final(self).line == old(self).line + 1 && final(self).col == 1
                &&& c != '\n' ==> final(self).line == old(self).line && final(self).col
                    == old(self).col + 1
            },
            old(self).pos >= old(self).source@.len() ==> {
                &&& final(self).pos == old(self).pos
                &&& final(self).line == old(self).line
                &&& final(self).col == old(self).col
                &&& res is None
            },
    {
        let ch = self.peek();
        if let Some(c) = ch {
            proof {
                lemma_line_col_bounds(self.source@, self.pos as int);
            }
            self.pos = self.pos + 1;
            if c == '\n' {
                self.line = self.line + 1;
                self.col = 1;
            } else {
                self.col = self.col + 1;
            }
        }
        ch
    }

    fn skip_whitespace_and_comments(&mut self)
        requires
            old(self).wf(),
        ensures
            final(self).wf(),
            final(self).source == old(self).source,
            final(self).pos == skip_trivia(old(self).source@, old(self).pos as int),
    {
        loop
            invariant
                self.wf(),
                self.source == old(self).source,
                skip_trivia(self.source@, self.pos as int) == skip_trivia(
                    old(self).source@,
                    old(self).pos as int,
                ),
            decreases self.source@.len() - self.pos,
        {
            let c = self.peek();
            let n = self.peek_next();
            if c == Some(' ') || c == Some('\t') || c == Some('\r') || c == Some('\n') {
                self.advance();
            } else if c == Some('/') && n == Some('/') {
                let ghost start = self.pos as int;
                proof {
                    assert(comment_end(self.source@, start) == comment_end(self.source@, start + 1));
                }
                while self.pos < self.source.len() && self.source[self.pos] != '\n'
                    invariant
                        self.wf(),
                        self.source == old(self).source,
                        start <= self.pos,
                        comment_end(self.source@, self.pos as int) == comment_end(
                            self.source@,
                            start + 1,
                        ),
                    decreases self.source@.len() - self.pos,
                {
                    self.advance();
                }
            } else {
                return;
            }
        }
    }

    fn read_number(&mut self) -> (res: TokenKind)
        requires
            old(self).wf(),
            old(self).pos < old(self).source@.len(),
            is_digit(old(self).source@[old(self).pos as int]),
        ensures
            final(self).wf(),
            final(self).source == old(self).source,
            final(self).pos == number_end(old(self).source@, old(self).pos as int, false),
            res@ == SpecTokenKind::Number(
                old(self).source@.subrange(old(self).pos as int, final(self).pos as int),
            ),
    {
        let start = self.pos;
        let mut has_dot = false;
        loop
            invariant
                self.wf(),
                self.source == old(self).source,
                start <= self.pos,
                number_end(self.source@, self.pos as int, has_dot) == number_end(
                    self.source@,
                    start as int,
                    false,
                ),
            ensures
                self.wf(),
                self.source == old(self).source,
                start <= self.pos,
                self.pos == number_end(self.source@, start as int, false),
            decreases self.source@.len() - self.pos,
        {
            let c = self.peek();
            let n = self.peek_next();
            match c {
                Some(ch) => {
                    if '0' <= ch && ch <= '9' {
                        self.advance();
                    } else if ch == '.' && !has_dot && (match n {
                        Some(d) => '0' <= d && d <= '9',
                        None => false,
                    }) {
                        has_dot = true;
                        self.advance();
                    } else {
                        break;
                    }
                },
                None => break,
            }
        }
        let text = string_from_chars(&self.source, start, self.pos);
        TokenKind::Number(text)
    }

    fn read_string(&mut self) -> (res: Result<TokenKind, String>)
        requires
            old(self).wf(),
            old(self).pos < old(self).source@.len(),
            old(self).source@[old(self).pos as int] == '"',
        ensures
            final(self).wf(),
            final(self).source == old(self).source,
            old(self).pos < final(self).pos,
            match res {
                Ok(k) => string_body(old(self).source@, old(self).pos + 1) matches Ok((b, e))
                    && e == final(self).pos && k@ == SpecTokenKind::String(b),
                Err(e) => string_body(old(self).source@, old(self).pos + 1) == Err::<
                    (Seq<char>, int),
                    Seq<char>,
                >(e@),
            },
    {
        let ghost s = self.source@;
        let ghost start = self.pos as int;
        self.advance();
        let mut chars = String::new();
        loop
            invariant
                self.wf(),
                self.source == old(self).source,
                s == self.source@,
                start == old(self).pos,
                start < self.pos,
                string_body(s, start + 1) == body_prefixed(chars@, string_body(s, self.pos as int)),
            decreases self.source@.len() - self.pos,
        {
            match self.peek() {
                None => {
                    let e = String::from_str("Unterminated string literal");
                    return Err(e);
                },
                Some('"') => {
                    self.advance();
                    proof {
                        assert(chars@ + Seq::<char>::empty() =~= chars@);
                    }
                    return Ok(TokenKind::String(chars));
                },
                Some('\\') => {
                    let ghost p = self.pos as int;
                    self.advance();
                    match self.peek() {
                        None => {
                            let e = String::from_str("Unterminated string escape");
                            return Err(e);
                        },
                        Some(c) => {
                            let u = unescape_char(c);
                            let ghost before = chars@;
                            push_char(&mut chars, u);
                            self.advance();
                            proof {
                                match string_body(s, p + 2) {
                                    Ok((b, e)) => {
                                        assert(before + (seq![u] + b) =~= chars@ + b);
                                    },
                                    Err(m) => {},
                                }
                            }
                        },
                    }
                },
                Some(c) => {
                    let ghost p = self.pos as int;
                    let ghost before = chars@;
                    push_char(&mut chars, c);
                    self.advance();
                    proof {
                        match string_body(s, p + 1) {
                            Ok((b, e)) => {
                                assert(before + (seq![c] + b) =~= chars@ + b);
                            },
                            Err(m) => {},
                        }
                    }
                },
            }
        }
    }

    fn read_ident(&mut self) -> (res: TokenKind)
        requires
            old(self).wf(),
            old(self).pos < old(self).source@.len(),
            is_ident_start(old(self).source@[old(self).pos as int]),
        ensures
            final(self).wf(),
            final(self).source == old(self).source,
            final(self).pos == ident_end(old(self).source@, old(self).pos + 1),
            res@ == word_kind(
                old(self).source@.subrange(old(self).pos as int, final(self).pos as int),
            ),
    {
        let start = self.pos;
        loop
            invariant
                self.wf(),
                self.source == old(self).source,
                start <= self.pos,
                start < self.source@.len(),
                self.pos == start || ident_end(self.source@, self.pos as int) == ident_end(
                    self.source@,
                    start + 1,
                ),
                self.pos == start ==> is_ident_start(self.source@[start as int]),
            ensures
                self.wf(),
                self.source == old(self).source,
                self.pos == ident_end(self.source@, start + 1),
            decreases self.source@.len() - self.pos,
        {
            match self.peek() {
                Some(c) => {
                    let alnum = is_alphanumeric(c);
                    if alnum || c == '_' {
                        self.advance();
                    } else {
                        break;
                    }
                },
                None => break,
            }
        }
        let end = self.pos;
        if word_matches(&self.source, start, end, "let") {
            TokenKind::Let
        } else if word_matches(&self.source, start, end, "fn") {
            TokenKind::Fn
        } else if word_matches(&self.source, start, end, "print") {
            TokenKind::Print
        } else if word_matches(&self.source, start, end, "return") {
            TokenKind::Return
        } else if word_matches(&self.source, start, end, "true") {
            TokenKind::True
        } else if word_matches(&self.source, start, end, "false") {
            TokenKind::False
        } else if word_matches(&self.source, start, end, "if") {
            TokenKind::If
        } else if word_matches(&self.source, start, end, "else") {
            TokenKind::Else
        } else if word_matches(&self.source, start, end, "while") {
            TokenKind::While
        } else if word_matches(&self.source, start, end, "and") {
            TokenKind::And
        } else if word_matches(&self.source, start, end, "or") {
            TokenKind::Or
        } else {
            TokenKind::Ident(string_from_chars(&self.source, start, end))
        }
    }

    /// The message for an unexpected character at the given line and column.
    fn unexpected_char(c: char, line: usize, col: usize) -> (res: String)
        ensures
            res@ == unexpected_char_message(c, line as int, col as int),
    {
        let mut m = String::from_str("Unexpected character '");
        push_char(&mut m, c);
        m.append("' at ");
        let l = decimal_text(line);
        m.append(l.as_str());
        push_char(&mut m, ':');
        let k = decimal_text(col);
        m.append(k.as_str());
        proof {
            assert(m@ =~= unexpected_char_message(c, line as int, col as int));
        }
        m
    }

    /// Turns the source, from the current index on, into tokens ending with `Eof`.
    pub fn tokenize(&mut self) -> (res: Result<Vec<Token>, String>)
        requires
            old(self).wf(),
        ensures
            final(self).wf(),
            final(self).text() == old(self).text(),
            old(self).position() <= final(self).position(),
            match res {
                Ok(tokens) => lex(old(self).text(), old(self).position()) == Ok::<
                    Seq<SpecToken>,
                    Seq<char>,
                >(tokens_view(tokens@)) && final(self).position() == old(self).text().len(),
                Err(e) => lex(old(self).text(), old(self).position()) == Err::<
                    Seq<SpecToken>,
                    Seq<char>,
                >(e@),
            },
    {
        let ghost s = self.source@;
        let ghost start = self.pos as int;
        let mut tokens: Vec<Token> = Vec::new();
        loop
            invariant
                self.wf(),
                self.source == old(self).source,
                s == self.source@,
                start == old(self).pos,
                start <= self.pos,
                lex(s, start) == prefixed(tokens_view(tokens@), lex(s, self.pos as int)),
            decreases self.source@.len() - self.pos,
        {
            let ghost p = self.pos as int;
            proof {
                lemma_skip_trivia(s, p);
            }
            self.skip_whitespace_and_comments();
            let line = self.line;
            let col = self.col;
            let ghost j = self.pos as int;
            let ghost before = tokens_view(tokens@);
            match self.peek() {
                None => {
                    let t = Token::new(TokenKind::Eof, line, col);
                    assert(lex(s, p) == Ok::<Seq<SpecToken>, Seq<char>>(seq![t@]));
                    tokens.push(t);
                    proof {
                        assert(tokens_view(tokens@) =~= before.push(t@));
                        assert(before + seq![t@] =~= before.push(t@));
                    }
                    return Ok(tokens);
                },
                Some(c) => {
                    proof {
                        lemma_scan_token(s, j);
                    }
                    let kind;
                    if '0' <= c && c <= '9' {
                        kind = self.read_number();
                    } else if c == '"' {
                        proof {
                            lemma_string_body(s, j + 1);
                        }
                        match self.read_string() {
                            Ok(k) => {
                                kind = k;
                            },
                            Err(e) => {
                                return Err(e);
                            },
                        }
                    } else if is_alphabetic(c) || c == '_' {
                        kind = self.read_ident();
                    } else {
                        self.advance();
                        let n = self.peek();
                        let eq_next = n == Some('=');
                        if c == '+' {
                            kind = TokenKind::Plus;
                        } else if c == '-' {
                            kind = TokenKind::Minus;
                        } else if c == '*' {
                            kind = TokenKind::Star;
                        } else if c == '/' {
                            kind = TokenKind::Slash;
                        } else if c == '%' {
                            kind = TokenKind::Percent;
                        } else if c == '(' {
                            kind = TokenKind::LParen;
                        } else if c == ')' {
                            kind = TokenKind::RParen;
                        } else if c == '{' {
                            kind = TokenKind::LBrace;
                        } else if c == '}' {
                            kind = TokenKind::RBrace;
                        } else if c == ',' {
                            kind = TokenKind::Comma;
                        } else if c == ';' {
                            kind = TokenKind::Semicolon;
                        } else if c == ':' {
                            kind = TokenKind::Colon;
                        } else if c == '=' {
                            if eq_next {
                                self.advance();
                                kind = TokenKind::EqEq;
                            } else {
                                kind = TokenKind::Assign;
                            }
                        } else if c == '!' {
                            if eq_next {
                                self.advance();
                                kind = TokenKind::BangEq;
                            } else {
                                kind = TokenKind::Bang;
                            }
                        } else if c == '<' {
                            if eq_next {
                                self.advance();
                                kind = TokenKind::LtEq;
                            } else {
                                kind = TokenKind::Lt;
                            }
                        } else if c == '>' {
                            if eq_next {
                                self.advance();
                                kind = TokenKind::GtEq;
                            } else {
                                kind = TokenKind::Gt;
                            }
                        } else {
                            return Err(Self::unexpected_char(c, line, col));
                        }
                    }
                    let t = Token::new(kind, line, col);
                    tokens.push(t);
                    proof {
                        assert(tokens_view(tokens@) =~= before.push(t@));
                        match lex(s, self.pos as int) {
                            Ok(rest) => {
                                assert(before + (seq![t@] + rest) =~= before.push(t@) + rest);
                            },
                            Err(m) => {},
                        }
                    }
                },
            }
        }
    }
}

} // verus!
