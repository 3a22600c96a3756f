//! Laws of the lexer: what skipping passes over, what a number, a string
//! literal and an identifier cover, how columns move along a line, and that
//! a newline put in front of a text moves every token one line down.
use vstd::prelude::*;
use crate::lexer::{
    comment_end, ident_end, is_digit, is_ident_continue, is_ident_start, is_space, lex,
    lemma_comment_end, lemma_ident_end, lemma_number_end, lemma_scan_token, lemma_skip_trivia,
    lemma_string_body, line_col, number_end, punct, scan_token, skip_trivia, string_body,
    word_kind,
};
use crate::token::{SpecToken, SpecTokenKind};

verus! {

// ── Columns along a line ─────────────────────────────────────────────

/// Between two indices with no newline in between, the line stays and the
/// column moves on by the number of characters.
pub proof fn lemma_line_col_same_line(s: Seq<char>, i: int, j: int)
    requires
        0 <= i <= j,
        forall|k: int| i <= k < j ==> s[k] != '\n',
    ensures
        line_col(s, j) == (line_col(s, i).0, line_col(s, i).1 + (j - i)),
    decreases j - i,
{
    if i < j {
        lemma_line_col_same_line(s, i, j - 1);
    }
}

// ── Whitespace and comments ──────────────────────────────────────────

/// Index `k` lies in a `//` comment that starts at `j`: the comment runs
/// from `j` to `k` with no newline.
pub open spec fn comment_from(s: Seq<char>, j: int, k: int) -> bool {
    &&& 0 <= j <= k
    &&& j + 1 < s.len()
    &&& s[j] == '/'
    &&& s[j + 1] == '/'
    &&& forall|m: int| j <= m <= k ==> s[m] != '\n'
}

/// The character at `k` is whitespace, or inside a `//` comment (a comment
/// ends before its newline).
pub open spec fn is_trivia(s: Seq<char>, k: int) -> bool {
    is_space(s[k]) || exists|j: int| #[trigger] comment_from(s, j, k)
}

proof fn lemma_comment_end_no_newline(s: Seq<char>, i: int)
    requires
        0 <= i <= s.len(),
    ensures
        forall|m: int| i <= m < comment_end(s, i) ==> s[m] != '\n',
    decreases s.len() - i,
{
    if i < s.len() && s[i] != '\n' {
        lemma_comment_end_no_newline(s, i + 1);
    }
}

/// Skipping passes over whitespace and comments only, and stops at the end
/// or at a character that starts neither.
pub proof fn lemma_skip_trivia_passes(s: Seq<char>, i: int)
    requires
        0 <= i <= s.len(),
    ensures
        i <= skip_trivia(s, i) <= s.len(),
        forall|k: int| i <= k < skip_trivia(s, i) ==> #[trigger] is_trivia(s, k),
        skip_trivia(s, i) < s.len() ==> {
            let e = skip_trivia(s, i);
            &&& !is_space(s[e])
            &&& !(e + 1 < s.len() && s[e] == '/' && s[e + 1] == '/')
        },
    decreases s.len() - i,
{
    if i < s.len() && is_space(s[i]) {
        lemma_skip_trivia_passes(s, i + 1);
        assert(is_trivia(s, i));
    } else if i + 1 < s.len() && s[i] == '/' && s[i + 1] == '/' {
        let c = comment_end(s, i + 1);
        lemma_comment_end(s, i + 1);
        lemma_comment_end_no_newline(s, i + 1);
        lemma_skip_trivia_passes(s, c);
        assert forall|k: int| i <= k < skip_trivia(s, i) implies #[trigger] is_trivia(s, k) by {
            if k < c {
                assert(comment_from(s, i, k));
            }
        }
    }
}

/// A line comment's text ends at the first newline at or after `i`, or at
/// the end of the source when there is none: nothing else in it stops it.
pub proof fn lemma_comment_end_is_line_end(s: Seq<char>, i: int)
    requires
        0 <= i <= s.len(),
    ensures
        i <= comment_end(s, i) <= s.len(),
        forall|m: int| i <= m < comment_end(s, i) ==> s[m] != '\n',
        comment_end(s, i) == s.len() || s[comment_end(s, i)] == '\n',
    decreases s.len() - i,
{
    lemma_comment_end(s, i);
    lemma_comment_end_no_newline(s, i);
    if i < s.len() && s[i] != '\n' {
        lemma_comment_end_is_line_end(s, i + 1);
    }
}

/// Skipping never stops inside a comment that starts at or after where it
/// started: where it stops before the end, no `//` comment from there on
/// covers that index.
pub proof fn lemma_skip_stops_outside_comments(s: Seq<char>, i: int)
    requires
        0 <= i <= s.len(),
    ensures
        skip_trivia(s, i) < s.len() ==> forall|j: int|
            i <= j ==> !#[trigger] comment_from(s, j, skip_trivia(s, i)),
    decreases s.len() - i,
{
    let e = skip_trivia(s, i);
    if i < s.len() && is_space(s[i]) {
        lemma_skip_stops_outside_comments(s, i + 1);
        lemma_skip_trivia(s, i + 1);
    } else if i + 1 < s.len() && s[i] == '/' && s[i + 1] == '/' {
        let c = comment_end(s, i + 1);
        lemma_comment_end_is_line_end(s, i + 1);
        lemma_skip_stops_outside_comments(s, c);
        lemma_skip_trivia(s, c);
        if e < s.len() {
            assert forall|j: int| i <= j implies !#[trigger] comment_from(s, j, e) by {
                if j < c && comment_from(s, j, e) {
                    assert(s[c] == '\n');
                }
            }
        }
    }
}

// ── Numbers ──────────────────────────────────────────────────────────

/// Some character of `s[i..k]` is a decimal point.
pub open spec fn has_dot_in(s: Seq<char>, i: int, k: int) -> bool {
    exists|m: int| i <= m < k && #[trigger] s[m] == '.'
}

/// `s[i..k]` is a number lexeme: digits, with at most one decimal point,
/// which has a digit on each side.
pub open spec fn number_shape(s: Seq<char>, i: int, k: int) -> bool {
    &&& 0 <= i < k <= s.len()
    &&& is_digit(s[i])
    &&& is_digit(s[k - 1])
    &&& forall|m: int| i <= m < k ==> is_digit(#[trigger] s[m]) || s[m] == '.'
    &&& forall|m: int| i <= m < k && #[trigger] s[m] == '.' ==> is_digit(s[m + 1]) && m + 1 < k
    &&& forall|m1: int, m2: int| i <= m1 < m2 < k && #[trigger] s[m1] == '.' ==> #[trigger] s[m2] != '.'
}

proof fn lemma_number_end_shape(s: Seq<char>, i: int, k: int, d: bool)
    requires
        number_shape(s, i, k),
        d == has_dot_in(s, i, k),
    ensures
        k <= number_end(s, k, d),
        number_shape(s, i, number_end(s, k, d)),
        ({
            let e = number_end(s, k, d);
            e == s.len() || (!is_digit(s[e]) && !(s[e] == '.' && !has_dot_in(s, i, e) && e + 1
                < s.len() && is_digit(s[e + 1])))
        }),
    decreases s.len() - k,
{
    if k < s.len() && is_digit(s[k]) {
        assert(has_dot_in(s, i, k + 1) == d) by {
            if has_dot_in(s, i, k + 1) {
                let m = choose|m: int| i <= m < k + 1 && #[trigger] s[m] == '.';
                assert(m < k);
            }
        }
        lemma_number_end_shape(s, i, k + 1, d);
    } else if k + 1 < s.len() && s[k] == '.' && !d && is_digit(s[k + 1]) {
        assert(number_end(s, k + 1, true) == number_end(s, k + 2, true));
        assert(has_dot_in(s, i, k + 2)) by {
            assert(s[k] == '.');
        }
        assert forall|m1: int, m2: int| i <= m1 < m2 < k + 2 && #[trigger] s[m1] == '.' implies #[trigger] s[m2] != '.' by {
            if m2 == k {
                assert(has_dot_in(s, i, k));
            }
        }
        lemma_number_end_shape(s, i, k + 2, true);
    } else {
        if d {
            let m = choose|m: int| i <= m < k && #[trigger] s[m] == '.';
        }
    }
}

/// A number lexeme that starts at `i` covers the longest run of the form
/// digits, optionally a point and digits; the column moves on by its length.
pub proof fn lemma_number_lexeme(s: Seq<char>, i: int)
    requires
        0 <= i < s.len(),
        is_digit(s[i]),
    ensures
        ({
            let e = number_end(s, i, false);
            &&& i < e <= s.len()
            &&& number_shape(s, i, e)
            &&& e == s.len() || (!is_digit(s[e]) && !(s[e] == '.' && !has_dot_in(s, i, e) && e
                + 1 < s.len() && is_digit(s[e + 1])))
            &&& scan_token(s, i) == Ok::<(SpecTokenKind, int), Seq<char>>(
                (SpecTokenKind::Number(s.subrange(i, e)), e),
            )
            &&& line_col(s, e) == (line_col(s, i).0, line_col(s, i).1 + (e - i))
        }),
{
    assert(number_end(s, i, false) == number_end(s, i + 1, false));
    assert(!has_dot_in(s, i, i + 1));
    lemma_number_end_shape(s, i, i + 1, false);
    let e = number_end(s, i, false);
    assert forall|k: int| i <= k < e implies s[k] != '\n' by {
        assert(is_digit(s[k]) || s[k] == '.');
    }
    lemma_line_col_same_line(s, i, e);
}

// ── String literals ──────────────────────────────────────────────────

/// A string body with no quote or backslash before the closing quote at `j`
/// stands for its own characters, and ends just after that quote.
pub proof fn lemma_plain_string_body(s: Seq<char>, i: int, j: int)
    requires
        0 <= i <= j < s.len(),
        s[j] == '"',
        forall|k: int| i <= k < j ==> s[k] != '"' && s[k] != '\\',
    ensures
        string_body(s, i) == Ok::<(Seq<char>, int), Seq<char>>((s.subrange(i, j), j + 1)),
    decreases j - i,
{
    if i < j {
        lemma_plain_string_body(s, i + 1, j);
        assert(seq![s[i]] + s.subrange(i + 1, j) =~= s.subrange(i, j));
    } else {
        assert(s.subrange(i, j) =~= Seq::<char>::empty());
    }
}

/// A string literal from `p` whose body holds no quote or backslash is the
/// token of its own characters, and lexing goes on just after its closing quote.
pub proof fn lemma_plain_string_token(s: Seq<char>, p: int, j: int)
    requires
        0 <= p < j < s.len(),
        s[p] == '"',
        s[j] == '"',
        forall|k: int| p < k < j ==> s[k] != '"' && s[k] != '\\',
    ensures
        scan_token(s, p) == Ok::<(SpecTokenKind, int), Seq<char>>(
            (SpecTokenKind::String(s.subrange(p + 1, j)), j + 1),
        ),
{
    lemma_plain_string_body(s, p + 1, j);
}

// ── Identifiers and keywords ─────────────────────────────────────────

/// A word that starts at `i` runs to the first character after `i` that
/// cannot continue an identifier (or to the end); its token is the keyword
/// it spells, or else an identifier.
pub proof fn lemma_word_token(s: Seq<char>, i: int)
    requires
        0 <= i < s.len(),
        is_ident_start(s[i]),
    ensures
        ({
            let e = ident_end(s, i + 1);
            &&& i < e <= s.len()
            &&& forall|k: int| i < k < e ==> #[trigger] is_ident_continue(s[k])
            &&& e == s.len() || !is_ident_continue(s[e])
            &&& scan_token(s, i) == Ok::<(SpecTokenKind, int), Seq<char>>(
                (word_kind(s.subrange(i, e)), e),
            )
        }),
{
    lemma_ident_end_covers(s, i + 1);
}

proof fn lemma_ident_end_covers(s: Seq<char>, i: int)
    requires
        0 <= i <= s.len(),
    ensures
        i <= ident_end(s, i) <= s.len(),
        forall|k: int| i <= k < ident_end(s, i) ==> #[trigger] is_ident_continue(s[k]),
        ident_end(s, i) == s.len() || !is_ident_continue(s[ident_end(s, i)]),
    decreases s.len() - i,
{
    if i < s.len() && is_ident_continue(s[i]) {
        lemma_ident_end_covers(s, i + 1);
    }
}

// ── A newline in front ───────────────────────────────────────────────

/// The same tokens, each one line further down.
pub open spec fn one_line_down(toks: Seq<SpecToken>) -> Seq<SpecToken> {
    toks.map_values(|t: SpecToken| SpecToken { kind: t.kind, line: t.line + 1, col: t.col })
}

proof fn lemma_prefix_line_col(s: Seq<char>, i: int)
    requires
        0 <= i <= s.len(),
    ensures
        line_col(seq!['\n'] + s, i + 1) == (line_col(s, i).0 + 1, line_col(s, i).1),
    decreases i,
{
    let s2 = seq!['\n'] + s;
    if i > 0 {
        lemma_prefix_line_col(s, i - 1);
        assert(s2[i] == s[i - 1]);
        let (l, c) = line_col(s, i - 1);
        assert(line_col(s2, i) == (l + 1, c));
        if s[i - 1] == '\n' {
            assert(line_col(s, i) == (l + 1, 1int));
            assert(line_col(s2, i + 1) == (l + 2, 1int));
        } else {
            assert(line_col(s, i) == (l, c + 1));
            assert(line_col(s2, i + 1) == (l + 1, c + 1));
        }
    } else {
        assert(s2[0] == '\n');
        assert(line_col(s2, 0) == (1int, 1int));
        assert(line_col(s2, 1) == (2int, 1int));
        assert(line_col(s, 0) == (1int, 1int));
    }
}

proof fn lemma_prefix_comment_end(s: Seq<char>, i: int)
    requires
        0 <= i <= s.len(),
    ensures
        comment_end(seq!['\n'] + s, i + 1) == comment_end(s, i) + 1,
    decreases s.len() - i,
{
    let s2 = seq!['\n'] + s;
    if i < s.len() {
        assert(s2[i + 1] == s[i]);
        if s[i] != '\n' {
            lemma_prefix_comment_end(s, i + 1);
        }
    }
}

proof fn lemma_prefix_skip_trivia(s: Seq<char>, i: int)
    requires
        0 <= i <= s.len(),
    ensures
        skip_trivia(seq!['\n'] + s, i + 1) == skip_trivia(s, i) + 1,
    decreases s.len() - i,
{
    let s2 = seq!['\n'] + s;
    if i < s.len() {
        assert(s2[i + 1] == s[i]);
    }
    if i + 1 < s.len() {
        assert(s2[i + 2] == s[i + 1]);
    }
    if i < s.len() && is_space(s[i]) {
        lemma_prefix_skip_trivia(s, i + 1);
    } else if i + 1 < s.len() && s[i] == '/' && s[i + 1] == '/' {
        lemma_comment_end(s, i + 1);
        lemma_prefix_comment_end(s, i + 1);
        lemma_prefix_skip_trivia(s, comment_end(s, i + 1));
    }
}

proof fn lemma_prefix_number_end(s: Seq<char>, i: int, d: bool)
    requires
        0 <= i <= s.len(),
    ensures
        number_end(seq!['\n'] + s, i + 1, d) == number_end(s, i, d) + 1,
    decreases s.len() - i,
{
    let s2 = seq!['\n'] + s;
    if i < s.len() {
        assert(s2[i + 1] == s[i]);
    }
    if i + 1 < s.len() {
        assert(s2[i + 2] == s[i + 1]);
    }
    if i < s.len() && is_digit(s[i]) {
        lemma_prefix_number_end(s, i + 1, d);
    } else if i + 1 < s.len() && s[i] == '.' && !d && is_digit(s[i + 1]) {
        lemma_prefix_number_end(s, i + 1, true);
    }
}

proof fn lemma_prefix_ident_end(s: Seq<char>, i: int)
    requires
        0 <= i <= s.len(),
    ensures
        ident_end(seq!['\n'] + s, i + 1) == ident_end(s, i) + 1,
    decreases s.len() - i,
{
    let s2 = seq!['\n'] + s;
    if i < s.len() {
        assert(s2[i + 1] == s[i]);
        if is_ident_continue(s[i]) {
            lemma_prefix_ident_end(s, i + 1);
        }
    }
}

proof fn lemma_prefix_string_body(s: Seq<char>, i: int)
    requires
        0 <= i,
    ensures
        string_body(seq!['\n'] + s, i + 1) == match string_body(s, i) {
            Ok((b, e)) => Ok::<(Seq<char>, int), Seq<char>>((b, e + 1)),
            Err(m) => Err::<(Seq<char>, int), Seq<char>>(m),
        },
    decreases s.len() - i,
{
    let s2 = seq!['\n'] + s;
    if i < s.len() {
        assert(s2[i + 1] == s[i]);
    }
    if i + 1 < s.len() {
        assert(s2[i + 2] == s[i + 1]);
    }
    if 0 <= i < s.len() && s[i] != '"' {
        if s[i] == '\\' {
            if i + 1 < s.len() {
                lemma_prefix_string_body(s, i + 2);
            }
        } else {
            lemma_prefix_string_body(s, i + 1);
        }
    }
}

proof fn lemma_prefix_scan_token(s: Seq<char>, j: int)
    requires
        0 <= j < s.len(),
    ensures
        match (scan_token(s, j), scan_token(seq!['\n'] + s, j + 1)) {
            (Ok((k1, e1)), Ok((k2, e2))) => k1 == k2 && e2 == e1 + 1,
            (Err(_), Err(_)) => true,
            _ => false,
        },
{
    let s2 = seq!['\n'] + s;
    assert(s2[j + 1] == s[j]);
    if j + 1 < s.len() {
        assert(s2[j + 2] == s[j + 1]);
    }
    let c = s[j];
    if is_digit(c) {
        lemma_prefix_number_end(s, j, false);
        lemma_number_end(s, j, false);
        assert(s2.subrange(j + 1, number_end(s, j, false) + 1) =~= s.subrange(
            j,
            number_end(s, j, false),
        ));
    } else if c == '"' {
        lemma_prefix_string_body(s, j + 1);
    } else if is_ident_start(c) {
        lemma_prefix_ident_end(s, j + 1);
        lemma_ident_end(s, j + 1);
        assert(s2.subrange(j + 1, ident_end(s, j + 1) + 1) =~= s.subrange(
            j,
            ident_end(s, j + 1),
        ));
    } else {
        assert(punct(s2, j + 1) == match punct(s, j) {
            Some((k, e)) => Some((k, e + 1)),
            None => None::<(SpecTokenKind, int)>,
        });
    }
}

proof fn lemma_prefix_lex(s: Seq<char>, i: int)
    requires
        0 <= i <= s.len(),
    ensures
        match (lex(s, i), lex(seq!['\n'] + s, i + 1)) {
            (Ok(a), Ok(b)) => b == one_line_down(a),
            (Err(_), Err(_)) => true,
            _ => false,
        },
    decreases s.len() - i,
{
    let s2 = seq!['\n'] + s;
    lemma_skip_trivia(s, i);
    lemma_prefix_skip_trivia(s, i);
    let j = skip_trivia(s, i);
    lemma_prefix_line_col(s, j);
    if j >= s.len() {
        assert(one_line_down(seq![SpecToken { kind: SpecTokenKind::Eof, line: line_col(s, j).0, col: line_col(s, j).1 }])
            =~= seq![SpecToken { kind: SpecTokenKind::Eof, line: line_col(s, j).0 + 1, col: line_col(s, j).1 }]);
    } else {
        lemma_prefix_scan_token(s, j);
        lemma_scan_token(s, j);
        if let Ok((k, e)) = scan_token(s, j) {
            lemma_prefix_lex(s, e);
            if let Ok(rest) = lex(s, e) {
                let t1 = SpecToken { kind: k, line: line_col(s, j).0, col: line_col(s, j).1 };
                let t2 = SpecToken { kind: k, line: line_col(s, j).0 + 1, col: line_col(s, j).1 };
                assert(one_line_down(seq![t1] + rest) =~= seq![t2] + one_line_down(rest));
            }
        }
    }
}

/// A newline put in front of a text moves every token one line down and
/// keeps its kind and column; lexing fails on the one text exactly when it
/// fails on the other.
pub proof fn lemma_lex_newline_in_front(s: Seq<char>)
    ensures
        lex(s, 0) is Ok <==> lex(seq!['\n'] + s, 0) is Ok,
        lex(s, 0) matches Ok(a) ==> lex(seq!['\n'] + s, 0) == Ok::<Seq<SpecToken>, Seq<char>>(
            one_line_down(a),
        ),
{
    let s2 = seq!['\n'] + s;
    lemma_prefix_lex(s, 0);
    assert(s2[0] == '\n');
    assert(skip_trivia(s2, 0) == skip_trivia(s2, 1));
    assert(lex(s2, 0) == lex(s2, 1));
}

} // verus!
