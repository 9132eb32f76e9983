//! The lexer: source text to a flat ordered token sequence.
//!
//! Errors are classified inline as error tokens, so tokenization never
//! aborts. Tokens carry no positions; diagnostics later recover them by
//! replaying the lexer over the source (see the `error` module).
use vstd::prelude::*;
use vstd::string::*;
use crate::chars::{
    whitespace_char, skippable_ws, alphanumeric_char, numeric_char, ascii_digit, ascii_alpha,
    identifier_char, identifier_start_char, is_skippable_whitespace, is_ascii_digit_char,
    is_identifier_start, is_identifier_char, is_numeric_char,
};
use crate::token::{
    FixedToken, LexError, Identifier, StringLiteral, NumericLiteral, Token, TokenM,
};
use crate::numeric::{
    digit_or_dot, numeric_span_shape, valid_numeric_span, span_body, has_digit, at_most_one_dot,
    f64_bits_of_decimal, parse_numeric_bits,
};

verus! {

// ------------------------------------------------------------------
// Ghost model of the lexer
// ------------------------------------------------------------------

/// The first position at or after `i` holding no skippable whitespace.
pub open spec fn skip_ws_end(s: Seq<char>, i: int) -> int
    decreases s.len() - i,
    when 0 <= i <= s.len()
{
    if i >= s.len() || !skippable_ws(s[i]) {
        i
    } else {
        skip_ws_end(s, i + 1)
    }
}

pub open spec fn has1(s: Seq<char>, i: int, a: char) -> bool {
    i + 1 <= s.len() && s[i] == a
}

pub open spec fn has2(s: Seq<char>, i: int, a: char, b: char) -> bool {
    i + 2 <= s.len() && s[i] == a && s[i + 1] == b
}

pub open spec fn has3(s: Seq<char>, i: int, a: char, b: char, c: char) -> bool {
    i + 3 <= s.len() && s[i] == a && s[i + 1] == b && s[i + 2] == c
}

pub open spec fn has4(s: Seq<char>, i: int, a: char, b: char, c: char, d: char) -> bool {
    i + 4 <= s.len() && s[i] == a && s[i + 1] == b && s[i + 2] == c && s[i + 3] == d
}

pub open spec fn has5(s: Seq<char>, i: int, a: char, b: char, c: char, d: char, e: char) -> bool {
    i + 5 <= s.len() && s[i] == a && s[i + 1] == b && s[i + 2] == c && s[i + 3] == d
        && s[i + 4] == e
}

pub open spec fn has6(
    s: Seq<char>,
    i: int,
    a: char,
    b: char,
    c: char,
    d: char,
    e: char,
    f: char,
) -> bool {
    i + 6 <= s.len() && s[i] == a && s[i + 1] == b && s[i + 2] == c && s[i + 3] == d
        && s[i + 4] == e && s[i + 5] == f
}

/// Longest-prefix lookup in the fixed-token table, in its priority order.
/// Longer tokens that contain shorter ones (`>=` before `>`) come first.
/// A minus sign is fixed only when not opening a numeric literal: the
/// character after it must exist and not be numeric.
pub open spec fn fixed_lookup(s: Seq<char>, i: int) -> Option<(FixedToken, int)> {
    if has2(s, i, '>', '=') { Some((FixedToken::GreaterEqual, 2)) }
    else if has1(s, i, '>') { Some((FixedToken::Greater, 1)) }
    else if has2(s, i, '<', '=') { Some((FixedToken::LessEqual, 2)) }
    else if has1(s, i, '<') { Some((FixedToken::Less, 1)) }
    else if has2(s, i, '=', '=') { Some((FixedToken::EqualEqual, 2)) }
    else if has1(s, i, '=') { Some((FixedToken::Equal, 1)) }
    else if has2(s, i, '!', '=') { Some((FixedToken::BangEqual, 2)) }
    else if has1(s, i, '!') { Some((FixedToken::Bang, 1)) }
    else if has1(s, i, '(') { Some((FixedToken::LeftParenthesis, 1)) }
    else if has1(s, i, ')') { Some((FixedToken::RightParenthesis, 1)) }
    else if has1(s, i, '{') { Some((FixedToken::LeftBrace, 1)) }
    else if has1(s, i, '}') { Some((FixedToken::RightBrace, 1)) }
    else if has1(s, i, ',') { Some((FixedToken::Comma, 1)) }
    else if has1(s, i, '.') { Some((FixedToken::Dot, 1)) }
    else if has1(s, i, '+') { Some((FixedToken::Plus, 1)) }
    else if has1(s, i, ';') { Some((FixedToken::Semicolon, 1)) }
    else if has1(s, i, '/') { Some((FixedToken::ForwardSlash, 1)) }
    else if has1(s, i, '*') { Some((FixedToken::Asterisk, 1)) }
    else if has4(s, i, 't', 'r', 'u', 'e') { Some((FixedToken::True, 4)) }
    else if has5(s, i, 'f', 'a', 'l', 's', 'e') { Some((FixedToken::False, 5)) }
    else if has3(s, i, 'n', 'i', 'l') { Some((FixedToken::Nil, 3)) }
    else if has3(s, i, 'v', 'a', 'r') { Some((FixedToken::Var, 3)) }
    else if has2(s, i, 'i', 'f') { Some((FixedToken::If, 2)) }
    else if has4(s, i, 'e', 'l', 's', 'e') { Some((FixedToken::Else, 4)) }
    else if has3(s, i, 'f', 'o', 'r') { Some((FixedToken::For, 3)) }
    else if has5(s, i, 'w', 'h', 'i', 'l', 'e') { Some((FixedToken::While, 5)) }
    else if has3(s, i, 'f', 'u', 'n') { Some((FixedToken::Fun, 3)) }
    else if has6(s, i, 'r', 'e', 't', 'u', 'r', 'n') { Some((FixedToken::Return, 6)) }
    else if has5(s, i, 'c', 'l', 'a', 's', 's') { Some((FixedToken::Class, 5)) }
    else if has4(s, i, 't', 'h', 'i', 's') { Some((FixedToken::This, 4)) }
    else if has5(s, i, 's', 'u', 'p', 'e', 'r') { Some((FixedToken::Super, 5)) }
    else if has3(s, i, 'a', 'n', 'd') { Some((FixedToken::And, 3)) }
    else if has2(s, i, 'o', 'r') { Some((FixedToken::Or, 2)) }
    else if has5(s, i, 'p', 'r', 'i', 'n', 't') { Some((FixedToken::Print, 5)) }
    else if has1(s, i, '\n') { Some((FixedToken::Newline, 1)) }
    else if has1(s, i, '-') && i + 2 <= s.len() && !numeric_char(s[i + 1]) {
        Some((FixedToken::Minus, 1))
    }
    else { None }
}

/// End of the maximal run of digits and dots starting at `j`.
pub open spec fn numeric_scan_end(s: Seq<char>, j: int) -> int
    decreases s.len() - j,
    when 0 <= j <= s.len()
{
    if j >= s.len() || !digit_or_dot(s[j]) {
        j
    } else {
        numeric_scan_end(s, j + 1)
    }
}

/// First position at or after `j` holding a closing quote or a newline.
pub open spec fn string_scan_end(s: Seq<char>, j: int) -> int
    decreases s.len() - j,
    when 0 <= j <= s.len()
{
    if j >= s.len() || s[j] == '"' || s[j] == '\n' {
        j
    } else {
        string_scan_end(s, j + 1)
    }
}

/// End of the maximal run of identifier characters starting at `j`.
pub open spec fn ident_scan_end(s: Seq<char>, j: int) -> int
    decreases s.len() - j,
    when 0 <= j <= s.len()
{
    if j >= s.len() || !identifier_char(s[j]) {
        j
    } else {
        ident_scan_end(s, j + 1)
    }
}

/// End of the maximal run of non-whitespace characters starting at `j`.
pub open spec fn nontoken_scan_end(s: Seq<char>, j: int) -> int
    decreases s.len() - j,
    when 0 <= j <= s.len()
{
    if j >= s.len() || whitespace_char(s[j]) {
        j
    } else {
        nontoken_scan_end(s, j + 1)
    }
}

/// Whether position `i` opens a numeric literal: a digit, or a minus sign
/// followed by a numeric character.
pub open spec fn numeric_is_kind(s: Seq<char>, i: int) -> bool {
    i < s.len() && (ascii_digit(s[i]) || (s[i] == '-' && i + 1 < s.len() && numeric_char(
        s[i + 1],
    )))
}

/// The token starting at position `i` (which must hold no skippable
/// whitespace), and the position just after it.
pub open spec fn extract_token(s: Seq<char>, i: int) -> (TokenM, int) {
    match fixed_lookup(s, i) {
        Some((t, n)) => (TokenM::Fixed(t), i + n),
        None => {
            if numeric_is_kind(s, i) {
                let start = if s[i] == '-' { i + 1 } else { i };
                let e = numeric_scan_end(s, start);
                let span = s.subrange(i, e);
                if valid_numeric_span(span) {
                    (TokenM::Num(f64_bits_of_decimal(span)), e)
                } else {
                    (TokenM::Error(LexError::NumericContainsAlpha), e)
                }
            } else if i < s.len() && s[i] == '"' {
                let e = string_scan_end(s, i + 1);
                if e < s.len() && s[e] == '"' {
                    (TokenM::StrLit(s.subrange(i + 1, e)), e + 1)
                } else {
                    (TokenM::Error(LexError::UnclosedString), e)
                }
            } else if i < s.len() && identifier_start_char(s[i]) {
                (TokenM::Ident(s.subrange(i, ident_scan_end(s, i))), ident_scan_end(s, i))
            } else {
                (TokenM::Error(LexError::NoTokenKind), nontoken_scan_end(s, i))
            }
        },
    }
}

/// The token sequence of the source from position `i` on.
pub open spec fn lex_from(s: Seq<char>, i: int) -> Seq<TokenM>
    decreases s.len() - i,
    when 0 <= i <= s.len()
    via lex_from_dec
{
    let j = skip_ws_end(s, i);
    if j >= s.len() {
        seq![]
    } else {
        let (t, k) = extract_token(s, j);
        if j < k <= s.len() {
            seq![t] + lex_from(s, k)
        } else {
            seq![t]
        }
    }
}

#[via_fn]
proof fn lex_from_dec(s: Seq<char>, i: int) {
    lemma_skip_ws_end_bounds(s, i);
}

/// The token sequence of a whole source string.
pub open spec fn lex(s: Seq<char>) -> Seq<TokenM> {
    lex_from(s, 0)
}

/// The source span consumed for each token (the skipped whitespace before
/// it together with its lexeme), with one final span of trailing
/// whitespace.
pub open spec fn lex_spans_from(s: Seq<char>, i: int) -> Seq<Seq<char>>
    decreases s.len() - i,
    when 0 <= i <= s.len()
    via lex_spans_from_dec
{
    let j = skip_ws_end(s, i);
    if j >= s.len() {
        seq![s.subrange(i, s.len() as int)]
    } else {
        let (t, k) = extract_token(s, j);
        if j < k <= s.len() {
            seq![s.subrange(i, k)] + lex_spans_from(s, k)
        } else {
            seq![s.subrange(i, s.len() as int)]
        }
    }
}

#[via_fn]
proof fn lex_spans_from_dec(s: Seq<char>, i: int) {
    lemma_skip_ws_end_bounds(s, i);
}

/// Whether some token in the sequence records a lexical error.
pub open spec fn has_lex_error(ts: Seq<TokenM>) -> bool {
    exists|k: int| 0 <= k < ts.len() && (#[trigger] ts[k]) is Error
}

// ------------------------------------------------------------------
// Lemmas about the ghost model
// ------------------------------------------------------------------

pub proof fn lemma_skip_ws_end_bounds(s: Seq<char>, i: int)
    requires
        0 <= i <= s.len(),
    ensures
        i <= skip_ws_end(s, i) <= s.len(),
        skip_ws_end(s, i) < s.len() ==> !skippable_ws(s[skip_ws_end(s, i)]),
        forall|m: int| i <= m < skip_ws_end(s, i) ==> skippable_ws(#[trigger] s[m]),
    decreases s.len() - i,
{
    if i < s.len() && skippable_ws(s[i]) {
        lemma_skip_ws_end_bounds(s, i + 1);
    }
}

pub proof fn lemma_numeric_scan_end_bounds(s: Seq<char>, j: int)
    requires
        0 <= j <= s.len(),
    ensures
        j <= numeric_scan_end(s, j) <= s.len(),
        numeric_scan_end(s, j) < s.len() ==> !digit_or_dot(s[numeric_scan_end(s, j)]),
        forall|m: int| j <= m < numeric_scan_end(s, j) ==> digit_or_dot(#[trigger] s[m]),
    decreases s.len() - j,
{
    if j < s.len() && digit_or_dot(s[j]) {
        lemma_numeric_scan_end_bounds(s, j + 1);
    }
}

pub proof fn lemma_string_scan_end_bounds(s: Seq<char>, j: int)
    requires
        0 <= j <= s.len(),
    ensures
        j <= string_scan_end(s, j) <= s.len(),
        string_scan_end(s, j) < s.len() ==> (s[string_scan_end(s, j)] == '"' || s[string_scan_end(
            s,
            j,
        )] == '\n'),
        forall|m: int|
            j <= m < string_scan_end(s, j) ==> (#[trigger] s[m]) != '"' && s[m] != '\n',
    decreases s.len() - j,
{
    if j < s.len() && s[j] != '"' && s[j] != '\n' {
        lemma_string_scan_end_bounds(s, j + 1);
    }
}

pub proof fn lemma_ident_scan_end_bounds(s: Seq<char>, j: int)
    requires
        0 <= j <= s.len(),
    ensures
        j <= ident_scan_end(s, j) <= s.len(),
        ident_scan_end(s, j) < s.len() ==> !identifier_char(s[ident_scan_end(s, j)]),
        forall|m: int| j <= m < ident_scan_end(s, j) ==> identifier_char(#[trigger] s[m]),
    decreases s.len() - j,
{
    if j < s.len() && identifier_char(s[j]) {
        lemma_ident_scan_end_bounds(s, j + 1);
    }
}

pub proof fn lemma_nontoken_scan_end_bounds(s: Seq<char>, j: int)
    requires
        0 <= j <= s.len(),
    ensures
        j <= nontoken_scan_end(s, j) <= s.len(),
        nontoken_scan_end(s, j) < s.len() ==> whitespace_char(s[nontoken_scan_end(s, j)]),
        forall|m: int| j <= m < nontoken_scan_end(s, j) ==> !whitespace_char(#[trigger] s[m]),
    decreases s.len() - j,
{
    if j < s.len() && !whitespace_char(s[j]) {
        lemma_nontoken_scan_end_bounds(s, j + 1);
    }
}

/// Extracting a token from a position holding no skippable whitespace
/// consumes at least one character and stays within the source.
pub proof fn lemma_extract_token_bounds(s: Seq<char>, i: int)
    requires
        0 <= i < s.len(),
        !skippable_ws(s[i]),
    ensures
        i < extract_token(s, i).1 <= s.len(),
{
    match fixed_lookup(s, i) {
        Some((t, n)) => {},
        None => {
            if numeric_is_kind(s, i) {
                let start = if s[i] == '-' { i + 1 } else { i };
                lemma_numeric_scan_end_bounds(s, start);
            } else if s[i] == '"' {
                lemma_string_scan_end_bounds(s, i + 1);
            } else if identifier_start_char(s[i]) {
                lemma_ident_scan_end_bounds(s, i);
            } else {
                // the newline entry of the fixed table did not match, so the
                // character is not a newline; were it whitespace it would be
                // skippable, against the precondition
                assert(s[i] != '\n');
                assert(!whitespace_char(s[i]));
                lemma_nontoken_scan_end_bounds(s, i);
                assert(nontoken_scan_end(s, i) == nontoken_scan_end(s, i + 1));
            }
        },
    }
}

/// Concatenating the consumed spans of all tokens, with the discarded
/// whitespace, reconstructs the source exactly from position `i` on.
pub proof fn lemma_spans_reconstruct_from(s: Seq<char>, i: int)
    requires
        0 <= i <= s.len(),
    ensures
        lex_spans_from(s, i).flatten() == s.subrange(i, s.len() as int),
        lex_spans_from(s, i).len() == lex_from(s, i).len() + 1,
    decreases s.len() - i,
{
    lemma_skip_ws_end_bounds(s, i);
    let j = skip_ws_end(s, i);
    if j >= s.len() {
        let sp = lex_spans_from(s, i);
        assert(sp =~= seq![s.subrange(i, s.len() as int)]);
        sp.lemma_flatten_one_element();
        assert(sp.flatten() =~= s.subrange(i, s.len() as int));
    } else {
        lemma_extract_token_bounds(s, j);
        let (t, k) = extract_token(s, j);
        lemma_spans_reconstruct_from(s, k);
        let sp = lex_spans_from(s, i);
        assert(sp == seq![s.subrange(i, k)] + lex_spans_from(s, k));
        assert(sp.len() >= 1);
        assert(sp.first() == s.subrange(i, k));
        assert(sp.drop_first() =~= lex_spans_from(s, k));
        assert(sp.flatten() == sp.first() + sp.drop_first().flatten());
        assert(s.subrange(i, k) + s.subrange(k, s.len() as int) =~= s.subrange(
            i,
            s.len() as int,
        ));
        assert(sp.flatten() =~= s.subrange(i, s.len() as int));
    }
}

/// Round trip of lexing: the concatenation of every token's consumed span
/// (leading skipped whitespace plus lexeme) and of the trailing discarded
/// whitespace is the original source, for every source string.
pub proof fn lemma_token_spans_reconstruct_source(s: Seq<char>)
    ensures
        lex_spans_from(s, 0).flatten() == s,
        lex_spans_from(s, 0).len() == lex(s).len() + 1,
{
    lemma_spans_reconstruct_from(s, 0);
    assert(s.subrange(0, s.len() as int) =~= s);
}

// ------------------------------------------------------------------
// Executable lexer
// ------------------------------------------------------------------

fn digit_or_dot_char(c: char) -> (r: bool)
    ensures
        r == digit_or_dot(c),
{
    is_ascii_digit_char(c) || c == '.'
}

/// Advances past skippable whitespace.
pub(crate) fn skip_ws_from(s: &str, pos: usize) -> (r: usize)
    requires
        pos <= s@.len(),
    ensures
        r == skip_ws_end(s@, pos as int),
        pos <= r <= s@.len(),
{
    let n = s.unicode_len();
    let mut j = pos;
    loop
        invariant
            pos <= j <= n,
            n == s@.len(),
            skip_ws_end(s@, pos as int) == skip_ws_end(s@, j as int),
        ensures
            pos <= j <= n,
            j == skip_ws_end(s@, pos as int),
        decreases n - j,
    {
        if j >= n {
            break;
        }
        if !is_skippable_whitespace(s.get_char(j)) {
            break;
        }
        j += 1;
    }
    j
}

fn p1(s: &str, pos: usize, n: usize, a: char) -> (r: bool)
    requires
        n == s@.len(),
    ensures
        r == has1(s@, pos as int, a),
{
    pos < n && s.get_char(pos) == a
}

fn p2(s: &str, pos: usize, n: usize, a: char, b: char) -> (r: bool)
    requires
        n == s@.len(),
    ensures
        r == has2(s@, pos as int, a, b),
{
    pos < n && n - pos >= 2 && s.get_char(pos) == a && s.get_char(pos + 1) == b
}

fn p3(s: &str, pos: usize, n: usize, a: char, b: char, c: char) -> (r: bool)
    requires
        n == s@.len(),
    ensures
        r == has3(s@, pos as int, a, b, c),
{
    pos < n && n - pos >= 3 && s.get_char(pos) == a && s.get_char(pos + 1) == b && s.get_char(
        pos + 2,
    ) == c
}

fn p4(s: &str, pos: usize, n: usize, a: char, b: char, c: char, d: char) -> (r: bool)
    requires
        n == s@.len(),
    ensures
        r == has4(s@, pos as int, a, b, c, d),
{
    pos < n && n - pos >= 4 && s.get_char(pos) == a && s.get_char(pos + 1) == b && s.get_char(
        pos + 2,
    ) == c && s.get_char(pos + 3) == d
}

fn p5(s: &str, pos: usize, n: usize, a: char, b: char, c: char, d: char, e: char) -> (r: bool)
    requires
        n == s@.len(),
    ensures
        r == has5(s@, pos as int, a, b, c, d, e),
{
    pos < n && n - pos >= 5 && s.get_char(pos) == a && s.get_char(pos + 1) == b && s.get_char(
        pos + 2,
    ) == c && s.get_char(pos + 3) == d && s.get_char(pos + 4) == e
}

fn p6(
    s: &str,
    pos: usize,
    n: usize,
    a: char,
    b: char,
    c: char,
    d: char,
    e: char,
    f: char,
) -> (r: bool)
    requires
        n == s@.len(),
    ensures
        r == has6(s@, pos as int, a, b, c, d, e, f),
{
    pos < n && n - pos >= 6 && s.get_char(pos) == a && s.get_char(pos + 1) == b && s.get_char(
        pos + 2,
    ) == c && s.get_char(pos + 3) == d && s.get_char(pos + 4) == e && s.get_char(pos + 5) == f
}

impl FixedToken {
    /// Longest-prefix match against the fixed-token table at `pos`,
    /// returning the token and how many characters it consumes.
    #[verifier::rlimit(60)]
    pub fn extract(s: &str, pos: usize, n: usize) -> (r: Option<(FixedToken, usize)>)
        requires
            n == s@.len(),
            pos < n,
        ensures
            match r {
                Some((t, c)) => fixed_lookup(s@, pos as int) == Some((t, c as int)) && 1 <= c
                    && pos + c <= n,
                None => fixed_lookup(s@, pos as int) is None,
            },
    {
        if p2(s, pos, n, '>', '=') { Some((FixedToken::GreaterEqual, 2)) }
        else if p1(s, pos, n, '>') { Some((FixedToken::Greater, 1)) }
        else if p2(s, pos, n, '<', '=') { Some((FixedToken::LessEqual, 2)) }
        else if p1(s, pos, n, '<') { Some((FixedToken::Less, 1)) }
        else if p2(s, pos, n, '=', '=') { Some((FixedToken::EqualEqual, 2)) }
        else if p1(s, pos, n, '=') { Some((FixedToken::Equal, 1)) }
        else if p2(s, pos, n, '!', '=') { Some((FixedToken::BangEqual, 2)) }
        else if p1(s, pos, n, '!') { Some((FixedToken::Bang, 1)) }
        else if p1(s, pos, n, '(') { Some((FixedToken::LeftParenthesis, 1)) }
        else if p1(s, pos, n, ')') { Some((FixedToken::RightParenthesis, 1)) }
        else if p1(s, pos, n, '{') { Some((FixedToken::LeftBrace, 1)) }
        else if p1(s, pos, n, '}') { Some((FixedToken::RightBrace, 1)) }
        else if p1(s, pos, n, ',') { Some((FixedToken::Comma, 1)) }
        else if p1(s, pos, n, '.') { Some((FixedToken::Dot, 1)) }
        else if p1(s, pos, n, '+') { Some((FixedToken::Plus, 1)) }
        else if p1(s, pos, n, ';') { Some((FixedToken::Semicolon, 1)) }
        else if p1(s, pos, n, '/') { Some((FixedToken::ForwardSlash, 1)) }
        else if p1(s, pos, n, '*') { Some((FixedToken::Asterisk, 1)) }
        else if p4(s, pos, n, 't', 'r', 'u', 'e') { Some((FixedToken::True, 4)) }
        else if p5(s, pos, n, 'f', 'a', 'l', 's', 'e') { Some((FixedToken::False, 5)) }
        else if p3(s, pos, n, 'n', 'i', 'l') { Some((FixedToken::Nil, 3)) }
        else if p3(s, pos, n, 'v', 'a', 'r') { Some((FixedToken::Var, 3)) }
        else if p2(s, pos, n, 'i', 'f') { Some((FixedToken::If, 2)) }
        else if p4(s, pos, n, 'e', 'l', 's', 'e') { Some((FixedToken::Else, 4)) }
        else if p3(s, pos, n, 'f', 'o', 'r') { Some((FixedToken::For, 3)) }
        else if p5(s, pos, n, 'w', 'h', 'i', 'l', 'e') { Some((FixedToken::While, 5)) }
        else if p3(s, pos, n, 'f', 'u', 'n') { Some((FixedToken::Fun, 3)) }
        else if p6(s, pos, n, 'r', 'e', 't', 'u', 'r', 'n') { Some((FixedToken::Return, 6)) }
        else if p5(s, pos, n, 'c', 'l', 'a', 's', 's') { Some((FixedToken::Class, 5)) }
        else if p4(s, pos, n, 't', 'h', 'i', 's') { Some((FixedToken::This, 4)) }
        else if p5(s, pos, n, 's', 'u', 'p', 'e', 'r') { Some((FixedToken::Super, 5)) }
        else if p3(s, pos, n, 'a', 'n', 'd') { Some((FixedToken::And, 3)) }
        else if p2(s, pos, n, 'o', 'r') { Some((FixedToken::Or, 2)) }
        else if p5(s, pos, n, 'p', 'r', 'i', 'n', 't') { Some((FixedToken::Print, 5)) }
        else if p1(s, pos, n, '\n') { Some((FixedToken::Newline, 1)) }
        else if p1(s, pos, n, '-') && pos + 1 < n && !is_numeric_char(s.get_char(pos + 1)) {
            Some((FixedToken::Minus, 1))
        }
        else { None }
    }
}

impl NumericLiteral {
    /// Consumes the maximal run of digits and dots (with an optional
    /// leading minus sign) and parses it; a span that denotes no number
    /// becomes an error token.
    pub fn extract(s: &str, pos: usize, n: usize) -> (r: (Token, usize))
        requires
            n == s@.len(),
            numeric_is_kind(s@, pos as int),
            fixed_lookup(s@, pos as int) is None,
        ensures
            (r.0@, r.1 as int) == extract_token(s@, pos as int),
            pos < r.1 <= n,
    {
        proof {
            lemma_extract_token_bounds(s@, pos as int);
        }
        let start = if s.get_char(pos) == '-' {
            pos + 1
        } else {
            pos
        };
        let mut e = start;
        loop
            invariant
                start <= e <= n,
                n == s@.len(),
                pos < n,
                start <= pos + 1,
                numeric_scan_end(s@, start as int) == numeric_scan_end(s@, e as int),
                forall|m: int| start <= m < e ==> digit_or_dot(#[trigger] s@[m]),
            ensures
                start <= e <= n,
                e as int == numeric_scan_end(s@, start as int),
                forall|m: int| start <= m < e ==> digit_or_dot(#[trigger] s@[m]),
            decreases n - e,
        {
            if e >= n {
                break;
            }
            if !digit_or_dot_char(s.get_char(e)) {
                break;
            }
            e += 1;
        }
        proof {
            if s@[pos as int] != '-' {
                assert(digit_or_dot(s@[pos as int]));
                assert(numeric_scan_end(s@, pos as int) == numeric_scan_end(s@, pos + 1));
                lemma_numeric_scan_end_bounds(s@, pos + 1);
            }
        }
        let span = s.substring_char(pos, e);
        proof {
            assert(span@ =~= s@.subrange(pos as int, e as int));
            assert(span@[0] == s@[pos as int]);
            assert forall|ii: int| 1 <= ii < span@.len() implies digit_or_dot(
                #[trigger] span@[ii],
            ) by {
                assert(span@[ii] == s@[pos + ii]);
            };
            assert(numeric_span_shape(span@));
        }
        match parse_numeric_bits(span) {
            Some(bits) => (Token::NumericLiteral(NumericLiteral { bits }), e),
            None => (Token::Error(LexError::NumericContainsAlpha), e),
        }
    }
}

impl StringLiteral {
    /// Consumes a string literal delimited by double quotes; one left
    /// unclosed before the end of the line or of the input is an error
    /// token, consumed up to (not including) the newline.
    pub fn extract(s: &str, pos: usize, n: usize) -> (r: (Token, usize))
        requires
            n == s@.len(),
            pos < n,
            s@[pos as int] == '"',
            fixed_lookup(s@, pos as int) is None,
            !numeric_is_kind(s@, pos as int),
        ensures
            (r.0@, r.1 as int) == extract_token(s@, pos as int),
            pos < r.1 <= n,
    {
        let mut e = pos + 1;
        loop
            invariant
                pos + 1 <= e <= n,
                n == s@.len(),
                string_scan_end(s@, pos + 1) == string_scan_end(s@, e as int),
                forall|m: int| pos + 1 <= m < e ==> (#[trigger] s@[m]) != '"' && s@[m] != '\n',
            ensures
                pos + 1 <= e <= n,
                e as int == string_scan_end(s@, pos + 1),
            decreases n - e,
        {
            if e >= n {
                break;
            }
            let c = s.get_char(e);
            if c == '"' || c == '\n' {
                break;
            }
            e += 1;
        }
        if e < n && s.get_char(e) == '"' {
            let value = s.substring_char(pos + 1, e).to_owned();
            proof {
                assert(value@ =~= s@.subrange(pos + 1, e as int));
            }
            (Token::StringLiteral(StringLiteral { value }), e + 1)
        } else {
            (Token::Error(LexError::UnclosedString), e)
        }
    }
}

impl Identifier {
    /// Consumes the maximal run of identifier characters.
    pub fn extract(s: &str, pos: usize, n: usize) -> (r: (Token, usize))
        requires
            n == s@.len(),
            pos < n,
            identifier_start_char(s@[pos as int]),
            s@[pos as int] != '"',
            fixed_lookup(s@, pos as int) is None,
            !numeric_is_kind(s@, pos as int),
        ensures
            (r.0@, r.1 as int) == extract_token(s@, pos as int),
            pos < r.1 <= n,
    {
        let mut e = pos;
        loop
            invariant
                pos <= e <= n,
                n == s@.len(),
                ident_scan_end(s@, pos as int) == ident_scan_end(s@, e as int),
            ensures
                pos <= e <= n,
                e as int == ident_scan_end(s@, pos as int),
            decreases n - e,
        {
            if e >= n {
                break;
            }
            if !is_identifier_char(s.get_char(e)) {
                break;
            }
            e += 1;
        }
        proof {
            lemma_extract_token_bounds(s@, pos as int);
        }
        let name = s.substring_char(pos, e).to_owned();
        proof {
            assert(name@ =~= s@.subrange(pos as int, e as int));
        }
        (Token::Identifier(Identifier { name }), e)
    }
}

/// Consumes the run of non-whitespace characters that no token rule
/// matched, as a single error token.
fn extract_nontoken(s: &str, pos: usize, n: usize) -> (r: (Token, usize))
    requires
        n == s@.len(),
        pos < n,
        !skippable_ws(s@[pos as int]),
        fixed_lookup(s@, pos as int) is None,
        !numeric_is_kind(s@, pos as int),
        s@[pos as int] != '"',
        !identifier_start_char(s@[pos as int]),
    ensures
        (r.0@, r.1 as int) == extract_token(s@, pos as int),
        pos < r.1 <= n,
{
    proof {
        lemma_extract_token_bounds(s@, pos as int);
    }
    let mut e = pos;
    loop
        invariant
            pos <= e <= n,
            n == s@.len(),
            nontoken_scan_end(s@, pos as int) == nontoken_scan_end(s@, e as int),
        ensures
            pos <= e <= n,
            e as int == nontoken_scan_end(s@, pos as int),
        decreases n - e,
    {
        if e >= n {
            break;
        }
        if is_skippable_whitespace(s.get_char(e)) || s.get_char(e) == '\n' {
            break;
        }
        e += 1;
    }
    (Token::Error(LexError::NoTokenKind), e)
}

/// Extracts one token at a position holding no skippable whitespace.
pub(crate) fn extract_core(s: &str, pos: usize, n: usize) -> (r: (Token, usize))
    requires
        n == s@.len(),
        pos < n,
        !skippable_ws(s@[pos as int]),
    ensures
        (r.0@, r.1 as int) == extract_token(s@, pos as int),
        pos < r.1 <= n,
{
    match FixedToken::extract(s, pos, n) {
        Some((t, c)) => (Token::FixedToken(t), pos + c),
        None => {
            let c0 = s.get_char(pos);
            let minus_numeric = c0 == '-' && pos + 1 < n && is_numeric_char(s.get_char(pos + 1));
            if is_ascii_digit_char(c0) || minus_numeric {
                NumericLiteral::extract(s, pos, n)
            } else if c0 == '"' {
                StringLiteral::extract(s, pos, n)
            } else if is_identifier_start(c0) {
                Identifier::extract(s, pos, n)
            } else {
                proof {
                    // the newline entry of the fixed table did not match
                    assert(s@[pos as int] != '\n');
                }
                extract_nontoken(s, pos, n)
            }
        },
    }
}

impl Token {
    /// Skips whitespace and extracts the next token, returning it with
    /// the position just after it. There must be a token left to read.
    pub fn extract(s: &str, pos: usize) -> (r: (Token, usize))
        requires
            pos <= s@.len(),
            skip_ws_end(s@, pos as int) < s@.len(),
        ensures
            (r.0@, r.1 as int) == extract_token(s@, skip_ws_end(s@, pos as int)),
            pos <= r.1 <= s@.len(),
            skip_ws_end(s@, pos as int) < r.1,
    {
        let n = s.unicode_len();
        let j = skip_ws_from(s, pos);
        proof {
            lemma_skip_ws_end_bounds(s@, pos as int);
        }
        extract_core(s, j, n)
    }
}

proof fn lemma_has_error_push(ts: Seq<TokenM>, t: TokenM)
    ensures
        has_lex_error(ts.push(t)) == (has_lex_error(ts) || t is Error),
{
    if has_lex_error(ts) {
        let k = choose|k: int| 0 <= k < ts.len() && (#[trigger] ts[k]) is Error;
        assert(ts.push(t)[k] is Error);
    }
    if t is Error {
        assert(ts.push(t)[ts.len() as int] is Error);
    }
    if has_lex_error(ts.push(t)) {
        let k = choose|k: int| 0 <= k < ts.push(t).len() && (#[trigger] ts.push(t)[k]) is Error;
        if k < ts.len() {
            assert(ts[k] is Error);
        }
    }
}

/// Tokenizes a whole source string. The token sequence is returned either
/// way; `Ok` means no lexical error token was produced.
pub fn tokenize(input: &str) -> (r: Result<Vec<Token>, Vec<Token>>)
    ensures
        match r {
            Ok(v) => v.deep_view() == lex(input@) && !has_lex_error(lex(input@)),
            Err(v) => v.deep_view() == lex(input@) && has_lex_error(lex(input@)),
        },
{
    let n = input.unicode_len();
    let mut tokens: Vec<Token> = Vec::new();
    let mut has_err = false;
    let mut pos: usize = 0;
    loop
        invariant
            pos <= n,
            n == input@.len(),
            lex(input@) == tokens.deep_view() + lex_from(input@, pos as int),
            has_err == has_lex_error(tokens.deep_view()),
        ensures
            lex(input@) == tokens.deep_view(),
            has_err == has_lex_error(tokens.deep_view()),
        decreases n - pos,
    {
        let j = skip_ws_from(input, pos);
        proof {
            lemma_skip_ws_end_bounds(input@, pos as int);
        }
        if j >= n {
            proof {
                assert(lex_from(input@, pos as int) =~= Seq::<TokenM>::empty());
                assert(lex(input@) =~= tokens.deep_view());
            }
            break;
        }
        let (tok, k) = extract_core(input, j, n);
        proof {
            let ghost prev = tokens.deep_view();
            assert(lex_from(input@, pos as int) =~= seq![tok@] + lex_from(input@, k as int));
            lemma_has_error_push(prev, tok@);
        }
        has_err = has_err || tok.is_error();
        let ghost prev_tokens = tokens.deep_view();
        tokens.push(tok);
        proof {
            assert(tokens.deep_view() =~= prev_tokens.push(tok@));
            assert(prev_tokens + (seq![tok@] + lex_from(input@, k as int)) =~= tokens.deep_view()
                + lex_from(input@, k as int));
        }
        pos = k;
    }
    if has_err {
        Err(tokens)
    } else {
        Ok(tokens)
    }
}


// ------------------------------------------------------------------
// Laws of the lexer
// ------------------------------------------------------------------

/// The fixed-token table: each entry's text with its token, in the
/// priority order of `fixed_lookup`.
pub open spec fn fixed_token_table() -> Seq<(Seq<char>, FixedToken)> {
    seq![
        (seq!['>', '='], FixedToken::GreaterEqual),
        (seq!['>'], FixedToken::Greater),
        (seq!['<', '='], FixedToken::LessEqual),
        (seq!['<'], FixedToken::Less),
        (seq!['=', '='], FixedToken::EqualEqual),
        (seq!['='], FixedToken::Equal),
        (seq!['!', '='], FixedToken::BangEqual),
        (seq!['!'], FixedToken::Bang),
        (seq!['('], FixedToken::LeftParenthesis),
        (seq![')'], FixedToken::RightParenthesis),
        (seq!['{'], FixedToken::LeftBrace),
        (seq!['}'], FixedToken::RightBrace),
        (seq![','], FixedToken::Comma),
        (seq!['.'], FixedToken::Dot),
        (seq!['+'], FixedToken::Plus),
        (seq![';'], FixedToken::Semicolon),
        (seq!['/'], FixedToken::ForwardSlash),
        (seq!['*'], FixedToken::Asterisk),
        (seq!['t', 'r', 'u', 'e'], FixedToken::True),
        (seq!['f', 'a', 'l', 's', 'e'], FixedToken::False),
        (seq!['n', 'i', 'l'], FixedToken::Nil),
        (seq!['v', 'a', 'r'], FixedToken::Var),
        (seq!['i', 'f'], FixedToken::If),
        (seq!['e', 'l', 's', 'e'], FixedToken::Else),
        (seq!['f', 'o', 'r'], FixedToken::For),
        (seq!['w', 'h', 'i', 'l', 'e'], FixedToken::While),
        (seq!['f', 'u', 'n'], FixedToken::Fun),
        (seq!['r', 'e', 't', 'u', 'r', 'n'], FixedToken::Return),
        (seq!['c', 'l', 'a', 's', 's'], FixedToken::Class),
        (seq!['t', 'h', 'i', 's'], FixedToken::This),
        (seq!['s', 'u', 'p', 'e', 'r'], FixedToken::Super),
        (seq!['a', 'n', 'd'], FixedToken::And),
        (seq!['o', 'r'], FixedToken::Or),
        (seq!['p', 'r', 'i', 'n', 't'], FixedToken::Print),
        (seq!['\n'], FixedToken::Newline),
    ]
}

/// A source whose first character opens a token that consumes the whole
/// source lexes to exactly that one token.
proof fn lemma_lex_one_token(s: Seq<char>)
    requires
        s.len() > 0,
        !skippable_ws(s[0]),
        extract_token(s, 0).1 == s.len(),
    ensures
        lex(s) == seq![extract_token(s, 0).0],
{
    lemma_extract_token_bounds(s, 0);
    assert(skip_ws_end(s, 0) == 0);
    assert(skip_ws_end(s, s.len() as int) == s.len());
    assert(lex_from(s, s.len() as int) =~= Seq::<TokenM>::empty());
    assert(lex_from(s, 0) =~= seq![extract_token(s, 0).0] + lex_from(s, s.len() as int));
    assert(lex(s) =~= seq![extract_token(s, 0).0]);
}

proof fn lemma_fixed_entry(s: Seq<char>, tok: FixedToken, k: int)
    requires
        s.len() == k,
        0 < k,
        !skippable_ws(s[0]),
        fixed_lookup(s, 0) == Some((tok, k)),
    ensures
        lex(s) == seq![TokenM::Fixed(tok)],
{
    assert(extract_token(s, 0) == (TokenM::Fixed(tok), k));
    lemma_lex_one_token(s);
}

/// For every valid token string in the fixed-token table, lexing it
/// yields exactly one fixed token matching its entry, consuming all of
/// it.
#[verifier::rlimit(100)]
pub proof fn lemma_fixed_tokens_lex_alone()
    ensures
        forall|i: int|
            0 <= i < fixed_token_table().len() ==> #[trigger] lex(fixed_token_table()[i].0)
                == seq![TokenM::Fixed(fixed_token_table()[i].1)],
{
    let t = fixed_token_table();
    assert forall|i: int| 0 <= i < t.len() implies #[trigger] lex(t[i].0) == seq![
        TokenM::Fixed(t[i].1),
    ] by {
        if i == 0 { lemma_fixed_entry(t[0].0, t[0].1, 2); }
        else if i == 1 { lemma_fixed_entry(t[1].0, t[1].1, 1); }
        else if i == 2 { lemma_fixed_entry(t[2].0, t[2].1, 2); }
        else if i == 3 { lemma_fixed_entry(t[3].0, t[3].1, 1); }
        else if i == 4 { lemma_fixed_entry(t[4].0, t[4].1, 2); }
        else if i == 5 { lemma_fixed_entry(t[5].0, t[5].1, 1); }
        else if i == 6 { lemma_fixed_entry(t[6].0, t[6].1, 2); }
        else if i == 7 { lemma_fixed_entry(t[7].0, t[7].1, 1); }
        else if i == 8 { lemma_fixed_entry(t[8].0, t[8].1, 1); }
        else if i == 9 { lemma_fixed_entry(t[9].0, t[9].1, 1); }
        else if i == 10 { lemma_fixed_entry(t[10].0, t[10].1, 1); }
        else if i == 11 { lemma_fixed_entry(t[11].0, t[11].1, 1); }
        else if i == 12 { lemma_fixed_entry(t[12].0, t[12].1, 1); }
        else if i == 13 { lemma_fixed_entry(t[13].0, t[13].1, 1); }
        else if i == 14 { lemma_fixed_entry(t[14].0, t[14].1, 1); }
        else if i == 15 { lemma_fixed_entry(t[15].0, t[15].1, 1); }
        else if i == 16 { lemma_fixed_entry(t[16].0, t[16].1, 1); }
        else if i == 17 { lemma_fixed_entry(t[17].0, t[17].1, 1); }
        else if i == 18 { lemma_fixed_entry(t[18].0, t[18].1, 4); }
        else if i == 19 { lemma_fixed_entry(t[19].0, t[19].1, 5); }
        else if i == 20 { lemma_fixed_entry(t[20].0, t[20].1, 3); }
        else if i == 21 { lemma_fixed_entry(t[21].0, t[21].1, 3); }
        else if i == 22 { lemma_fixed_entry(t[22].0, t[22].1, 2); }
        else if i == 23 { lemma_fixed_entry(t[23].0, t[23].1, 4); }
        else if i == 24 { lemma_fixed_entry(t[24].0, t[24].1, 3); }
        else if i == 25 { lemma_fixed_entry(t[25].0, t[25].1, 5); }
        else if i == 26 { lemma_fixed_entry(t[26].0, t[26].1, 3); }
        else if i == 27 { lemma_fixed_entry(t[27].0, t[27].1, 6); }
        else if i == 28 { lemma_fixed_entry(t[28].0, t[28].1, 5); }
        else if i == 29 { lemma_fixed_entry(t[29].0, t[29].1, 4); }
        else if i == 30 { lemma_fixed_entry(t[30].0, t[30].1, 5); }
        else if i == 31 { lemma_fixed_entry(t[31].0, t[31].1, 3); }
        else if i == 32 { lemma_fixed_entry(t[32].0, t[32].1, 2); }
        else if i == 33 { lemma_fixed_entry(t[33].0, t[33].1, 5); }
        else { lemma_fixed_entry(t[34].0, t[34].1, 1); }
    };
}

pub open spec fn all_ascii_digits(s: Seq<char>, a: int, b: int) -> bool {
    forall|m: int| a <= m < b ==> ascii_digit(#[trigger] s[m])
}

/// Strings of the numeric-literal form: an optional minus sign, one or
/// more digits, and optionally a dot followed by one or more digits.
pub open spec fn is_numeric_literal_string(s: Seq<char>) -> bool {
    let b0: int = if s.len() > 0 && s[0] == '-' {
        1
    } else {
        0
    };
    s.len() > b0 && exists|d: int|
        b0 < d <= s.len() && all_ascii_digits(s, b0, d) && (d == s.len() || (#[trigger] s[d]
            == '.' && d + 1 < s.len() && all_ascii_digits(s, d + 1, s.len() as int)))
}

proof fn lemma_numeric_scan_stops(s: Seq<char>, j: int, e: int)
    requires
        0 <= j <= e <= s.len(),
        forall|m: int| j <= m < e ==> digit_or_dot(#[trigger] s[m]),
        e == s.len() || !digit_or_dot(s[e]),
    ensures
        numeric_scan_end(s, j) == e,
    decreases e - j,
{
    if j < e {
        lemma_numeric_scan_stops(s, j + 1, e);
    }
}

/// The numeric token opened by a numeric-literal string followed by
/// anything that cannot continue the span: the span is exactly the
/// literal, and its value is the literal's, as the decimal parse names
/// it. Trailing characters are excluded from the token.
pub proof fn lemma_numeric_literal_token(lit: Seq<char>, rest: Seq<char>)
    requires
        is_numeric_literal_string(lit),
        rest.len() > 0 ==> !digit_or_dot(rest[0]),
    ensures
        extract_token(lit + rest, 0) == (TokenM::Num(f64_bits_of_decimal(lit)), lit.len() as int),
{
    let s = lit + rest;
    let b0: int = if lit[0] == '-' {
        1
    } else {
        0
    };
    let d = choose|d: int|
        b0 < d <= lit.len() && all_ascii_digits(lit, b0, d) && (d == lit.len() || (#[trigger] lit[d]
            == '.' && d + 1 < lit.len() && all_ascii_digits(lit, d + 1, lit.len() as int)));
    assert(forall|m: int|
        b0 <= m < lit.len() ==> digit_or_dot(#[trigger] lit[m]));
    assert(forall|m: int| 0 <= m < lit.len() ==> s[m] == lit[m]);
    assert(forall|m: int|
        b0 <= m < lit.len() ==> digit_or_dot(#[trigger] s[m]));
    assert(ascii_digit(lit[b0]));
    // the fixed-token table does not match: the first character is a digit
    // or a minus sign directly followed by a digit
    if lit[0] == '-' {
        assert(numeric_char(s[1]));
        assert(fixed_lookup(s, 0) is None);
    } else {
        assert(ascii_digit(s[0]));
        assert(fixed_lookup(s, 0) is None);
    }
    assert(numeric_is_kind(s, 0));
    lemma_numeric_scan_stops(s, b0, lit.len() as int);
    let span = s.subrange(0, lit.len() as int);
    assert(span =~= lit);
    // the span is valid: at least one digit, at most one dot
    let body = span_body(lit);
    assert(ascii_digit(body[0])) by {
        assert(body[0] == lit[b0]);
    }
    assert forall|i: int, j: int|
        0 <= i < body.len() && 0 <= j < body.len() && #[trigger] body[i] == '.'
            && #[trigger] body[j] == '.' implies i == j by {
        assert(body[i] == lit[b0 + i]);
        assert(body[j] == lit[b0 + j]);
        assert(b0 + i == d && b0 + j == d);
    }
    assert(numeric_span_shape(lit)) by {
        assert(lit[0] == '-' || digit_or_dot(lit[0])) by {
            if lit[0] != '-' {
                assert(ascii_digit(lit[0]));
            }
        }
        assert(forall|i: int| 1 <= i < lit.len() ==> digit_or_dot(#[trigger] lit[i]));
    }
    assert(0 <= 0 < body.len() && ascii_digit(body[0]));
    assert(has_digit(span_body(lit)));
    assert(at_most_one_dot(span_body(lit)));
    assert(valid_numeric_span(lit));
    assert(extract_token(s, 0) == (TokenM::Num(f64_bits_of_decimal(lit)), lit.len() as int));
}

/// For every string of the numeric-literal form, lexing it alone yields
/// exactly one numeric token whose value is the string's decimal parse.
pub proof fn lemma_numeric_literal_lexes(s: Seq<char>)
    requires
        is_numeric_literal_string(s),
    ensures
        lex(s) == seq![TokenM::Num(f64_bits_of_decimal(s))],
{
    lemma_numeric_literal_token(s, Seq::<char>::empty());
    assert(s + Seq::<char>::empty() =~= s);
    assert(extract_token(s, 0) == (TokenM::Num(f64_bits_of_decimal(s)), s.len() as int));
    assert(!skippable_ws(s[0])) by {
        if s[0] == '-' {
        } else {
            assert(ascii_digit(s[0]));
        }
    }
    lemma_lex_one_token(s);
}

} // verus!
