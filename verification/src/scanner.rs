//! Scanner: consumes the full source text once, left to right, and produces
//! an ordered token sequence terminated by an end-of-input token, plus a side
//! channel of lexical diagnostics. Scanning never aborts early: on a
//! character-level error it records a diagnostic and continues from the next
//! character.
//!
//! The module first defines the mathematical model of one scanning step
//! (`spec_step`) and of a whole scan (`spec_scan`); the executable scanner is
//! proved to produce exactly the modeled token and diagnostic sequences.

use vstd::prelude::*;
use crate::token::{SpecToken, SpecTokenType, Token, TokenType};

verus! {

/// Lexical diagnostics. Each carries the 1-based source line it was found on.
#[derive(Debug, Clone, Copy, PartialEq, Eq, Structural)]
pub enum LexError {
    UnexpectedCharacter(usize),
    UnterminatedString(usize),
}

/// Mathematical model of a lexical diagnostic.
pub enum SpecLexError {
    UnexpectedCharacter(nat),
    UnterminatedString(nat),
}

impl View for LexError {
    type V = SpecLexError;

    open spec fn view(&self) -> SpecLexError {
        match self {
            LexError::UnexpectedCharacter(line) => SpecLexError::UnexpectedCharacter(*line as nat),
            LexError::UnterminatedString(line) => SpecLexError::UnterminatedString(*line as nat),
        }
    }
}

/// An ASCII decimal digit.
pub open spec fn is_digit_char(c: char) -> bool {
    48 <= c as u32 <= 57
}

/// An ASCII letter. Identifiers and keywords start with one.
pub open spec fn is_alpha_char(c: char) -> bool {
    (97 <= c as u32 <= 122) || (65 <= c as u32 <= 90)
}

/// A character that may continue an identifier.
pub open spec fn is_alnum_char(c: char) -> bool {
    is_digit_char(c) || is_alpha_char(c)
}

/// First position at or after `i` that does not hold a digit (maximal munch).
pub open spec fn digits_end(s: Seq<char>, i: int) -> int
    decreases s.len() - i,
{
    if 0 <= i < s.len() && is_digit_char(s[i]) {
        digits_end(s, i + 1)
    } else {
        i
    }
}

/// First position at or after `i` that does not hold an identifier
/// character (maximal munch).
pub open spec fn alnum_end(s: Seq<char>, i: int) -> int
    decreases s.len() - i,
{
    if 0 <= i < s.len() && is_alnum_char(s[i]) {
        alnum_end(s, i + 1)
    } else {
        i
    }
}

/// First position at or after `i` holding a newline, or the length of the
/// source. A line comment runs up to (and not including) this position.
pub open spec fn line_comment_end(s: Seq<char>, i: int) -> int
    decreases s.len() - i,
{
    if 0 <= i < s.len() && s[i] != '\n' {
        line_comment_end(s, i + 1)
    } else {
        i
    }
}

/// First position at or after `i` holding a double quote, or the length of
/// the source.
pub open spec fn quote_end(s: Seq<char>, i: int) -> int
    decreases s.len() - i,
{
    if 0 <= i < s.len() && s[i] != '"' {
        quote_end(s, i + 1)
    } else {
        i
    }
}

/// First position at or after `i` holding a dot, or the length of the text.
pub open spec fn dot_end(s: Seq<char>, i: int) -> int
    decreases s.len() - i,
{
    if 0 <= i < s.len() && s[i] != '.' {
        dot_end(s, i + 1)
    } else {
        i
    }
}

/// First position in `[i, stop)` that does not hold `'0'`, or `stop` if all
/// do (or if `i >= stop`).
pub open spec fn nonzero_start(s: Seq<char>, i: int, stop: int) -> int
    decreases stop - i,
{
    if i < stop && 0 <= i < s.len() && s[i] == '0' {
        nonzero_start(s, i + 1, stop)
    } else {
        i
    }
}

/// Last position in `(low, j]` such that the characters from it up to `j`
/// are all `'0'`; the zeros in `[result, j)` are the droppable fraction tail.
pub open spec fn nonzero_end(s: Seq<char>, j: int, low: int) -> int
    decreases j - low,
{
    if j > low && 0 <= j - 1 < s.len() && s[j - 1] == '0' {
        nonzero_end(s, j - 1, low)
    } else {
        j
    }
}

/// Number of newline characters in `s[a..b]`.
pub open spec fn newlines_in(s: Seq<char>, a: int, b: int) -> nat
    decreases b - a,
{
    if a < b {
        (if 0 <= a < s.len() && s[a] == '\n' {
            1nat
        } else {
            0nat
        }) + newlines_in(s, a + 1, b)
    } else {
        0
    }
}

/// Canonical text of a number lexeme (a digit run, optionally followed by a
/// dot and a second digit run): redundant leading zeros of the integer part
/// and trailing zeros of the fraction are dropped, and a fraction that
/// becomes empty drops its dot. This is the decoded value a number literal
/// token carries and the form in which numbers render.
pub open spec fn canonical_number(s: Seq<char>) -> Seq<char> {
    let d = dot_end(s, 0);
    let z = nonzero_start(s, 0, d - 1);
    if d == s.len() {
        s.subrange(z, d)
    } else {
        let fe = nonzero_end(s, s.len() as int, d + 1);
        if fe == d + 1 {
            s.subrange(z, d)
        } else {
            s.subrange(z, d) + seq!['.'] + s.subrange(d + 1, fe)
        }
    }
}

/// Keyword recognition: a fixed mapping from exact lexeme text to a keyword
/// category, checked only on identifier-shaped lexemes; anything unmapped is
/// an identifier carrying its raw text.
pub open spec fn keyword_or_identifier(text: Seq<char>) -> SpecTokenType {
    if text == "and"@ {
        SpecTokenType::And
    } else if text == "class"@ {
        SpecTokenType::Class
    } else if text == "else"@ {
        SpecTokenType::Else
    } else if text == "false"@ {
        SpecTokenType::False
    } else if text == "for"@ {
        SpecTokenType::For
    } else if text == "fun"@ {
        SpecTokenType::Fun
    } else if text == "if"@ {
        SpecTokenType::If
    } else if text == "nil"@ {
        SpecTokenType::Nil
    } else if text == "or"@ {
        SpecTokenType::Or
    } else if text == "print"@ {
        SpecTokenType::Print
    } else if text == "return"@ {
        SpecTokenType::Return
    } else if text == "super"@ {
        SpecTokenType::Super
    } else if text == "this"@ {
        SpecTokenType::This
    } else if text == "true"@ {
        SpecTokenType::True
    } else if text == "var"@ {
        SpecTokenType::Var
    } else if text == "while"@ {
        SpecTokenType::While
    } else {
        SpecTokenType::Identifier(text)
    }
}

/// Outcome of scanning one lexeme starting at one position: at most one
/// token, at most one diagnostic, the position of the next unconsumed
/// character, and the line counter after the lexeme.
pub struct SpecStep {
    pub token: Option<SpecToken>,
    pub error: Option<SpecLexError>,
    pub next: int,
    pub line: nat,
}

/// A step that emits a fixed token of `n` characters starting at `i`.
pub open spec fn fixed_step(kind: SpecTokenType, s: Seq<char>, i: int, n: int, line: nat) -> SpecStep {
    SpecStep {
        token: Some(SpecToken { token_type: kind, lexeme: s.subrange(i, i + n), line }),
        error: None,
        next: i + n,
        line,
    }
}

/// A step that consumes up to `next` without emitting anything.
pub open spec fn skip_step(next: int, line: nat) -> SpecStep {
    SpecStep { token: None, error: None, next, line }
}

/// One scanning step at position `i` of the source, on line `line`. Branches
/// exactly as the scanner does: single-character punctuation; one extra
/// character of lookahead for `! = < >` and for `//` comments; whitespace
/// and newlines dropped; string literals (tracking embedded newlines, quotes
/// excluded from the payload, unterminated ones diagnosed); maximal-munch
/// numbers whose dot must be followed by a digit; identifiers classified
/// against the keyword mapping; anything else an unexpected character.
pub open spec fn spec_step(s: Seq<char>, i: int, line: nat) -> SpecStep
    recommends
        0 <= i < s.len(),
{
    let c = s[i];
    if c == '(' {
        fixed_step(SpecTokenType::LeftParen, s, i, 1, line)
    } else if c == ')' {
        fixed_step(SpecTokenType::RightParen, s, i, 1, line)
    } else if c == '{' {
        fixed_step(SpecTokenType::LeftBrace, s, i, 1, line)
    } else if c == '}' {
        fixed_step(SpecTokenType::RightBrace, s, i, 1, line)
    } else if c == ',' {
        fixed_step(SpecTokenType::Comma, s, i, 1, line)
    } else if c == '.' {
        fixed_step(SpecTokenType::Dot, s, i, 1, line)
    } else if c == '-' {
        fixed_step(SpecTokenType::Minus, s, i, 1, line)
    } else if c == '+' {
        fixed_step(SpecTokenType::Plus, s, i, 1, line)
    } else if c == ';' {
        fixed_step(SpecTokenType::Semicolon, s, i, 1, line)
    } else if c == '*' {
        fixed_step(SpecTokenType::Star, s, i, 1, line)
    } else if c == '!' {
        if i + 1 < s.len() && s[i + 1] == '=' {
            fixed_step(SpecTokenType::BangEqual, s, i, 2, line)
        } else {
            fixed_step(SpecTokenType::Bang, s, i, 1, line)
        }
    } else if c == '=' {
        if i + 1 < s.len() && s[i + 1] == '=' {
            fixed_step(SpecTokenType::EqualEqual, s, i, 2, line)
        } else {
            fixed_step(SpecTokenType::Equal, s, i, 1, line)
        }
    } else if c == '<' {
        if i + 1 < s.len() && s[i + 1] == '=' {
            fixed_step(SpecTokenType::LessEqual, s, i, 2, line)
        } else {
            fixed_step(SpecTokenType::Less, s, i, 1, line)
        }
    } else if c == '>' {
        if i + 1 < s.len() && s[i + 1] == '=' {
            fixed_step(SpecTokenType::GreaterEqual, s, i, 2, line)
        } else {
            fixed_step(SpecTokenType::Greater, s, i, 1, line)
        }
    } else if c == '/' {
        if i + 1 < s.len() && s[i + 1] == '/' {
            skip_step(line_comment_end(s, i + 2), line)
        } else {
            fixed_step(SpecTokenType::Slash, s, i, 1, line)
        }
    } else if c == ' ' || c == '\r' || c == '\t' {
        skip_step(i + 1, line)
    } else if c == '\n' {
        skip_step(i + 1, line + 1)
    } else if c == '"' {
        let e = quote_end(s, i + 1);
        if e >= s.len() {
            let line2 = line + newlines_in(s, i + 1, s.len() as int);
            SpecStep { token: None, error: Some(SpecLexError::UnterminatedString(line2)), next: s.len() as int, line: line2 }
        } else {
            let line2 = line + newlines_in(s, i + 1, e);
            SpecStep {
                token: Some(SpecToken {
                    token_type: SpecTokenType::StringLiteral(s.subrange(i + 1, e)),
                    lexeme: s.subrange(i, e + 1),
                    line: line2,
                }),
                error: None,
                next: e + 1,
                line: line2,
            }
        }
    } else if is_digit_char(c) {
        let j1 = digits_end(s, i + 1);
        let j = if j1 < s.len() && s[j1] == '.' && j1 + 1 < s.len() && is_digit_char(s[j1 + 1]) {
            digits_end(s, j1 + 2)
        } else {
            j1
        };
        SpecStep {
            token: Some(SpecToken {
                token_type: SpecTokenType::NumberLiteral(canonical_number(s.subrange(i, j))),
                lexeme: s.subrange(i, j),
                line,
            }),
            error: None,
            next: j,
            line,
        }
    } else if is_alpha_char(c) {
        let j = alnum_end(s, i + 1);
        SpecStep {
            token: Some(SpecToken {
                token_type: keyword_or_identifier(s.subrange(i, j)),
                lexeme: s.subrange(i, j),
                line,
            }),
            error: None,
            next: j,
            line,
        }
    } else {
        SpecStep { token: None, error: Some(SpecLexError::UnexpectedCharacter(line)), next: i + 1, line }
    }
}

/// The two output channels of a scan: the token sequence and the lexical
/// diagnostics, both in source order.
pub struct SpecScan {
    pub tokens: Seq<SpecToken>,
    pub errors: Seq<SpecLexError>,
}

pub open spec fn opt_token_seq(t: Option<SpecToken>) -> Seq<SpecToken> {
    match t {
        Some(t) => seq![t],
        None => Seq::empty(),
    }
}

pub open spec fn opt_error_seq(e: Option<SpecLexError>) -> Seq<SpecLexError> {
    match e {
        Some(e) => seq![e],
        None => Seq::empty(),
    }
}

pub proof fn lemma_digits_end(s: Seq<char>, i: int)
    requires
        0 <= i <= s.len(),
    ensures
        i <= digits_end(s, i) <= s.len(),
    decreases s.len() - i,
{
    if i < s.len() && is_digit_char(s[i]) {
        lemma_digits_end(s, i + 1);
    }
}

pub proof fn lemma_alnum_end(s: Seq<char>, i: int)
    requires
        0 <= i <= s.len(),
    ensures
        i <= alnum_end(s, i) <= s.len(),
    decreases s.len() - i,
{
    if i < s.len() && is_alnum_char(s[i]) {
        lemma_alnum_end(s, i + 1);
    }
}

pub proof fn lemma_line_comment_end(s: Seq<char>, i: int)
    requires
        0 <= i <= s.len(),
    ensures
        i <= line_comment_end(s, i) <= s.len(),
    decreases s.len() - i,
{
    if i < s.len() && s[i] != '\n' {
        lemma_line_comment_end(s, i + 1);
    }
}

pub proof fn lemma_quote_end(s: Seq<char>, i: int)
    requires
        0 <= i <= s.len(),
    ensures
        i <= quote_end(s, i) <= s.len(),
    decreases s.len() - i,
{
    if i < s.len() && s[i] != '"' {
        lemma_quote_end(s, i + 1);
    }
}

/// Every scanning step consumes at least one character and stays within the
/// source; the line counter never goes backward; an emitted token carries
/// the step's final line and is never the end-of-input category.
pub proof fn lemma_step_bounds(s: Seq<char>, i: int, line: nat)
    requires
        0 <= i < s.len(),
    ensures
        i < spec_step(s, i, line).next <= s.len(),
        spec_step(s, i, line).line >= line,
        spec_step(s, i, line).token is Some ==> spec_step(s, i, line).token->0.line == spec_step(
            s,
            i,
            line,
        ).line,
        spec_step(s, i, line).token is Some ==> !(spec_step(s, i, line).token->0.token_type
            is Eof),
{
    let c = s[i];
    if c == '/' && i + 1 < s.len() && s[i + 1] == '/' {
        lemma_line_comment_end(s, i + 2);
    } else if c == '"' {
        lemma_quote_end(s, i + 1);
    } else if !(c == '(' || c == ')' || c == '{' || c == '}' || c == ',' || c == '.' || c == '-'
        || c == '+' || c == ';' || c == '*' || c == '!' || c == '=' || c == '<' || c == '>' || c
        == '/' || c == ' ' || c == '\r' || c == '\t' || c == '\n') {
        if is_digit_char(c) {
            lemma_digits_end(s, i + 1);
            let j1 = digits_end(s, i + 1);
            if j1 < s.len() && s[j1] == '.' && j1 + 1 < s.len() && is_digit_char(s[j1 + 1]) {
                lemma_digits_end(s, j1 + 2);
            }
        } else if is_alpha_char(c) {
            lemma_alnum_end(s, i + 1);
        }
    }
}

/// The whole scan from position `i` on line `line`: the remaining tokens
/// (always ending in exactly one end-of-input token with an empty lexeme)
/// and the remaining diagnostics.
pub open spec fn spec_scan_from(s: Seq<char>, i: int, line: nat) -> SpecScan
    decreases s.len() - i
        when 0 <= i
        via spec_scan_from_decreases
{
    if i >= s.len() {
        SpecScan {
            tokens: seq![
                SpecToken { token_type: SpecTokenType::Eof, lexeme: Seq::empty(), line },
            ],
            errors: Seq::empty(),
        }
    } else {
        let st = spec_step(s, i, line);
        let rest = spec_scan_from(s, st.next, st.line);
        SpecScan {
            tokens: opt_token_seq(st.token) + rest.tokens,
            errors: opt_error_seq(st.error) + rest.errors,
        }
    }
}

#[via_fn]
proof fn spec_scan_from_decreases(s: Seq<char>, i: int, line: nat) {
    if 0 <= i < s.len() {
        lemma_step_bounds(s, i, line);
    }
}

/// The scan of a whole source text, from its start, on line 1.
pub open spec fn spec_scan(s: Seq<char>) -> SpecScan {
    spec_scan_from(s, 0, 1)
}

} // verus!

// ---------------------------------------------------------------------------
// Executable scanner
// ---------------------------------------------------------------------------

verus! {

pub open spec fn token_views(v: Seq<Token>) -> Seq<SpecToken> {
    v.map_values(|t: Token| t@)
}

pub open spec fn error_views(v: Seq<LexError>) -> Seq<SpecLexError> {
    v.map_values(|e: LexError| e@)
}

proof fn lemma_token_views_push(v: Seq<Token>, t: Token)
    ensures
        token_views(v.push(t)) == token_views(v).push(t@),
{
    assert(token_views(v.push(t)) =~= token_views(v).push(t@));
}

proof fn lemma_error_views_push(v: Seq<LexError>, e: LexError)
    ensures
        error_views(v.push(e)) == error_views(v).push(e@),
{
    assert(error_views(v.push(e)) =~= error_views(v).push(e@));
}

/// Counting newlines over a range grows by at most one when the range grows
/// by one character on the right.
proof fn lemma_newlines_snoc(s: Seq<char>, a: int, b: int)
    requires
        a <= b,
    ensures
        newlines_in(s, a, b + 1) == newlines_in(s, a, b) + (if 0 <= b < s.len() && s[b] == '\n' {
            1nat
        } else {
            0nat
        }),
    decreases b - a,
{
    if a < b {
        lemma_newlines_snoc(s, a + 1, b);
        assert(newlines_in(s, a, b + 1) == (if 0 <= a < s.len() && s[a] == '\n' {
            1nat
        } else {
            0nat
        }) + newlines_in(s, a + 1, b + 1));
    } else {
        assert(newlines_in(s, a, b + 1) == (if 0 <= a < s.len() && s[a] == '\n' {
            1nat
        } else {
            0nat
        }) + newlines_in(s, a + 1, b + 1));
        assert(newlines_in(s, a + 1, b + 1) == 0);
        assert(newlines_in(s, a, b) == 0);
    }
}

fn is_digit(c: char) -> (b: bool)
    ensures
        b == is_digit_char(c),
{
    let u = c as u32;
    48 <= u && u <= 57
}

fn is_alpha(c: char) -> (b: bool)
    ensures
        b == is_alpha_char(c),
{
    let u = c as u32;
    (97 <= u && u <= 122) || (65 <= u && u <= 90)
}

fn is_alnum(c: char) -> (b: bool)
    ensures
        b == is_alnum_char(c),
{
    is_digit(c) || is_alpha(c)
}

fn str_eq(a: &str, b: &str) -> (r: bool)
    ensures
        r == (a@ == b@),
{
    let sa = a.to_owned();
    let sb = b.to_owned();
    sa == sb
}

/// Classifies an identifier-shaped lexeme against the fixed keyword mapping.
fn classify_identifier(text: &str) -> (tt: TokenType)
    ensures
        tt@ == keyword_or_identifier(text@),
{
    if str_eq(text, "and") {
        TokenType::And
    } else if str_eq(text, "class") {
        TokenType::Class
    } else if str_eq(text, "else") {
        TokenType::Else
    } else if str_eq(text, "false") {
        TokenType::False
    } else if str_eq(text, "for") {
        TokenType::For
    } else if str_eq(text, "fun") {
        TokenType::Fun
    } else if str_eq(text, "if") {
        TokenType::If
    } else if str_eq(text, "nil") {
        TokenType::Nil
    } else if str_eq(text, "or") {
        TokenType::Or
    } else if str_eq(text, "print") {
        TokenType::Print
    } else if str_eq(text, "return") {
        TokenType::Return
    } else if str_eq(text, "super") {
        TokenType::Super
    } else if str_eq(text, "this") {
        TokenType::This
    } else if str_eq(text, "true") {
        TokenType::True
    } else if str_eq(text, "var") {
        TokenType::Var
    } else if str_eq(text, "while") {
        TokenType::While
    } else {
        TokenType::Identifier(text.to_owned())
    }
}

/// Renders a number lexeme in canonical form: leading zeros of the integer
/// part dropped (keeping at least one digit), trailing zeros of the fraction
/// dropped, and the dot dropped with an emptied fraction.
fn canonical_number_text(text: &str) -> (r: String)
    requires
        text@.len() >= 1,
        is_digit_char(text@[0]),
    ensures
        r@ == canonical_number(text@),
{
    let ghost s = text@;
    let n = text.unicode_len();
    let mut d: usize = 0;
    while d < n && text.get_char(d) != '.'
        invariant
            s == text@,
            n as nat == s.len(),
            0 <= d <= n,
            dot_end(s, 0) == dot_end(s, d as int),
        decreases n - d,
    {
        d = d + 1;
    }
    assert(dot_end(s, 0) == d as int);
    assert(d >= 1) by {
        assert(s[0] != '.');
    }
    let stop = d - 1;
    let mut z: usize = 0;
    while z < stop && text.get_char(z) == '0'
        invariant
            s == text@,
            n as nat == s.len(),
            stop as int == d - 1,
            d <= n,
            0 <= z <= stop,
            nonzero_start(s, 0, stop as int) == nonzero_start(s, z as int, stop as int),
        decreases stop - z,
    {
        z = z + 1;
    }
    assert(nonzero_start(s, 0, d - 1) == z as int);
    if d == n {
        let body = text.substring_char(z, d);
        body.to_owned()
    } else {
        let mut fe: usize = n;
        while fe > d + 1 && text.get_char(fe - 1) == '0'
            invariant
                s == text@,
                n as nat == s.len(),
                d < n,
                d + 1 <= fe <= n,
                nonzero_end(s, n as int, d + 1) == nonzero_end(s, fe as int, d + 1),
            decreases fe,
        {
            fe = fe - 1;
        }
        assert(nonzero_end(s, n as int, d + 1) == fe as int);
        if fe == d + 1 {
            let body = text.substring_char(z, d);
            body.to_owned()
        } else {
            let mut out = text.substring_char(z, d).to_owned();
            out.append(".");
            out.append(text.substring_char(d + 1, fe));
            proof {
                reveal_strlit(".");
                assert(out@ =~= s.subrange(z as int, d as int) + seq!['.'] + s.subrange(
                    d + 1,
                    fe as int,
                ));
            }
            out
        }
    }
}

/// Groups the cursor state of one scan: the source, its length in
/// characters, the tokens produced so far, the start of the lexeme being
/// scanned, the cursor, and the current 1-based line.
pub struct Scanner<'a> {
    source: &'a str,
    len: usize,
    tokens: Vec<Token>,
    start: usize,
    current: usize,
    line: usize,
}

impl<'a> Scanner<'a> {
    /// The cursor stays within the source and the line counter never exceeds
    /// one more than the number of characters consumed.
    pub closed spec fn wf(&self) -> bool {
        &&& self.len as nat == self.source@.len()
        &&& self.source@.len() < usize::MAX as nat
        &&& self.current <= self.len
        &&& self.line as nat <= 1 + self.current as nat
        &&& 1 <= self.line
    }

    fn new(source: &'a str) -> (sc: Scanner<'a>)
        requires
            source@.len() < usize::MAX as nat,
        ensures
            sc.wf(),
            sc.source@ == source@,
            sc.len as nat == source@.len(),
            sc.tokens@ =~= Seq::<Token>::empty(),
            sc.start == 0,
            sc.current == 0,
            sc.line == 1,
    {
        let len = source.unicode_len();
        Scanner { source, len, tokens: Vec::new(), start: 0, current: 0, line: 1 }
    }

    fn is_at_end(&self) -> (b: bool)
        ensures
            b == (self.current >= self.len),
    {
        self.current >= self.len
    }

    fn peek(&self) -> (c: char)
        requires
            self.wf(),
        ensures
            c == (if (self.current as int) < self.source@.len() {
                self.source@[self.current as int]
            } else {
                '\0'
            }),
    {
        if self.current < self.len {
            self.source.get_char(self.current)
        } else {
            '\0'
        }
    }

    fn peek_next(&self) -> (c: char)
        requires
            self.wf(),
        ensures
            c == (if self.current as int + 1 < self.source@.len() {
                self.source@[self.current as int + 1]
            } else {
                '\0'
            }),
    {
        if self.current + 1 < self.len {
            self.source.get_char(self.current + 1)
        } else {
            '\0'
        }
    }

    fn advance(&mut self) -> (c: char)
        requires
            old(self).wf(),
            old(self).current < old(self).len,
        ensures
            final(self).wf(),
            final(self).source == old(self).source,
            final(self).len == old(self).len,
            final(self).tokens == old(self).tokens,
            final(self).start == old(self).start,
            final(self).line == old(self).line,
            final(self).current == old(self).current + 1,
            c == final(self).source@[old(self).current as int],
    {
        let c = self.source.get_char(self.current);
        self.current = self.current + 1;
        c
    }

    fn is_expected(&mut self, expected: char) -> (r: bool)
        requires
            old(self).wf(),
        ensures
            final(self).wf(),
            final(self).source == old(self).source,
            final(self).len == old(self).len,
            final(self).tokens == old(self).tokens,
            final(self).start == old(self).start,
            final(self).line == old(self).line,
            ({
                let s = old(self).source@;
                let cur = old(self).current as int;
                if cur < s.len() && s[cur] == expected {
                    r && final(self).current == old(self).current + 1
                } else {
                    !r && final(self).current == old(self).current
                }
            }),
    {
        if self.is_at_end() || self.peek() != expected {
            return false;
        }
        self.current = self.current + 1;
        true
    }

    /// Emits a token whose lexeme is the source substring from the lexeme
    /// start to the cursor, on the current line.
    fn add_token(&mut self, token_type: TokenType)
        requires
            old(self).wf(),
            old(self).start <= old(self).current,
        ensures
            final(self).wf(),
            final(self).source == old(self).source,
            final(self).len == old(self).len,
            final(self).start == old(self).start,
            final(self).current == old(self).current,
            final(self).line == old(self).line,
            token_views(final(self).tokens@) == token_views(old(self).tokens@).push(
                SpecToken {
                    token_type: token_type@,
                    lexeme: old(self).source@.subrange(
                        old(self).start as int,
                        old(self).current as int,
                    ),
                    line: old(self).line as nat,
                },
            ),
    {
        let ghost pre = self.tokens@;
        let lex = self.source.substring_char(self.start, self.current);
        let tok = Token { token_type, lexeme: lex.to_owned(), line: self.line };
        self.tokens.push(tok);
        proof {
            lemma_token_views_push(pre, tok);
        }
    }

    /// Scans the rest of a string literal, the opening quote already
    /// consumed: tracks embedded newlines, excludes the quotes from the
    /// payload, and diagnoses a missing closing quote at end of input (in
    /// which case no token is emitted).
    fn string(&mut self) -> (r: Result<(), LexError>)
        requires
            old(self).wf(),
            old(self).start as int + 1 == old(self).current as int,
            old(self).current <= old(self).len,
            old(self).start < old(self).source@.len(),
            old(self).source@[old(self).start as int] == '"',
        ensures
            final(self).wf(),
            final(self).source == old(self).source,
            final(self).len == old(self).len,
            final(self).start == old(self).start,
            ({
                let s = old(self).source@;
                let i = old(self).start as int;
                let line0 = old(self).line as nat;
                let e = quote_end(s, i + 1);
                if e >= s.len() {
                    &&& r matches Err(err) && err@ == SpecLexError::UnterminatedString(
                        line0 + newlines_in(s, i + 1, s.len() as int),
                    )
                    &&& final(self).current as int == s.len()
                    &&& final(self).line as nat == line0 + newlines_in(s, i + 1, s.len() as int)
                    &&& token_views(final(self).tokens@) == token_views(old(self).tokens@)
                } else {
                    &&& r is Ok
                    &&& final(self).current as int == e + 1
                    &&& final(self).line as nat == line0 + newlines_in(s, i + 1, e)
                    &&& token_views(final(self).tokens@) == token_views(old(self).tokens@).push(
                        SpecToken {
                            token_type: SpecTokenType::StringLiteral(s.subrange(i + 1, e)),
                            lexeme: s.subrange(i, e + 1),
                            line: line0 + newlines_in(s, i + 1, e),
                        },
                    )
                }
            }),
    {
        let ghost s = self.source@;
        let ghost i = self.start as int;
        let ghost line0 = self.line as nat;
        while !self.is_at_end() && self.peek() != '"'
            invariant
                self.wf(),
                self.source == old(self).source,
                self.source@ == s,
                self.len == old(self).len,
                self.len as nat == s.len(),
                self.tokens == old(self).tokens,
                self.start == old(self).start,
                i + 1 <= self.current as int <= s.len(),
                quote_end(s, i + 1) == quote_end(s, self.current as int),
                self.line as nat == line0 + newlines_in(s, i + 1, self.current as int),
            decreases s.len() - self.current as int,
        {
            proof {
                lemma_newlines_snoc(s, i + 1, self.current as int);
            }
            let c = self.peek();
            let _ = self.advance();
            if c == '\n' {
                self.line = self.line + 1;
            }
        }
        assert(quote_end(s, i + 1) == self.current as int);
        if self.is_at_end() {
            return Err(LexError::UnterminatedString(self.line));
        }
        proof {
            lemma_newlines_snoc(s, i + 1, self.current as int);
        }
        let _ = self.advance();
        let value = self.source.substring_char(self.start + 1, self.current - 1);
        let ghost pre = self.tokens@;
        let lex = self.source.substring_char(self.start, self.current);
        let tok = Token {
            token_type: TokenType::StringLiteral(value.to_owned()),
            lexeme: lex.to_owned(),
            line: self.line,
        };
        self.tokens.push(tok);
        proof {
            lemma_token_views_push(pre, tok);
        }
        Ok(())
    }

    /// Scans the rest of a number literal, the first digit already consumed:
    /// a maximal digit run, then a fractional part only if a dot is
    /// immediately followed by a digit (a bare trailing dot is left for the
    /// next lexeme).
    fn number(&mut self)
        requires
            old(self).wf(),
            old(self).start as int + 1 == old(self).current as int,
            old(self).current <= old(self).len,
            old(self).start < old(self).source@.len(),
            is_digit_char(old(self).source@[old(self).start as int]),
        ensures
            final(self).wf(),
            final(self).source == old(self).source,
            final(self).len == old(self).len,
            final(self).start == old(self).start,
            final(self).line == old(self).line,
            ({
                let s = old(self).source@;
                let i = old(self).start as int;
                let j1 = digits_end(s, i + 1);
                let j = if j1 < s.len() && s[j1] == '.' && j1 + 1 < s.len() && is_digit_char(
                    s[j1 + 1],
                ) {
                    digits_end(s, j1 + 2)
                } else {
                    j1
                };
                &&& final(self).current as int == j
                &&& token_views(final(self).tokens@) == token_views(old(self).tokens@).push(
                    SpecToken {
                        token_type: SpecTokenType::NumberLiteral(
                            canonical_number(s.subrange(i, j)),
                        ),
                        lexeme: s.subrange(i, j),
                        line: old(self).line as nat,
                    },
                )
            }),
    {
        let ghost s = self.source@;
        let ghost i = self.start as int;
        while is_digit(self.peek())
            invariant
                self.wf(),
                self.source == old(self).source,
                self.source@ == s,
                self.len == old(self).len,
                self.len as nat == s.len(),
                self.tokens == old(self).tokens,
                self.start == old(self).start,
                self.line == old(self).line,
                i + 1 <= self.current as int <= s.len(),
                digits_end(s, i + 1) == digits_end(s, self.current as int),
            decreases s.len() - self.current as int,
        {
            let _ = self.advance();
        }
        assert(digits_end(s, i + 1) == self.current as int);
        let ghost j1 = self.current as int;
        if self.peek() == '.' && is_digit(self.peek_next()) {
            let _ = self.advance();
            let _ = self.advance();
            proof {
                assert(digits_end(s, j1 + 1) == digits_end(s, j1 + 2));
            }
            while is_digit(self.peek())
                invariant
                    self.wf(),
                    self.source == old(self).source,
                    self.source@ == s,
                    self.len == old(self).len,
                    self.len as nat == s.len(),
                    self.tokens == old(self).tokens,
                    self.start == old(self).start,
                    self.line == old(self).line,
                    j1 + 2 <= self.current as int <= s.len(),
                    digits_end(s, j1 + 2) == digits_end(s, self.current as int),
                decreases s.len() - self.current as int,
            {
                let _ = self.advance();
            }
            assert(digits_end(s, j1 + 2) == self.current as int);
        }
        let lex = self.source.substring_char(self.start, self.current);
        let canon = canonical_number_text(lex);
        self.add_token(TokenType::NumberLiteral(canon));
    }

    /// Scans the rest of an identifier, the first letter already consumed:
    /// a maximal alphanumeric run, classified against the keyword mapping.
    fn identifier(&mut self)
        requires
            old(self).wf(),
            old(self).start as int + 1 == old(self).current as int,
            old(self).current <= old(self).len,
            old(self).start < old(self).source@.len(),
            is_alpha_char(old(self).source@[old(self).start as int]),
        ensures
            final(self).wf(),
            final(self).source == old(self).source,
            final(self).len == old(self).len,
            final(self).start == old(self).start,
            final(self).line == old(self).line,
            ({
                let s = old(self).source@;
                let i = old(self).start as int;
                let j = alnum_end(s, i + 1);
                &&& final(self).current as int == j
                &&& token_views(final(self).tokens@) == token_views(old(self).tokens@).push(
                    SpecToken {
                        token_type: keyword_or_identifier(s.subrange(i, j)),
                        lexeme: s.subrange(i, j),
                        line: old(self).line as nat,
                    },
                )
            }),
    {
        let ghost s = self.source@;
        let ghost i = self.start as int;
        while is_alnum(self.peek())
            invariant
                self.wf(),
                self.source == old(self).source,
                self.source@ == s,
                self.len == old(self).len,
                self.len as nat == s.len(),
                self.tokens == old(self).tokens,
                self.start == old(self).start,
                self.line == old(self).line,
                i + 1 <= self.current as int <= s.len(),
                alnum_end(s, i + 1) == alnum_end(s, self.current as int),
            decreases s.len() - self.current as int,
        {
            let _ = self.advance();
        }
        assert(alnum_end(s, i + 1) == self.current as int);
        let lex = self.source.substring_char(self.start, self.current);
        let tt = classify_identifier(lex);
        self.add_token(tt);
    }

    /// Scans one lexeme at the cursor: emits at most one token, reports at
    /// most one diagnostic, and always makes progress, exactly as
    /// `spec_step` states.
    fn scan_token(&mut self) -> (r: Result<(), LexError>)
        requires
            old(self).wf(),
            old(self).start == old(self).current,
            old(self).current < old(self).len,
        ensures
            final(self).wf(),
            final(self).source == old(self).source,
            final(self).len == old(self).len,
            final(self).start == old(self).start,
            ({
                let st = spec_step(
                    old(self).source@,
                    old(self).current as int,
                    old(self).line as nat,
                );
                &&& final(self).current as int == st.next
                &&& final(self).line as nat == st.line
                &&& token_views(final(self).tokens@) == token_views(old(self).tokens@) + opt_token_seq(
                    st.token,
                )
                &&& match r {
                    Ok(()) => st.error is None,
                    Err(e) => st.error matches Some(se) && e@ == se,
                }
            }),
    {
        let ghost s = self.source@;
        let ghost i = self.current as int;
        let ghost line0 = self.line as nat;
        let ghost pre = self.tokens@;
        let c = self.advance();
        if c == '(' {
            self.add_token(TokenType::LeftParen);
        } else if c == ')' {
            self.add_token(TokenType::RightParen);
        } else if c == '{' {
            self.add_token(TokenType::LeftBrace);
        } else if c == '}' {
            self.add_token(TokenType::RightBrace);
        } else if c == ',' {
            self.add_token(TokenType::Comma);
        } else if c == '.' {
            self.add_token(TokenType::Dot);
        } else if c == '-' {
            self.add_token(TokenType::Minus);
        } else if c == '+' {
            self.add_token(TokenType::Plus);
        } else if c == ';' {
            self.add_token(TokenType::Semicolon);
        } else if c == '*' {
            self.add_token(TokenType::Star);
        } else if c == '!' {
            let two = self.is_expected('=');
            self.add_token(if two {
                TokenType::BangEqual
            } else {
                TokenType::Bang
            });
        } else if c == '=' {
            let two = self.is_expected('=');
            self.add_token(if two {
                TokenType::EqualEqual
            } else {
                TokenType::Equal
            });
        } else if c == '<' {
            let two = self.is_expected('=');
            self.add_token(if two {
                TokenType::LessEqual
            } else {
                TokenType::Less
            });
        } else if c == '>' {
            let two = self.is_expected('=');
            self.add_token(if two {
                TokenType::GreaterEqual
            } else {
                TokenType::Greater
            });
        } else if c == '/' {
            if self.is_expected('/') {
                // A comment runs until the end of the line and emits nothing.
                while !self.is_at_end() && self.peek() != '\n'
                    invariant
                        self.wf(),
                        self.source == old(self).source,
                        self.source@ == s,
                        self.len == old(self).len,
                        self.len as nat == s.len(),
                        self.tokens == old(self).tokens,
                        self.start == old(self).start,
                        self.line == old(self).line,
                        i + 2 <= self.current as int <= s.len(),
                        line_comment_end(s, i + 2) == line_comment_end(s, self.current as int),
                    decreases s.len() - self.current as int,
                {
                    let _ = self.advance();
                }
                assert(line_comment_end(s, i + 2) == self.current as int);
            } else {
                self.add_token(TokenType::Slash);
            }
        } else if c == ' ' || c == '\r' || c == '\t' {
            // Whitespace is dropped.
        } else if c == '\n' {
            self.line = self.line + 1;
        } else if c == '"' {
            let r = self.string();
            if let Err(e) = r {
                return Err(e);
            }
        } else if is_digit(c) {
            self.number();
        } else if is_alpha(c) {
            self.identifier();
        } else {
            return Err(LexError::UnexpectedCharacter(self.line));
        }
        Ok(())
    }
}

/// Scans the source code and returns the token sequence together with the
/// lexical diagnostics found along the way. The scanner does not stop at a
/// diagnostic: the token sequence is always complete and terminated by an
/// end-of-input token, exactly as `spec_scan` states.
pub fn scan_tokens(source: &str) -> (r: (Vec<Token>, Vec<LexError>))
    requires
        source@.len() < usize::MAX as nat,
    ensures
        token_views(r.0@) == spec_scan(source@).tokens,
        error_views(r.1@) == spec_scan(source@).errors,
{
    let ghost s = source@;
    let mut scanner = Scanner::new(source);
    let mut errors: Vec<LexError> = Vec::new();
    proof {
        assert(token_views(scanner.tokens@) =~= Seq::<SpecToken>::empty());
        assert(error_views(errors@) =~= Seq::<SpecLexError>::empty());
        assert(spec_scan(s).tokens =~= token_views(scanner.tokens@) + spec_scan_from(
            s,
            scanner.current as int,
            scanner.line as nat,
        ).tokens);
        assert(spec_scan(s).errors =~= error_views(errors@) + spec_scan_from(
            s,
            scanner.current as int,
            scanner.line as nat,
        ).errors);
    }
    while scanner.current < scanner.len
        invariant
            scanner.wf(),
            scanner.source@ == s,
            scanner.len as nat == s.len(),
            spec_scan(s).tokens == token_views(scanner.tokens@) + spec_scan_from(
                s,
                scanner.current as int,
                scanner.line as nat,
            ).tokens,
            spec_scan(s).errors == error_views(errors@) + spec_scan_from(
                s,
                scanner.current as int,
                scanner.line as nat,
            ).errors,
        decreases s.len() - scanner.current as int,
    {
        scanner.start = scanner.current;
        let ghost mid = scanner;
        let ghost pre_errors = errors@;
        let r = scanner.scan_token();
        if let Err(e) = r {
            errors.push(e);
            proof {
                lemma_error_views_push(pre_errors, e);
            }
        }
        proof {
            let st = spec_step(s, mid.current as int, mid.line as nat);
            lemma_step_bounds(s, mid.current as int, mid.line as nat);
            assert(spec_scan_from(s, mid.current as int, mid.line as nat).tokens == opt_token_seq(
                st.token,
            ) + spec_scan_from(s, st.next, st.line).tokens);
            assert(token_views(scanner.tokens@) + spec_scan_from(
                s,
                scanner.current as int,
                scanner.line as nat,
            ).tokens =~= token_views(mid.tokens@) + spec_scan_from(
                s,
                mid.current as int,
                mid.line as nat,
            ).tokens);
            assert(error_views(errors@) + spec_scan_from(
                s,
                scanner.current as int,
                scanner.line as nat,
            ).errors =~= error_views(pre_errors) + spec_scan_from(
                s,
                mid.current as int,
                mid.line as nat,
            ).errors);
        }
    }
    let ghost pre = scanner.tokens@;
    let eof = Token { token_type: TokenType::Eof, lexeme: String::new(), line: scanner.line };
    scanner.tokens.push(eof);
    proof {
        lemma_token_views_push(pre, eof);
        assert(spec_scan_from(s, scanner.current as int, scanner.line as nat).tokens =~= seq![
            SpecToken {
                token_type: SpecTokenType::Eof,
                lexeme: Seq::empty(),
                line: scanner.line as nat,
            },
        ]);
        assert(token_views(scanner.tokens@) =~= spec_scan(s).tokens);
        assert(error_views(errors@) =~= spec_scan(s).errors);
    }
    (scanner.tokens, errors)
}

} // verus!

// ---------------------------------------------------------------------------
// Laws of scanning
// ---------------------------------------------------------------------------

verus! {

/// Shape of the remaining scan from any position: at least one token comes
/// back; the last one is the end-of-input token with an empty lexeme and no
/// earlier token is; every token's line is at least the current line; and
/// lines never decrease from one token to the next.
pub proof fn lemma_scan_from_shape(s: Seq<char>, i: int, line: nat)
    requires
        0 <= i,
    ensures
        ({
            let out = spec_scan_from(s, i, line);
            &&& out.tokens.len() >= 1
            &&& out.tokens.last().token_type is Eof
            &&& out.tokens.last().lexeme == Seq::<char>::empty()
            &&& forall|k: int|
                0 <= k < out.tokens.len() - 1 ==> !(#[trigger] out.tokens[k].token_type is Eof)
            &&& forall|k: int| 0 <= k < out.tokens.len() ==> (#[trigger] out.tokens[k].line) >= line
            &&& forall|k: int|
                0 <= k < out.tokens.len() - 1 ==> (#[trigger] out.tokens[k].line)
                    <= out.tokens[k + 1].line
        }),
    decreases s.len() - i,
{
    let out = spec_scan_from(s, i, line);
    if i >= s.len() {
        assert(out.tokens.len() == 1);
    } else {
        let st = spec_step(s, i, line);
        lemma_step_bounds(s, i, line);
        let rest = spec_scan_from(s, st.next, st.line);
        lemma_scan_from_shape(s, st.next, st.line);
        match st.token {
            Some(t) => {
                assert(out.tokens.len() == 1 + rest.tokens.len());
                assert(out.tokens[0] == t);
                assert(forall|k: int|
                    1 <= k < out.tokens.len() ==> #[trigger] out.tokens[k] == rest.tokens[k - 1]);
                assert(out.tokens.last() == rest.tokens.last());
            },
            None => {
                assert(out.tokens =~= rest.tokens);
            },
        }
    }
}

/// Laws of every scan: the token sequence is non-empty; its final token is
/// the end-of-input token, carries an empty lexeme, and is the only one of
/// its kind; all lines are 1-based; and the line number of each token is at
/// least the line number of the token before it.
pub proof fn lemma_scan_shape(s: Seq<char>)
    ensures
        ({
            let toks = spec_scan(s).tokens;
            &&& toks.len() >= 1
            &&& toks.last().token_type is Eof
            &&& toks.last().lexeme == Seq::<char>::empty()
            &&& forall|k: int| 0 <= k < toks.len() - 1 ==> !(#[trigger] toks[k].token_type is Eof)
            &&& forall|k: int| 0 <= k < toks.len() ==> (#[trigger] toks[k].line) >= 1
            &&& forall|k: int|
                0 <= k < toks.len() - 1 ==> (#[trigger] toks[k].line) <= toks[k + 1].line
        }),
{
    lemma_scan_from_shape(s, 0, 1);
}

/// A source that holds nothing but whitespace and line comments from
/// position `i` on.
pub open spec fn trivia_only(s: Seq<char>, i: int) -> bool
    decreases s.len() - i
        when 0 <= i
        via trivia_only_decreases
{
    if i >= s.len() {
        true
    } else if s[i] == ' ' || s[i] == '\r' || s[i] == '\t' || s[i] == '\n' {
        trivia_only(s, i + 1)
    } else if s[i] == '/' && i + 1 < s.len() && s[i + 1] == '/' {
        trivia_only(s, line_comment_end(s, i + 2))
    } else {
        false
    }
}

#[via_fn]
proof fn trivia_only_decreases(s: Seq<char>, i: int) {
    if 0 <= i < s.len() {
        if s[i] == '/' && i + 1 < s.len() && s[i + 1] == '/' {
            lemma_line_comment_end(s, i + 2);
        }
    }
}

proof fn lemma_trivia_only_scan_from(s: Seq<char>, i: int, line: nat)
    requires
        0 <= i,
        trivia_only(s, i),
    ensures
        spec_scan_from(s, i, line).tokens.len() == 1,
        spec_scan_from(s, i, line).tokens[0].token_type is Eof,
        spec_scan_from(s, i, line).errors == Seq::<SpecLexError>::empty(),
    decreases s.len() - i,
{
    if i < s.len() {
        let st = spec_step(s, i, line);
        lemma_step_bounds(s, i, line);
        assert(st.token is None);
        assert(st.error is None);
        assert(trivia_only(s, st.next));
        lemma_trivia_only_scan_from(s, st.next, st.line);
        assert(spec_scan_from(s, i, line).tokens =~= spec_scan_from(s, st.next, st.line).tokens);
        assert(spec_scan_from(s, i, line).errors =~= spec_scan_from(s, st.next, st.line).errors);
    }
}

/// Law: scanning a source that holds only whitespace and line comments
/// yields exactly one token, the end-of-input token, and no diagnostics.
pub proof fn lemma_trivia_only_scan(s: Seq<char>)
    requires
        trivia_only(s, 0),
    ensures
        spec_scan(s).tokens.len() == 1,
        spec_scan(s).tokens[0].token_type is Eof,
        spec_scan(s).errors == Seq::<SpecLexError>::empty(),
{
    lemma_trivia_only_scan_from(s, 0, 1);
}

} // verus!
