//! The scanner: a single-pass cursor over the source text that classifies
//! characters, consumes maximal lexemes and emits tokens, reporting
//! unexpected characters and unterminated strings to the diagnostic
//! collector.  Lexemes and literal payloads are owned copies of the
//! consumed source slices.

use vstd::prelude::*;
use vstd::string::StrSliceExecFns;
use vstd::string::StringExecFns;

use crate::error_handling::render_msg;
use crate::error_handling::ErrorReporter;

verus! {

/// The closed set of token categories.
#[derive(Debug, Clone, Copy, PartialEq, Eq, Structural)]
pub enum TokenType {
    // Single-character tokens
    LeftParen,
    RightParen,
    LeftBrace,
    RightBrace,
    Comma,
    Period,
    Minus,
    Plus,
    Semicolon,
    Slash,
    Asterisk,
    // One or two character tokens
    Bang,
    BangEqual,
    Equal,
    EqualEqual,
    Greater,
    GreaterEqual,
    Less,
    LessEqual,
    // Types
    Identifier,
    String,
    Number,
    // Keywords
    And,
    Class,
    Else,
    False,
    Fn,
    For,
    If,
    Let,
    Null,
    Or,
    Print,
    Return,
    Super,
    This,
    True,
    While,
    Eof,
}

/// The literal value a token carries: the text strictly between the quotes
/// of a string literal, the exact decimal spelling of a number literal
/// (its numeric interpretation is the caller's concern), or nothing.
#[derive(Debug, Clone, PartialEq)]
pub enum TokenValue {
    String(String),
    Number(String),
    Empty,
}

/// The mathematical model of a token value.
pub enum SpecTokenValue {
    SpecString(Seq<char>),
    SpecNumber(Seq<char>),
    SpecNone,
}

impl View for TokenValue {
    type V = SpecTokenValue;

    open spec fn view(&self) -> SpecTokenValue {
        match self {
            TokenValue::String(s) => SpecTokenValue::SpecString(s@),
            TokenValue::Number(s) => SpecTokenValue::SpecNumber(s@),
            TokenValue::Empty => SpecTokenValue::SpecNone,
        }
    }
}

/// One token: category, exact consumed source slice, literal payload, and
/// the line its lexeme begins on (1-based).
#[derive(Debug, Clone)]
pub struct Token {
    pub token_type: TokenType,
    pub lexeme: String,
    pub value: TokenValue,
    pub line: usize,
}

/// The mathematical model of a token.
pub struct SpecToken {
    pub token_type: TokenType,
    pub lexeme: Seq<char>,
    pub value: SpecTokenValue,
    pub line: nat,
}

impl View for Token {
    type V = SpecToken;

    open spec fn view(&self) -> SpecToken {
        SpecToken {
            token_type: self.token_type,
            lexeme: self.lexeme@,
            value: self.value@,
            line: self.line as nat,
        }
    }
}

/// One diagnostic as the scan's model records it: the line it was
/// reported at, and the bare message text (the collector renders it).
pub struct SpecDiag {
    pub line: nat,
    pub message: Seq<char>,
}

pub open spec fn unterminated_msg() -> Seq<char> {
    "Unterminated string."@
}

pub open spec fn unexpected_char_msg(c: char) -> Seq<char> {
    "Unexpected character '"@ + seq![c] + "'."@
}

/// How the collector renders a scan diagnostic: empty location label.
pub open spec fn render_diag(d: SpecDiag) -> Seq<char> {
    render_msg(d.line, ""@, d.message)
}

pub open spec fn rendered(ds: Seq<SpecDiag>) -> Seq<Seq<char>> {
    ds.map_values(|d: SpecDiag| render_diag(d))
}

pub open spec fn token_views(ts: Seq<Token>) -> Seq<SpecToken> {
    ts.map_values(|t: Token| t@)
}

// ---------------------------------------------------------------------
// Character classes (ASCII; anything else falls to "unexpected character")
// ---------------------------------------------------------------------

pub open spec fn is_whitespace_char(c: char) -> bool {
    c == ' ' || c == '\r' || c == '\t'
}

pub open spec fn is_digit_char(c: char) -> bool {
    48 <= c as int && c as int <= 57
}

pub open spec fn is_alpha_char(c: char) -> bool {
    (65 <= c as int && c as int <= 90) || (97 <= c as int && c as int <= 122) || c == '_'
}

pub open spec fn is_ident_char(c: char) -> bool {
    is_alpha_char(c) || is_digit_char(c)
}

/// Punctuation that always forms a one-character token ('/' is separate:
/// it may start a line comment).
pub open spec fn is_single_char(c: char) -> bool {
    c == '(' || c == ')' || c == '{' || c == '}' || c == ',' || c == '.' || c == '-' || c == '+'
        || c == ';' || c == '*'
}

pub open spec fn single_char_type(c: char) -> TokenType {
    if c == '(' {
        TokenType::LeftParen
    } else if c == ')' {
        TokenType::RightParen
    } else if c == '{' {
        TokenType::LeftBrace
    } else if c == '}' {
        TokenType::RightBrace
    } else if c == ',' {
        TokenType::Comma
    } else if c == '.' {
        TokenType::Period
    } else if c == '-' {
        TokenType::Minus
    } else if c == '+' {
        TokenType::Plus
    } else if c == ';' {
        TokenType::Semicolon
    } else {
        TokenType::Asterisk
    }
}

/// Characters that may begin a two-character operator.
pub open spec fn is_op_prefix(c: char) -> bool {
    c == '!' || c == '=' || c == '<' || c == '>'
}

pub open spec fn simple_op_type(c: char) -> TokenType {
    if c == '!' {
        TokenType::Bang
    } else if c == '=' {
        TokenType::Equal
    } else if c == '<' {
        TokenType::Less
    } else {
        TokenType::Greater
    }
}

pub open spec fn compound_op_type(c: char) -> TokenType {
    if c == '!' {
        TokenType::BangEqual
    } else if c == '=' {
        TokenType::EqualEqual
    } else if c == '<' {
        TokenType::LessEqual
    } else {
        TokenType::GreaterEqual
    }
}

/// The keyword table: reserved spelling to token category, immutable.
pub open spec fn keyword_type(s: Seq<char>) -> Option<TokenType> {
    if s == "and"@ {
        Some(TokenType::And)
    } else if s == "class"@ {
        Some(TokenType::Class)
    } else if s == "else"@ {
        Some(TokenType::Else)
    } else if s == "false"@ {
        Some(TokenType::False)
    } else if s == "fn"@ {
        Some(TokenType::Fn)
    } else if s == "for"@ {
        Some(TokenType::For)
    } else if s == "if"@ {
        Some(TokenType::If)
    } else if s == "let"@ {
        Some(TokenType::Let)
    } else if s == "null"@ {
        Some(TokenType::Null)
    } else if s == "or"@ {
        Some(TokenType::Or)
    } else if s == "print"@ {
        Some(TokenType::Print)
    } else if s == "return"@ {
        Some(TokenType::Return)
    } else if s == "super"@ {
        Some(TokenType::Super)
    } else if s == "this"@ {
        Some(TokenType::This)
    } else if s == "true"@ {
        Some(TokenType::True)
    } else if s == "while"@ {
        Some(TokenType::While)
    } else {
        None
    }
}

// ---------------------------------------------------------------------
// Lexeme extents: where a run started at a position ends
// ---------------------------------------------------------------------

/// The first position at or after `i` that ends a line comment: the next
/// newline, or the end of input.
pub open spec fn comment_end(src: Seq<char>, i: int) -> int
    decreases src.len() - i,
{
    if 0 <= i < src.len() && src[i] != '\n' {
        comment_end(src, i + 1)
    } else {
        i
    }
}

/// The first position at or after `i` holding a non-digit, or the end.
pub open spec fn digits_end(src: Seq<char>, i: int) -> int
    decreases src.len() - i,
{
    if 0 <= i < src.len() && is_digit_char(src[i]) {
        digits_end(src, i + 1)
    } else {
        i
    }
}

/// The first position at or after `i` not alphanumeric or underscore.
pub open spec fn ident_end(src: Seq<char>, i: int) -> int
    decreases src.len() - i,
{
    if 0 <= i < src.len() && is_ident_char(src[i]) {
        ident_end(src, i + 1)
    } else {
        i
    }
}

/// The position of the first closing quote at or after `i`, or the end of
/// input if the string literal is unterminated.
pub open spec fn string_close(src: Seq<char>, i: int) -> int
    decreases src.len() - i,
{
    if 0 <= i < src.len() && src[i] != '"' {
        string_close(src, i + 1)
    } else {
        i
    }
}

/// How many newline characters `src[i..j)` holds.
pub open spec fn count_newlines(src: Seq<char>, i: int, j: int) -> nat
    decreases j - i,
{
    if i >= j {
        0
    } else {
        count_newlines(src, i, j - 1) + (if src[j - 1] == '\n' {
            1nat
        } else {
            0nat
        })
    }
}

pub proof fn lemma_comment_end_bounds(src: Seq<char>, i: int)
    requires
        0 <= i <= src.len(),
    ensures
        i <= comment_end(src, i) <= src.len(),
    decreases src.len() - i,
{
    if i < src.len() && src[i] != '\n' {
        lemma_comment_end_bounds(src, i + 1);
    }
}

pub proof fn lemma_digits_end_bounds(src: Seq<char>, i: int)
    requires
        0 <= i <= src.len(),
    ensures
        i <= digits_end(src, i) <= src.len(),
    decreases src.len() - i,
{
    if i < src.len() && is_digit_char(src[i]) {
        lemma_digits_end_bounds(src, i + 1);
    }
}

pub proof fn lemma_ident_end_bounds(src: Seq<char>, i: int)
    requires
        0 <= i <= src.len(),
    ensures
        i <= ident_end(src, i) <= src.len(),
    decreases src.len() - i,
{
    if i < src.len() && is_ident_char(src[i]) {
        lemma_ident_end_bounds(src, i + 1);
    }
}

pub proof fn lemma_count_newlines_bound(src: Seq<char>, i: int, j: int)
    requires
        i <= j,
    ensures
        count_newlines(src, i, j) <= j - i,
    decreases j - i,
{
    if i < j {
        lemma_count_newlines_bound(src, i, j - 1);
    }
}

pub proof fn lemma_string_close_bounds(src: Seq<char>, i: int)
    requires
        0 <= i <= src.len(),
    ensures
        i <= string_close(src, i) <= src.len(),
    decreases src.len() - i,
{
    if i < src.len() && src[i] != '"' {
        lemma_string_close_bounds(src, i + 1);
    }
}

// ---------------------------------------------------------------------
// One classification step, and the whole scan
// ---------------------------------------------------------------------

pub open spec fn plain_token(t: TokenType, lexeme: Seq<char>, line: nat) -> SpecToken {
    SpecToken { token_type: t, lexeme, value: SpecTokenValue::SpecNone, line }
}

/// The terminal sentinel: category `Eof`, empty lexeme, no value.
pub open spec fn eof_token(line: nat) -> SpecToken {
    plain_token(TokenType::Eof, Seq::empty(), line)
}

/// What one classification step does from position `pos` on line `line`:
/// where the cursor moves, what the line counter becomes, and the at most
/// one token and at most one diagnostic it produces.
pub struct ScanStep {
    pub next: int,
    pub line: nat,
    pub token: Option<SpecToken>,
    pub diag: Option<SpecDiag>,
}

pub open spec fn scan_step(src: Seq<char>, pos: int, line: nat) -> ScanStep
    recommends
        0 <= pos < src.len(),
{
    let c = src[pos];
    if is_whitespace_char(c) {
        ScanStep { next: pos + 1, line, token: None, diag: None }
    } else if c == '\n' {
        ScanStep { next: pos + 1, line: line + 1, token: None, diag: None }
    } else if is_single_char(c) {
        ScanStep {
            next: pos + 1,
            line,
            token: Some(plain_token(single_char_type(c), src.subrange(pos, pos + 1), line)),
            diag: None,
        }
    } else if is_op_prefix(c) {
        if pos + 1 < src.len() && src[pos + 1] == '=' {
            ScanStep {
                next: pos + 2,
                line,
                token: Some(plain_token(compound_op_type(c), src.subrange(pos, pos + 2), line)),
                diag: None,
            }
        } else {
            ScanStep {
                next: pos + 1,
                line,
                token: Some(plain_token(simple_op_type(c), src.subrange(pos, pos + 1), line)),
                diag: None,
            }
        }
    } else if c == '/' {
        if pos + 1 < src.len() && src[pos + 1] == '/' {
            // A line comment: consumed to the end of the physical line,
            // contributing no token.
            ScanStep { next: comment_end(src, pos + 2), line, token: None, diag: None }
        } else {
            ScanStep {
                next: pos + 1,
                line,
                token: Some(plain_token(TokenType::Slash, src.subrange(pos, pos + 1), line)),
                diag: None,
            }
        }
    } else if c == '"' {
        let close = string_close(src, pos + 1);
        let nl = count_newlines(src, pos + 1, close);
        if close < src.len() {
            // The token reports the line its lexeme begins on; embedded
            // newlines advance the counter for what follows.
            ScanStep {
                next: close + 1,
                line: line + nl,
                token: Some(
                    SpecToken {
                        token_type: TokenType::String,
                        lexeme: src.subrange(pos, close + 1),
                        value: SpecTokenValue::SpecString(src.subrange(pos + 1, close)),
                        line,
                    },
                ),
                diag: None,
            }
        } else {
            // Unterminated: report at the line reached, emit nothing, and
            // leave the cursor at the end of input.
            ScanStep {
                next: src.len() as int,
                line: line + nl,
                token: None,
                diag: Some(SpecDiag { line: line + nl, message: unterminated_msg() }),
            }
        }
    } else if is_digit_char(c) {
        let whole_end = digits_end(src, pos + 1);
        let end = if whole_end < src.len() && src[whole_end] == '.' && whole_end + 1 < src.len()
            && is_digit_char(src[whole_end + 1]) {
            digits_end(src, whole_end + 1)
        } else {
            whole_end
        };
        ScanStep {
            next: end,
            line,
            token: Some(
                SpecToken {
                    token_type: TokenType::Number,
                    lexeme: src.subrange(pos, end),
                    value: SpecTokenValue::SpecNumber(src.subrange(pos, end)),
                    line,
                },
            ),
            diag: None,
        }
    } else if is_alpha_char(c) {
        let end = ident_end(src, pos + 1);
        let lex = src.subrange(pos, end);
        let tt = match keyword_type(lex) {
            Some(t) => t,
            None => TokenType::Identifier,
        };
        ScanStep { next: end, line, token: Some(plain_token(tt, lex, line)), diag: None }
    } else {
        ScanStep {
            next: pos + 1,
            line,
            token: None,
            diag: Some(SpecDiag { line, message: unexpected_char_msg(c) }),
        }
    }
}

pub proof fn lemma_scan_step_bounds(src: Seq<char>, pos: int, line: nat)
    requires
        0 <= pos < src.len(),
    ensures
        pos < scan_step(src, pos, line).next <= src.len(),
{
    let c = src[pos];
    if is_whitespace_char(c) || c == '\n' || is_single_char(c) || is_op_prefix(c) {
    } else if c == '/' && pos + 1 < src.len() && src[pos + 1] == '/' {
        lemma_comment_end_bounds(src, pos + 2);
    } else if c == '"' {
        lemma_string_close_bounds(src, pos + 1);
    } else if is_digit_char(c) {
        lemma_digits_end_bounds(src, pos + 1);
        let whole_end = digits_end(src, pos + 1);
        if whole_end < src.len() && src[whole_end] == '.' && whole_end + 1 < src.len()
            && is_digit_char(src[whole_end + 1]) {
            lemma_digits_end_bounds(src, whole_end + 1);
        }
    } else if is_alpha_char(c) {
        lemma_ident_end_bounds(src, pos + 1);
    }
}

pub open spec fn opt_seq<T>(o: Option<T>) -> Seq<T> {
    match o {
        Some(t) => seq![t],
        None => Seq::empty(),
    }
}

/// The scan's whole output: the ordered token sequence and the ordered
/// diagnostics, as they stand after the run.
pub struct ScanOut {
    pub tokens: Seq<SpecToken>,
    pub diags: Seq<SpecDiag>,
}

/// Scanning from position `pos` on line `line` to the end of input: every
/// step's token and diagnostic in source order, and the `Eof` sentinel
/// last, carrying the line reached at end of input.
pub open spec fn scan_from(src: Seq<char>, pos: int, line: nat) -> ScanOut
    decreases src.len() - pos,
    when 0 <= pos
    via scan_from_dec
{
    if pos >= src.len() {
        ScanOut { tokens: seq![eof_token(line)], diags: Seq::empty() }
    } else {
        let st = scan_step(src, pos, line);
        let rest = scan_from(src, st.next, st.line);
        ScanOut {
            tokens: opt_seq(st.token) + rest.tokens,
            diags: opt_seq(st.diag) + rest.diags,
        }
    }
}

#[via_fn]
proof fn scan_from_dec(src: Seq<char>, pos: int, line: nat) {
    if 0 <= pos < src.len() {
        lemma_scan_step_bounds(src, pos, line);
    }
}

/// The whole scan of a source buffer, from its start on line 1.
pub open spec fn scan_spec(src: Seq<char>) -> ScanOut {
    scan_from(src, 0, 1)
}

proof fn lemma_scan_from_ends_with_eof(src: Seq<char>, pos: int, line: nat)
    requires
        0 <= pos,
    ensures
        scan_from(src, pos, line).tokens.len() >= 1,
        scan_from(src, pos, line).tokens.last().token_type == TokenType::Eof,
        scan_from(src, pos, line).tokens.last().lexeme == Seq::<char>::empty(),
    decreases src.len() - pos,
{
    if pos < src.len() {
        let st = scan_step(src, pos, line);
        lemma_scan_step_bounds(src, pos, line);
        lemma_scan_from_ends_with_eof(src, st.next, st.line);
        let rest = scan_from(src, st.next, st.line).tokens;
        assert((opt_seq(st.token) + rest).last() == rest.last());
    }
}

/// Law: for every input the scan terminates, and the last token of its
/// output is the `Eof` sentinel, with an empty lexeme.
pub proof fn lemma_scan_ends_with_eof(src: Seq<char>)
    ensures
        scan_spec(src).tokens.len() >= 1,
        scan_spec(src).tokens.last().token_type == TokenType::Eof,
        scan_spec(src).tokens.last().lexeme == Seq::<char>::empty(),
{
    lemma_scan_from_ends_with_eof(src, 0, 1);
}

proof fn lemma_scan_step_lexeme(src: Seq<char>, pos: int, line: nat)
    requires
        0 <= pos < src.len(),
        scan_step(src, pos, line).token is Some,
    ensures
        exists|i: int, j: int|
            0 <= i <= j <= src.len() && scan_step(src, pos, line).token.unwrap().lexeme
                == src.subrange(i, j),
{
    let c = src[pos];
    let t = scan_step(src, pos, line).token.unwrap();
    if is_single_char(c) || c == '/' {
        assert(t.lexeme == src.subrange(pos, pos + 1));
    } else if is_op_prefix(c) {
        if pos + 1 < src.len() && src[pos + 1] == '=' {
            assert(t.lexeme == src.subrange(pos, pos + 2));
        } else {
            assert(t.lexeme == src.subrange(pos, pos + 1));
        }
    } else if c == '"' {
        let close = string_close(src, pos + 1);
        lemma_string_close_bounds(src, pos + 1);
        assert(t.lexeme == src.subrange(pos, close + 1));
    } else if is_digit_char(c) {
        let whole_end = digits_end(src, pos + 1);
        lemma_digits_end_bounds(src, pos + 1);
        if whole_end < src.len() && src[whole_end] == '.' && whole_end + 1 < src.len()
            && is_digit_char(src[whole_end + 1]) {
            lemma_digits_end_bounds(src, whole_end + 1);
            assert(t.lexeme == src.subrange(pos, digits_end(src, whole_end + 1)));
        } else {
            assert(t.lexeme == src.subrange(pos, whole_end));
        }
    } else {
        let end = ident_end(src, pos + 1);
        lemma_ident_end_bounds(src, pos + 1);
        assert(t.lexeme == src.subrange(pos, end));
    }
}

proof fn lemma_scan_from_lexemes(src: Seq<char>, pos: int, line: nat)
    requires
        0 <= pos <= src.len(),
    ensures
        forall|k: int|
            0 <= k < scan_from(src, pos, line).tokens.len() && scan_from(
                src,
                pos,
                line,
            ).tokens[k].token_type != TokenType::Eof ==> exists|i: int, j: int|
                0 <= i <= j <= src.len() && scan_from(src, pos, line).tokens[k].lexeme
                    == src.subrange(i, j),
    decreases src.len() - pos,
{
    if pos < src.len() {
        let st = scan_step(src, pos, line);
        lemma_scan_step_bounds(src, pos, line);
        lemma_scan_from_lexemes(src, st.next, st.line);
        if st.token is Some {
            lemma_scan_step_lexeme(src, pos, line);
        }
        let head = opt_seq(st.token);
        let rest = scan_from(src, st.next, st.line).tokens;
        assert forall|k: int|
            0 <= k < (head + rest).len() && (head + rest)[k].token_type
                != TokenType::Eof implies exists|i: int, j: int|
            0 <= i <= j <= src.len() && (head + rest)[k].lexeme == src.subrange(i, j) by {
            if k < head.len() {
                assert((head + rest)[k] == st.token.unwrap());
            } else {
                assert((head + rest)[k] == rest[k - head.len()]);
            }
        }
    }
}

/// Law: every non-`Eof` token's lexeme equals a contiguous slice of the
/// source text, character for character: exactly what stood between the
/// token's consumption start and end.
pub proof fn lemma_lexemes_are_source_slices(src: Seq<char>)
    ensures
        forall|k: int|
            0 <= k < scan_spec(src).tokens.len() && scan_spec(src).tokens[k].token_type
                != TokenType::Eof ==> exists|i: int, j: int|
                0 <= i <= j <= src.len() && scan_spec(src).tokens[k].lexeme == src.subrange(i, j),
{
    lemma_scan_from_lexemes(src, 0, 1);
}

proof fn lemma_scan_from_whitespace(src: Seq<char>, pos: int, line: nat)
    requires
        0 <= pos,
        forall|i: int| 0 <= i < src.len() ==> (is_whitespace_char(src[i]) || src[i] == '\n'),
    ensures
        scan_from(src, pos, line).tokens.len() == 1,
        scan_from(src, pos, line).tokens[0].token_type == TokenType::Eof,
        scan_from(src, pos, line).diags.len() == 0,
    decreases src.len() - pos,
{
    if pos < src.len() {
        let st = scan_step(src, pos, line);
        lemma_scan_step_bounds(src, pos, line);
        lemma_scan_from_whitespace(src, st.next, st.line);
    }
}

proof fn lemma_scan_step_line(src: Seq<char>, pos: int, line: nat)
    requires
        0 <= pos < src.len(),
    ensures
        scan_step(src, pos, line).line >= line,
        scan_step(src, pos, line).token is Some ==> scan_step(src, pos, line).token.unwrap().line
            == line,
{
}

proof fn lemma_scan_from_lines(src: Seq<char>, pos: int, line: nat)
    requires
        0 <= pos,
    ensures
        forall|k: int|
            0 <= k < scan_from(src, pos, line).tokens.len() ==> #[trigger] scan_from(
                src,
                pos,
                line,
            ).tokens[k].line >= line,
        forall|k1: int, k2: int|
            #![trigger scan_from(src, pos, line).tokens[k1], scan_from(src, pos, line).tokens[k2]]
            0 <= k1 <= k2 < scan_from(src, pos, line).tokens.len() ==> scan_from(
                src,
                pos,
                line,
            ).tokens[k1].line <= scan_from(src, pos, line).tokens[k2].line,
    decreases src.len() - pos,
{
    if pos < src.len() {
        let st = scan_step(src, pos, line);
        lemma_scan_step_bounds(src, pos, line);
        lemma_scan_step_line(src, pos, line);
        lemma_scan_from_lines(src, st.next, st.line);
        let head = opt_seq(st.token);
        let rest = scan_from(src, st.next, st.line).tokens;
        let toks = scan_from(src, pos, line).tokens;
        assert forall|k: int| 0 <= k < toks.len() implies #[trigger] toks[k].line >= line by {
            if k >= head.len() {
                assert(toks[k] == rest[k - head.len()]);
            }
        }
        assert forall|k1: int, k2: int|
            #![trigger toks[k1], toks[k2]]
            0 <= k1 <= k2 < toks.len() implies toks[k1].line <= toks[k2].line by {
            if k1 >= head.len() {
                assert(toks[k1] == rest[k1 - head.len()]);
                assert(toks[k2] == rest[k2 - head.len()]);
            } else if k2 >= head.len() {
                assert(toks[k2] == rest[k2 - head.len()]);
                assert(rest[k2 - head.len()].line >= st.line);
            }
        }
    }
}

/// Law: the line annotations of the token sequence never decrease:
/// tokens appear in the order their lexemes occur, so each token's line
/// is at most any later token's.
pub proof fn lemma_token_lines_nondecreasing(src: Seq<char>)
    ensures
        forall|k1: int, k2: int|
            #![trigger scan_spec(src).tokens[k1], scan_spec(src).tokens[k2]]
            0 <= k1 <= k2 < scan_spec(src).tokens.len() ==> scan_spec(src).tokens[k1].line
                <= scan_spec(src).tokens[k2].line,
{
    lemma_scan_from_lines(src, 0, 1);
}

/// Law: whitespace-only or empty input yields exactly one token, the
/// `Eof` sentinel, and no diagnostics.
pub proof fn lemma_whitespace_only_scan(src: Seq<char>)
    requires
        forall|i: int| 0 <= i < src.len() ==> (is_whitespace_char(src[i]) || src[i] == '\n'),
    ensures
        scan_spec(src).tokens.len() == 1,
        scan_spec(src).tokens[0].token_type == TokenType::Eof,
        scan_spec(src).diags.len() == 0,
{
    lemma_scan_from_whitespace(src, 0, 1);
}

// ---------------------------------------------------------------------
// The scanner itself
// ---------------------------------------------------------------------

fn is_digit(c: char) -> (r: bool)
    ensures
        r == is_digit_char(c),
{
    let n = c as u32;
    48 <= n && n <= 57
}

fn is_alpha(c: char) -> (r: bool)
    ensures
        r == is_alpha_char(c),
{
    let n = c as u32;
    (65 <= n && n <= 90) || (97 <= n && n <= 122) || c == '_'
}

fn is_ident(c: char) -> (r: bool)
    ensures
        r == is_ident_char(c),
{
    is_alpha(c) || is_digit(c)
}

fn str_eq(a: &str, b: &str) -> (r: bool)
    ensures
        r == (a@ == b@),
{
    let n = a.unicode_len();
    let m = b.unicode_len();
    if n != m {
        return false;
    }
    let mut i: usize = 0;
    while i < n
        invariant
            i <= n,
            n == a@.len(),
            n == b@.len(),
            forall|j: int| 0 <= j < i ==> a@[j] == b@[j],
        decreases n - i,
    {
        if a.get_char(i) != b.get_char(i) {
            return false;
        }
        i = i + 1;
    }
    proof {
        assert(a@ =~= b@);
    }
    true
}

/// Looks a spelling up in the keyword table.
fn keyword_lookup(s: &str) -> (r: Option<TokenType>)
    ensures
        r == keyword_type(s@),
{
    if str_eq(s, "and") {
        Some(TokenType::And)
    } else if str_eq(s, "class") {
        Some(TokenType::Class)
    } else if str_eq(s, "else") {
        Some(TokenType::Else)
    } else if str_eq(s, "false") {
        Some(TokenType::False)
    } else if str_eq(s, "fn") {
        Some(TokenType::Fn)
    } else if str_eq(s, "for") {
        Some(TokenType::For)
    } else if str_eq(s, "if") {
        Some(TokenType::If)
    } else if str_eq(s, "let") {
        Some(TokenType::Let)
    } else if str_eq(s, "null") {
        Some(TokenType::Null)
    } else if str_eq(s, "or") {
        Some(TokenType::Or)
    } else if str_eq(s, "print") {
        Some(TokenType::Print)
    } else if str_eq(s, "return") {
        Some(TokenType::Return)
    } else if str_eq(s, "super") {
        Some(TokenType::Super)
    } else if str_eq(s, "this") {
        Some(TokenType::This)
    } else if str_eq(s, "true") {
        Some(TokenType::True)
    } else if str_eq(s, "while") {
        Some(TokenType::While)
    } else {
        None
    }
}

/// The one-line display form of a token, as the token lister shows it: a
/// string literal with its decoded text in quotes, a number with its
/// scanned spelling, anything else with its lexeme, labelled by whether
/// the lexeme is reserved.
pub open spec fn describe_text(t: SpecToken) -> Seq<char> {
    match t.value {
        SpecTokenValue::SpecString(val) => if t.token_type == TokenType::String {
            "    String: \""@ + val + "\""@
        } else {
            "   Keyword: "@ + val
        },
        SpecTokenValue::SpecNumber(val) => "    Number: "@ + val,
        SpecTokenValue::SpecNone => if t.token_type == TokenType::Identifier {
            "Identifier: "@ + t.lexeme
        } else if keyword_type(t.lexeme) is Some {
            "   Keyword: "@ + t.lexeme
        } else {
            "     Other: "@ + t.lexeme
        },
    }
}

impl Token {
    /// This token's display line.
    pub fn describe(&self) -> (s: String)
        ensures
            s@ == describe_text(self@),
    {
        match &self.value {
            TokenValue::String(val) => {
                if self.token_type == TokenType::String {
                    let mut s = String::from_str("    String: \"");
                    s.append(val.as_str());
                    s.append("\"");
                    proof {
                        assert(s@ =~= describe_text(self@));
                    }
                    s
                } else {
                    let mut s = String::from_str("   Keyword: ");
                    s.append(val.as_str());
                    s
                }
            },
            TokenValue::Number(val) => {
                let mut s = String::from_str("    Number: ");
                s.append(val.as_str());
                s
            },
            TokenValue::Empty => {
                if self.token_type == TokenType::Identifier {
                    let mut s = String::from_str("Identifier: ");
                    s.append(self.lexeme.as_str());
                    s
                } else {
                    let label = match keyword_lookup(self.lexeme.as_str()) {
                        Some(_) => "   Keyword: ",
                        None => "     Other: ",
                    };
                    let mut s = String::from_str(label);
                    s.append(self.lexeme.as_str());
                    s
                }
            },
        }
    }
}

/// Per-scan state: the source buffer (an owned copy, indexed by character
/// position), the diagnostic collector it owns for the scan's duration,
/// the tokens emitted so far, the index where the current lexeme began,
/// the next unread index, and the current line counter (1-based).
pub struct Scanner {
    pub error_reporter: ErrorReporter,
    pub src: String,
    pub src_len: usize,
    pub tokens: Vec<Token>,
    pub start: usize,
    pub current: usize,
    pub line: usize,
}

/// What no cursor motion may touch.
pub open spec fn unchanged_except_cursor(pre: Scanner, post: Scanner) -> bool {
    &&& post.error_reporter == pre.error_reporter
    &&& post.src == pre.src
    &&& post.src_len == pre.src_len
    &&& post.tokens == pre.tokens
    &&& post.start == pre.start
    &&& post.line == pre.line
}

impl Scanner {
    /// Builds a scanner over an owned copy of the source and immediately
    /// performs the whole scan, folding every diagnostic into the given
    /// collector.  The character count must be below `usize::MAX`, which
    /// any in-memory buffer satisfies.
    pub fn new(error_reporter: ErrorReporter, src: &str) -> (s: Scanner)
        requires
            src@.len() < usize::MAX,
        ensures
            s.wf(),
            s.src@ == src@,
            token_views(s.tokens@) == scan_spec(src@).tokens,
            s.error_reporter.messages_views() == error_reporter.messages_views() + rendered(
                scan_spec(src@).diags,
            ),
            s.error_reporter.had_error == (error_reporter.had_error || scan_spec(
                src@,
            ).diags.len() > 0),
    {
        let src_len = src.unicode_len();
        let mut scanner = Scanner {
            error_reporter,
            src: src.to_owned(),
            src_len,
            tokens: Vec::new(),
            start: 0,
            current: 0,
            line: 1,
        };
        scanner.scan_tokens();
        scanner
    }

    /// Scans the whole source, once: on a fresh scanner this fills the
    /// token sequence with every scanned token and the `Eof` sentinel and
    /// records every diagnostic; on a scanner that already holds tokens it
    /// changes nothing.
    pub fn scan_tokens(&mut self)
        requires
            old(self).wf(),
        ensures
            final(self).wf(),
            final(self).src == old(self).src,
            final(self).src_len == old(self).src_len,
            old(self).tokens@.len() == 0 ==> ({
                let out = scan_from(old(self).src@, old(self).current as int, old(self).line as nat);
                &&& token_views(final(self).tokens@) == out.tokens
                &&& final(self).error_reporter.messages_views() == old(
                    self,
                ).error_reporter.messages_views() + rendered(out.diags)
                &&& final(self).error_reporter.had_error == (old(self).error_reporter.had_error
                    || out.diags.len() > 0)
            }),
            old(self).tokens@.len() > 0 ==> *final(self) == *old(self),
    {
        if self.tokens.len() == 0 {
            let ghost pre = *self;
            let ghost src = self.src@;
            let ghost c0 = self.current as int;
            let ghost line0 = self.line as nat;
            let ghost mut taken: Seq<SpecDiag> = Seq::empty();
            proof {
                assert(token_views(self.tokens@) =~= Seq::<SpecToken>::empty());
                assert(rendered(taken) =~= Seq::<Seq<char>>::empty());
                assert(self.error_reporter.messages_views()
                    =~= pre.error_reporter.messages_views() + rendered(taken));
            }
            while self.current < self.src_len
                invariant
                    self.wf(),
                    self.src == pre.src,
                    self.src_len == pre.src_len,
                    src == pre.src@,
                    self.error_reporter.had_error == (pre.error_reporter.had_error || taken.len()
                        > 0),
                    self.error_reporter.messages_views() == pre.error_reporter.messages_views()
                        + rendered(taken),
                    scan_from(src, c0, line0).tokens == token_views(self.tokens@) + scan_from(
                        src,
                        self.current as int,
                        self.line as nat,
                    ).tokens,
                    scan_from(src, c0, line0).diags == taken + scan_from(
                        src,
                        self.current as int,
                        self.line as nat,
                    ).diags,
                decreases self.src_len - self.current,
            {
                self.start = self.current;
                let ghost mid = *self;
                self.scan_token();
                proof {
                    let st = scan_step(src, mid.current as int, mid.line as nat);
                    lemma_scan_step_bounds(src, mid.current as int, mid.line as nat);
                    assert(scan_from(src, mid.current as int, mid.line as nat).tokens == opt_seq(
                        st.token,
                    ) + scan_from(src, st.next, st.line).tokens);
                    assert(scan_from(src, mid.current as int, mid.line as nat).diags == opt_seq(
                        st.diag,
                    ) + scan_from(src, st.next, st.line).diags);
                    assert(scan_from(src, c0, line0).tokens =~= token_views(self.tokens@)
                        + scan_from(src, self.current as int, self.line as nat).tokens);
                    let grown = taken + opt_seq(st.diag);
                    assert(rendered(grown) =~= rendered(taken) + rendered(opt_seq(st.diag)));
                    assert(self.error_reporter.messages_views()
                        =~= pre.error_reporter.messages_views() + rendered(grown));
                    assert(scan_from(src, c0, line0).diags =~= grown + scan_from(
                        src,
                        self.current as int,
                        self.line as nat,
                    ).diags);
                    taken = grown;
                }
            }
            proof {
                assert(scan_from(src, self.current as int, self.line as nat).tokens == seq![
                    eof_token(self.line as nat),
                ]);
                assert(scan_from(src, self.current as int, self.line as nat).diags
                    =~= Seq::<SpecDiag>::empty());
                assert(scan_from(src, c0, line0).diags =~= taken);
            }
            let line = self.line;
            let eof = Token {
                token_type: TokenType::Eof,
                lexeme: String::new(),
                value: TokenValue::Empty,
                line,
            };
            self.tokens.push(eof);
            proof {
                assert(eof@.lexeme =~= Seq::<char>::empty());
                assert(eof@ == eof_token(line as nat));
                assert(token_views(self.tokens@) =~= scan_from(src, c0, line0).tokens);
            }
        }
    }

    /// The display lines for the scanned tokens, one per token in order
    /// (the front end prints them).
    pub fn display_tokens(&self) -> (lines: Vec<String>)
        ensures
            lines@.map_values(|l: String| l@) == token_views(self.tokens@).map_values(
                |t: SpecToken| describe_text(t),
            ),
    {
        let ghost full = token_views(self.tokens@).map_values(|t: SpecToken| describe_text(t));
        let mut lines: Vec<String> = Vec::new();
        let mut i: usize = 0;
        while i < self.tokens.len()
            invariant
                i <= self.tokens@.len(),
                full == token_views(self.tokens@).map_values(|t: SpecToken| describe_text(t)),
                lines@.map_values(|l: String| l@) == full.take(i as int),
            decreases self.tokens@.len() - i,
        {
            let line = self.tokens[i].describe();
            proof {
                assert(token_views(self.tokens@)[i as int] == self.tokens@[i as int]@);
                assert(full[i as int] == describe_text(self.tokens@[i as int]@));
            }
            let ghost lm0 = lines@.map_values(|l: String| l@);
            lines.push(line);
            i = i + 1;
            proof {
                assert(lines@.map_values(|l: String| l@) =~= lm0.push(line@));
                assert(full.take(i as int) =~= lm0.push(line@));
            }
        }
        proof {
            assert(full.take(i as int) =~= full);
        }
        lines
    }

    /// The scanner's invariant: the lexeme start never passes the read
    /// cursor, the cursor never passes the end, the cached length is the
    /// character count, and the line counter never outruns the cursor.
    pub open spec fn wf(&self) -> bool {
        &&& self.start <= self.current <= self.src@.len()
        &&& self.src_len == self.src@.len()
        &&& 1 <= self.line <= self.current + 1
        &&& self.src@.len() < usize::MAX
    }

    fn is_at_end(&self) -> (r: bool)
        requires
            self.wf(),
        ensures
            r == (self.current >= self.src@.len()),
    {
        self.current >= self.src_len
    }

    fn advance(&mut self) -> (c: char)
        requires
            old(self).wf(),
            old(self).current < old(self).src@.len(),
        ensures
            final(self).wf(),
            unchanged_except_cursor(*old(self), *final(self)),
            final(self).current == old(self).current + 1,
            c == old(self).src@[old(self).current as int],
    {
        let c = self.src.as_str().get_char(self.current);
        self.current = self.current + 1;
        c
    }

    fn peek(&self) -> (c: char)
        requires
            self.wf(),
        ensures
            c == (if self.current < self.src@.len() {
                self.src@[self.current as int]
            } else {
                '\0'
            }),
    {
        if self.is_at_end() {
            return '\0';
        }
        self.src.as_str().get_char(self.current)
    }

    fn peek_next(&self) -> (c: char)
        requires
            self.wf(),
        ensures
            c == (if self.current + 1 < self.src@.len() {
                self.src@[self.current as int + 1]
            } else {
                '\0'
            }),
    {
        if self.current + 1 >= self.src_len {
            return '\0';
        }
        self.src.as_str().get_char(self.current + 1)
    }

    fn char_match(&mut self, expected: char) -> (r: bool)
        requires
            old(self).wf(),
        ensures
            final(self).wf(),
            unchanged_except_cursor(*old(self), *final(self)),
            r == (old(self).current < old(self).src@.len() && old(self).src@[old(
                self,
            ).current as int] == expected),
            final(self).current == (if r {
                old(self).current + 1
            } else {
                old(self).current as int
            }),
    {
        if self.is_at_end() {
            return false;
        }
        if self.src.as_str().get_char(self.current) != expected {
            return false;
        }
        self.current = self.current + 1;
        true
    }

    fn add_token_at(&mut self, token_type: TokenType, value: TokenValue, line: usize)
        requires
            old(self).wf(),
        ensures
            final(self).wf(),
            final(self).error_reporter == old(self).error_reporter,
            final(self).src == old(self).src,
            final(self).src_len == old(self).src_len,
            final(self).start == old(self).start,
            final(self).current == old(self).current,
            final(self).line == old(self).line,
            token_views(final(self).tokens@) == token_views(old(self).tokens@).push(
                SpecToken {
                    token_type,
                    lexeme: old(self).src@.subrange(
                        old(self).start as int,
                        old(self).current as int,
                    ),
                    value: value@,
                    line: line as nat,
                },
            ),
    {
        let text = self.src.as_str().substring_char(self.start, self.current).to_owned();
        let tok = Token { token_type, lexeme: text, value, line };
        self.tokens.push(tok);
        proof {
            assert(token_views(self.tokens@) =~= token_views(old(self).tokens@).push(
                SpecToken {
                    token_type,
                    lexeme: old(self).src@.subrange(
                        old(self).start as int,
                        old(self).current as int,
                    ),
                    value: value@,
                    line: line as nat,
                },
            ));
        }
    }

    fn add_token(&mut self, token_type: TokenType, value: TokenValue)
        requires
            old(self).wf(),
        ensures
            final(self).wf(),
            final(self).error_reporter == old(self).error_reporter,
            final(self).src == old(self).src,
            final(self).src_len == old(self).src_len,
            final(self).start == old(self).start,
            final(self).current == old(self).current,
            final(self).line == old(self).line,
            token_views(final(self).tokens@) == token_views(old(self).tokens@).push(
                SpecToken {
                    token_type,
                    lexeme: old(self).src@.subrange(
                        old(self).start as int,
                        old(self).current as int,
                    ),
                    value: value@,
                    line: old(self).line as nat,
                },
            ),
    {
        let line = self.line;
        self.add_token_at(token_type, value, line);
    }

    /// Consumes a string literal whose opening quote stands at `start`
    /// (already consumed): everything up to the closing quote becomes one
    /// `String` token reported at the line the literal began on, embedded
    /// newlines advancing the counter for what follows; reaching the end
    /// of input instead reports "Unterminated string." and emits nothing.
    fn string(&mut self)
        requires
            old(self).wf(),
            old(self).start + 1 == old(self).current,
            old(self).src@[old(self).start as int] == '"',
        ensures
            final(self).wf(),
            final(self).src == old(self).src,
            final(self).src_len == old(self).src_len,
            final(self).start == old(self).start,
            ({
                let src = old(self).src@;
                let close = string_close(src, old(self).current as int);
                let nl = count_newlines(src, old(self).current as int, close);
                &&& final(self).line as nat == old(self).line as nat + nl
                &&& if close < src.len() {
                    &&& final(self).current == close + 1
                    &&& token_views(final(self).tokens@) == token_views(old(self).tokens@).push(
                        SpecToken {
                            token_type: TokenType::String,
                            lexeme: src.subrange(old(self).start as int, close + 1),
                            value: SpecTokenValue::SpecString(
                                src.subrange(old(self).start as int + 1, close),
                            ),
                            line: old(self).line as nat,
                        },
                    )
                    &&& final(self).error_reporter == old(self).error_reporter
                } else {
                    &&& final(self).current == src.len()
                    &&& final(self).tokens == old(self).tokens
                    &&& final(self).error_reporter.had_error
                    &&& final(self).error_reporter.messages_views() == old(
                        self,
                    ).error_reporter.messages_views().push(
                        render_diag(
                            SpecDiag {
                                line: old(self).line as nat + nl,
                                message: unterminated_msg(),
                            },
                        ),
                    )
                }
            }),
    {
        let ghost src = self.src@;
        let ghost c0 = self.current as int;
        let ghost line0 = self.line as nat;
        let ghost pre = *self;
        let line_start = self.line;
        loop
            invariant
                self.wf(),
                self.src == pre.src,
                self.src_len == pre.src_len,
                self.start == pre.start,
                self.tokens == pre.tokens,
                self.error_reporter == pre.error_reporter,
                c0 <= self.current as int <= src.len(),
                line0 <= c0 + 1,
                src == pre.src@,
                string_close(src, c0) == string_close(src, self.current as int),
                self.line as nat == line0 + count_newlines(src, c0, self.current as int),
            ensures
                self.wf(),
                self.src == pre.src,
                self.src_len == pre.src_len,
                self.start == pre.start,
                self.tokens == pre.tokens,
                self.error_reporter == pre.error_reporter,
                self.current as int == string_close(src, c0),
                self.line as nat == line0 + count_newlines(src, c0, string_close(src, c0)),
            decreases src.len() - self.current,
        {
            if self.is_at_end() {
                break;
            }
            let c = self.peek();
            if c == '"' {
                break;
            }
            proof {
                lemma_count_newlines_bound(src, c0, self.current as int);
            }
            self.advance();
            if c == '\n' {
                self.line = self.line + 1;
            }
        }
        if self.is_at_end() {
            proof {
                lemma_count_newlines_bound(src, c0, self.current as int);
            }
            let line = self.line;
            self.error_reporter.error(line, "Unterminated string.");
            return;
        }
        self.advance();
        let value = self.src.as_str().substring_char(self.start + 1, self.current - 1).to_owned();
        self.add_token_at(TokenType::String, TokenValue::String(value), line_start);
    }

    /// Consumes a maximal decimal numeral whose first digit stands at
    /// `start` (already consumed): a digit run, then optionally one `.`
    /// that must be followed by a further digit, then the following digit
    /// run.  A `.` not followed by a digit is left unconsumed.
    fn number(&mut self)
        requires
            old(self).wf(),
            old(self).start + 1 == old(self).current,
            is_digit_char(old(self).src@[old(self).start as int]),
        ensures
            final(self).wf(),
            final(self).src == old(self).src,
            final(self).src_len == old(self).src_len,
            final(self).start == old(self).start,
            final(self).line == old(self).line,
            final(self).error_reporter == old(self).error_reporter,
            ({
                let src = old(self).src@;
                let whole_end = digits_end(src, old(self).current as int);
                let end = if whole_end < src.len() && src[whole_end] == '.' && whole_end + 1
                    < src.len() && is_digit_char(src[whole_end + 1]) {
                    digits_end(src, whole_end + 1)
                } else {
                    whole_end
                };
                &&& final(self).current == end
                &&& token_views(final(self).tokens@) == token_views(old(self).tokens@).push(
                    SpecToken {
                        token_type: TokenType::Number,
                        lexeme: src.subrange(old(self).start as int, end),
                        value: SpecTokenValue::SpecNumber(
                            src.subrange(old(self).start as int, end),
                        ),
                        line: old(self).line as nat,
                    },
                )
            }),
    {
        let ghost src = self.src@;
        let ghost pre = *self;
        let ghost c0 = self.current as int;
        loop
            invariant
                self.wf(),
                self.src == pre.src,
                self.src_len == pre.src_len,
                self.start == pre.start,
                self.tokens == pre.tokens,
                self.error_reporter == pre.error_reporter,
                self.line == pre.line,
                src == pre.src@,
                c0 <= self.current as int <= src.len(),
                digits_end(src, c0) == digits_end(src, self.current as int),
            ensures
                self.wf(),
                self.src == pre.src,
                self.src_len == pre.src_len,
                self.start == pre.start,
                self.tokens == pre.tokens,
                self.error_reporter == pre.error_reporter,
                self.line == pre.line,
                self.current as int == digits_end(src, c0),
            decreases src.len() - self.current,
        {
            let c = self.peek();
            if !is_digit(c) {
                break;
            }
            self.advance();
        }
        if self.peek() == '.' && is_digit(self.peek_next()) {
            self.advance();
            let ghost c1 = self.current as int;
            loop
                invariant
                    self.wf(),
                    self.src == pre.src,
                    self.src_len == pre.src_len,
                    self.start == pre.start,
                    self.tokens == pre.tokens,
                    self.error_reporter == pre.error_reporter,
                    self.line == pre.line,
                    src == pre.src@,
                    c1 <= self.current as int <= src.len(),
                    digits_end(src, c1) == digits_end(src, self.current as int),
                ensures
                    self.wf(),
                    self.src == pre.src,
                    self.src_len == pre.src_len,
                    self.start == pre.start,
                    self.tokens == pre.tokens,
                    self.error_reporter == pre.error_reporter,
                    self.line == pre.line,
                    self.current as int == digits_end(src, c1),
                decreases src.len() - self.current,
            {
                let c = self.peek();
                if !is_digit(c) {
                    break;
                }
                self.advance();
            }
        }
        let text = self.src.as_str().substring_char(self.start, self.current).to_owned();
        self.add_token(TokenType::Number, TokenValue::Number(text));
    }

    /// Consumes a maximal run of alphanumeric or underscore characters
    /// whose first character stands at `start` (already consumed), then
    /// emits the matching keyword category, or `Identifier` if the
    /// spelling is not reserved.
    fn identifier(&mut self)
        requires
            old(self).wf(),
            old(self).start + 1 == old(self).current,
        ensures
            final(self).wf(),
            final(self).src == old(self).src,
            final(self).src_len == old(self).src_len,
            final(self).start == old(self).start,
            final(self).line == old(self).line,
            final(self).error_reporter == old(self).error_reporter,
            ({
                let src = old(self).src@;
                let end = ident_end(src, old(self).current as int);
                let lex = src.subrange(old(self).start as int, end);
                let tt = match keyword_type(lex) {
                    Some(t) => t,
                    None => TokenType::Identifier,
                };
                &&& final(self).current == end
                &&& token_views(final(self).tokens@) == token_views(old(self).tokens@).push(
                    plain_token(tt, lex, old(self).line as nat),
                )
            }),
    {
        let ghost src = self.src@;
        let ghost pre = *self;
        let ghost c0 = self.current as int;
        loop
            invariant
                self.wf(),
                self.src == pre.src,
                self.src_len == pre.src_len,
                self.start == pre.start,
                self.tokens == pre.tokens,
                self.error_reporter == pre.error_reporter,
                self.line == pre.line,
                src == pre.src@,
                c0 <= self.current as int <= src.len(),
                ident_end(src, c0) == ident_end(src, self.current as int),
            ensures
                self.wf(),
                self.src == pre.src,
                self.src_len == pre.src_len,
                self.start == pre.start,
                self.tokens == pre.tokens,
                self.error_reporter == pre.error_reporter,
                self.line == pre.line,
                self.current as int == ident_end(src, c0),
            decreases src.len() - self.current,
        {
            let c = self.peek();
            if !is_ident(c) {
                break;
            }
            self.advance();
        }
        let tt = match keyword_lookup(self.src.as_str().substring_char(self.start, self.current)) {
            Some(t) => t,
            None => TokenType::Identifier,
        };
        self.add_token(tt, TokenValue::Empty);
    }

    /// Classifies the character at the cursor and performs one step of the
    /// scan: consumes one maximal lexeme and produces at most one token
    /// and at most one diagnostic, exactly as `scan_step` describes.
    fn scan_token(&mut self)
        requires
            old(self).wf(),
            old(self).start == old(self).current,
            old(self).current < old(self).src@.len(),
        ensures
            final(self).wf(),
            final(self).src == old(self).src,
            final(self).src_len == old(self).src_len,
            final(self).start == old(self).start,
            ({
                let st = scan_step(old(self).src@, old(self).current as int, old(self).line as nat);
                &&& final(self).current as int == st.next
                &&& final(self).line as nat == st.line
                &&& token_views(final(self).tokens@) == token_views(old(self).tokens@) + opt_seq(
                    st.token,
                )
                &&& final(self).error_reporter.messages_views() == old(
                    self,
                ).error_reporter.messages_views() + rendered(opt_seq(st.diag))
                &&& final(self).error_reporter.had_error == (old(self).error_reporter.had_error
                    || st.diag is Some)
            }),
    {
        let ghost pre = *self;
        let ghost st = scan_step(pre.src@, pre.current as int, pre.line as nat);
        let c = self.advance();
        match c {
            ' ' | '\r' | '\t' => {
                proof {
                    assert(token_views(self.tokens@) =~= token_views(pre.tokens@) + opt_seq(
                        st.token,
                    ));
                    assert(self.error_reporter.messages_views()
                        =~= pre.error_reporter.messages_views() + rendered(opt_seq(st.diag)));
                }
            },
            '\n' => {
                self.line = self.line + 1;
                proof {
                    assert(token_views(self.tokens@) =~= token_views(pre.tokens@) + opt_seq(
                        st.token,
                    ));
                    assert(self.error_reporter.messages_views()
                        =~= pre.error_reporter.messages_views() + rendered(opt_seq(st.diag)));
                }
            },
            '(' => {
                self.add_token(TokenType::LeftParen, TokenValue::Empty);
                proof {
                    assert(token_views(self.tokens@) =~= token_views(pre.tokens@) + opt_seq(
                        st.token,
                    ));
                    assert(self.error_reporter.messages_views()
                        =~= pre.error_reporter.messages_views() + rendered(opt_seq(st.diag)));
                }
            },
            ')' => {
                self.add_token(TokenType::RightParen, TokenValue::Empty);
                proof {
                    assert(token_views(self.tokens@) =~= token_views(pre.tokens@) + opt_seq(
                        st.token,
                    ));
                    assert(self.error_reporter.messages_views()
                        =~= pre.error_reporter.messages_views() + rendered(opt_seq(st.diag)));
                }
            },
            '{' => {
                self.add_token(TokenType::LeftBrace, TokenValue::Empty);
                proof {
                    assert(token_views(self.tokens@) =~= token_views(pre.tokens@) + opt_seq(
                        st.token,
                    ));
                    assert(self.error_reporter.messages_views()
                        =~= pre.error_reporter.messages_views() + rendered(opt_seq(st.diag)));
                }
            },
            '}' => {
                self.add_token(TokenType::RightBrace, TokenValue::Empty);
                proof {
                    assert(token_views(self.tokens@) =~= token_views(pre.tokens@) + opt_seq(
                        st.token,
                    ));
                    assert(self.error_reporter.messages_views()
                        =~= pre.error_reporter.messages_views() + rendered(opt_seq(st.diag)));
                }
            },
            ',' => {
                self.add_token(TokenType::Comma, TokenValue::Empty);
                proof {
                    assert(token_views(self.tokens@) =~= token_views(pre.tokens@) + opt_seq(
                        st.token,
                    ));
                    assert(self.error_reporter.messages_views()
                        =~= pre.error_reporter.messages_views() + rendered(opt_seq(st.diag)));
                }
            },
            '.' => {
                self.add_token(TokenType::Period, TokenValue::Empty);
                proof {
                    assert(token_views(self.tokens@) =~= token_views(pre.tokens@) + opt_seq(
                        st.token,
                    ));
                    assert(self.error_reporter.messages_views()
                        =~= pre.error_reporter.messages_views() + rendered(opt_seq(st.diag)));
                }
            },
            '-' => {
                self.add_token(TokenType::Minus, TokenValue::Empty);
                proof {
                    assert(token_views(self.tokens@) =~= token_views(pre.tokens@) + opt_seq(
                        st.token,
                    ));
                    assert(self.error_reporter.messages_views()
                        =~= pre.error_reporter.messages_views() + rendered(opt_seq(st.diag)));
                }
            },
            '+' => {
                self.add_token(TokenType::Plus, TokenValue::Empty);
                proof {
                    assert(token_views(self.tokens@) =~= token_views(pre.tokens@) + opt_seq(
                        st.token,
                    ));
                    assert(self.error_reporter.messages_views()
                        =~= pre.error_reporter.messages_views() + rendered(opt_seq(st.diag)));
                }
            },
            ';' => {
                self.add_token(TokenType::Semicolon, TokenValue::Empty);
                proof {
                    assert(token_views(self.tokens@) =~= token_views(pre.tokens@) + opt_seq(
                        st.token,
                    ));
                    assert(self.error_reporter.messages_views()
                        =~= pre.error_reporter.messages_views() + rendered(opt_seq(st.diag)));
                }
            },
            '*' => {
                self.add_token(TokenType::Asterisk, TokenValue::Empty);
                proof {
                    assert(token_views(self.tokens@) =~= token_views(pre.tokens@) + opt_seq(
                        st.token,
                    ));
                    assert(self.error_reporter.messages_views()
                        =~= pre.error_reporter.messages_views() + rendered(opt_seq(st.diag)));
                }
            },
            '!' => {
                let tt = if self.char_match('=') {
                    TokenType::BangEqual
                } else {
                    TokenType::Bang
                };
                self.add_token(tt, TokenValue::Empty);
                proof {
                    assert(token_views(self.tokens@) =~= token_views(pre.tokens@) + opt_seq(
                        st.token,
                    ));
                    assert(self.error_reporter.messages_views()
                        =~= pre.error_reporter.messages_views() + rendered(opt_seq(st.diag)));
                }
            },
            '=' => {
                let tt = if self.char_match('=') {
                    TokenType::EqualEqual
                } else {
                    TokenType::Equal
                };
                self.add_token(tt, TokenValue::Empty);
                proof {
                    assert(token_views(self.tokens@) =~= token_views(pre.tokens@) + opt_seq(
                        st.token,
                    ));
                    assert(self.error_reporter.messages_views()
                        =~= pre.error_reporter.messages_views() + rendered(opt_seq(st.diag)));
                }
            },
            '<' => {
                let tt = if self.char_match('=') {
                    TokenType::LessEqual
                } else {
                    TokenType::Less
                };
                self.add_token(tt, TokenValue::Empty);
                proof {
                    assert(token_views(self.tokens@) =~= token_views(pre.tokens@) + opt_seq(
                        st.token,
                    ));
                    assert(self.error_reporter.messages_views()
                        =~= pre.error_reporter.messages_views() + rendered(opt_seq(st.diag)));
                }
            },
            '>' => {
                let tt = if self.char_match('=') {
                    TokenType::GreaterEqual
                } else {
                    TokenType::Greater
                };
                self.add_token(tt, TokenValue::Empty);
                proof {
                    assert(token_views(self.tokens@) =~= token_views(pre.tokens@) + opt_seq(
                        st.token,
                    ));
                    assert(self.error_reporter.messages_views()
                        =~= pre.error_reporter.messages_views() + rendered(opt_seq(st.diag)));
                }
            },
            '/' => {
                if self.char_match('/') {
                    let ghost c2 = self.current as int;
                    loop
                        invariant
                            self.wf(),
                            self.src == pre.src,
                            self.src_len == pre.src_len,
                            self.start == pre.start,
                            self.tokens == pre.tokens,
                            self.error_reporter == pre.error_reporter,
                            self.line == pre.line,
                            c2 <= self.current as int <= pre.src@.len(),
                            comment_end(pre.src@, c2) == comment_end(pre.src@, self.current as int),
                        ensures
                            self.wf(),
                            self.src == pre.src,
                            self.src_len == pre.src_len,
                            self.start == pre.start,
                            self.tokens == pre.tokens,
                            self.error_reporter == pre.error_reporter,
                            self.line == pre.line,
                            self.current as int == comment_end(pre.src@, c2),
                        decreases pre.src@.len() - self.current,
                    {
                        if self.is_at_end() {
                            break;
                        }
                        if self.peek() == '\n' {
                            break;
                        }
                        self.advance();
                    }
                    proof {
                        assert(token_views(self.tokens@) =~= token_views(pre.tokens@) + opt_seq(
                            st.token,
                        ));
                        assert(self.error_reporter.messages_views()
                            =~= pre.error_reporter.messages_views() + rendered(opt_seq(st.diag)));
                    }
                } else {
                    self.add_token(TokenType::Slash, TokenValue::Empty);
                    proof {
                        assert(token_views(self.tokens@) =~= token_views(pre.tokens@) + opt_seq(
                            st.token,
                        ));
                        assert(self.error_reporter.messages_views()
                            =~= pre.error_reporter.messages_views() + rendered(opt_seq(st.diag)));
                    }
                }
            },
            '"' => {
                self.string();
                proof {
                    assert(token_views(self.tokens@) =~= token_views(pre.tokens@) + opt_seq(
                        st.token,
                    ));
                    assert(self.error_reporter.messages_views()
                        =~= pre.error_reporter.messages_views() + rendered(opt_seq(st.diag)));
                }
            },
            _ => {
                if is_digit(c) {
                    self.number();
                    proof {
                        assert(token_views(self.tokens@) =~= token_views(pre.tokens@) + opt_seq(
                            st.token,
                        ));
                        assert(self.error_reporter.messages_views()
                            =~= pre.error_reporter.messages_views() + rendered(opt_seq(st.diag)));
                    }
                } else if is_alpha(c) {
                    self.identifier();
                    proof {
                        assert(token_views(self.tokens@) =~= token_views(pre.tokens@) + opt_seq(
                            st.token,
                        ));
                        assert(self.error_reporter.messages_views()
                            =~= pre.error_reporter.messages_views() + rendered(opt_seq(st.diag)));
                    }
                } else {
                    let mut msg = String::from_str("Unexpected character '");
                    let chstr = self.src.as_str().substring_char(self.start, self.start + 1);
                    msg.append(chstr);
                    msg.append("'.");
                    let line = self.line;
                    self.error_reporter.error(line, msg.as_str());
                    proof {
                        assert(pre.src@.subrange(pre.start as int, pre.start as int + 1)
                            =~= seq![c]);
                        assert(msg@ =~= unexpected_char_msg(c));
                        assert(token_views(self.tokens@) =~= token_views(pre.tokens@) + opt_seq(
                            st.token,
                        ));
                        assert(self.error_reporter.messages_views()
                            =~= pre.error_reporter.messages_views() + rendered(opt_seq(st.diag)));
                    }
                }
            },
        }
    }
}

} // verus!
