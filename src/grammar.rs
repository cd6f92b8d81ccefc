use vstd::prelude::*;
use crate::lexer::{Error, LexResult, Token};

verus! {

pub const TAB: u8 = 9;
pub const NEWLINE: u8 = 10;
pub const FORM_FEED: u8 = 12;
pub const RETURN: u8 = 13;
pub const SPACE: u8 = 32;
pub const DQUOTE: u8 = 34;
pub const SQUOTE: u8 = 39;
pub const STAR: u8 = 42;
pub const SLASH: u8 = 47;
pub const BACKSLASH: u8 = 92;
pub const UNDERSCORE: u8 = 95;

// ---- byte classes ----

/// Bytes that may appear in source text: printable ASCII, tab, newline, carriage return.
pub open spec fn is_ascii_text(c: u8) -> bool {
    (32 <= c <= 126) || c == TAB || c == NEWLINE || c == RETURN
}

pub open spec fn is_space(c: u8) -> bool {
    c == SPACE || c == TAB || c == NEWLINE || c == FORM_FEED || c == RETURN
}

pub open spec fn is_digit(c: u8) -> bool {
    48 <= c <= 57
}

pub open spec fn is_alpha(c: u8) -> bool {
    (65 <= c <= 90) || (97 <= c <= 122)
}

pub open spec fn is_alnum(c: u8) -> bool {
    is_digit(c) || is_alpha(c)
}

pub open spec fn is_hex(c: u8) -> bool {
    is_digit(c) || (65 <= c <= 70) || (97 <= c <= 102)
}

pub open spec fn is_ident_byte(c: u8) -> bool {
    is_alnum(c) || c == UNDERSCORE
}

/// Bytes allowed after a backslash: `n t \\ ' "`.
pub open spec fn is_escape_byte(c: u8) -> bool {
    c == 110 || c == 116 || c == BACKSLASH || c == SQUOTE || c == DQUOTE
}

/// Bytes allowed unescaped in character and string literals.
pub open spec fn is_literal_byte(c: u8) -> bool {
    (32 <= c <= 33) || (35 <= c <= 38) || (40 <= c <= 91) || (93 <= c <= 126)
}

/// The byte an escape sequence `\c` stands for.
pub open spec fn escape_value(c: u8) -> u8 {
    if c == 110 {
        NEWLINE
    } else if c == 116 {
        TAB
    } else {
        c
    }
}

// ---- runs ----

/// The classes of bytes that a matcher consumes in a maximal run.
#[derive(Clone, Copy)]
pub enum ByteClass {
    NonText,
    Space,
    NotNewline,
    Ident,
    Hex,
    Digit,
}

pub open spec fn in_class(k: ByteClass, c: u8) -> bool {
    match k {
        ByteClass::NonText => !is_ascii_text(c),
        ByteClass::Space => is_space(c),
        ByteClass::NotNewline => c != NEWLINE,
        ByteClass::Ident => is_ident_byte(c),
        ByteClass::Hex => is_hex(c),
        ByteClass::Digit => is_digit(c),
    }
}

/// End of the maximal run of bytes of class `k` that starts at `i`.
pub open spec fn run_end(s: Seq<u8>, i: int, k: ByteClass) -> int
    decreases s.len() - i,
{
    if i < 0 || i >= s.len() || !in_class(k, s[i]) {
        i
    } else {
        run_end(s, i + 1, k)
    }
}

/// First `j >= i` at which `*/` starts.
pub open spec fn comment_close(s: Seq<u8>, i: int) -> Option<int>
    decreases s.len() - i,
{
    if i < 0 || i + 1 >= s.len() {
        None
    } else if s[i] == STAR && s[i + 1] == SLASH {
        Some(i)
    } else {
        comment_close(s, i + 1)
    }
}

/// First unescaped `"` at or after `i`; `esc` says whether `s[i]` follows an unescaped backslash.
pub open spec fn closing_quote(s: Seq<u8>, i: int, esc: bool) -> Option<int>
    decreases s.len() - i,
{
    if i < 0 || i >= s.len() {
        None
    } else if esc {
        closing_quote(s, i + 1, false)
    } else if s[i] == BACKSLASH {
        closing_quote(s, i + 1, true)
    } else if s[i] == DQUOTE {
        Some(i)
    } else {
        closing_quote(s, i + 1, false)
    }
}

/// Length of the string literal at the start of `s` (its opening quote included).
pub open spec fn string_len(s: Seq<u8>) -> int {
    match closing_quote(s, 1, false) {
        Some(j) => j + 1,
        None => s.len() as int,
    }
}

/// Whether `f[j]` follows an unescaped backslash, walking from `f[1]`
/// (the byte after the opening quote).
pub open spec fn escaped_at(f: Seq<u8>, j: int) -> bool
    decreases j,
{
    if j <= 1 {
        false
    } else if escaped_at(f, j - 1) {
        false
    } else {
        f[j - 1] == BACKSLASH
    }
}

/// A string literal is terminated when it ends in an unescaped quote after
/// the opening one.
pub open spec fn is_terminated(f: Seq<u8>) -> bool {
    f.len() >= 2 && f[f.len() - 1] == DQUOTE && !escaped_at(f, f.len() - 1)
}

/// Errors inside a string literal's body `f[i..stop]`, each with its offset (one byte long).
pub open spec fn body_errors(f: Seq<u8>, i: int, esc: bool, stop: int) -> Seq<(Error, int)>
    decreases stop - i,
{
    if i < 0 || i >= stop || stop > f.len() {
        seq![]
    } else if esc {
        let rest = body_errors(f, i + 1, false, stop);
        if is_escape_byte(f[i]) {
            rest
        } else {
            seq![(Error::InvalidEscape(f[i]), i)] + rest
        }
    } else if f[i] == BACKSLASH {
        body_errors(f, i + 1, true, stop)
    } else if !is_literal_byte(f[i]) {
        seq![(Error::InvalidChar(f[i]), i)] + body_errors(f, i + 1, false, stop)
    } else {
        body_errors(f, i + 1, false, stop)
    }
}

/// Every problem of the string literal `f`, as (error, offset, length) in `f`:
/// the body's bad bytes in order, then an unterminated literal over all of `f`.
pub open spec fn string_errors(f: Seq<u8>) -> Seq<(Error, int, int)> {
    let stop = if is_terminated(f) { f.len() - 1 } else { f.len() as int };
    let body = body_errors(f, 1, false, stop).map_values(|e: (Error, int)| (e.0, e.1, 1int));
    if is_terminated(f) {
        body
    } else {
        body.push((Error::UnterminatedString, 0int, f.len() as int))
    }
}

// ---- keywords and operators ----

pub open spec fn keyword_text(t: Token) -> Seq<u8> {
    match t {
        Token::Import => seq![105u8, 109, 112, 111, 114, 116],
        Token::If => seq![105u8, 102],
        Token::Else => seq![101u8, 108, 115, 101],
        Token::While => seq![119u8, 104, 105, 108, 101],
        Token::For => seq![102u8, 111, 114],
        Token::Break => seq![98u8, 114, 101, 97, 107],
        Token::Continue => seq![99u8, 111, 110, 116, 105, 110, 117, 101],
        Token::Return => seq![114u8, 101, 116, 117, 114, 110],
        Token::Int => seq![105u8, 110, 116],
        Token::Bool => seq![98u8, 111, 111, 108],
        Token::True => seq![116u8, 114, 117, 101],
        Token::False => seq![102u8, 97, 108, 115, 101],
        Token::Void => seq![118u8, 111, 105, 100],
        Token::Len => seq![108u8, 101, 110],
        _ => seq![],
    }
}

pub open spec fn is_keyword(t: Token) -> bool {
    keyword_text(t).len() > 0
}

/// The token a word of identifier bytes reads as: its keyword, or `Identifier`.
pub open spec fn word_token(w: Seq<u8>) -> Token {
    if w == keyword_text(Token::Import) {
        Token::Import
    } else if w == keyword_text(Token::If) {
        Token::If
    } else if w == keyword_text(Token::Else) {
        Token::Else
    } else if w == keyword_text(Token::While) {
        Token::While
    } else if w == keyword_text(Token::For) {
        Token::For
    } else if w == keyword_text(Token::Break) {
        Token::Break
    } else if w == keyword_text(Token::Continue) {
        Token::Continue
    } else if w == keyword_text(Token::Return) {
        Token::Return
    } else if w == keyword_text(Token::Int) {
        Token::Int
    } else if w == keyword_text(Token::Bool) {
        Token::Bool
    } else if w == keyword_text(Token::True) {
        Token::True
    } else if w == keyword_text(Token::False) {
        Token::False
    } else if w == keyword_text(Token::Void) {
        Token::Void
    } else if w == keyword_text(Token::Len) {
        Token::Len
    } else {
        Token::Identifier
    }
}

pub open spec fn two_byte_op(a: u8, b: u8) -> Option<Token> {
    if b == 61 {
        if a == 60 {
            Some(Token::LessEqual)
        } else if a == 62 {
            Some(Token::GreaterEqual)
        } else if a == 61 {
            Some(Token::EqualEqual)
        } else if a == 33 {
            Some(Token::NotEqual)
        } else if a == 43 {
            Some(Token::AddAssign)
        } else if a == 45 {
            Some(Token::SubAssign)
        } else {
            None
        }
    } else if a == 38 && b == 38 {
        Some(Token::And)
    } else if a == 124 && b == 124 {
        Some(Token::Or)
    } else if a == 45 && b == 45 {
        Some(Token::Decrement)
    } else if a == 43 && b == 43 {
        Some(Token::Increment)
    } else {
        None
    }
}

pub open spec fn one_byte_op(a: u8) -> Option<Token> {
    if a == 43 {
        Some(Token::Plus)
    } else if a == 45 {
        Some(Token::Minus)
    } else if a == 42 {
        Some(Token::Star)
    } else if a == 47 {
        Some(Token::Slash)
    } else if a == 37 {
        Some(Token::Percent)
    } else if a == 33 {
        Some(Token::Not)
    } else if a == 59 {
        Some(Token::Semicolon)
    } else if a == 60 {
        Some(Token::Less)
    } else if a == 62 {
        Some(Token::Greater)
    } else if a == 61 {
        Some(Token::Assign)
    } else if a == 123 {
        Some(Token::CurlyLeft)
    } else if a == 125 {
        Some(Token::CurlyRight)
    } else if a == 91 {
        Some(Token::SquareLeft)
    } else if a == 93 {
        Some(Token::SquareRight)
    } else if a == 44 {
        Some(Token::Comma)
    } else if a == 40 {
        Some(Token::LeftParen)
    } else if a == 41 {
        Some(Token::RightParen)
    } else if a == 63 {
        Some(Token::Question)
    } else if a == 58 {
        Some(Token::Colon)
    } else {
        None
    }
}

// ---- rules: what each matcher reads at the start of `s`, and how many bytes ----

pub type Step = Option<(LexResult, int)>;

pub open spec fn non_ascii_rule(s: Seq<u8>) -> Step {
    if s.len() > 0 && !is_ascii_text(s[0]) {
        Some((Err(Error::NonAsciiChars), run_end(s, 0, ByteClass::NonText)))
    } else {
        None
    }
}

pub open spec fn space_rule(s: Seq<u8>) -> Step {
    if s.len() > 0 && is_space(s[0]) {
        Some((Ok(Token::Space), run_end(s, 0, ByteClass::Space)))
    } else {
        None
    }
}

pub open spec fn line_comment_rule(s: Seq<u8>) -> Step {
    if s.len() >= 2 && s[0] == SLASH && s[1] == SLASH {
        Some((Ok(Token::LineComment), run_end(s, 0, ByteClass::NotNewline)))
    } else {
        None
    }
}

pub open spec fn block_comment_rule(s: Seq<u8>) -> Step {
    if s.len() >= 2 && s[0] == SLASH && s[1] == STAR {
        match comment_close(s, 2) {
            Some(j) => Some((Ok(Token::BlockComment), j + 2)),
            None => Some((Err(Error::UnterminatedComment), s.len() as int)),
        }
    } else {
        None
    }
}

pub open spec fn identifier_rule(s: Seq<u8>) -> Step {
    if s.len() > 0 && (is_alpha(s[0]) || s[0] == UNDERSCORE) {
        let n = run_end(s, 0, ByteClass::Ident);
        Some((Ok(word_token(s.subrange(0, n))), n))
    } else {
        None
    }
}

pub open spec fn int_rule(s: Seq<u8>) -> Step {
    if s.len() > 0 && is_digit(s[0]) {
        if s.len() >= 2 && s[0] == 48 && s[1] == 120 {
            let n = run_end(s, 2, ByteClass::Hex);
            if n == 2 {
                Some((Err(Error::EmptyHexLiteral), 2))
            } else {
                Some((Ok(Token::HexLiteral), n))
            }
        } else {
            Some((Ok(Token::DecimalLiteral), run_end(s, 0, ByteClass::Digit)))
        }
    } else {
        None
    }
}

pub open spec fn char_rule(s: Seq<u8>) -> Step {
    if s.len() == 0 || s[0] != SQUOTE {
        None
    } else if s.len() < 3 {
        Some((Err(Error::UnterminatedChar), s.len() as int))
    } else if s[1] == BACKSLASH {
        if s.len() < 4 {
            Some((Err(Error::UnterminatedChar), s.len() as int))
        } else if s[3] != SQUOTE {
            Some((Err(Error::UnterminatedChar), 4))
        } else if is_escape_byte(s[2]) {
            Some((Ok(Token::CharLiteral(escape_value(s[2]))), 4))
        } else {
            Some((Err(Error::InvalidEscape(s[2])), 4))
        }
    } else if s[1] == SQUOTE {
        Some((Err(Error::EmptyChar), 2))
    } else if s[2] != SQUOTE {
        Some((Err(Error::UnterminatedChar), 2))
    } else if is_literal_byte(s[1]) {
        Some((Ok(Token::CharLiteral(s[1])), 3))
    } else {
        Some((Err(Error::InvalidChar(s[1])), 3))
    }
}

pub open spec fn string_rule(s: Seq<u8>) -> Step {
    if s.len() > 0 && s[0] == DQUOTE {
        let n = string_len(s);
        if string_errors(s.subrange(0, n)).len() > 0 {
            Some((Err(Error::StringLiteral), n))
        } else {
            Some((Ok(Token::StringLiteral), n))
        }
    } else {
        None
    }
}

pub open spec fn symbol_rule(s: Seq<u8>) -> Step {
    if s.len() == 0 {
        None
    } else if s.len() >= 2 && two_byte_op(s[0], s[1]) is Some {
        Some((Ok(two_byte_op(s[0], s[1])->0), 2))
    } else if one_byte_op(s[0]) is Some {
        Some((Ok(one_byte_op(s[0])->0), 1))
    } else if !is_alnum(s[0]) {
        Some((Err(Error::UnexpectedChar(s[0])), 1))
    } else {
        None
    }
}

/// The first rule that applies, in priority order.
pub open spec fn lex_step(s: Seq<u8>) -> Step {
    if non_ascii_rule(s) is Some {
        non_ascii_rule(s)
    } else if space_rule(s) is Some {
        space_rule(s)
    } else if line_comment_rule(s) is Some {
        line_comment_rule(s)
    } else if block_comment_rule(s) is Some {
        block_comment_rule(s)
    } else if identifier_rule(s) is Some {
        identifier_rule(s)
    } else if int_rule(s) is Some {
        int_rule(s)
    } else if char_rule(s) is Some {
        char_rule(s)
    } else if string_rule(s) is Some {
        string_rule(s)
    } else {
        symbol_rule(s)
    }
}

// ---- the token stream ----

/// An item of the stream: what was read, and the buffer offsets `start..end` it was read from.
pub type Item = (LexResult, int, int);

/// Whitespace and comments: read, then dropped from the stream.
pub open spec fn is_trivia(v: LexResult) -> bool {
    v == Ok::<Token, Error>(Token::Space) || v == Ok::<Token, Error>(Token::LineComment) || v
        == Ok::<Token, Error>(Token::BlockComment)
}

/// The dispatcher's answer at offset `pos` of the text `b[..end]`.
pub open spec fn step_at(b: Seq<u8>, pos: int, end: int) -> Step {
    lex_step(b.subrange(pos, end))
}

/// Every item the dispatcher reads from `b[pos..end]`, trivia included, in order.
pub open spec fn dispatched(b: Seq<u8>, pos: int, end: int) -> Seq<Item>
    decreases end - pos,
{
    if pos < 0 || pos >= end || end > b.len() {
        seq![]
    } else {
        match step_at(b, pos, end) {
            Some((v, n)) => if 0 < n <= end - pos {
                seq![(v, pos, pos + n)] + dispatched(b, pos + n, end)
            } else {
                seq![]
            },
            None => seq![],
        }
    }
}

/// Whether an item reaches the stream's consumers.
pub open spec fn surfaces(it: Item) -> bool {
    !is_trivia(it.0)
}

/// What the stream over `b[pos..end]` yields: the dispatched items without
/// trivia, then one end-of-file item with an empty fragment at `end`.
pub open spec fn stream(b: Seq<u8>, pos: int, end: int) -> Seq<Item> {
    dispatched(b, pos, end).filter(|it: Item| surfaces(it)).push((Ok(Token::Eof), end, end))
}

// ---- progress ----

pub proof fn lemma_run_end(s: Seq<u8>, i: int, k: ByteClass)
    requires
        0 <= i <= s.len(),
    ensures
        i <= run_end(s, i, k) <= s.len(),
    decreases s.len() - i,
{
    if i < s.len() && in_class(k, s[i]) {
        lemma_run_end(s, i + 1, k);
    }
}

pub proof fn lemma_comment_close(s: Seq<u8>, i: int)
    requires
        0 <= i,
    ensures
        comment_close(s, i) matches Some(j) ==> i <= j && j + 1 < s.len(),
    decreases s.len() - i,
{
    if i + 1 < s.len() && !(s[i] == STAR && s[i + 1] == SLASH) {
        lemma_comment_close(s, i + 1);
    }
}

pub proof fn lemma_closing_quote(s: Seq<u8>, i: int, esc: bool)
    requires
        0 <= i,
    ensures
        closing_quote(s, i, esc) matches Some(j) ==> i <= j < s.len(),
    decreases s.len() - i,
{
    if i < s.len() {
        lemma_closing_quote(s, i + 1, true);
        lemma_closing_quote(s, i + 1, false);
    }
}

/// On any nonempty text some rule applies, and it consumes at least one byte
/// and no more than there are.
pub proof fn lemma_step_progress(s: Seq<u8>)
    requires
        s.len() > 0,
    ensures
        lex_step(s) matches Some((_, n)) && 0 < n <= s.len(),
{
    lemma_run_end(s, 1, ByteClass::NonText);
    lemma_run_end(s, 1, ByteClass::Space);
    lemma_run_end(s, 1, ByteClass::NotNewline);
    lemma_run_end(s, 1, ByteClass::Ident);
    lemma_run_end(s, 1, ByteClass::Digit);
    if s.len() >= 2 {
        lemma_run_end(s, 2, ByteClass::Hex);
    }
    lemma_comment_close(s, 2);
    lemma_closing_quote(s, 1, false);
}

/// One step of the dispatcher from `pos`: the first item, then the rest.
pub proof fn lemma_dispatched_step(b: Seq<u8>, pos: int, end: int)
    requires
        0 <= pos < end <= b.len(),
    ensures
        step_at(b, pos, end) matches Some((v, n)) && 0 < n <= end - pos && dispatched(b, pos, end)
            == seq![(v, pos, pos + n)] + dispatched(b, pos + n, end),
{
    lemma_step_progress(b.subrange(pos, end));
}

/// The problems found inside a string literal's body are bad escapes and bad bytes.
pub proof fn lemma_body_error_kinds(f: Seq<u8>, i: int, esc: bool, stop: int)
    ensures
        forall|k: int|
            0 <= k < body_errors(f, i, esc, stop).len() ==> (#[trigger] body_errors(f, i, esc, stop)[k]).0 is InvalidEscape
                || body_errors(f, i, esc, stop)[k].0 is InvalidChar,
    decreases stop - i,
{
    if !(i < 0 || i >= stop || stop > f.len()) {
        lemma_body_error_kinds(f, i + 1, false, stop);
        lemma_body_error_kinds(f, i + 1, true, stop);
    }
}

/// No problem of a string literal is itself the aggregate string-literal error.
pub proof fn lemma_string_error_kinds(f: Seq<u8>)
    ensures
        forall|k: int| 0 <= k < string_errors(f).len() ==> !((#[trigger] string_errors(f)[k]).0 is StringLiteral),
{
    let stop = if is_terminated(f) { f.len() - 1 } else { f.len() as int };
    lemma_body_error_kinds(f, 1, false, stop);
}

/// The dispatcher never reads an end-of-file item.
pub proof fn lemma_step_not_eof(s: Seq<u8>)
    ensures
        lex_step(s) matches Some((v, _)) ==> v != Ok::<Token, Error>(Token::Eof),
{
}

} // verus!
