use vstd::prelude::*;
use crate::grammar::{
    block_comment_rule, char_rule, closing_quote, comment_close, dispatched, escape_value,
    identifier_rule, in_class, int_rule, is_alnum, is_ascii_text, is_escape_byte,
    is_literal_byte, is_terminated, lemma_dispatched_step, lemma_step_not_eof, lemma_step_progress,
    lemma_string_error_kinds, lex_step, line_comment_rule, non_ascii_rule, body_errors, run_end,
    space_rule, stream, string_errors, string_rule, surfaces, symbol_rule, word_token,
    escaped_at, ByteClass, Item, Step, BACKSLASH, DQUOTE, FORM_FEED, NEWLINE, RETURN, SLASH, SPACE, SQUOTE,
    STAR, TAB, UNDERSCORE,
};
use crate::laws::{fragments, lemma_byte_conservation};
use crate::log::{diagnostic_text, format_error, lossy_text, message, message_text, utf8_lossy};
use crate::span::{line_col, Span, Spanned};

verus! {

/// Lexical error kinds.
#[derive(Debug, PartialEq, Eq, Structural, Clone, Copy)]
pub enum Error {
    EmptyHexLiteral,
    InvalidChar(u8),
    InvalidEscape(u8),
    UnexpectedChar(u8),
    EmptyChar,
    NonAsciiChars,
    StringLiteral,
    UnterminatedString,
    UnterminatedComment,
    UnterminatedChar,
}

/// Token categories.
#[derive(Debug, PartialEq, Eq, Structural, Clone, Copy)]
pub enum Token {
    // keywords
    Import,
    If,
    Else,
    While,
    For,
    Break,
    Continue,
    Return,
    Int,
    Bool,
    True,
    False,
    Void,
    Len,
    // operators
    Plus,
    Minus,
    Star,
    Slash,
    Percent,
    Less,
    LessEqual,
    Greater,
    GreaterEqual,
    EqualEqual,
    NotEqual,
    And,
    Or,
    Not,
    Question,
    Colon,
    Assign,
    AddAssign,
    SubAssign,
    Increment,
    Decrement,
    // delimiters
    Semicolon,
    Comma,
    LeftParen,
    RightParen,
    SquareLeft,
    SquareRight,
    CurlyLeft,
    CurlyRight,
    // literals
    Identifier,
    DecimalLiteral,
    HexLiteral,
    StringLiteral,
    CharLiteral(u8),
    // trivia
    Space,
    LineComment,
    BlockComment,
    // end of file
    Eof,
}

/// What one step of the lexer yields.
pub type LexResult = core::result::Result<Token, Error>;

/// One matcher's answer: the classified fragment and the rest of the span.
pub type Matched<'a> = Option<(Spanned<'a, LexResult>, Span<'a>)>;

/// `r` is what `step` says of `span`: nothing, or the first `n` bytes
/// classified as `v` followed by the remainder.
pub open spec fn yields<'a>(span: Span<'a>, r: Matched<'a>, step: Step) -> bool {
    match step {
        None => r is None,
        Some((v, n)) => match r {
            None => false,
            Some((t, rem)) => {
                &&& t.value == v
                &&& t.span.wf() && rem.wf()
                &&& t.span.buffer() == span.buffer()
                &&& rem.buffer() == span.buffer()
                &&& t.span.lo() == span.lo()
                &&& t.span.hi() == span.lo() + n
                &&& rem.lo() == span.lo() + n
                &&& rem.hi() == span.hi()
            },
        },
    }
}

fn in_class_exec(k: ByteClass, c: u8) -> (r: bool)
    ensures
        r == in_class(k, c),
{
    match k {
        ByteClass::NonText => !is_ascii(&c),
        ByteClass::Space => c == SPACE || c == TAB || c == NEWLINE || c == FORM_FEED || c == RETURN,
        ByteClass::NotNewline => c != NEWLINE,
        ByteClass::Ident => is_alnum_exec(c) || c == UNDERSCORE,
        ByteClass::Hex => (48 <= c && c <= 57) || (65 <= c && c <= 70) || (97 <= c && c <= 102),
        ByteClass::Digit => 48 <= c && c <= 57,
    }
}

fn is_alnum_exec(c: u8) -> (r: bool)
    ensures
        r == is_alnum(c),
{
    (48 <= c && c <= 57) || (65 <= c && c <= 90) || (97 <= c && c <= 122)
}

/// End of the maximal run of class `k` in `span` from offset `i`.
fn run_end_exec(span: &Span, i: usize, k: ByteClass) -> (r: usize)
    requires
        span.wf(),
        i <= span@.len(),
    ensures
        r as int == run_end(span@, i as int, k),
        i <= r <= span@.len(),
{
    let mut j = i;
    while j < span.len() && in_class_exec(k, span.at(j))
        invariant
            span.wf(),
            i <= j <= span@.len(),
            run_end(span@, i as int, k) == run_end(span@, j as int, k),
        decreases span@.len() - j,
    {
        j = j + 1;
    }
    j
}

/// Classifies the first `n` bytes of `span` as `v`.
fn emit<'a>(span: Span<'a>, n: usize, v: LexResult) -> (r: Matched<'a>)
    requires
        span.wf(),
        n <= span@.len(),
    ensures
        yields(span, r, Some((v, n as int))),
{
    let (lit, rem) = span.split_at(n);
    Some((lit.into_spanned(v), rem))
}

/// Printable ASCII, tab, newline and carriage return.
pub fn is_ascii(c: &u8) -> (r: bool)
    ensures
        r == is_ascii_text(*c),
{
    let c = *c;
    (32 <= c && c <= 126) || c == TAB || c == NEWLINE || c == RETURN
}

/// Whether `c` may follow a backslash.
pub fn is_escaped_char(c: u8) -> (r: bool)
    ensures
        r == is_escape_byte(c),
{
    c == 110 || c == 116 || c == BACKSLASH || c == SQUOTE || c == DQUOTE
}

/// Whether `c` may stand unescaped in a character or string literal.
pub fn is_dcf_char(c: u8) -> (r: bool)
    ensures
        r == is_literal_byte(c),
{
    (32 <= c && c <= 33) || (35 <= c && c <= 38) || (40 <= c && c <= 91) || (93 <= c && c <= 126)
}

/// A run of bytes that may not appear in source text.
pub fn non_ascii_graphic_chars<'a>(span: Span<'a>) -> (r: Matched<'a>)
    requires
        span.wf(),
        span@.len() > 0,
    ensures
        yields(span, r, non_ascii_rule(span@)),
{
    if is_ascii(&span.at(0)) {
        None
    } else {
        let n = run_end_exec(&span, 0, ByteClass::NonText);
        emit(span, n, Err(Error::NonAsciiChars))
    }
}

/// A run of ASCII whitespace.
pub fn skip_spaces<'a>(span: Span<'a>) -> (r: Matched<'a>)
    requires
        span.wf(),
        span@.len() > 0,
    ensures
        yields(span, r, space_rule(span@)),
{
    if !in_class_exec(ByteClass::Space, span.at(0)) {
        None
    } else {
        let n = run_end_exec(&span, 0, ByteClass::Space);
        emit(span, n, Ok(Token::Space))
    }
}

/// `//` up to the end of the line, the newline excluded.
pub fn skip_line_comment<'a>(span: Span<'a>) -> (r: Matched<'a>)
    requires
        span.wf(),
        span@.len() > 0,
    ensures
        yields(span, r, line_comment_rule(span@)),
{
    if span.len() >= 2 && span.at(0) == SLASH && span.at(1) == SLASH {
        let n = run_end_exec(&span, 0, ByteClass::NotNewline);
        emit(span, n, Ok(Token::LineComment))
    } else {
        None
    }
}

/// `/*` up to the first `*/`, or to the end of input when there is none.
pub fn skip_block_comment<'a>(span: Span<'a>) -> (r: Matched<'a>)
    requires
        span.wf(),
        span@.len() > 0,
    ensures
        yields(span, r, block_comment_rule(span@)),
{
    if span.len() >= 2 && span.at(0) == SLASH && span.at(1) == STAR {
        let len = span.len();
        let mut j: usize = 2;
        while j + 1 < len
            invariant
                span.wf(),
                len == span@.len(),
                span@[0] == SLASH && span@[1] == STAR,
                2 <= j <= len,
                comment_close(span@, 2) == comment_close(span@, j as int),
            decreases len - j,
        {
            if span.at(j) == STAR && span.at(j + 1) == SLASH {
                assert(comment_close(span@, j as int) == Some(j as int));
                return emit(span, j + 2, Ok(Token::BlockComment));
            }
            j = j + 1;
        }
        emit(span, len, Err(Error::UnterminatedComment))
    } else {
        None
    }
}

/// Whether `span` holds exactly the bytes `w`.
fn same_bytes(span: &Span, w: &[u8]) -> (r: bool)
    requires
        span.wf(),
    ensures
        r == (span@ == w@),
{
    if span.len() != w.len() {
        return false;
    }
    let r = span.starts_with(w);
    assert(span@.subrange(0, w@.len() as int) =~= span@);
    r
}

/// The keyword that `w` spells, or `Identifier`.
fn keyword(w: &Span) -> (r: Token)
    requires
        w.wf(),
    ensures
        r == word_token(w@),
{
    if same_bytes(w, &[105u8, 109, 112, 111, 114, 116]) {
        Token::Import
    } else if same_bytes(w, &[105u8, 102]) {
        Token::If
    } else if same_bytes(w, &[101u8, 108, 115, 101]) {
        Token::Else
    } else if same_bytes(w, &[119u8, 104, 105, 108, 101]) {
        Token::While
    } else if same_bytes(w, &[102u8, 111, 114]) {
        Token::For
    } else if same_bytes(w, &[98u8, 114, 101, 97, 107]) {
        Token::Break
    } else if same_bytes(w, &[99u8, 111, 110, 116, 105, 110, 117, 101]) {
        Token::Continue
    } else if same_bytes(w, &[114u8, 101, 116, 117, 114, 110]) {
        Token::Return
    } else if same_bytes(w, &[105u8, 110, 116]) {
        Token::Int
    } else if same_bytes(w, &[98u8, 111, 111, 108]) {
        Token::Bool
    } else if same_bytes(w, &[116u8, 114, 117, 101]) {
        Token::True
    } else if same_bytes(w, &[102u8, 97, 108, 115, 101]) {
        Token::False
    } else if same_bytes(w, &[118u8, 111, 105, 100]) {
        Token::Void
    } else if same_bytes(w, &[108u8, 101, 110]) {
        Token::Len
    } else {
        Token::Identifier
    }
}

/// An identifier or keyword: a letter or `_`, then letters, digits and `_`.
pub fn identifier<'a>(span: Span<'a>) -> (r: Matched<'a>)
    requires
        span.wf(),
        span@.len() > 0,
    ensures
        yields(span, r, identifier_rule(span@)),
{
    let c = span.at(0);
    if !((65 <= c && c <= 90) || (97 <= c && c <= 122) || c == UNDERSCORE) {
        None
    } else {
        let n = run_end_exec(&span, 0, ByteClass::Ident);
        let (word, rem) = span.split_at(n);
        assert(word@ =~= span@.subrange(0, n as int));
        let t = keyword(&word);
        Some((word.into_spanned(Ok(t)), rem))
    }
}

/// A decimal literal, or a hexadecimal one after `0x`.
pub fn int_literal<'a>(span: Span<'a>) -> (r: Matched<'a>)
    requires
        span.wf(),
        span@.len() > 0,
    ensures
        yields(span, r, int_rule(span@)),
{
    let c = span.at(0);
    if !(48 <= c && c <= 57) {
        None
    } else if span.len() >= 2 && c == 48 && span.at(1) == 120 {
        let n = run_end_exec(&span, 2, ByteClass::Hex);
        if n == 2 {
            emit(span, 2, Err(Error::EmptyHexLiteral))
        } else {
            emit(span, n, Ok(Token::HexLiteral))
        }
    } else {
        let n = run_end_exec(&span, 0, ByteClass::Digit);
        emit(span, n, Ok(Token::DecimalLiteral))
    }
}

/// The four-byte literal `'\c'`: an escape, or an error.
pub fn escaped_char<'a>(span: Span<'a>) -> (r: Spanned<'a, LexResult>)
    requires
        span.wf(),
        span@.len() == 4,
        span@[0] == SQUOTE,
        span@[1] == BACKSLASH,
    ensures
        r.span == span,
        r.value == (if span@[3] != SQUOTE {
            Err(Error::UnterminatedChar)
        } else if is_escape_byte(span@[2]) {
            Ok(Token::CharLiteral(escape_value(span@[2])))
        } else {
            Err(Error::InvalidEscape(span@[2]))
        }),
{
    if span.at(3) != SQUOTE {
        span.into_spanned(Err(Error::UnterminatedChar))
    } else {
        let c = span.at(2);
        if c == 110 {
            span.into_spanned(Ok(Token::CharLiteral(NEWLINE)))
        } else if c == 116 {
            span.into_spanned(Ok(Token::CharLiteral(TAB)))
        } else if c == BACKSLASH || c == SQUOTE || c == DQUOTE {
            span.into_spanned(Ok(Token::CharLiteral(c)))
        } else {
            span.into_spanned(Err(Error::InvalidEscape(c)))
        }
    }
}

/// The three-byte literal `'c'`.
pub fn dcf_char<'a>(span: Span<'a>) -> (r: Spanned<'a, LexResult>)
    requires
        span.wf(),
        span@.len() == 3,
    ensures
        r.span == span,
        r.value == (if is_literal_byte(span@[1]) {
            Ok(Token::CharLiteral(span@[1]))
        } else {
            Err(Error::InvalidChar(span@[1]))
        }),
{
    let c = span.at(1);
    if is_dcf_char(c) {
        span.into_spanned(Ok(Token::CharLiteral(c)))
    } else {
        span.into_spanned(Err(Error::InvalidChar(c)))
    }
}

/// A character literal, well formed or not.
pub fn char_literal<'a>(span: Span<'a>) -> (r: Matched<'a>)
    requires
        span.wf(),
        span@.len() > 0,
    ensures
        yields(span, r, char_rule(span@)),
{
    let len = span.len();
    if span.at(0) != SQUOTE {
        None
    } else if len < 3 {
        emit(span, len, Err(Error::UnterminatedChar))
    } else if span.at(1) == BACKSLASH {
        if len < 4 {
            emit(span, len, Err(Error::UnterminatedChar))
        } else {
            let (lit, rem) = span.split_at(4);
            assert(lit@ =~= span@.subrange(0, 4));
            Some((escaped_char(lit), rem))
        }
    } else if span.at(1) == SQUOTE {
        emit(span, 2, Err(Error::EmptyChar))
    } else if span.at(2) != SQUOTE {
        emit(span, 2, Err(Error::UnterminatedChar))
    } else {
        let (lit, rem) = span.split_at(3);
        assert(lit@ =~= span@.subrange(0, 3));
        Some((dcf_char(lit), rem))
    }
}

/// Offset of the first unescaped `"` in `span` from offset `i` on.
fn closing_quote_exec(span: &Span, i: usize) -> (r: Option<usize>)
    requires
        span.wf(),
        i <= span@.len(),
    ensures
        match closing_quote(span@, i as int, false) {
            Some(j) => r == Some(j as usize) && i <= j < span@.len(),
            None => r is None,
        },
{
    let len = span.len();
    let mut j = i;
    let mut esc = false;
    while j < len
        invariant
            span.wf(),
            len == span@.len(),
            i <= j <= len,
            closing_quote(span@, i as int, false) == closing_quote(span@, j as int, esc),
        decreases len - j,
    {
        let c = span.at(j);
        if esc {
            esc = false;
        } else if c == BACKSLASH {
            esc = true;
        } else if c == DQUOTE {
            return Some(j);
        }
        j = j + 1;
    }
    None
}

/// `e` is the problem `d` (error, offset, length) of the literal in `span`.
pub open spec fn reports<'a>(span: Span<'a>, e: Spanned<'a, Error>, d: (Error, int, int)) -> bool {
    &&& e.value == d.0
    &&& e.span.wf()
    &&& e.span.buffer() == span.buffer()
    &&& e.span.lo() == span.lo() + d.1
    &&& e.span.hi() == span.lo() + d.1 + d.2
}

/// Every problem of the string literal in `span`, in order: bad escapes and
/// bad bytes, each over its one byte, then a missing closing quote over the
/// whole literal.
pub fn get_string_errors<'a>(span: Span<'a>) -> (r: Vec<Spanned<'a, Error>>)
    requires
        span.wf(),
    ensures
        r@.len() == string_errors(span@).len(),
        forall|k: int| 0 <= k < r@.len() ==> reports(span, #[trigger] r@[k], string_errors(span@)[k]),
{
    let len = span.len();
    let mut terminated = false;
    if len >= 2 {
        // the escape state just before the last byte
        let mut esc = false;
        let mut i: usize = 1;
        while i + 1 < len
            invariant
                span.wf(),
                len == span@.len(),
                1 <= i <= len - 1,
                esc == escaped_at(span@, i as int),
            decreases len - i,
        {
            esc = if esc {
                false
            } else {
                span.at(i) == BACKSLASH
            };
            i = i + 1;
        }
        terminated = span.at(len - 1) == DQUOTE && !esc;
    }
    assert(terminated == is_terminated(span@));
    let stop = if terminated { len - 1 } else { len };
    let mut out: Vec<Spanned<'a, Error>> = Vec::new();
    let ghost mut acc: Seq<(Error, int)> = seq![];
    let mut i: usize = 1;
    let mut esc = false;
    while i < stop
        invariant
            span.wf(),
            len == span@.len(),
            stop <= len,
            1 <= i,
            body_errors(span@, 1, false, stop as int) == acc + body_errors(span@, i as int, esc, stop as int),
            out@.len() == acc.len(),
            forall|k: int| 0 <= k < acc.len() ==> reports(span, #[trigger] out@[k], (acc[k].0, acc[k].1, 1int)),
        decreases stop - i,
    {
        let c = span.at(i);
        let ghost rest = body_errors(span@, i + 1, false, stop as int);
        if esc {
            esc = false;
            if !is_escaped_char(c) {
                let ghost x = (Error::InvalidEscape(c), i as int);
                assert(acc + (seq![x] + rest) =~= acc.push(x) + rest);
                out.push(span.slice(i, i + 1).into_spanned(Error::InvalidEscape(c)));
                proof { acc = acc.push(x); }
            }
        } else if c == BACKSLASH {
            esc = true;
        } else if !is_dcf_char(c) {
            let ghost x = (Error::InvalidChar(c), i as int);
            assert(acc + (seq![x] + rest) =~= acc.push(x) + rest);
            out.push(span.slice(i, i + 1).into_spanned(Error::InvalidChar(c)));
            proof { acc = acc.push(x); }
        }
        i = i + 1;
    }
    assert(acc =~= acc + body_errors(span@, i as int, esc, stop as int));
    if !terminated {
        out.push(span.into_spanned(Error::UnterminatedString));
    }
    out
}

/// A string literal up to its first unescaped closing quote, or to the end
/// of input; an error when anything in it is wrong.
pub fn string_literal<'a>(span: Span<'a>) -> (r: Matched<'a>)
    requires
        span.wf(),
        span@.len() > 0,
    ensures
        yields(span, r, string_rule(span@)),
{
    if span.at(0) != DQUOTE {
        None
    } else {
        let n = match closing_quote_exec(&span, 1) {
            Some(j) => j + 1,
            None => span.len(),
        };
        let (lit, rem) = span.split_at(n);
        assert(lit@ =~= span@.subrange(0, n as int));
        let errs = get_string_errors(lit);
        if errs.len() > 0 {
            Some((lit.into_spanned(Err(Error::StringLiteral)), rem))
        } else {
            Some((lit.into_spanned(Ok(Token::StringLiteral)), rem))
        }
    }
}

/// A fixed operator or delimiter, two bytes before one; any other byte that
/// is not a letter or digit is an unexpected character.
pub fn symbol<'a>(span: Span<'a>) -> (r: Matched<'a>)
    requires
        span.wf(),
        span@.len() > 0,
    ensures
        yields(span, r, symbol_rule(span@)),
{
    let a = span.at(0);
    if span.len() >= 2 {
        let b = span.at(1);
        let two = if b == 61 {
            if a == 60 {
                Some(Token::LessEqual)
            } else if a == 62 {
                Some(Token::GreaterEqual)
            } else if a == 61 {
                Some(Token::EqualEqual)
            } else if a == 33 {
                Some(Token::NotEqual)
            } else if a == 43 {
                Some(Token::AddAssign)
            } else if a == 45 {
                Some(Token::SubAssign)
            } else {
                None
            }
        } else if a == 38 && b == 38 {
            Some(Token::And)
        } else if a == 124 && b == 124 {
            Some(Token::Or)
        } else if a == 45 && b == 45 {
            Some(Token::Decrement)
        } else if a == 43 && b == 43 {
            Some(Token::Increment)
        } else {
            None
        };
        if let Some(t) = two {
            return emit(span, 2, Ok(t));
        }
    }
    let one = if a == 43 {
        Some(Token::Plus)
    } else if a == 45 {
        Some(Token::Minus)
    } else if a == 42 {
        Some(Token::Star)
    } else if a == 47 {
        Some(Token::Slash)
    } else if a == 37 {
        Some(Token::Percent)
    } else if a == 33 {
        Some(Token::Not)
    } else if a == 59 {
        Some(Token::Semicolon)
    } else if a == 60 {
        Some(Token::Less)
    } else if a == 62 {
        Some(Token::Greater)
    } else if a == 61 {
        Some(Token::Assign)
    } else if a == 123 {
        Some(Token::CurlyLeft)
    } else if a == 125 {
        Some(Token::CurlyRight)
    } else if a == 91 {
        Some(Token::SquareLeft)
    } else if a == 93 {
        Some(Token::SquareRight)
    } else if a == 44 {
        Some(Token::Comma)
    } else if a == 40 {
        Some(Token::LeftParen)
    } else if a == 41 {
        Some(Token::RightParen)
    } else if a == 63 {
        Some(Token::Question)
    } else if a == 58 {
        Some(Token::Colon)
    } else {
        None
    };
    match one {
        Some(t) => emit(span, 1, Ok(t)),
        None => {
            if !is_alnum_exec(a) {
                emit(span, 1, Err(Error::UnexpectedChar(a)))
            } else {
                None
            }
        },
    }
}

/// The first matcher that applies to `span`, in priority order; nothing
/// only when the span is empty.
pub fn token<'a>(span: Span<'a>) -> (r: Matched<'a>)
    requires
        span.wf(),
    ensures
        span@.len() == 0 ==> r is None,
        span@.len() > 0 ==> yields(span, r, lex_step(span@)) && r is Some,
{
    if span.is_empty() {
        return None;
    }
    proof {
        lemma_step_progress(span@);
    }
    // the non-ASCII run comes first: whitespace would take some of its bytes
    let r = non_ascii_graphic_chars(span);
    if r.is_some() {
        return r;
    }
    let r = skip_spaces(span);
    if r.is_some() {
        return r;
    }
    let r = skip_line_comment(span);
    if r.is_some() {
        return r;
    }
    let r = skip_block_comment(span);
    if r.is_some() {
        return r;
    }
    let r = identifier(span);
    if r.is_some() {
        return r;
    }
    let r = int_literal(span);
    if r.is_some() {
        return r;
    }
    let r = char_literal(span);
    if r.is_some() {
        return r;
    }
    let r = string_literal(span);
    if r.is_some() {
        return r;
    }
    symbol(span)
}

/// `t` is the stream item `it` of the buffer `b`.
pub open spec fn is_item<'a>(t: Spanned<'a, LexResult>, b: Seq<u8>, it: Item) -> bool {
    &&& t.value == it.0
    &&& t.span.wf()
    &&& t.span.buffer() == b
    &&& t.span.lo() == it.1
    &&& t.span.hi() == it.2
}

/// A pull-based token stream: trivia dropped, one end-of-file item last,
/// nothing after it.
pub struct Tokens<'a> {
    text: Span<'a>,
    done: bool,
}

impl<'a> Tokens<'a> {
    pub closed spec fn remaining(self) -> Span<'a> {
        self.text
    }

    pub closed spec fn finished(self) -> bool {
        self.done
    }

    pub open spec fn wf(self) -> bool {
        self.remaining().wf()
    }

    /// The buffer the stream reads.
    pub open spec fn buffer(self) -> Seq<u8> {
        self.remaining().buffer()
    }

    /// The items still to come.
    pub open spec fn items(self) -> Seq<Item> {
        if self.finished() {
            seq![]
        } else {
            stream(self.remaining().buffer(), self.remaining().lo() as int, self.remaining().hi() as int)
        }
    }

    /// The next item, if any is left.
    pub fn next(&mut self) -> (r: Option<Spanned<'a, LexResult>>)
        requires
            old(self).wf(),
        ensures
            final(self).wf(),
            final(self).buffer() == old(self).buffer(),
            old(self).items().len() == 0 ==> r is None && final(self).items() == old(self).items(),
            old(self).items().len() > 0 ==> r is Some && is_item(r->0, old(self).buffer(), old(self).items()[0])
                && final(self).items() == old(self).items().drop_first(),
            r matches Some(t) && t.value == Ok::<Token, Error>(Token::Eof) ==> final(self).items().len() == 0,
    {
        if self.done {
            return None;
        }
        let ghost b = self.text.buffer();
        let ghost end = self.text.hi() as int;
        loop
            invariant
                self.text.wf(),
                !self.done,
                self.text.buffer() == b,
                self.text.hi() == end,
                old(self).buffer() == b,
                old(self).items() == self.items(),
            decreases self.text@.len(),
        {
            let text = self.text;
            if text.is_empty() {
                self.done = true;
                assert(dispatched(b, end, end) =~= seq![]);
                assert(dispatched(b, end, end).filter(|it: Item| surfaces(it)) =~= seq![]);
                return Some(text.into_spanned(Ok(Token::Eof)));
            }
            let ghost pos = text.lo() as int;
            let (tok, rem) = match token(text) {
                Some(p) => p,
                None => {
                    return None;
                },
            };
            self.text = rem;
            let ghost n = rem.lo() - pos;
            let ghost x: Item = (tok.value, pos, pos + n);
            let ghost rest = dispatched(b, pos + n, end);
            assert(text@ =~= b.subrange(pos, end));
            proof {
                lemma_dispatched_step(b, pos, end);
                lemma_step_not_eof(text@);
            }
            proof {
                rest.lemma_filter_prepend(x, |it: Item| surfaces(it));
            }
            if !(matches!(tok.value, Ok(Token::Space)) || matches!(tok.value, Ok(Token::LineComment))
                || matches!(tok.value, Ok(Token::BlockComment))) {
                assert(old(self).items().drop_first() =~= self.items());
                return Some(tok);
            }
        }
    }
}

/// Every item the dispatcher reads from `text`, trivia and errors included,
/// in order; their fragments put together are `text` again.
pub fn dispatch_all<'a>(text: Span<'a>) -> (r: Vec<Spanned<'a, LexResult>>)
    requires
        text.wf(),
    ensures
        r@.len() == dispatched(text.buffer(), text.lo() as int, text.hi() as int).len(),
        forall|k: int|
            0 <= k < r@.len() ==> is_item(
                #[trigger] r@[k],
                text.buffer(),
                dispatched(text.buffer(), text.lo() as int, text.hi() as int)[k],
            ),
        fragments(text.buffer(), dispatched(text.buffer(), text.lo() as int, text.hi() as int)) == text@,
{
    let ghost b = text.buffer();
    let ghost start = text.lo() as int;
    let ghost end = text.hi() as int;
    let ghost all = dispatched(b, start, end);
    proof {
        lemma_byte_conservation(b, start, end);
    }
    let mut out: Vec<Spanned<'a, LexResult>> = Vec::new();
    let mut cur = text;
    while !cur.is_empty()
        invariant
            cur.wf(),
            cur.buffer() == b,
            cur.hi() == end,
            start <= cur.lo(),
            all == dispatched(b, start, end),
            all == out@.map_values(|t: Spanned<'a, LexResult>| (t.value, t.span.lo() as int, t.span.hi() as int))
                + dispatched(b, cur.lo() as int, end),
            forall|k: int| 0 <= k < out@.len() ==> (#[trigger] out@[k]).span.wf() && out@[k].span.buffer() == b,
        decreases cur@.len(),
    {
        let ghost pos = cur.lo() as int;
        assert(cur@ =~= b.subrange(pos, end));
        proof {
            lemma_dispatched_step(b, pos, end);
        }
        let (tok, rem) = match token(cur) {
            Some(p) => p,
            None => {
                return out;
            },
        };
        let ghost before = out@;
        out.push(tok);
        assert(out@.map_values(|t: Spanned<'a, LexResult>| (t.value, t.span.lo() as int, t.span.hi() as int))
            =~= before.map_values(|t: Spanned<'a, LexResult>| (t.value, t.span.lo() as int, t.span.hi() as int))
            + seq![(tok.value, pos, rem.lo() as int)]);
        cur = rem;
    }
    assert(dispatched(b, cur.lo() as int, end) =~= seq![]);
    let ghost m = out@.map_values(|t: Spanned<'a, LexResult>| (t.value, t.span.lo() as int, t.span.hi() as int));
    assert(all =~= m);
    assert forall|k: int| 0 <= k < out@.len() implies is_item(#[trigger] out@[k], b, all[k]) by {
        assert(m[k] == all[k]);
    }
    out
}

/// The token stream over `text`.
pub fn tokens<'a>(text: Span<'a>) -> (r: Tokens<'a>)
    requires
        text.wf(),
    ensures
        r.wf(),
        r.buffer() == text.buffer(),
        r.items() == stream(text.buffer(), text.lo() as int, text.hi() as int),
{
    Tokens { text, done: false }
}

/// The diagnostic line for error `e` read from `b[lo..hi]`.
pub open spec fn diagnostic_at(file: Seq<char>, b: Seq<u8>, lo: int, hi: int, e: Error) -> Seq<char> {
    diagnostic_text(
        file,
        line_col(b, lo as nat).0,
        line_col(b, lo as nat).1,
        message_text(e, utf8_lossy(b.subrange(lo, hi))),
    )
}

fn error_line(input_file: &str, err: &Spanned<Error>) -> (r: String)
    requires
        err.span.wf(),
        !(err.value is StringLiteral),
    ensures
        r@ == diagnostic_at(input_file@, err.span.buffer(), err.span.lo() as int, err.span.hi() as int, err.value),
{
    let text = lossy_text(err.fragment());
    let msg = message(err.value, text.as_str());
    format_error(input_file, err.position(), msg.as_str())
}

/// The diagnostic lines for `err`: one line, or for a string literal with
/// errors one line per problem inside it.
pub fn log_err(input_file: &str, err: &Spanned<Error>) -> (r: Vec<String>)
    requires
        err.span.wf(),
    ensures
        !(err.value is StringLiteral) ==> r@.len() == 1 && r@[0]@ == diagnostic_at(
            input_file@,
            err.span.buffer(),
            err.span.lo() as int,
            err.span.hi() as int,
            err.value,
        ),
        err.value is StringLiteral ==> r@.len() == string_errors(err.span@).len() && forall|k: int|
            0 <= k < r@.len() ==> (#[trigger] r@[k])@ == diagnostic_at(
                input_file@,
                err.span.buffer(),
                err.span.lo() + string_errors(err.span@)[k].1,
                err.span.lo() + string_errors(err.span@)[k].1 + string_errors(err.span@)[k].2,
                string_errors(err.span@)[k].0,
            ),
{
    let mut out: Vec<String> = Vec::new();
    match err.value {
        Error::StringLiteral => {
            let errs = get_string_errors(err.span);
            let ghost d = string_errors(err.span@);
            proof {
                lemma_string_error_kinds(err.span@);
            }
            let mut i: usize = 0;
            while i < errs.len()
                invariant
                    err.span.wf(),
                    d == string_errors(err.span@),
                    errs@.len() == d.len(),
                    forall|k: int| 0 <= k < errs@.len() ==> reports(err.span, #[trigger] errs@[k], d[k]),
                    forall|k: int| 0 <= k < d.len() ==> !((#[trigger] d[k]).0 is StringLiteral),
                    i <= errs@.len(),
                    out@.len() == i,
                    forall|k: int|
                        0 <= k < i ==> (#[trigger] out@[k])@ == diagnostic_at(
                            input_file@,
                            err.span.buffer(),
                            err.span.lo() + d[k].1,
                            err.span.lo() + d[k].1 + d[k].2,
                            d[k].0,
                        ),
                decreases errs@.len() - i,
            {
                assert(reports(err.span, errs@[i as int], d[i as int]));
                out.push(error_line(input_file, &errs[i]));
                i = i + 1;
            }
        },
        _ => {
            out.push(error_line(input_file, err));
        },
    }
    out
}

} // verus!
