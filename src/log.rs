use vstd::prelude::*;
use crate::grammar::is_digit;
use crate::lexer::Error;

verus! {

/// What `String::from_utf8_lossy` makes of a byte sequence.
pub uninterp spec fn utf8_lossy(b: Seq<u8>) -> Seq<char>;

/// Relies on `String::from_utf8_lossy`: the text of `b`, invalid UTF-8
/// replaced; the result depends on the bytes alone.
#[verifier::external_body]
pub(crate) fn lossy_text(b: &[u8]) -> (r: String)
    ensures
        r@ == utf8_lossy(b@),
{
    String::from_utf8_lossy(b).into_owned()
}

pub open spec fn digit_char(d: nat) -> char {
    if d == 0 {
        '0'
    } else if d == 1 {
        '1'
    } else if d == 2 {
        '2'
    } else if d == 3 {
        '3'
    } else if d == 4 {
        '4'
    } else if d == 5 {
        '5'
    } else if d == 6 {
        '6'
    } else if d == 7 {
        '7'
    } else if d == 8 {
        '8'
    } else if d == 9 {
        '9'
    } else if d == 10 {
        'a'
    } else if d == 11 {
        'b'
    } else if d == 12 {
        'c'
    } else if d == 13 {
        'd'
    } else if d == 14 {
        'e'
    } else {
        'f'
    }
}

/// `n` in decimal.
pub open spec fn dec_text(n: nat) -> Seq<char>
    decreases n,
{
    if n < 10 {
        seq![digit_char(n)]
    } else {
        dec_text(n / 10) + seq![digit_char(n % 10)]
    }
}

/// A byte in a message: a decimal digit as itself, anything else as `\xHH`.
pub open spec fn byte_text(c: u8) -> Seq<char> {
    if is_digit(c) {
        seq![digit_char((c - 48) as nat)]
    } else {
        seq!['\\', 'x', digit_char((c / 16) as nat), digit_char((c % 16) as nat)]
    }
}

/// The message for an error, given the text of its fragment.
pub open spec fn message_text(e: Error, fragment: Seq<char>) -> Seq<char> {
    match e {
        Error::EmptyHexLiteral => "invalid hex literal: "@ + fragment,
        Error::EmptyChar => "empty char literal"@,
        Error::InvalidEscape(c) => "invalid escape sequence: \\"@ + byte_text(c),
        Error::InvalidChar(c) => "invalid character literal: "@ + byte_text(c),
        Error::UnexpectedChar(c) => "unexpected character: "@ + byte_text(c),
        Error::UnterminatedString => "unterminated string literal"@,
        Error::UnterminatedChar => "unterminated char literal"@,
        Error::UnterminatedComment => "unterminated block comment"@,
        Error::NonAsciiChars => "non-ascii characters: "@ + fragment,
        Error::StringLiteral => seq![],
    }
}

/// `<file>:<line>:<col>: <msg>`
pub open spec fn diagnostic_text(file: Seq<char>, line: nat, col: nat, msg: Seq<char>) -> Seq<char> {
    file + ":"@ + dec_text(line) + ":"@ + dec_text(col) + ": "@ + msg
}

fn digit_str(d: usize) -> (r: &'static str)
    requires
        d < 16,
    ensures
        r@ == seq![digit_char(d as nat)],
{
    proof {
        reveal_strlit("0");
        reveal_strlit("1");
        reveal_strlit("2");
        reveal_strlit("3");
        reveal_strlit("4");
        reveal_strlit("5");
        reveal_strlit("6");
        reveal_strlit("7");
        reveal_strlit("8");
        reveal_strlit("9");
        reveal_strlit("a");
        reveal_strlit("b");
        reveal_strlit("c");
        reveal_strlit("d");
        reveal_strlit("e");
        reveal_strlit("f");
    }
    if d == 0 {
        "0"
    } else if d == 1 {
        "1"
    } else if d == 2 {
        "2"
    } else if d == 3 {
        "3"
    } else if d == 4 {
        "4"
    } else if d == 5 {
        "5"
    } else if d == 6 {
        "6"
    } else if d == 7 {
        "7"
    } else if d == 8 {
        "8"
    } else if d == 9 {
        "9"
    } else if d == 10 {
        "a"
    } else if d == 11 {
        "b"
    } else if d == 12 {
        "c"
    } else if d == 13 {
        "d"
    } else if d == 14 {
        "e"
    } else {
        "f"
    }
}

pub(crate) fn push_dec(s: &mut String, n: usize)
    ensures
        final(s)@ == old(s)@ + dec_text(n as nat),
    decreases n,
{
    if n >= 10 {
        push_dec(s, n / 10);
    }
    s.append(digit_str(n % 10));
    assert(final(s)@ =~= old(s)@ + dec_text(n as nat));
}

fn push_byte(s: &mut String, c: u8)
    ensures
        final(s)@ == old(s)@ + byte_text(c),
{
    if 48 <= c && c <= 57 {
        s.append(digit_str((c - 48) as usize));
    } else {
        s.append("\\x");
        s.append(digit_str((c / 16) as usize));
        s.append(digit_str((c % 16) as usize));
        proof {
            reveal_strlit("\\x");
        }
    }
    assert(final(s)@ =~= old(s)@ + byte_text(c));
}

/// The message for `err`, given the text of its fragment.
pub fn message(err: Error, fragment: &str) -> (r: String)
    requires
        !(err is StringLiteral),
    ensures
        r@ == message_text(err, fragment@),
{
    match err {
        Error::EmptyHexLiteral => String::from_str("invalid hex literal: ").concat(fragment),
        Error::EmptyChar => String::from_str("empty char literal"),
        Error::InvalidEscape(c) => {
            let mut s = String::from_str("invalid escape sequence: \\");
            push_byte(&mut s, c);
            s
        },
        Error::InvalidChar(c) => {
            let mut s = String::from_str("invalid character literal: ");
            push_byte(&mut s, c);
            s
        },
        Error::UnexpectedChar(c) => {
            let mut s = String::from_str("unexpected character: ");
            push_byte(&mut s, c);
            s
        },
        Error::UnterminatedString => String::from_str("unterminated string literal"),
        Error::UnterminatedChar => String::from_str("unterminated char literal"),
        Error::UnterminatedComment => String::from_str("unterminated block comment"),
        Error::NonAsciiChars => String::from_str("non-ascii characters: ").concat(fragment),
        Error::StringLiteral => String::new(),
    }
}

/// One diagnostic line: `<file>:<line>:<col>: <msg>`.
pub fn format_error(input_file: &str, pos: (usize, usize), msg: &str) -> (r: String)
    ensures
        r@ == diagnostic_text(input_file@, pos.0 as nat, pos.1 as nat, msg@),
{
    let mut s = String::from_str(input_file);
    s.append(":");
    push_dec(&mut s, pos.0);
    s.append(":");
    push_dec(&mut s, pos.1);
    s.append(": ");
    s.append(msg);
    s
}

} // verus!
