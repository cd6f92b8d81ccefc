use vstd::prelude::*;
use crate::grammar::is_trivia;
use crate::lexer::Token;
use crate::log::dec_text;

verus! {

/// The label a listing puts before a literal's text; none for keywords,
/// operators and delimiters, which are listed by their text alone.
pub open spec fn category_text(t: Token) -> Seq<char> {
    match t {
        Token::Identifier => "IDENTIFIER "@,
        Token::DecimalLiteral => "INTLITERAL "@,
        Token::HexLiteral => "INTLITERAL "@,
        Token::StringLiteral => "STRINGLITERAL "@,
        Token::CharLiteral(_) => "CHARLITERAL "@,
        Token::True => "BOOLEANLITERAL "@,
        Token::False => "BOOLEANLITERAL "@,
        _ => seq![],
    }
}

/// Tokens that a listing leaves out.
pub open spec fn is_unlisted(t: Token) -> bool {
    t is Eof || is_trivia(Ok(t))
}

/// `<line> <label><text>`
pub open spec fn listing_text(line: nat, t: Token, fragment: Seq<char>) -> Seq<char> {
    dec_text(line) + " "@ + category_text(t) + fragment
}

fn category(t: Token) -> (r: &'static str)
    ensures
        r@ == category_text(t),
{
    proof {
        reveal_strlit("");
    }
    match t {
        Token::Identifier => "IDENTIFIER ",
        Token::DecimalLiteral => "INTLITERAL ",
        Token::HexLiteral => "INTLITERAL ",
        Token::StringLiteral => "STRINGLITERAL ",
        Token::CharLiteral(_) => "CHARLITERAL ",
        Token::True => "BOOLEANLITERAL ",
        Token::False => "BOOLEANLITERAL ",
        _ => "",
    }
}

/// The listing line of a token read on line `line` from text `fragment`;
/// none for the end of file and for trivia.
pub fn listing_line(line: usize, t: Token, fragment: &str) -> (r: Option<String>)
    ensures
        is_unlisted(t) ==> r is None,
        !is_unlisted(t) ==> (r matches Some(s) && s@ == listing_text(line as nat, t, fragment@)),
{
    match t {
        Token::Eof | Token::Space | Token::LineComment | Token::BlockComment => None,
        _ => {
            let mut s = String::new();
            crate::log::push_dec(&mut s, line);
            s.append(" ");
            s.append(category(t));
            s.append(fragment);
            Some(s)
        },
    }
}

} // verus!
