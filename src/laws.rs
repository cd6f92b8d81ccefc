use vstd::prelude::*;
use crate::grammar::{
    dispatched, identifier_rule, in_class, is_alpha, is_ascii_text, is_ident_byte, is_keyword,
    is_space, is_trivia, keyword_text, lemma_dispatched_step, lex_step, run_end, stream, surfaces, ByteClass,
    Item, UNDERSCORE,
};
use crate::lexer::{Error, Token};

verus! {

/// The fragments of `items`, concatenated in order.
pub open spec fn fragments(b: Seq<u8>, items: Seq<Item>) -> Seq<u8>
    decreases items.len(),
{
    if items.len() == 0 {
        seq![]
    } else {
        b.subrange(items[0].1, items[0].2) + fragments(b, items.drop_first())
    }
}

/// Byte conservation: the fragments of everything the dispatcher reads from
/// `b[pos..end]`, trivia and errors included, put back together in order,
/// are exactly `b[pos..end]`.
pub proof fn lemma_byte_conservation(b: Seq<u8>, pos: int, end: int)
    requires
        0 <= pos <= end <= b.len(),
    ensures
        fragments(b, dispatched(b, pos, end)) == b.subrange(pos, end),
    decreases end - pos,
{
    if pos == end {
        assert(b.subrange(pos, end) =~= seq![]);
    } else {
        lemma_dispatched_step(b, pos, end);
        let (v, n) = lex_step(b.subrange(pos, end))->0;
        let rest = dispatched(b, pos + n, end);
        lemma_byte_conservation(b, pos + n, end);
        assert((seq![(v, pos, pos + n)] + rest).drop_first() =~= rest);
        assert(b.subrange(pos, pos + n) + b.subrange(pos + n, end) =~= b.subrange(pos, end));
    }
}

/// The dispatcher never reads an end-of-file item.
proof fn lemma_dispatched_not_eof(b: Seq<u8>, pos: int, end: int)
    requires
        0 <= pos <= end <= b.len(),
    ensures
        forall|i: int| 0 <= i < dispatched(b, pos, end).len() ==> (#[trigger] dispatched(b, pos, end)[i]).0 != Ok::<Token, Error>(Token::Eof),
    decreases end - pos,
{
    if pos < end {
        lemma_dispatched_step(b, pos, end);
        let (_, n) = lex_step(b.subrange(pos, end))->0;
        lemma_dispatched_not_eof(b, pos + n, end);
    }
}

/// Termination: the stream over `b[pos..end]` is finite and ends in exactly
/// one end-of-file item, whose fragment is empty and sits at `end`; nothing
/// comes after it.
pub proof fn lemma_stream_ends_in_eof(b: Seq<u8>, pos: int, end: int)
    requires
        0 <= pos <= end <= b.len(),
    ensures
        stream(b, pos, end).len() >= 1,
        stream(b, pos, end).last() == (Ok::<Token, Error>(Token::Eof), end, end),
        forall|i: int|
            0 <= i < stream(b, pos, end).len() && (#[trigger] stream(b, pos, end)[i]).0 == Ok::<Token, Error>(Token::Eof)
                ==> i == stream(b, pos, end).len() - 1,
{
    let d = dispatched(b, pos, end);
    let f = d.filter(|it: Item| surfaces(it));
    lemma_dispatched_not_eof(b, pos, end);
    assert forall|i: int| 0 <= i < f.len() implies (#[trigger] f[i]).0 != Ok::<Token, Error>(Token::Eof) by {
        assert(f.contains(f[i]));
        d.lemma_filter_contains_rev(|it: Item| surfaces(it), f[i]);
    }
}

/// The stream never yields whitespace or comments.
pub proof fn lemma_stream_has_no_trivia(b: Seq<u8>, pos: int, end: int)
    requires
        0 <= pos <= end <= b.len(),
    ensures
        forall|i: int| 0 <= i < stream(b, pos, end).len() ==> !is_trivia((#[trigger] stream(b, pos, end)[i]).0),
{
    let d = dispatched(b, pos, end);
    let f = d.filter(|it: Item| surfaces(it));
    assert forall|i: int| 0 <= i < f.len() implies !is_trivia((#[trigger] f[i]).0) by {
        d.lemma_filter_pred(|it: Item| surfaces(it), i);
    }
}

/// `run_end` from `i` stops at `m` when the bytes before `m` are all of
/// class `k` and the byte at `m`, if any, is not.
proof fn lemma_run_end_at(s: Seq<u8>, i: int, m: int, k: ByteClass)
    requires
        0 <= i <= m <= s.len(),
        forall|j: int| i <= j < m ==> in_class(k, #[trigger] s[j]),
        m == s.len() || !in_class(k, s[m]),
    ensures
        run_end(s, i, k) == m,
    decreases m - i,
{
    if i < m {
        lemma_run_end_at(s, i + 1, m, k);
    }
}

/// Keyword exactness: a word of identifier bytes starting with a letter or
/// `_`, followed by anything that is not an identifier byte, reads as one
/// token covering the whole word: the keyword it spells, for each of the
/// fixed keywords, and `Identifier` for every other word.
pub proof fn lemma_keyword_exactness(w: Seq<u8>, rest: Seq<u8>)
    requires
        w.len() > 0,
        is_alpha(w[0]) || w[0] == UNDERSCORE,
        forall|i: int| 0 <= i < w.len() ==> is_ident_byte(#[trigger] w[i]),
        rest.len() == 0 || !is_ident_byte(rest[0]),
    ensures
        forall|t: Token|
            is_keyword(t) && #[trigger] keyword_text(t) == w ==> identifier_rule(w + rest) == Some(
                (Ok::<Token, Error>(t), w.len() as int),
            ),
        (forall|t: Token| is_keyword(t) ==> #[trigger] keyword_text(t) != w) ==> identifier_rule(w + rest)
            == Some((Ok::<Token, Error>(Token::Identifier), w.len() as int)),
{
    let s = w + rest;
    lemma_run_end_at(s, 0, w.len() as int, ByteClass::Ident);
    assert(s.subrange(0, w.len() as int) =~= w);
    assert forall|t: Token| is_keyword(t) && #[trigger] keyword_text(t) == w implies identifier_rule(s) == Some(
        (Ok::<Token, Error>(t), w.len() as int),
    ) by {
        match t {
            Token::Import => {},
            Token::If => {},
            Token::Else => {},
            Token::While => {},
            Token::For => {},
            Token::Break => {},
            Token::Continue => {},
            Token::Return => {},
            Token::Int => {},
            Token::Bool => {},
            Token::True => {},
            Token::False => {},
            Token::Void => {},
            Token::Len => {},
            _ => {},
        }
    }
    if forall|t: Token| is_keyword(t) ==> #[trigger] keyword_text(t) != w {
        assert(is_keyword(Token::Import));
        assert(is_keyword(Token::If));
        assert(is_keyword(Token::Else));
        assert(is_keyword(Token::While));
        assert(is_keyword(Token::For));
        assert(is_keyword(Token::Break));
        assert(is_keyword(Token::Continue));
        assert(is_keyword(Token::Return));
        assert(is_keyword(Token::Int));
        assert(is_keyword(Token::Bool));
        assert(is_keyword(Token::True));
        assert(is_keyword(Token::False));
        assert(is_keyword(Token::Void));
        assert(is_keyword(Token::Len));
    }
}

/// Non-ASCII priority: a run of bytes that may not appear in source text,
/// followed by ASCII whitespace that may, is read as one non-ASCII error
/// covering the run alone.
pub proof fn lemma_non_ascii_priority(s: Seq<u8>, n: int)
    requires
        0 < n < s.len(),
        forall|i: int| 0 <= i < n ==> !is_ascii_text(#[trigger] s[i]),
        is_space(s[n]) && is_ascii_text(s[n]),
    ensures
        lex_step(s) == Some((Err::<Token, Error>(Error::NonAsciiChars), n)),
{
    lemma_run_end_at(s, 0, n, ByteClass::NonText);
}

} // verus!
