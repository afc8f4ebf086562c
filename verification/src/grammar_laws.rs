//! What holds of the grammar of hardware addresses: how cutting a text at
//! its colons relates to joining pieces by colons, how many bytes a text can
//! give, that the usual writing of an address reads back as that address, and
//! that the case of letters makes no difference.

use crate::grammar::{
    hex_digit, hex_value, lemma_tokens_nonempty, parsed_address, token_byte, token_bytes,
    token_digits, tokens,
};
use vstd::prelude::*;

verus! {

/// How many colons `text` holds.
pub open spec fn colons(text: Seq<char>) -> nat
    decreases text.len(),
{
    if text.len() == 0 {
        0
    } else if text.last() == ':' {
        colons(text.drop_last()) + 1
    } else {
        colons(text.drop_last())
    }
}

/// A text has one more token than it has colons.
pub proof fn lemma_tokens_len(text: Seq<char>)
    ensures
        tokens(text).len() == colons(text) + 1,
    decreases text.len(),
{
    if text.len() > 0 {
        lemma_tokens_len(text.drop_last());
    }
}

/// The text that has `pieces` as its tokens: the pieces in order, with a
/// colon between each two neighbours.
pub open spec fn joined(pieces: Seq<Seq<char>>) -> Seq<char>
    decreases pieces.len(),
{
    if pieces.len() == 0 {
        Seq::empty()
    } else if pieces.len() == 1 {
        pieces[0]
    } else {
        joined(pieces.drop_last()) + seq![':'] + pieces.last()
    }
}

/// No character of any piece is a colon.
pub open spec fn colon_free(pieces: Seq<Seq<char>>) -> bool {
    forall|k: int, i: int|
        0 <= k < pieces.len() && 0 <= i < pieces[k].len() ==> #[trigger] pieces[k][i] != ':'
}

/// A text without a colon is its own single token.
pub proof fn lemma_tokens_without_colon(text: Seq<char>)
    requires
        forall|i: int| 0 <= i < text.len() ==> text[i] != ':',
    ensures
        tokens(text) == seq![text],
    decreases text.len(),
{
    if text.len() == 0 {
        assert(text =~= Seq::empty());
    } else {
        lemma_tokens_without_colon(text.drop_last());
        assert(text.drop_last().push(text.last()) =~= text);
    }
}

/// The tokens of two texts joined by a colon are the tokens of the first
/// text followed by those of the second.
pub proof fn lemma_tokens_around_colon(a: Seq<char>, b: Seq<char>)
    ensures
        tokens(a + seq![':'] + b) == tokens(a) + tokens(b),
    decreases b.len(),
{
    let text = a + seq![':'] + b;
    if b.len() == 0 {
        assert(text.drop_last() =~= a);
    } else {
        assert(text.drop_last() =~= a + seq![':'] + b.drop_last());
        lemma_tokens_around_colon(a, b.drop_last());
        lemma_tokens_nonempty(b.drop_last());
    }
}

/// No token holds a colon.
pub proof fn lemma_tokens_are_colon_free(text: Seq<char>)
    ensures
        colon_free(tokens(text)),
    decreases text.len(),
{
    if text.len() > 0 {
        lemma_tokens_are_colon_free(text.drop_last());
        lemma_tokens_nonempty(text.drop_last());
    }
}

/// Cutting a text at its colons loses nothing: the tokens, joined by colons
/// again, are the text.
pub proof fn lemma_joined_tokens(text: Seq<char>)
    ensures
        joined(tokens(text)) == text,
    decreases text.len(),
{
    if text.len() > 0 {
        lemma_joined_tokens(text.drop_last());
        lemma_tokens_nonempty(text.drop_last());
        let before = tokens(text.drop_last());
        let after = tokens(text);
        if text.last() == ':' {
            assert(after.drop_last() =~= before);
        } else if before.len() > 1 {
            assert(after.drop_last() =~= before.drop_last());
            assert(joined(after) == joined(before.drop_last()) + seq![':'] + before.last().push(
                text.last(),
            ));
            assert(joined(after) =~= joined(before).push(text.last()));
        }
    }
}

/// Pieces without colons are found again: they are the tokens of the text
/// that joins them.
pub proof fn lemma_tokens_of_joined(pieces: Seq<Seq<char>>)
    requires
        pieces.len() >= 1,
        colon_free(pieces),
    ensures
        tokens(joined(pieces)) == pieces,
    decreases pieces.len(),
{
    let last = pieces.last();
    lemma_tokens_without_colon(last);
    if pieces.len() > 1 {
        let front = pieces.drop_last();
        lemma_tokens_of_joined(front);
        lemma_tokens_around_colon(joined(front), last);
    }
}

/// The bytes of two runs of tokens, one after the other, are the bytes of
/// the first run followed by those of the second.
pub proof fn lemma_token_bytes_of_concatenation(s: Seq<Seq<char>>, t: Seq<Seq<char>>)
    ensures
        token_bytes(s + t) == token_bytes(s) + token_bytes(t),
    decreases t.len(),
{
    if t.len() > 0 {
        assert((s + t).drop_last() =~= s + t.drop_last());
        lemma_token_bytes_of_concatenation(s, t.drop_last());
    }
}

/// The bytes of two texts joined by a colon are the bytes of the first text
/// followed by those of the second.
pub proof fn lemma_bytes_around_colon(a: Seq<char>, b: Seq<char>)
    ensures
        token_bytes(tokens(a + seq![':'] + b)) == token_bytes(tokens(a)) + token_bytes(tokens(b)),
{
    lemma_tokens_around_colon(a, b);
    lemma_token_bytes_of_concatenation(tokens(a), tokens(b));
}

/// Tokens give at most one byte each.
pub proof fn lemma_token_bytes_len(tokens: Seq<Seq<char>>)
    ensures
        token_bytes(tokens).len() <= tokens.len(),
    decreases tokens.len(),
{
    if tokens.len() > 0 {
        lemma_token_bytes_len(tokens.drop_last());
    }
}

/// Where every token stands for a byte, the bytes are those of the tokens,
/// one for one.
pub proof fn lemma_token_bytes_of_valid_tokens(tokens: Seq<Seq<char>>)
    requires
        forall|k: int| 0 <= k < tokens.len() ==> token_byte(#[trigger] tokens[k]) is Some,
    ensures
        token_bytes(tokens).len() == tokens.len(),
        forall|k: int|
            0 <= k < tokens.len() ==> token_byte(#[trigger] tokens[k]) == Some(
                token_bytes(tokens)[k],
            ),
    decreases tokens.len(),
{
    if tokens.len() > 0 {
        let front = tokens.drop_last();
        lemma_token_bytes_of_valid_tokens(front);
        assert forall|k: int| 0 <= k < tokens.len() implies token_byte(#[trigger] tokens[k])
            == Some(token_bytes(tokens)[k]) by {
            if k < front.len() {
                assert(front[k] == tokens[k]);
            }
        }
    }
}

/// Where some token stands for no byte, there are fewer bytes than tokens.
pub proof fn lemma_token_bytes_of_invalid_token(tokens: Seq<Seq<char>>, k: int)
    requires
        0 <= k < tokens.len(),
        token_byte(tokens[k]) is None,
    ensures
        token_bytes(tokens).len() < tokens.len(),
    decreases tokens.len(),
{
    if k == tokens.len() - 1 {
        lemma_token_bytes_len(tokens.drop_last());
    } else {
        lemma_token_bytes_of_invalid_token(tokens.drop_last(), k);
    }
}

/// A text of fewer than six tokens, which is one of fewer than five colons,
/// denotes no hardware address.
pub proof fn lemma_parse_of_few_tokens(text: Seq<char>)
    requires
        colons(text) < 5,
    ensures
        tokens(text).len() < 6,
        parsed_address(text) is None,
{
    lemma_tokens_len(text);
    lemma_token_bytes_len(tokens(text));
}

/// A text of exactly six tokens denotes a hardware address if and only if
/// each token stands for a byte, and then the address is those six bytes in
/// order.
pub proof fn lemma_parse_of_six_tokens(text: Seq<char>)
    requires
        tokens(text).len() == 6,
    ensures
        parsed_address(text) is Some <==> forall|k: int|
            0 <= k < 6 ==> token_byte(#[trigger] tokens(text)[k]) is Some,
        parsed_address(text) matches Some(mac) ==> forall|k: int|
            0 <= k < 6 ==> token_byte(#[trigger] tokens(text)[k]) == Some(mac[k]),
{
    let pieces = tokens(text);
    if forall|k: int| 0 <= k < 6 ==> token_byte(#[trigger] pieces[k]) is Some {
        lemma_token_bytes_of_valid_tokens(pieces);
    } else {
        let k = choose|k: int| 0 <= k < 6 && !(token_byte(#[trigger] pieces[k]) is Some);
        lemma_token_bytes_of_invalid_token(pieces, k);
    }
}

/// The digit, in upper case, for a value below sixteen.
pub open spec fn hex_char(value: int) -> char {
    if value < 10 {
        ('0' as int + value) as char
    } else {
        ('A' as int + value - 10) as char
    }
}

/// A byte as two hexadecimal digits in upper case.
pub open spec fn byte_text(byte: u8) -> Seq<char> {
    seq![hex_char(byte as int / 16), hex_char(byte as int % 16)]
}

/// A hardware address in its usual writing: each byte as two hexadecimal
/// digits in upper case, with colons in between.
pub open spec fn address_text(mac: Seq<u8>) -> Seq<char> {
    joined(Seq::new(mac.len(), |k: int| byte_text(mac[k])))
}

/// Two hexadecimal digits stand for the byte that they were written for.
pub proof fn lemma_token_byte_of_byte_text(byte: u8)
    ensures
        token_byte(byte_text(byte)) == Some(byte),
{
    let text = byte_text(byte);
    assert(hex_value(text.drop_last().drop_last()) == Some(0nat));
    assert(hex_value(text.drop_last()) == Some((byte as int / 16) as nat));
}

/// Writing and reading agree: the usual writing of a hardware address of
/// six bytes parses to that address.
pub proof fn lemma_parse_of_address_text(mac: Seq<u8>)
    requires
        mac.len() == 6,
    ensures
        parsed_address(address_text(mac)) == Some(mac),
{
    let pieces = Seq::new(6, |k: int| byte_text(mac[k]));
    lemma_tokens_of_joined(pieces);
    assert forall|k: int| 0 <= k < 6 implies token_byte(#[trigger] pieces[k]) == Some(mac[k]) by {
        lemma_token_byte_of_byte_text(mac[k]);
    }
    lemma_token_bytes_of_valid_tokens(pieces);
    assert forall|k: int| 0 <= k < 6 implies token_bytes(pieces)[k] == mac[k] by {
        assert(token_byte(pieces[k]) == Some(mac[k]));
    }
}

/// `a` and `b` are the same character, or the same ASCII letter in its two
/// cases.
pub open spec fn same_letter(a: char, b: char) -> bool {
    ||| a == b
    ||| 'A' <= a <= 'Z' && b as int == a as int + 32
    ||| 'A' <= b <= 'Z' && a as int == b as int + 32
}

/// `a` and `b` differ at most in the case of their ASCII letters.
pub open spec fn same_ignoring_case(a: Seq<char>, b: Seq<char>) -> bool {
    &&& a.len() == b.len()
    &&& forall|i: int| 0 <= i < a.len() ==> same_letter(#[trigger] a[i], b[i])
}

/// `s` and `t` are as many tokens, and differ token by token at most in the
/// case of their ASCII letters.
spec fn same_tokens_ignoring_case(s: Seq<Seq<char>>, t: Seq<Seq<char>>) -> bool {
    &&& s.len() == t.len()
    &&& forall|k: int| 0 <= k < s.len() ==> same_ignoring_case(#[trigger] s[k], t[k])
}

proof fn lemma_hex_value_ignores_case(a: Seq<char>, b: Seq<char>)
    requires
        same_ignoring_case(a, b),
    ensures
        hex_value(a) == hex_value(b),
    decreases a.len(),
{
    if a.len() > 0 {
        lemma_hex_value_ignores_case(a.drop_last(), b.drop_last());
    }
}

/// The case of its digits does not change the byte that a token stands for.
pub proof fn lemma_token_byte_ignores_case(a: Seq<char>, b: Seq<char>)
    requires
        same_ignoring_case(a, b),
    ensures
        token_byte(a) == token_byte(b),
{
    lemma_hex_value_ignores_case(token_digits(a), token_digits(b));
}

proof fn lemma_tokens_ignore_case(a: Seq<char>, b: Seq<char>)
    requires
        same_ignoring_case(a, b),
    ensures
        same_tokens_ignoring_case(tokens(a), tokens(b)),
    decreases a.len(),
{
    if a.len() > 0 {
        lemma_tokens_ignore_case(a.drop_last(), b.drop_last());
        lemma_tokens_nonempty(a.drop_last());
    }
}

proof fn lemma_token_bytes_ignore_case(s: Seq<Seq<char>>, t: Seq<Seq<char>>)
    requires
        same_tokens_ignoring_case(s, t),
    ensures
        token_bytes(s) == token_bytes(t),
    decreases s.len(),
{
    if s.len() > 0 {
        lemma_token_byte_ignores_case(s.last(), t.last());
        lemma_token_bytes_ignore_case(s.drop_last(), t.drop_last());
    }
}

/// Parsing is blind to case: two texts that differ only in the case of their
/// ASCII letters denote the same hardware address, or both denote none.
pub proof fn lemma_parse_ignores_case(a: Seq<char>, b: Seq<char>)
    requires
        same_ignoring_case(a, b),
    ensures
        parsed_address(a) == parsed_address(b),
{
    lemma_tokens_ignore_case(a, b);
    lemma_token_bytes_ignore_case(tokens(a), tokens(b));
}

} // verus!
