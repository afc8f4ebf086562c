//! The grammar of a hardware address in text, such as `00:11:22:33:44:AA`.
//!
//! The text is cut at every colon. Each piece that stands for a byte in
//! hexadecimal contributes that byte; every other piece is passed over
//! without ending the parse. The text is a hardware address exactly when six
//! bytes were found that way, so `zz:00:11:22:33:44:AA` is accepted as well:
//! this permissive reading is deliberate.

use vstd::prelude::*;

verus! {

/// The value of `c` as a hexadecimal digit, in either case; `None` for every
/// other character.
pub open spec fn hex_digit(c: char) -> Option<nat> {
    if '0' <= c <= '9' {
        Some((c as int - '0' as int) as nat)
    } else if 'a' <= c <= 'f' {
        Some((c as int - 'a' as int + 10) as nat)
    } else if 'A' <= c <= 'F' {
        Some((c as int - 'A' as int + 10) as nat)
    } else {
        None
    }
}

/// The number that a run of hexadecimal digits denotes, most significant
/// digit first; `None` when some character is no such digit. The empty run
/// denotes zero.
pub open spec fn hex_value(digits: Seq<char>) -> Option<nat>
    decreases digits.len(),
{
    if digits.len() == 0 {
        Some(0nat)
    } else {
        match (hex_value(digits.drop_last()), hex_digit(digits.last())) {
            (Some(high), Some(low)) => Some(16 * high + low),
            _ => None,
        }
    }
}

/// The digits of a token: the token itself, without a leading `+`.
pub open spec fn token_digits(token: Seq<char>) -> Seq<char> {
    if token.len() > 0 && token[0] == '+' {
        token.drop_first()
    } else {
        token
    }
}

/// The byte that a token stands for: an optional `+`, then one or more
/// hexadecimal digits whose value is at most 255. Any other token stands for
/// no byte.
pub open spec fn token_byte(token: Seq<char>) -> Option<u8> {
    let digits = token_digits(token);
    match hex_value(digits) {
        Some(value) => if digits.len() > 0 && value <= 255 {
            Some(value as u8)
        } else {
            None
        },
        None => None,
    }
}

/// The pieces of `text` between its colons, in order. There is one more
/// piece than there are colons, and a piece may be empty.
pub open spec fn tokens(text: Seq<char>) -> Seq<Seq<char>>
    decreases text.len(),
{
    if text.len() == 0 {
        seq![Seq::empty()]
    } else {
        let before = tokens(text.drop_last());
        if text.last() == ':' {
            before.push(Seq::empty())
        } else {
            before.drop_last().push(before.last().push(text.last()))
        }
    }
}

/// The bytes of those tokens that stand for one, in the tokens' order.
pub open spec fn token_bytes(tokens: Seq<Seq<char>>) -> Seq<u8>
    decreases tokens.len(),
{
    if tokens.len() == 0 {
        Seq::empty()
    } else {
        let before = token_bytes(tokens.drop_last());
        match token_byte(tokens.last()) {
            Some(byte) => before.push(byte),
            None => before,
        }
    }
}

/// The hardware address that `text` denotes: the bytes of its tokens, where
/// there are exactly six of them.
pub open spec fn parsed_address(text: Seq<char>) -> Option<Seq<u8>> {
    let bytes = token_bytes(tokens(text));
    if bytes.len() == 6 {
        Some(bytes)
    } else {
        None
    }
}

/// A text always has at least one token.
pub proof fn lemma_tokens_nonempty(text: Seq<char>)
    ensures
        tokens(text).len() >= 1,
    decreases text.len(),
{
    if text.len() > 0 {
        lemma_tokens_nonempty(text.drop_last());
    }
}

} // verus!
