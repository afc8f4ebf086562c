//! Reading a hardware address from text.

use crate::grammar::{
    hex_digit, hex_value, lemma_tokens_nonempty, parsed_address, token_byte, token_bytes,
    token_digits, tokens,
};
use vstd::prelude::*;

verus! {

/// The text did not hold exactly six tokens that stand for a byte.
#[derive(Debug, Clone, Copy, PartialEq, Eq, Structural)]
pub struct ParseError;

impl ParseError {
    /// The error in words.
    pub fn message(&self) -> (text: &'static str)
        ensures
            text == "Unable to parse MAC address",
    {
        "Unable to parse MAC address"
    }
}

/// The value of `c` as a hexadecimal digit.
fn hex_digit_of(c: char) -> (digit: Option<u8>)
    ensures
        match digit {
            Some(d) => hex_digit(c) == Some(d as nat),
            None => hex_digit(c) is None,
        },
{
    if '0' <= c && c <= '9' {
        Some((c as u32 - '0' as u32) as u8)
    } else if 'a' <= c && c <= 'f' {
        Some((c as u32 - 'a' as u32 + 10) as u8)
    } else if 'A' <= c && c <= 'F' {
        Some((c as u32 - 'A' as u32 + 10) as u8)
    } else {
        None
    }
}

/// What has been read of the token at hand.
struct Token {
    /// No character has been read yet.
    blank: bool,
    /// A character other than a leading `+` has been read.
    has_digits: bool,
    /// Every such character was a hexadecimal digit, and their value is at
    /// most 255.
    in_range: bool,
    /// That value, while `in_range` holds.
    value: u8,
}

impl Token {
    /// The token's fields describe the characters `read`.
    spec fn tracks(&self, read: Seq<char>) -> bool {
        let digits = token_digits(read);
        &&& self.blank == (read.len() == 0)
        &&& self.has_digits == (digits.len() > 0)
        &&& self.in_range == (hex_value(digits) matches Some(value) && value <= 255)
        &&& self.in_range ==> hex_value(digits) == Some(self.value as nat)
    }

    /// A token of which nothing has been read.
    fn start() -> (token: Token)
        ensures
            token.tracks(Seq::empty()),
    {
        Token { blank: true, has_digits: false, in_range: true, value: 0 }
    }

    /// Takes `c` as the token's next character.
    fn read(&mut self, c: char, Ghost(read): Ghost<Seq<char>>)
        requires
            old(self).tracks(read),
        ensures
            final(self).tracks(read.push(c)),
    {
        proof {
            let digits = token_digits(read);
            if read.len() > 0 {
                assert(token_digits(read.push(c)) =~= digits.push(c));
            }
            assert(digits.push(c).drop_last() =~= digits);
        }
        if self.blank && c == '+' {
            self.blank = false;
        } else {
            self.blank = false;
            self.has_digits = true;
            if self.in_range {
                match hex_digit_of(c) {
                    Some(digit) => {
                        let value: u16 = 16 * (self.value as u16) + digit as u16;
                        if value <= 255 {
                            self.value = value as u8;
                        } else {
                            self.in_range = false;
                        }
                    },
                    None => {
                        self.in_range = false;
                    },
                }
            }
        }
    }

    /// The byte that the token stands for, if it ends here.
    fn byte(&self, Ghost(read): Ghost<Seq<char>>) -> (byte: Option<u8>)
        requires
            self.tracks(read),
        ensures
            byte == token_byte(read),
    {
        if self.has_digits && self.in_range {
            Some(self.value)
        } else {
            None
        }
    }
}

/// Reads one byte in hexadecimal: an optional `+`, then one or more digits
/// `0-9`, `a-f` or `A-F` whose value is at most 255. Anything else, the empty
/// text and a lone `+` among it, is no byte.
pub fn parse_hex_byte(token: &str) -> (byte: Option<u8>)
    ensures
        byte == token_byte(token@),
{
    let mut read = Token::start();
    for c in it: token.chars()
        invariant
            it.seq() == token@,
            read.tracks(token@.take(it.index())),
    {
        read.read(c, Ghost(token@.take(it.index())));
        proof {
            assert(token@.take(it.index()).push(c) =~= token@.take(it.index() + 1));
        }
    }
    proof {
        assert(token@.take(token@.len() as int) =~= token@);
    }
    read.byte(Ghost(token@))
}

/// `mac` and `found` account for `bytes`: `found` counts them, up to seven,
/// and `mac` holds the first six of them as far as they go.
spec fn accounts_for(mac: Seq<u8>, found: usize, bytes: Seq<u8>) -> bool {
    &&& mac.len() == 6
    &&& found <= 7
    &&& found == bytes.len() || (found == 7 && bytes.len() > 7)
    &&& forall|j: int| 0 <= j < found && j < 6 ==> mac[j] == bytes[j]
}

/// Adds the byte of a finished token, if it has one, to what was found.
fn collect(mac: &mut [u8; 6], found: &mut usize, byte: Option<u8>, Ghost(bytes): Ghost<Seq<u8>>)
    requires
        accounts_for(old(mac)@, *old(found), bytes),
    ensures
        accounts_for(
            final(mac)@,
            *final(found),
            match byte {
                Some(b) => bytes.push(b),
                None => bytes,
            },
        ),
{
    if let Some(b) = byte {
        if *found < 6 {
            mac[*found] = b;
        }
        if *found < 7 {
            *found += 1;
        }
    }
}

/// Reads a hardware address from six hexadecimal bytes separated by colons,
/// such as `00:11:22:33:44:AA`. Digits may be in either case.
///
/// The text is cut at its colons, and pieces that do not stand for a byte
/// are left out; the parse succeeds exactly when six bytes remain.
pub fn parse_hardware_address(text: &str) -> (result: Result<[u8; 6], ParseError>)
    ensures
        match result {
            Ok(mac) => parsed_address(text@) == Some(mac@),
            Err(_) => parsed_address(text@) is None,
        },
{
    let mut mac: [u8; 6] = [0; 6];
    let mut found: usize = 0;
    let mut token = Token::start();
    for c in it: text.chars()
        invariant
            it.seq() == text@,
            token.tracks(tokens(text@.take(it.index())).last()),
            accounts_for(mac@, found, token_bytes(tokens(text@.take(it.index())).drop_last())),
    {
        let ghost before = tokens(text@.take(it.index()));
        proof {
            assert(text@.take(it.index() + 1).drop_last() =~= text@.take(it.index()));
            lemma_tokens_nonempty(text@.take(it.index()));
        }
        if c == ':' {
            let byte = token.byte(Ghost(before.last()));
            collect(&mut mac, &mut found, byte, Ghost(token_bytes(before.drop_last())));
            token = Token::start();
            proof {
                assert(before.push(Seq::empty()).drop_last() =~= before);
            }
        } else {
            token.read(c, Ghost(before.last()));
            proof {
                assert(before.drop_last().push(before.last().push(c)).drop_last()
                    =~= before.drop_last());
            }
        }
    }
    let ghost all = tokens(text@);
    proof {
        assert(text@.take(text@.len() as int) =~= text@);
        lemma_tokens_nonempty(text@);
    }
    let byte = token.byte(Ghost(all.last()));
    collect(&mut mac, &mut found, byte, Ghost(token_bytes(all.drop_last())));
    if found == 6 {
        Ok(mac)
    } else {
        Err(ParseError)
    }
}

} // verus!
