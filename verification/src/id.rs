//! Codec between 32-bit identifiers and short URL-safe tokens.
//!
//! A token is exactly six characters, each encoding one 6-bit group of the
//! value, least significant group first. The alphabet is `0-9`, `A-Z`, `a-z`,
//! `-` and `_`; since only two bits remain for the last group, its digit must
//! be below four. Encoding and decoding form a bijection between `u32` and
//! the set of valid tokens.

use vstd::prelude::*;

use crate::Error;

verus! {

/// Digit encoded by character `c`, or `-1` when `c` is outside the alphabet.
pub open spec fn digit_value(c: char) -> int {
    let u = c as u32;
    if 48 <= u && u <= 57 {
        u - 48
    } else if 65 <= u && u <= 90 {
        u - 55
    } else if 97 <= u && u <= 122 {
        u - 61
    } else if u == 45 {
        62
    } else if u == 95 {
        63
    } else {
        -1
    }
}

/// Whether `c` belongs to the token alphabet.
pub open spec fn is_id_char(c: char) -> bool {
    digit_value(c) != -1
}

/// ASCII byte of the character encoding digit `d`.
pub open spec fn char_byte_for(d: int) -> u8 {
    if d < 10 {
        (d + 48) as u8
    } else if d < 36 {
        (d + 55) as u8
    } else if d < 62 {
        (d + 61) as u8
    } else if d == 62 {
        45u8
    } else {
        95u8
    }
}

/// Character encoding digit `d`.
pub open spec fn char_for(d: int) -> char {
    char_byte_for(d) as char
}

/// The `i`-th 6-bit group of `x`, least significant first.
pub open spec fn nth_group(x: u32, i: int) -> u32 {
    if i == 0 {
        x & 63
    } else if i == 1 {
        (x >> 6) & 63
    } else if i == 2 {
        (x >> 12) & 63
    } else if i == 3 {
        (x >> 18) & 63
    } else if i == 4 {
        (x >> 24) & 63
    } else {
        (x >> 30) & 63
    }
}

/// The token that encodes `x`.
pub open spec fn encoded(x: u32) -> Seq<char> {
    Seq::new(6, |i: int| char_for(nth_group(x, i) as int))
}

/// Whether `s` is a token that some `u32` encodes to.
pub open spec fn valid_token(s: Seq<char>) -> bool {
    &&& s.len() == 6
    &&& forall|i: int| 0 <= i < 6 ==> is_id_char(#[trigger] s[i])
    &&& digit_value(s[5]) < 4
}

/// Every digit below 64 round-trips through its alphabet character.
pub proof fn lemma_digit_roundtrip(d: int)
    requires
        0 <= d < 64,
    ensures
        digit_value(char_for(d)) == d,
        char_byte_for(d) < 128,
{
}

/// Every alphabet character round-trips through its digit.
pub proof fn lemma_char_roundtrip(c: char)
    requires
        is_id_char(c),
    ensures
        char_for(digit_value(c)) == c,
{
    assert(char_for(digit_value(c)) as u32 == c as u32);
}

/// Every value encodes to a valid token.
pub proof fn lemma_encoded_valid(x: u32)
    ensures
        valid_token(encoded(x)),
{
    assert(x & 63 < 64 && (x >> 6) & 63 < 64 && (x >> 12) & 63 < 64 && (x >> 18) & 63 < 64
        && (x >> 24) & 63 < 64 && (x >> 30) & 63 < 4) by (bit_vector);
    assert forall|i: int| 0 <= i < 6 implies is_id_char(#[trigger] encoded(x)[i]) by {
        lemma_digit_roundtrip(nth_group(x, i) as int);
    }
    lemma_digit_roundtrip(nth_group(x, 5) as int);
}

/// Distinct values encode to distinct tokens.
pub proof fn lemma_encoded_injective(x: u32, y: u32)
    requires
        encoded(x) =~= encoded(y),
    ensures
        x == y,
{
    assert forall|i: int| 0 <= i < 6 implies nth_group(x, i) == nth_group(y, i) by {
        assert(x & 63 < 64 && (x >> 6) & 63 < 64 && (x >> 12) & 63 < 64 && (x >> 18) & 63 < 64
            && (x >> 24) & 63 < 64 && (x >> 30) & 63 < 64) by (bit_vector);
        assert(y & 63 < 64 && (y >> 6) & 63 < 64 && (y >> 12) & 63 < 64 && (y >> 18) & 63 < 64
            && (y >> 24) & 63 < 64 && (y >> 30) & 63 < 64) by (bit_vector);
        assert(encoded(x)[i] == encoded(y)[i]);
        lemma_digit_roundtrip(nth_group(x, i) as int);
        lemma_digit_roundtrip(nth_group(y, i) as int);
    }
    assert(nth_group(x, 0) == nth_group(y, 0) && nth_group(x, 1) == nth_group(y, 1) && nth_group(
        x,
        2,
    ) == nth_group(y, 2) && nth_group(x, 3) == nth_group(y, 3) && nth_group(x, 4) == nth_group(
        y,
        4,
    ) && nth_group(x, 5) == nth_group(y, 5));
    assert(x == y) by (bit_vector)
        requires
            x & 63 == y & 63,
            (x >> 6) & 63 == (y >> 6) & 63,
            (x >> 12) & 63 == (y >> 12) & 63,
            (x >> 18) & 63 == (y >> 18) & 63,
            (x >> 24) & 63 == (y >> 24) & 63,
            (x >> 30) & 63 == (y >> 30) & 63,
    ;
}

/// Relies on `String::from_utf8`: a vector of ASCII bytes decodes to the
/// string holding exactly those characters.
#[verifier::external_body]
fn ascii_string(v: &Vec<u8>) -> (r: String)
    requires
        forall|i: int| 0 <= i < v@.len() ==> v@[i] < 128,
    ensures
        r@.len() == v@.len(),
        forall|i: int| 0 <= i < v@.len() ==> r@[i] == v@[i] as char,
{
    match String::from_utf8(v.clone()) {
        Ok(s) => s,
        Err(_) => String::new(),
    }
}

/// Byte of the alphabet character for digit `d`.
fn digit_byte(d: u32) -> (b: u8)
    requires
        d < 64,
    ensures
        b == char_byte_for(d as int),
        b < 128,
{
    if d < 10 {
        (d + 48) as u8
    } else if d < 36 {
        (d + 55) as u8
    } else if d < 62 {
        (d + 61) as u8
    } else if d == 62 {
        45u8
    } else {
        95u8
    }
}

/// Encodes `x` as its six-character token.
pub fn encode(x: u32) -> (r: String)
    ensures
        r@ =~= encoded(x),
{
    proof {
        assert(x & 63 < 64 && (x >> 6) & 63 < 64 && (x >> 12) & 63 < 64 && (x >> 18) & 63 < 64
            && (x >> 24) & 63 < 64 && (x >> 30) & 63 < 64) by (bit_vector);
    }
    let mut v: Vec<u8> = Vec::new();
    v.push(digit_byte(x & 63));
    v.push(digit_byte((x >> 6) & 63));
    v.push(digit_byte((x >> 12) & 63));
    v.push(digit_byte((x >> 18) & 63));
    v.push(digit_byte((x >> 24) & 63));
    v.push(digit_byte((x >> 30) & 63));
    let r = ascii_string(&v);
    proof {
        assert forall|i: int| 0 <= i < 6 implies r@[i] == encoded(x)[i] by {
            assert(r@[i] == v@[i] as char);
        }
    }
    r
}

/// Digit of character `c`, or `None` when `c` is outside the alphabet.
fn char_digit(c: char) -> (r: Option<u32>)
    ensures
        match r {
            Some(d) => d < 64 && digit_value(c) == d as int,
            None => !is_id_char(c),
        },
{
    let u = c as u32;
    if u >= 48 && u <= 57 {
        Some(u - 48)
    } else if u >= 65 && u <= 90 {
        Some(u - 55)
    } else if u >= 97 && u <= 122 {
        Some(u - 61)
    } else if u == 45 {
        Some(62)
    } else if u == 95 {
        Some(63)
    } else {
        None
    }
}

/// Decodes a token back to the unique value that encodes to it; any string
/// that no value encodes to is rejected.
pub fn decode(s: &str) -> (r: Result<u32, Error>)
    ensures
        match r {
            Ok(x) => valid_token(s@) && s@ =~= encoded(x),
            Err(e) => !valid_token(s@) && e == Error::IllegalCharacters,
        },
{
    let n = s.unicode_len();
    if n != 6 {
        return Err(Error::IllegalCharacters);
    }
    let d0 = match char_digit(s.get_char(0)) {
        Some(d) => d,
        None => {
            return Err(Error::IllegalCharacters);
        },
    };
    let d1 = match char_digit(s.get_char(1)) {
        Some(d) => d,
        None => {
            return Err(Error::IllegalCharacters);
        },
    };
    let d2 = match char_digit(s.get_char(2)) {
        Some(d) => d,
        None => {
            return Err(Error::IllegalCharacters);
        },
    };
    let d3 = match char_digit(s.get_char(3)) {
        Some(d) => d,
        None => {
            return Err(Error::IllegalCharacters);
        },
    };
    let d4 = match char_digit(s.get_char(4)) {
        Some(d) => d,
        None => {
            return Err(Error::IllegalCharacters);
        },
    };
    let d5 = match char_digit(s.get_char(5)) {
        Some(d) => d,
        None => {
            return Err(Error::IllegalCharacters);
        },
    };
    if d5 >= 4 {
        return Err(Error::IllegalCharacters);
    }
    let x: u32 = d0 | (d1 << 6) | (d2 << 12) | (d3 << 18) | (d4 << 24) | (d5 << 30);
    proof {
        assert(x & 63 == d0 && (x >> 6) & 63 == d1 && (x >> 12) & 63 == d2 && (x >> 18) & 63 == d3
            && (x >> 24) & 63 == d4 && (x >> 30) & 63 == d5) by (bit_vector)
            requires
                x == d0 | (d1 << 6) | (d2 << 12) | (d3 << 18) | (d4 << 24) | (d5 << 30),
                d0 < 64 && d1 < 64 && d2 < 64 && d3 < 64 && d4 < 64 && d5 < 4,
        ;
        assert forall|i: int| 0 <= i < 6 implies s@[i] == encoded(x)[i] by {
            lemma_char_roundtrip(s@[i]);
        }
    }
    Ok(x)
}

/// A 32-bit entry identifier.
#[derive(Clone, Copy, Debug, PartialEq, Eq, Structural)]
pub struct Id {
    pub value: u32,
}

impl Id {
    /// Wraps a raw 32-bit value.
    pub fn from_value(value: u32) -> (r: Id)
        ensures
            r.value == value,
    {
        Id { value }
    }

    /// The token of this id.
    pub fn encode(&self) -> (r: String)
        ensures
            r@ =~= encoded(self.value),
    {
        encode(self.value)
    }

    /// Parses a token; a string that is not a token of any id is rejected.
    pub fn parse(s: &str) -> (r: Result<Id, Error>)
        ensures
            match r {
                Ok(id) => valid_token(s@) && s@ =~= encoded(id.value),
                Err(e) => !valid_token(s@) && e == Error::InvalidId,
            },
    {
        match decode(s) {
            Ok(x) => Ok(Id { value: x }),
            Err(_) => Err(Error::InvalidId),
        }
    }

    /// The URL path under which `entry` will be reachable: the token,
    /// suffixed with the entry's extension when it has one.
    pub fn to_url_path(&self, entry: &crate::Entry) -> (r: String)
        ensures
            r@ =~= seq!['/'] + encoded(self.value) + (match entry.extension {
                Some(e) => seq!['.'] + e@,
                None => Seq::<char>::empty(),
            }),
    {
        proof {
            reveal_strlit("/");
            reveal_strlit(".");
        }
        let mut r = String::from_str("/");
        let token = encode(self.value);
        r.append(token.as_str());
        match &entry.extension {
            Some(e) => {
                r.append(".");
                r.append(e.as_str());
            },
            None => {},
        }
        r
    }
}

} // verus!
