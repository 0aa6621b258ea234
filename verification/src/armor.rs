//! The armor decoder: Z85 text to raw bytes.
//!
//! Z85 armors 4 binary bytes as 5 symbols from an 85-letter alphabet. Strict
//! input length is a multiple of 5; a final group may instead be padded with
//! leading `#` marks, each dropping one byte from the group's output. The
//! decoding itself is done by the `z85` crate through a trusted wrapper; the
//! spec functions here state, symbol for symbol, what that crate computes, so
//! everything downstream is proved against an exact model of the decoder.
use vstd::prelude::*;

verus! {

/// A rejected armored input, with enough context to point at the offending
/// place: these are the `z85` crate's decode errors, one variant for one.
#[derive(Debug, Clone, Copy, PartialEq, Eq, Structural)]
pub enum ArmorError {
    /// Input length is not a multiple of five.
    InvalidLength(usize),
    /// The byte at this position is outside the 85-letter alphabet.
    InvalidByte(usize, u8),
    /// The 5-letter group starting at this position exceeds 32 bits.
    InvalidChunk(usize),
    /// The final padded group is malformed.
    InvalidTail,
}

/// The value of one armor letter, or -1 for a byte outside the alphabet:
/// digits, lower case, upper case, then the 23 punctuation letters, in
/// alphabet order.
pub open spec fn letter_value(b: u8) -> int {
    if 0x30 <= b && b <= 0x39 {  // '0' ..= '9'
        b - 0x30
    } else if 0x61 <= b && b <= 0x7A {  // 'a' ..= 'z'
        b - 0x61 + 10
    } else if 0x41 <= b && b <= 0x5A {  // 'A' ..= 'Z'
        b - 0x41 + 36
    } else if b == 0x2E {  // '.'
        62
    } else if b == 0x2D {  // '-'
        63
    } else if b == 0x3A {  // ':'
        64
    } else if b == 0x2B {  // '+'
        65
    } else if b == 0x3D {  // '='
        66
    } else if b == 0x5E {  // '^'
        67
    } else if b == 0x21 {  // '!'
        68
    } else if b == 0x2F {  // '/'
        69
    } else if b == 0x2A {  // '*'
        70
    } else if b == 0x3F {  // '?'
        71
    } else if b == 0x26 {  // '&'
        72
    } else if b == 0x3C {  // '<'
        73
    } else if b == 0x3E {  // '>'
        74
    } else if b == 0x28 {  // '('
        75
    } else if b == 0x29 {  // ')'
        76
    } else if b == 0x5B {  // '['
        77
    } else if b == 0x5D {  // ']'
        78
    } else if b == 0x7B {  // '{'
        79
    } else if b == 0x7D {  // '}'
        80
    } else if b == 0x40 {  // '@'
        81
    } else if b == 0x25 {  // '%'
        82
    } else if b == 0x24 {  // '$'
        83
    } else if b == 0x23 {  // '#'
        84
    } else {
        -1
    }
}

/// Whether a byte is an armor letter.
pub open spec fn is_letter(b: u8) -> bool {
    letter_value(b) >= 0
}

/// The index of the first byte of `s` outside the alphabet, or -1 if all of
/// `s` is armor letters.
pub open spec fn first_invalid(s: Seq<u8>) -> int
    decreases s.len(),
{
    if s.len() == 0 {
        -1
    } else if !is_letter(s[0]) {
        0
    } else {
        let r = first_invalid(s.subrange(1, s.len() as int));
        if r < 0 {
            -1
        } else {
            r + 1
        }
    }
}

/// The base-85 value of a group of letters, first letter most significant.
pub open spec fn group_value(s: Seq<u8>) -> int
    decreases s.len(),
{
    if s.len() == 0 {
        0
    } else {
        group_value(s.drop_last()) * 85 + letter_value(s.last())
    }
}

/// The four bytes of a 32-bit value, most significant first.
pub open spec fn be_bytes(n: int) -> Seq<u8>
    recommends
        0 <= n < 0x1_0000_0000,
{
    seq![
        (n / 0x1000000 % 0x100) as u8,
        (n / 0x10000 % 0x100) as u8,
        (n / 0x100 % 0x100) as u8,
        (n % 0x100) as u8,
    ]
}

/// Adds `off` to the position an error carries; lengths and tails are kept.
pub open spec fn offset_error(e: ArmorError, off: int) -> ArmorError {
    match e {
        ArmorError::InvalidByte(p, b) => ArmorError::InvalidByte((p + off) as usize, b),
        ArmorError::InvalidChunk(p) => ArmorError::InvalidChunk((p + off) as usize),
        _ => e,
    }
}

/// Decodes whole 5-letter groups, left to right: each group must be all
/// letters (else the first offender's position and byte are reported) and
/// fit in 32 bits (else the group's starting position is reported); a good
/// group contributes its value's four bytes, most significant first.
pub open spec fn decode_groups(s: Seq<u8>) -> Result<Seq<u8>, ArmorError>
    decreases s.len(),
{
    if s.len() < 5 {
        Ok(Seq::empty())
    } else {
        let g = s.subrange(0, 5);
        let bad = first_invalid(g);
        if bad >= 0 {
            Err(ArmorError::InvalidByte(bad as usize, g[bad]))
        } else if group_value(g) > 0xFFFF_FFFF {
            Err(ArmorError::InvalidChunk(0))
        } else {
            match decode_groups(s.subrange(5, s.len() as int)) {
                Ok(rest) => Ok(be_bytes(group_value(g)) + rest),
                Err(e) => Err(offset_error(e, 5)),
            }
        }
    }
}

/// How many `#` padding marks open the final group.
pub open spec fn pad_len(t: Seq<u8>) -> int
    decreases t.len(),
{
    if t.len() == 0 || t[0] != 0x23 {
        0
    } else {
        1 + pad_len(t.subrange(1, t.len() as int))
    }
}

/// Decodes a final padded group `t` of 5 bytes opening with `#`; `base` is
/// the position where `t` starts in the whole input. With `d` padding marks,
/// the remaining `5 - d` letters must decode below `256^(4 - d)`, and the
/// value's last `4 - d` bytes come out. More than 3 marks, or a value that
/// does not fit the shortened group, is a malformed tail. Positions carried
/// by letter and group errors here follow the decoder's own convention:
/// they are offset by five times the group's starting position.
pub open spec fn decode_pad_group(t: Seq<u8>, base: int) -> Result<Seq<u8>, ArmorError> {
    let d = pad_len(t);
    if d > 3 {
        Err(ArmorError::InvalidTail)
    } else {
        let g = t.subrange(d, 5);
        let bad = first_invalid(g);
        let limit: int = if d == 1 {
            0x100_0000
        } else if d == 2 {
            0x1_0000
        } else {
            0x100
        };
        if bad >= 0 {
            Err(ArmorError::InvalidByte((5 * base + bad) as usize, g[bad]))
        } else if group_value(g) > 0xFFFF_FFFF {
            Err(ArmorError::InvalidChunk((5 * base) as usize))
        } else if group_value(g) >= limit {
            Err(ArmorError::InvalidTail)
        } else {
            Ok(be_bytes(group_value(g)).subrange(d, 4))
        }
    }
}

/// Whether the input ends in a padded group: its last 5 bytes open with `#`.
pub open spec fn has_pad_group(s: Seq<u8>) -> bool {
    s.len() >= 5 && s[s.len() - 5] == 0x23
}

/// The whole decode: empty input gives no bytes; a length that is not a
/// multiple of five is rejected as such; otherwise every whole group decodes
/// in order, and a final padded group contributes its shortened output.
pub open spec fn decode_spec(s: Seq<u8>) -> Result<Seq<u8>, ArmorError> {
    if s.len() == 0 {
        Ok(Seq::empty())
    } else if s.len() % 5 != 0 {
        Err(ArmorError::InvalidLength(s.len() as usize))
    } else if has_pad_group(s) {
        match decode_groups(s.subrange(0, s.len() - 5)) {
            Ok(head) => match decode_pad_group(
                s.subrange(s.len() - 5, s.len() as int),
                s.len() - 5,
            ) {
                Ok(tail) => Ok(head + tail),
                Err(e) => Err(e),
            },
            Err(e) => Err(e),
        }
    } else {
        decode_groups(s)
    }
}

/// Relies on `z85::decode`: it returns exactly what `decode_spec` states --
/// group for group the base-85 value's big-endian bytes, with this module's
/// error for each rejected input -- as its source shows. The body only maps
/// the crate's error variants onto `ArmorError`, field for field.
#[verifier::external_body]
fn z85_decode(input: &[u8]) -> (r: Result<Vec<u8>, ArmorError>)
    ensures
        match r {
            Ok(v) => decode_spec(input@) matches Ok(s) && s == v@,
            Err(e) => decode_spec(input@) matches Err(e2) && e2 == e,
        },
{
    match z85::decode(input) {
        Ok(v) => Ok(v),
        Err(z85::DecodeError::InvalidLength(n)) => Err(ArmorError::InvalidLength(n)),
        Err(z85::DecodeError::InvalidByte(p, b)) => Err(ArmorError::InvalidByte(p, b)),
        Err(z85::DecodeError::InvalidChunk(p)) => Err(ArmorError::InvalidChunk(p)),
        Err(z85::DecodeError::InvalidTail) => Err(ArmorError::InvalidTail),
    }
}

/// Every whole group turns into exactly four bytes.
proof fn lemma_decode_groups_len(s: Seq<u8>)
    requires
        s.len() % 5 == 0,
    ensures
        decode_groups(s) matches Ok(o) ==> o.len() == s.len() / 5 * 4,
    decreases s.len(),
{
    if s.len() < 5 {
    } else {
        let rest = s.subrange(5, s.len() as int);
        assert(rest.len() % 5 == 0) by {
            vstd::arithmetic::div_mod::lemma_mod_sub_multiples_vanish(s.len() as int, 5);
        }
        lemma_decode_groups_len(rest);
        assert(s.len() / 5 == rest.len() / 5 + 1) by {
            vstd::arithmetic::div_mod::lemma_fundamental_div_mod(s.len() as int, 5);
            vstd::arithmetic::div_mod::lemma_fundamental_div_mod(rest.len() as int, 5);
            vstd::arithmetic::div_mod::lemma_fundamental_div_mod_converse_div(
                s.len() as int,
                5,
                rest.len() as int / 5 + 1,
                0,
            );
        }
    }
}

/// Decodes an armored input into its raw bytes: `Ok` exactly on the inputs
/// `decode_spec` accepts, with exactly its bytes, and the matching
/// `ArmorError` on every other input. Without a padded final group, a decoded
/// input of length `L` yields exactly `L / 5 * 4` bytes.
pub fn decode(input: &[u8]) -> (r: Result<Vec<u8>, ArmorError>)
    ensures
        match r {
            Ok(v) => decode_spec(input@) matches Ok(s) && s == v@,
            Err(e) => decode_spec(input@) matches Err(e2) && e2 == e,
        },
        r matches Ok(v) ==> (!has_pad_group(input@) ==> v@.len() == input@.len() / 5 * 4),
{
    let r = z85_decode(input);
    proof {
        if decode_spec(input@) is Ok && !has_pad_group(input@) {
            if input@.len() != 0 {
                lemma_decode_groups_len(input@);
            }
        }
    }
    r
}

} // verus!
