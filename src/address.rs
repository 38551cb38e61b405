use vstd::prelude::*;
use vstd::string::*;

use crate::signatures::{hex_digit, hex_encode, hex_of, is_hex_digit, keccak256, keccak_of, lemma_hex_len};
use crate::source::upper_hex_digit;

verus! {

/// Hexadecimal digits in an address, without its `0x`.
pub const ADDRESS_LENGTH: usize = 40;

const LOWER_DIGITS: &'static str = "0123456789abcdef";
const UPPER_DIGITS: &'static str = "0123456789ABCDEF";

#[derive(Debug, PartialEq, Eq, Structural)]
pub enum AddressError {
    InvalidHex,
    InvalidAddress,
}

/// Whether `s` is forty hexadecimal digits.
pub open spec fn is_address_text(s: Seq<char>) -> bool {
    s.len() == ADDRESS_LENGTH && forall|i: int| 0 <= i < s.len() ==> is_hex_digit(#[trigger] s[i])
}

/// Whether `address` is forty hexadecimal digits.
pub fn is_valid(address: &str) -> (r: bool)
    ensures
        r == is_address_text(address@),
{
    let n = address.unicode_len();
    if n != ADDRESS_LENGTH {
        return false;
    }
    let mut i: usize = 0;
    while i < n
        invariant
            n == address@.len(),
            i <= n,
            forall|j: int| 0 <= j < i ==> is_hex_digit(#[trigger] address@[j]),
        decreases n - i,
    {
        let c = address.get_char(i);
        if !(('0' <= c && c <= '9') || ('a' <= c && c <= 'f') || ('A' <= c && c <= 'F')) {
            return false;
        }
        i = i + 1;
    }
    true
}

/// `s` without every leading `0x`.
pub open spec fn strip_0x(s: Seq<char>) -> Seq<char>
    decreases s.len(),
{
    if s.len() >= 2 && s[0] == '0' && s[1] == 'x' {
        strip_0x(s.subrange(2, s.len() as int))
    } else {
        s
    }
}

/// The value of a hexadecimal digit of either case.
pub open spec fn hex_val(c: char) -> nat {
    if '0' <= c && c <= '9' {
        (c as nat - '0' as nat) as nat
    } else if 'a' <= c && c <= 'f' {
        (c as nat - 'a' as nat + 10) as nat
    } else {
        (c as nat - 'A' as nat + 10) as nat
    }
}

/// Whether a digit of the hash asks for an upper-case letter: a value above 7.
pub open spec fn asks_upper(h: char) -> bool {
    ('8' <= h && h <= '9') || ('a' <= h && h <= 'f')
}

/// The bytes hashed for the checksum: the address in lower case.
pub open spec fn lower_bytes(t: Seq<char>) -> Seq<u8> {
    Seq::new(t.len(), |i: int| hex_digit(hex_val(t[i])) as u8)
}

/// The mixed-case checksum form of forty hexadecimal digits: each digit is
/// upper case where the matching digit of the Keccak-256 hash of the
/// lower-case address is above 7.
pub open spec fn checksummed(t: Seq<char>) -> Seq<char> {
    let h = hex_of(keccak_of(lower_bytes(t)));
    Seq::new(
        t.len(),
        |i: int|
            if asks_upper(h[i]) {
                upper_hex_digit(hex_val(t[i]))
            } else {
                hex_digit(hex_val(t[i]))
            },
    )
}

/// The address `s` stands for, `0x` and checksummed, if it is one.
pub open spec fn checksummed_address(s: Seq<char>) -> Option<Seq<char>> {
    let t = strip_0x(s);
    if is_address_text(t) {
        Some(seq!['0', 'x'] + checksummed(t))
    } else {
        None
    }
}

fn strip_prefix(s: &str) -> (r: &str)
    ensures
        r@ == strip_0x(s@),
    decreases s@.len(),
{
    let n = s.unicode_len();
    if n >= 2 && s.get_char(0) == '0' && s.get_char(1) == 'x' {
        strip_prefix(s.substring_char(2, n))
    } else {
        s
    }
}

fn digit_value(c: char) -> (r: usize)
    requires
        is_hex_digit(c),
    ensures
        r as nat == hex_val(c),
        r < 16,
{
    if '0' <= c && c <= '9' {
        (c as u32 - '0' as u32) as usize
    } else if 'a' <= c && c <= 'f' {
        (c as u32 - 'a' as u32 + 10) as usize
    } else {
        (c as u32 - 'A' as u32 + 10) as usize
    }
}

/// The address `address` stands for, with `0x` and the checksum casing.
pub fn from_str(address: &str) -> (r: Result<String, AddressError>)
    ensures
        checksummed_address(address@) is None ==> r == Err::<String, AddressError>(AddressError::InvalidHex),
        checksummed_address(address@) matches Some(a) ==> (r matches Ok(s) && s@ == a),
{
    let trimmed = strip_prefix(address);
    if !is_valid(trimmed) {
        return Err(AddressError::InvalidHex);
    }
    proof {
        reveal_strlit("0123456789abcdef");
        reveal_strlit("0123456789ABCDEF");
    }
    assert(LOWER_DIGITS@ == seq!['0', '1', '2', '3', '4', '5', '6', '7', '8', '9', 'a', 'b', 'c', 'd', 'e', 'f']);
    assert(UPPER_DIGITS@ == seq!['0', '1', '2', '3', '4', '5', '6', '7', '8', '9', 'A', 'B', 'C', 'D', 'E', 'F']);
    let ghost t = trimmed@;
    let mut bytes: Vec<u8> = Vec::new();
    let mut i: usize = 0;
    while i < ADDRESS_LENGTH
        invariant
            t == trimmed@,
            is_address_text(t),
            LOWER_DIGITS@ == seq!['0', '1', '2', '3', '4', '5', '6', '7', '8', '9', 'a', 'b', 'c', 'd', 'e', 'f'],
            i <= ADDRESS_LENGTH,
            bytes@ == lower_bytes(t).subrange(0, i as int),
        decreases ADDRESS_LENGTH - i,
    {
        let v = digit_value(trimmed.get_char(i));
        let lc = LOWER_DIGITS.get_char(v);
        bytes.push(lc as u8);
        proof {
            assert(lower_bytes(t).subrange(0, i + 1) == lower_bytes(t).subrange(0, i as int).push(
                hex_digit(hex_val(t[i as int])) as u8,
            ));
        }
        i = i + 1;
    }
    assert(lower_bytes(t).subrange(0, 40) == lower_bytes(t));
    let digest = keccak256(bytes.as_slice());
    let hash = hex_encode(digest.as_slice());
    proof {
        lemma_hex_len(digest@);
    }
    let mut out = String::from_str("0x");
    proof {
        reveal_strlit("0x");
    }
    let mut k: usize = 0;
    while k < ADDRESS_LENGTH
        invariant
            t == trimmed@,
            is_address_text(t),
            LOWER_DIGITS@ == seq!['0', '1', '2', '3', '4', '5', '6', '7', '8', '9', 'a', 'b', 'c', 'd', 'e', 'f'],
            UPPER_DIGITS@ == seq!['0', '1', '2', '3', '4', '5', '6', '7', '8', '9', 'A', 'B', 'C', 'D', 'E', 'F'],
            hash@ == hex_of(keccak_of(lower_bytes(t))),
            hash@.len() == 64,
            k <= ADDRESS_LENGTH,
            out@ == seq!['0', 'x'] + checksummed(t).subrange(0, k as int),
        decreases ADDRESS_LENGTH - k,
    {
        let v = digit_value(trimmed.get_char(k));
        let h = hash.as_str().get_char(k);
        let up = ('8' <= h && h <= '9') || ('a' <= h && h <= 'f');
        let piece = if up {
            UPPER_DIGITS.substring_char(v, v + 1)
        } else {
            LOWER_DIGITS.substring_char(v, v + 1)
        };
        proof {
            assert(piece@ =~= seq![checksummed(t)[k as int]]);
            assert(checksummed(t).subrange(0, k + 1) =~= checksummed(t).subrange(0, k as int).push(
                checksummed(t)[k as int],
            ));
        }
        out.append(piece);
        proof {
            assert(out@ =~= seq!['0', 'x'] + checksummed(t).subrange(0, k + 1));
        }
        k = k + 1;
    }
    assert(checksummed(t).subrange(0, 40) =~= checksummed(t));
    Ok(out)
}

} // verus!
