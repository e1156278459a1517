//! Hexadecimal text: two digits for a byte, the high four bits first.

use vstd::prelude::*;

verus! {

/// The lower-case hexadecimal digit for `n`, which is below sixteen.
pub open spec fn hex_digit(n: u8) -> char {
    if n < 10 {
        (0x30 + n) as u8 as char
    } else {
        (0x57 + n) as u8 as char
    }
}

/// `bytes` in lower-case hexadecimal: two digits for each byte, the high
/// four bits first.
pub open spec fn hex_lower(bytes: Seq<u8>) -> Seq<char> {
    Seq::new(
        2 * bytes.len(),
        |i: int|
            if i % 2 == 0 {
                hex_digit(bytes[i / 2] / 16)
            } else {
                hex_digit(bytes[i / 2] % 16)
            },
    )
}

/// The value of a hexadecimal digit of either case, `None` for any other
/// character.
pub open spec fn nibble_of(c: char) -> Option<u8> {
    if '0' <= c <= '9' {
        Some((c as u8 - 0x30) as u8)
    } else if 'a' <= c <= 'f' {
        Some((c as u8 - 0x57) as u8)
    } else if 'A' <= c <= 'F' {
        Some((c as u8 - 0x37) as u8)
    } else {
        None
    }
}

/// Every character of `text` is a hexadecimal digit, and their number is even.
pub open spec fn is_hex(text: Seq<char>) -> bool {
    &&& text.len() % 2 == 0
    &&& forall|i: int| 0 <= i < text.len() ==> nibble_of(#[trigger] text[i]) is Some
}

/// The bytes that the hexadecimal text `text` stands for.
pub open spec fn hex_value(text: Seq<char>) -> Seq<u8> {
    Seq::new(
        text.len() / 2,
        |i: int| (nibble_of(text[2 * i]).unwrap() * 16 + nibble_of(text[2 * i + 1]).unwrap()) as u8,
    )
}

/// A digit that `hex_digit` writes reads back as the value it was written for.
pub proof fn lemma_nibble_of_hex_digit(n: u8)
    requires
        n < 16,
    ensures
        nibble_of(hex_digit(n)) == Some(n),
{
}

/// Reading inverts writing: the hexadecimal text of bytes is hexadecimal
/// and stands for those bytes.
pub proof fn lemma_hex_round_trip(bytes: Seq<u8>)
    ensures
        is_hex(hex_lower(bytes)),
        hex_value(hex_lower(bytes)) == bytes,
        hex_lower(bytes).len() == 2 * bytes.len(),
{
    let text = hex_lower(bytes);
    assert forall|i: int| 0 <= i < text.len() implies nibble_of(#[trigger] text[i]) is Some by {
        lemma_nibble_of_hex_digit(bytes[i / 2] / 16);
        lemma_nibble_of_hex_digit(bytes[i / 2] % 16);
    }
    assert forall|i: int| 0 <= i < bytes.len() implies hex_value(text)[i] == bytes[i] by {
        lemma_nibble_of_hex_digit(bytes[i] / 16);
        lemma_nibble_of_hex_digit(bytes[i] % 16);
        assert(text[2 * i] == hex_digit(bytes[i] / 16));
        assert(text[2 * i + 1] == hex_digit(bytes[i] % 16));
    }
    assert(hex_value(text) =~= bytes);
}

/// Writes `data` in lower-case hexadecimal with `hex::encode`.
///
/// Not proved: that the string returned holds, for each byte in turn, the
/// digit of its high four bits and then the digit of its low four bits,
/// taken from `0123456789abcdef`.
#[verifier::external_body]
pub(crate) fn hex_encode(data: &[u8]) -> (text: String)
    ensures
        text@ == hex_lower(data@),
{
    hex::encode(data)
}

/// The value of the ASCII hexadecimal digit `b`, of either case.
pub fn nibble(b: u8) -> (value: Option<u8>)
    ensures
        value == nibble_of(b as char),
        value matches Some(v) ==> v < 16,
{
    if 0x30 <= b && b <= 0x39 {
        Some(b - 0x30)
    } else if 0x61 <= b && b <= 0x66 {
        Some(b - 0x57)
    } else if 0x41 <= b && b <= 0x46 {
        Some(b - 0x37)
    } else {
        None
    }
}

/// Reads hexadecimal text of either case into the bytes it stands for.
/// `None` where a character is no hexadecimal digit or their number is odd.
pub fn hex_decode(text: &str) -> (bytes: Option<Vec<u8>>)
    ensures
        match bytes {
            Some(value) => is_hex(text@) && value@ == hex_value(text@),
            None => !is_hex(text@),
        },
{
    if !text.is_ascii() {
        proof {
            let i = choose|i: int|
                0 <= i < text@.len() && !('\0' <= #[trigger] text@[i] <= '\u{7f}');
            assert(nibble_of(text@[i]) is None);
        }
        return None;
    }
    let ascii = text.as_bytes();
    proof {
        vstd::string::is_ascii_spec_bytes(text);
    }
    if ascii.len() % 2 != 0 {
        return None;
    }
    let mut value: Vec<u8> = Vec::new();
    let mut i: usize = 0;
    while i < ascii.len() / 2
        invariant
            ascii@.len() == text@.len(),
            ascii@.len() % 2 == 0,
            forall|j: int| 0 <= j < text@.len() ==> ascii@[j] == text@[j] as u8,
            forall|j: int| 0 <= j < text@.len() ==> '\0' <= #[trigger] text@[j] <= '\u{7f}',
            i <= ascii@.len() / 2,
            value@.len() == i,
            forall|j: int| 0 <= j < 2 * i ==> nibble_of(#[trigger] text@[j]) is Some,
            forall|j: int| 0 <= j < i ==> value@[j] == hex_value(text@)[j],
        decreases ascii@.len() / 2 - i,
    {
        let high = nibble(ascii[2 * i]);
        let low = nibble(ascii[2 * i + 1]);
        proof {
            assert(ascii@[2 * i] as char == text@[2 * i]);
            assert(ascii@[2 * i + 1] as char == text@[2 * i + 1]);
        }
        match (high, low) {
            (Some(h), Some(l)) => {
                value.push(h * 16 + l);
            },
            _ => {
                return None;
            },
        }
        i = i + 1;
    }
    assert(value@ =~= hex_value(text@));
    Some(value)
}

} // verus!
