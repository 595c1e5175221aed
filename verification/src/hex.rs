//! Hexadecimal text: the encoding that the handshake uses for public keys and salts.
use vstd::prelude::*;
use vstd::string::StringSliceAdditionalSpecFns;
use vstd::utf8::*;

use crate::text::{digit, digit_char, push_char};

verus! {

broadcast use vstd::utf8::is_ascii_chars_encode_utf8;

/// Why a string is not a hexadecimal byte string.
#[derive(Debug, Clone, Copy, PartialEq, Eq, Structural)]
pub enum HexError {
    /// The string has an odd number of bytes.
    OddLength,
    /// A byte of the string is not a hexadecimal digit.
    InvalidHexChar,
}

impl HexError {
    /// The message that reports this error.
    pub fn message(&self) -> (s: String)
        ensures
            s@ == hex_error_message(*self),
    {
        match self {
            HexError::OddLength => "Odd length hex string".to_owned(),
            HexError::InvalidHexChar => "Invalid hex char".to_owned(),
        }
    }
}

/// The message text of each error.
pub open spec fn hex_error_message(e: HexError) -> Seq<char> {
    match e {
        HexError::OddLength => "Odd length hex string"@,
        HexError::InvalidHexChar => "Invalid hex char"@,
    }
}

/// The value of a hexadecimal digit byte (`0-9`, `a-f`, `A-F`), as `char::to_digit(16)` gives it.
pub open spec fn hex_value(b: u8) -> Option<u8> {
    if 48 <= b <= 57 {
        Some((b - 48) as u8)
    } else if 97 <= b <= 102 {
        Some((b - 87) as u8)
    } else if 65 <= b <= 70 {
        Some((b - 55) as u8)
    } else {
        None
    }
}

/// Every byte is a hexadecimal digit.
pub open spec fn all_hex_digits(b: Seq<u8>) -> bool {
    forall|i: int| 0 <= i < b.len() ==> (#[trigger] hex_value(b[i])) is Some
}

/// The byte that the digit pair at positions `2 * i` and `2 * i + 1` stands for.
pub open spec fn pair_value(b: Seq<u8>, i: int) -> u8 {
    (hex_value(b[2 * i])->0 * 16 + hex_value(b[2 * i + 1])->0) as u8
}

/// Decoding of a hexadecimal byte string: an odd length is refused first, then any byte that
/// is not a digit; otherwise each pair of digits, high digit first, gives one byte.
pub open spec fn decode_hex(b: Seq<u8>) -> Result<Seq<u8>, HexError> {
    if b.len() % 2 != 0 {
        Err(HexError::OddLength)
    } else if !all_hex_digits(b) {
        Err(HexError::InvalidHexChar)
    } else {
        Ok(Seq::new(b.len() / 2, |i: int| pair_value(b, i)))
    }
}

/// The two lowercase digits of a byte (the `{:02x}` format).
pub open spec fn byte_hex(b: u8) -> Seq<char> {
    seq![digit_char((b / 16) as nat), digit_char((b % 16) as nat)]
}

/// Lowercase hexadecimal encoding, two digits per byte.
pub open spec fn hex_encode(bytes: Seq<u8>) -> Seq<char>
    decreases bytes.len(),
{
    if bytes.len() == 0 {
        Seq::empty()
    } else {
        hex_encode(bytes.drop_last()) + byte_hex(bytes.last())
    }
}

/// The value of one hexadecimal digit byte.
pub fn hex_digit_value(b: u8) -> (r: Option<u8>)
    ensures
        r == hex_value(b),
{
    if 48 <= b && b <= 57 {
        Some(b - 48)
    } else if 97 <= b && b <= 102 {
        Some(b - 87)
    } else if 65 <= b && b <= 70 {
        Some(b - 55)
    } else {
        None
    }
}

/// Decodes a hexadecimal string into bytes.
pub fn hex_to_bytes(s: &str) -> (r: Result<Vec<u8>, HexError>)
    ensures
        match r {
            Ok(v) => decode_hex(s.spec_bytes()) == Ok::<Seq<u8>, HexError>(v@),
            Err(e) => decode_hex(s.spec_bytes()) == Err::<Seq<u8>, HexError>(e),
        },
{
    let b = s.as_bytes();
    let n = b.len();
    if n % 2 != 0 {
        return Err(HexError::OddLength);
    }
    let mut out: Vec<u8> = Vec::with_capacity(n / 2);
    let mut i: usize = 0;
    while i < n / 2
        invariant
            n == b@.len(),
            b@ == s.spec_bytes(),
            n % 2 == 0,
            i <= n / 2,
            forall|k: int| 0 <= k < 2 * i ==> (#[trigger] hex_value(b@[k])) is Some,
            out@ == Seq::new(i as nat, |k: int| pair_value(b@, k)),
        decreases n / 2 - i,
    {
        let high = match hex_digit_value(b[2 * i]) {
            Some(v) => v,
            None => {
                return Err(HexError::InvalidHexChar);
            },
        };
        let low = match hex_digit_value(b[2 * i + 1]) {
            Some(v) => v,
            None => {
                return Err(HexError::InvalidHexChar);
            },
        };
        out.push(high * 16 + low);
        i = i + 1;
        assert(out@ =~= Seq::new(i as nat, |k: int| pair_value(b@, k)));
    }
    assert(all_hex_digits(b@));
    Ok(out)
}

/// Encodes bytes as lowercase hexadecimal text, two digits per byte.
pub fn bytes_to_hex(bytes: &[u8]) -> (s: String)
    ensures
        s@ == hex_encode(bytes@),
{
    let mut s = String::new();
    let mut i: usize = 0;
    while i < bytes.len()
        invariant
            i <= bytes@.len(),
            s@ == hex_encode(bytes@.take(i as int)),
        decreases bytes@.len() - i,
    {
        let b = bytes[i];
        proof {
            assert(bytes@.take(i + 1).drop_last() =~= bytes@.take(i as int));
            assert(bytes@.take(i + 1).last() == b);
        }
        push_char(&mut s, digit((b / 16) as u64));
        push_char(&mut s, digit((b % 16) as u64));
        i = i + 1;
        assert(s@ =~= hex_encode(bytes@.take(i as int)));
    }
    assert(bytes@.take(bytes@.len() as int) =~= bytes@);
    s
}

proof fn lemma_hex_encode_shape(bytes: Seq<u8>)
    ensures
        hex_encode(bytes).len() == 2 * bytes.len(),
        forall|i: int|
            0 <= i < bytes.len() ==> hex_encode(bytes)[2 * i] == digit_char((bytes[i] / 16) as nat)
                && hex_encode(bytes)[2 * i + 1] == digit_char((bytes[i] % 16) as nat),
    decreases bytes.len(),
{
    if bytes.len() > 0 {
        let prev = bytes.drop_last();
        lemma_hex_encode_shape(prev);
        assert forall|i: int| 0 <= i < bytes.len() implies hex_encode(bytes)[2 * i] == digit_char(
            (bytes[i] / 16) as nat,
        ) && hex_encode(bytes)[2 * i + 1] == digit_char((bytes[i] % 16) as nat) by {
            if i < prev.len() {
                assert(prev[i] == bytes[i]);
            }
        }
    }
}

proof fn lemma_digit_value(d: nat)
    requires
        d < 16,
    ensures
        (digit_char(d) as u32) < 128,
        hex_value(digit_char(d) as u8) == Some(d as u8),
{
}

/// The value of the `k`-th digit of the hexadecimal text of `bytes`: high half first.
spec fn nibble(bytes: Seq<u8>, k: int) -> u8 {
    if k % 2 == 0 {
        bytes[k / 2] / 16
    } else {
        bytes[k / 2] % 16
    }
}

/// ASCII text whose digits stand for the halves of `bytes`, in order, decodes to `bytes`.
proof fn lemma_decode_digits(bytes: Seq<u8>, h: Seq<char>)
    requires
        h.len() == 2 * bytes.len(),
        forall|k: int|
            0 <= k < h.len() ==> '\0' <= #[trigger] h[k] <= '\u{7f}' && hex_value(h[k] as u8)
                == Some(nibble(bytes, k)),
    ensures
        decode_hex(encode_utf8(h)) == Ok::<Seq<u8>, HexError>(bytes),
{
    assert(is_ascii_chars(h));
    let e = encode_utf8(h);
    assert(e.len() == h.len());
    assert forall|k: int| 0 <= k < e.len() implies (#[trigger] hex_value(e[k])) is Some by {
        assert(e[k] == h[k] as u8);
    }
    assert(all_hex_digits(e));
    assert forall|i: int| 0 <= i < bytes.len() implies pair_value(e, i) == bytes[i] by {
        assert(e[2 * i] == h[2 * i] as u8);
        assert(e[2 * i + 1] == h[2 * i + 1] as u8);
        assert(nibble(bytes, 2 * i) == bytes[i] / 16);
        assert(nibble(bytes, 2 * i + 1) == bytes[i] % 16);
    }
    assert(Seq::new(e.len() / 2, |i: int| pair_value(e, i)) =~= bytes);
}

/// Hexadecimal encoding can be undone: the bytes that `bytes_to_hex` writes, read back by
/// `hex_to_bytes`, give the same bytes back.
pub proof fn law_hex_roundtrip(bytes: Seq<u8>)
    ensures
        decode_hex(encode_utf8(hex_encode(bytes))) == Ok::<Seq<u8>, HexError>(bytes),
{
    let h = hex_encode(bytes);
    lemma_hex_encode_shape(bytes);
    assert forall|k: int| 0 <= k < h.len() implies '\0' <= #[trigger] h[k] <= '\u{7f}'
        && hex_value(h[k] as u8) == Some(nibble(bytes, k)) by {
        let i = k / 2;
        if k % 2 == 0 {
            assert(k == 2 * i);
            lemma_digit_value((bytes[i] / 16) as nat);
        } else {
            assert(k == 2 * i + 1);
            lemma_digit_value((bytes[i] % 16) as nat);
        }
    }
    lemma_decode_digits(bytes, h);
}

/// The character with ASCII lowercase letters made uppercase.
pub open spec fn upper_char(c: char) -> char {
    if 'a' <= c <= 'z' {
        ((c as u32 - 32) as u32) as char
    } else {
        c
    }
}

/// The text with ASCII lowercase letters made uppercase (what `str::to_uppercase` does to
/// ASCII text).
pub open spec fn ascii_upper(s: Seq<char>) -> Seq<char> {
    Seq::new(s.len(), |i: int| upper_char(s[i]))
}

/// Uppercase digits are read as the lowercase ones: the text of `bytes_to_hex`, uppercased,
/// is read back by `hex_to_bytes` as the same bytes.
pub proof fn law_hex_uppercase_roundtrip(bytes: Seq<u8>)
    ensures
        decode_hex(encode_utf8(ascii_upper(hex_encode(bytes)))) == Ok::<Seq<u8>, HexError>(bytes),
{
    let h = hex_encode(bytes);
    let u = ascii_upper(h);
    lemma_hex_encode_shape(bytes);
    assert forall|k: int| 0 <= k < u.len() implies '\0' <= #[trigger] u[k] <= '\u{7f}'
        && hex_value(u[k] as u8) == Some(nibble(bytes, k)) by {
        let i = k / 2;
        if k % 2 == 0 {
            assert(k == 2 * i);
            lemma_upper_digit_value((bytes[i] / 16) as nat);
        } else {
            assert(k == 2 * i + 1);
            lemma_upper_digit_value((bytes[i] % 16) as nat);
        }
    }
    lemma_decode_digits(bytes, u);
}

proof fn lemma_upper_digit_value(d: nat)
    requires
        d < 16,
    ensures
        (upper_char(digit_char(d)) as u32) < 128,
        hex_value(upper_char(digit_char(d)) as u8) == Some(d as u8),
{
}

} // verus!
