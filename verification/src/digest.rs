//! Generation identities: the digest that names one state of the tree, and
//! its hexadecimal form on the wire.
use vstd::prelude::*;
use vstd::utf8::encode_utf8;
use crate::text::{bytes_eq, char_debug_of, debug_char, decimal_nat, push_nat};

verus! {

/// Number of bytes in a digest.
pub const DIGEST_BYTES: usize = 32;

/// Identity of one captured state of the tree.
#[derive(Clone, Copy, Debug, PartialEq, Eq)]
pub struct GenerationId {
    pub bytes: [u8; 32],
}

impl View for GenerationId {
    type V = Seq<u8>;

    open spec fn view(&self) -> Seq<u8> {
        self.bytes@
    }
}

impl GenerationId {
    /// Whether two identities are the same.
    pub fn same(&self, other: &GenerationId) -> (r: bool)
        ensures
            r == (*self == *other),
            r == (self@ == other@),
    {
        let r = bytes_eq(self.bytes.as_slice(), other.bytes.as_slice());
        proof {
            if self@ == other@ {
                assert(self.bytes =~= other.bytes);
            }
        }
        r
    }
}

/// The lower-case hexadecimal digit of a number below sixteen.
pub open spec fn hex_digit(n: int) -> char {
    if n < 10 { crate::text::digit(n) } else if n == 10 { 'a' } else if n == 11 { 'b' }
    else if n == 12 { 'c' } else if n == 13 { 'd' } else if n == 14 { 'e' } else { 'f' }
}

/// Lower-case hexadecimal form of bytes: two digits a byte, high half first.
pub open spec fn hex_of(bytes: Seq<u8>) -> Seq<char> {
    Seq::new(
        2 * bytes.len(),
        |i: int|
            if i % 2 == 0 {
                hex_digit(bytes[i / 2] as int / 16)
            } else {
                hex_digit(bytes[i / 2] as int % 16)
            },
    )
}

/// The number a hexadecimal digit of either case stands for.
pub open spec fn hex_value(c: char) -> Option<int> {
    if '0' <= c && c <= '9' {
        Some(c as int - '0' as int)
    } else if 'a' <= c && c <= 'f' {
        Some(c as int - 'a' as int + 10)
    } else if 'A' <= c && c <= 'F' {
        Some(c as int - 'A' as int + 10)
    } else {
        None
    }
}

/// Whether a text is an even number of hexadecimal digits of either case.
pub open spec fn is_hex_text(s: Seq<char>) -> bool {
    &&& s.len() % 2 == 0
    &&& forall|i: int| 0 <= i < s.len() ==> hex_value(#[trigger] s[i]) is Some
}

/// The bytes that a hexadecimal text stands for.
pub open spec fn unhex(s: Seq<char>) -> Seq<u8> {
    Seq::new(
        s.len() / 2,
        |i: int| (hex_value(s[2 * i])->0 * 16 + hex_value(s[2 * i + 1])->0) as u8,
    )
}

/// `hex::encode`: each byte as two lower-case digits, high half first.
#[verifier::external_body]
fn hex_encode(bytes: &[u8]) -> (r: String)
    requires
        2 * bytes@.len() <= usize::MAX,
    ensures
        r@ == hex_of(bytes@),
{
    hex::encode(bytes)
}

/// Why `hex::decode` finds no bytes in a text.
#[derive(Clone, Copy, Debug, PartialEq, Eq)]
pub enum HexFault {
    /// A byte that is no digit, taken for a character, and where it stands.
    Character { c: char, index: usize },
    OddLength,
    /// Of fixed numbers of bytes only.
    StringLength,
}

/// Whether a byte of a text is a hexadecimal digit.
pub open spec fn is_hex_byte(b: u8) -> bool {
    hex_value(b as char) is Some
}

/// Where the first byte is that is no hexadecimal digit.
pub open spec fn first_other(bytes: Seq<u8>) -> nat
    decreases bytes.len(),
{
    if bytes.len() == 0 || !is_hex_byte(bytes[0]) {
        0
    } else {
        1 + first_other(bytes.skip(1))
    }
}

/// `hex::decode`: the bytes of an even number of hexadecimal digits of either
/// case. Any other text is refused: for an odd number of bytes, or else for the
/// first byte that is no digit.
#[verifier::external_body]
fn hex_decode(text: &str) -> (r: Result<Vec<u8>, HexFault>)
    ensures
        r is Ok <==> is_hex_text(text@),
        match r {
            Ok(bytes) => bytes@ == unhex(text@),
            Err(HexFault::OddLength) => encode_utf8(text@).len() % 2 != 0,
            Err(HexFault::Character { c, index }) => {
                &&& encode_utf8(text@).len() % 2 == 0
                &&& index == first_other(encode_utf8(text@)) < encode_utf8(text@).len()
                &&& c == encode_utf8(text@)[index as int] as char
            },
            Err(HexFault::StringLength) => false,
        },
{
    hex::decode(text).map_err(|error| match error {
        hex::FromHexError::InvalidHexCharacter { c, index } => HexFault::Character { c, index },
        hex::FromHexError::OddLength => HexFault::OddLength,
        hex::FromHexError::InvalidStringLength => HexFault::StringLength,
    })
}

/// Lower-case hexadecimal form of bytes.
pub fn bytes_hex(bytes: &[u8]) -> (r: String)
    requires
        2 * bytes@.len() <= usize::MAX,
    ensures
        r@ == hex_of(bytes@),
{
    hex_encode(bytes)
}

/// Hexadecimal form of a generation's identity, for display and wire use.
pub fn generation_hex(generation: GenerationId) -> (r: String)
    ensures
        r@ == hex_of(generation@),
{
    hex_encode(generation.bytes.as_slice())
}

/// What is said of a text that holds no bytes in hexadecimal.
pub open spec fn hex_complaint(text: Seq<char>) -> Seq<char> {
    let bytes = encode_utf8(text);
    if bytes.len() % 2 != 0 {
        "Odd number of digits"@
    } else {
        "Invalid character "@ + char_debug_of(bytes[first_other(bytes) as int] as char)
            + " at position "@ + decimal_nat(first_other(bytes))
    }
}

/// What is said of a text that holds no bytes in hexadecimal.
fn complain(fault: HexFault) -> (r: String)
    ensures
        match fault {
            HexFault::Character { c, index } => r@ == "Invalid character "@ + char_debug_of(c)
                + " at position "@ + decimal_nat(index as nat),
            HexFault::OddLength => r@ == "Odd number of digits"@,
            HexFault::StringLength => r@ == "Invalid string length"@,
        },
{
    match fault {
        HexFault::Character { c, index } => {
            let mut message = "Invalid character ".to_owned();
            message.append(debug_char(c).as_str());
            message.append(" at position ");
            push_nat(&mut message, index as u64);
            message
        },
        HexFault::OddLength => "Odd number of digits".to_owned(),
        HexFault::StringLength => "Invalid string length".to_owned(),
    }
}

/// Why a text names no generation.
#[derive(Debug, PartialEq, Eq)]
pub enum DigestError {
    /// Not an even number of hexadecimal digits, with what is wrong.
    NotHex(String),
    /// Digits of another number of bytes than a digest has.
    WrongLength,
}

/// The generation that a hexadecimal text names.
pub fn decode_generation(text: &str) -> (r: Result<GenerationId, DigestError>)
    ensures
        match r {
            Ok(generation) => is_hex_text(text@) && text@.len() == 2 * DIGEST_BYTES && generation@
                == unhex(text@),
            Err(DigestError::NotHex(message)) => !is_hex_text(text@) && message@ == hex_complaint(
                text@,
            ),
            Err(DigestError::WrongLength) => is_hex_text(text@) && text@.len() != 2 * DIGEST_BYTES,
        },
{
    match hex_decode(text) {
        Err(fault) => Err(DigestError::NotHex(complain(fault))),
        Ok(bytes) => {
            if bytes.len() != DIGEST_BYTES {
                return Err(DigestError::WrongLength);
            }
            let generation = from_digest_bytes(bytes.as_slice());
            Ok(generation)
        },
    }
}

/// The generation whose digest is the given bytes.
pub fn from_digest_bytes(bytes: &[u8]) -> (r: GenerationId)
    requires
        bytes@.len() == DIGEST_BYTES,
    ensures
        r@ == bytes@,
{
    let mut digest: [u8; 32] = [0;32];
    let mut i: usize = 0;
    while i < DIGEST_BYTES
        invariant
            i <= DIGEST_BYTES == bytes@.len(),
            forall|j: int| 0 <= j < i ==> digest@[j] == bytes@[j],
        decreases DIGEST_BYTES - i,
    {
        digest[i] = bytes[i];
        i += 1;
    }
    assert(digest@ =~= bytes@);
    GenerationId { bytes: digest }
}

proof fn lemma_hex_digit_value(n: int)
    requires
        0 <= n < 16,
    ensures
        hex_value(hex_digit(n)) == Some(n),
{
}

/// Decoding the hexadecimal form of bytes gives the bytes back.
pub proof fn law_hex_round_trip(bytes: Seq<u8>)
    ensures
        is_hex_text(hex_of(bytes)),
        unhex(hex_of(bytes)) == bytes,
{
    let s = hex_of(bytes);
    assert forall|i: int| 0 <= i < s.len() implies hex_value(#[trigger] s[i]) is Some by {
        lemma_hex_digit_value(bytes[i / 2] as int / 16);
        lemma_hex_digit_value(bytes[i / 2] as int % 16);
    }
    assert forall|i: int| 0 <= i < bytes.len() implies unhex(s)[i] == bytes[i] by {
        lemma_hex_digit_value(bytes[i] as int / 16);
        lemma_hex_digit_value(bytes[i] as int % 16);
        assert(s[2 * i] == hex_digit(bytes[i] as int / 16));
        assert(s[2 * i + 1] == hex_digit(bytes[i] as int % 16));
    }
    assert(unhex(s) =~= bytes);
}

} // verus!
