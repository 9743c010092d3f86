use vstd::prelude::*;

verus! {

#[verifier::external_type_specification]
#[verifier::external_body]
pub struct ExFromHexError(hex::FromHexError);

/// Why a text or byte string is not a content identifier.
#[derive(Debug)]
pub enum InfoHashError {
    InvalidHex(hex::FromHexError),
    InvalidLength(usize),
}

/// A content identifier: 20 or 32 raw bytes.
#[derive(Debug)]
pub struct InfoHash(Vec<u8>);

/// The identifier lengths, in bytes, that are accepted.
pub open spec fn valid_len(n: nat) -> bool {
    n == 20 || n == 32
}

pub open spec fn is_hex_char(c: char) -> bool {
    ('0' <= c && c <= '9') || ('a' <= c && c <= 'f') || ('A' <= c && c <= 'F')
}

pub open spec fn all_hex(s: Seq<char>) -> bool {
    forall|i: int| 0 <= i < s.len() ==> is_hex_char(#[trigger] s[i])
}

/// Whether `hex::decode` accepts the text: an even number of hex digits.
pub open spec fn hex_decodable(s: Seq<char>) -> bool {
    s.len() % 2 == 0 && all_hex(s)
}

pub open spec fn hex_value(c: char) -> int {
    if '0' <= c && c <= '9' {
        (c as int) - ('0' as int)
    } else if 'a' <= c && c <= 'f' {
        (c as int) - ('a' as int) + 10
    } else {
        (c as int) - ('A' as int) + 10
    }
}

/// The bytes that a string of hex digit pairs stands for.
pub open spec fn hex_decoded(s: Seq<char>) -> Seq<u8> {
    Seq::new((s.len() / 2) as nat, |i: int| (hex_value(s[2 * i]) * 16 + hex_value(s[2 * i + 1])) as u8)
}

/// The lowercase hex digit of a value below 16.
pub open spec fn hex_digit(v: int) -> char {
    if v < 10 {
        ((v + ('0' as int)) as u32) as char
    } else {
        ((v - 10 + ('a' as int)) as u32) as char
    }
}

/// Two lowercase hex digits for each byte, high half first.
pub open spec fn hex_encoded(b: Seq<u8>) -> Seq<char> {
    Seq::new(
        2 * b.len(),
        |i: int|
            if i % 2 == 0 {
                hex_digit(b[i / 2] as int / 16)
            } else {
                hex_digit(b[i / 2] as int % 16)
            },
    )
}

/// Relies on hex::decode: pairs of hex digits of either case become bytes; any
/// other text is an error.
#[verifier::external_body]
fn decode_hex(s: &str) -> (r: Result<Vec<u8>, hex::FromHexError>)
    ensures
        r is Ok <==> hex_decodable(s@),
        r matches Ok(v) ==> v@ == hex_decoded(s@),
{
    hex::decode(s)
}

/// Relies on hex::encode: two lowercase hex digits for each byte.
#[verifier::external_body]
fn encode_hex(b: &[u8]) -> (r: String)
    ensures
        r@ == hex_encoded(b@),
{
    hex::encode(b)
}

impl View for InfoHash {
    type V = Seq<u8>;

    closed spec fn view(&self) -> Seq<u8> {
        self.0@
    }
}

impl InfoHash {
    #[verifier::type_invariant]
    spec fn inv(self) -> bool {
        valid_len(self.0@.len())
    }

    /// Parses an identifier from hex text of either case.
    pub fn from_str(s: &str) -> (r: Result<Self, InfoHashError>)
        ensures
            r is Ok <==> hex_decodable(s@) && valid_len(s@.len() / 2),
            r matches Ok(h) ==> h@ == hex_decoded(s@),
            r matches Err(InfoHashError::InvalidHex(_)) <==> !hex_decodable(s@),
            r matches Err(InfoHashError::InvalidLength(n)) ==> n == s@.len() / 2,
    {
        match decode_hex(s) {
            Err(e) => Err(InfoHashError::InvalidHex(e)),
            Ok(decoded) => {
                let n = decoded.len();
                if n == 20 || n == 32 {
                    Ok(InfoHash(decoded))
                } else {
                    Err(InfoHashError::InvalidLength(n))
                }
            },
        }
    }

    /// Takes an identifier from its raw bytes.
    pub fn from_bytes(bytes: &[u8]) -> (r: Result<Self, InfoHashError>)
        ensures
            r is Ok <==> valid_len(bytes@.len()),
            r matches Ok(h) ==> h@ == bytes@,
            r matches Err(e) ==> (e matches InfoHashError::InvalidLength(n) && n == bytes@.len()),
    {
        if bytes.len() != 20 && bytes.len() != 32 {
            return Err(InfoHashError::InvalidLength(bytes.len()));
        }
        Ok(InfoHash(crate::bytes::copy_range(bytes, 0, bytes.len())))
    }

    /// The lowercase hex form of the identifier.
    pub fn to_string(&self) -> (r: String)
        ensures
            r@ == hex_encoded(self@),
            r@.len() == 2 * self@.len(),
    {
        encode_hex(self.0.as_slice())
    }

    /// The raw bytes, as used for the cache key.
    pub fn as_bytes(&self) -> (r: &[u8])
        ensures
            r@ == self@,
            valid_len(r@.len()),
    {
        proof {
            use_type_invariant(self);
        }
        self.0.as_slice()
    }
}

} // verus!
