//! The selector of a function: the first four bytes of the Keccak-256 digest
//! of its canonical signature, as lowercase hex.

use vstd::prelude::*;

use crate::signature::{normalize, parse_the_function};

verus! {

/// Why a selector could not be computed.
#[derive(Debug)]
pub enum SelectorError {
    /// The signature to hash is empty.
    InvalidInput(String),
    /// Text could not be read as UTF-8.
    Utf8Error(String),
}

/// The text that describes an error to a user.
pub open spec fn error_text(e: SelectorError) -> Seq<char> {
    match e {
        SelectorError::InvalidInput(m) => "Invalid input: "@ + m@,
        SelectorError::Utf8Error(m) => "UTF-8 conversion error: "@ + m@,
    }
}

impl SelectorError {
    /// The text that describes this error to a user.
    pub fn to_string(&self) -> (r: String)
        ensures
            r@ == error_text(*self),
    {
        match self {
            SelectorError::InvalidInput(m) => {
                let mut r = String::from_str("Invalid input: ");
                r.append(m.as_str());
                r
            },
            SelectorError::Utf8Error(m) => {
                let mut r = String::from_str("UTF-8 conversion error: ");
                r.append(m.as_str());
                r
            },
        }
    }
}

/// The Keccak-256 digest of the UTF-8 encoding of a string.
pub uninterp spec fn keccak_of(s: Seq<char>) -> Seq<u8>;

/// Relies on `alloy::primitives::keccak256`: the 32-byte Keccak-256 digest
/// of the string's bytes, a function of them alone.
#[verifier::external_body]
fn keccak(s: &str) -> (r: Vec<u8>)
    ensures
        r@ == keccak_of(s@),
        r@.len() == 32,
{
    alloy::primitives::keccak256(s).0.to_vec()
}

/// The lowercase hexadecimal digits.
pub open spec fn hex_digits() -> Seq<char> {
    seq!['0', '1', '2', '3', '4', '5', '6', '7', '8', '9', 'a', 'b', 'c', 'd', 'e', 'f']
}

/// Lowercase hex of `b`: two digits per byte, the high nibble first.
pub open spec fn hex_of(b: Seq<u8>) -> Seq<char> {
    Seq::new(
        2 * b.len(),
        |i: int|
            if i % 2 == 0 {
                hex_digits()[b[i / 2] as int / 16]
            } else {
                hex_digits()[b[i / 2] as int % 16]
            },
    )
}

/// Relies on `alloy::hex::encode`: lowercase hex, two digits per byte, the
/// high nibble first, without prefix or separators.
#[verifier::external_body]
fn hex_encode(b: &Vec<u8>) -> (r: String)
    ensures
        r@ == hex_of(b@),
{
    alloy::hex::encode(b)
}

/// Whether `c` is one of `0-9` or `a-f`.
pub open spec fn is_lower_hex(c: char) -> bool {
    ('0' as u32 <= c as u32 && c as u32 <= '9' as u32) || ('a' as u32 <= c as u32 && c as u32
        <= 'f' as u32)
}

/// The selector text of a digest: its first four bytes in lowercase hex.
pub open spec fn selector_text(digest: Seq<u8>) -> Seq<char> {
    hex_of(digest.subrange(0, 4))
}

/// The message of the error for an empty signature.
pub open spec fn empty_name_text() -> Seq<char> {
    "Function name is empty."@
}

/// Whether `r` is what hashing the signature `sig` gives: the selector text
/// of its digest, or, for an empty signature, an `InvalidInput` error.
pub open spec fn selector_outcome(sig: Seq<char>, r: Result<String, SelectorError>) -> bool {
    match r {
        Ok(h) => sig.len() > 0 && h@ == selector_text(keccak_of(sig)),
        Err(SelectorError::InvalidInput(m)) => sig.len() == 0 && m@ == empty_name_text(),
        Err(SelectorError::Utf8Error(_)) => false,
    }
}

/// A selector text is eight characters, each a lowercase hex digit.
pub proof fn lemma_selector_text_shape(digest: Seq<u8>)
    requires
        digest.len() >= 4,
    ensures
        selector_text(digest).len() == 8,
        forall|i: int| 0 <= i < 8 ==> is_lower_hex(#[trigger] selector_text(digest)[i]),
{
    assert forall|n: int| 0 <= n < 16 implies is_lower_hex(#[trigger] hex_digits()[n]) by {
        assert(0 <= n < 16);
    }
    let b = digest.subrange(0, 4);
    assert forall|i: int| 0 <= i < 8 implies is_lower_hex(#[trigger] selector_text(digest)[i]) by {
        assert(0 <= b[i / 2] as int / 16 < 16);
        assert(0 <= b[i / 2] as int % 16 < 16);
    }
}

/// The selector text of `digest`: its first four bytes in lowercase hex.
pub fn selector_from_digest(digest: &Vec<u8>) -> (r: String)
    requires
        digest@.len() >= 4,
    ensures
        r@ == selector_text(digest@),
        r@.len() == 8,
        forall|i: int| 0 <= i < 8 ==> is_lower_hex(#[trigger] r@[i]),
{
    let first = vec![digest[0], digest[1], digest[2], digest[3]];
    assert(first@ =~= digest@.subrange(0, 4));
    proof {
        lemma_selector_text_shape(digest@);
    }
    hex_encode(&first)
}

/// A function signature in canonical form.
#[derive(Debug)]
pub struct Selector {
    pub function_name: String,
}

impl Selector {
    /// Holds the canonical form of `function_name`; input that cannot be
    /// read as a signature is held as the error text that normalization gives.
    pub fn new(function_name: String) -> (r: Self)
        ensures
            r.function_name@ == normalize(function_name@),
    {
        let function = parse_the_function(function_name.as_str());
        Self { function_name: function }
    }

    /// The selector of the held signature, in lowercase hex.
    pub fn turn_function_name_to_bytes(&self) -> (r: Result<String, SelectorError>)
        ensures
            selector_outcome(self.function_name@, r),
            r matches Ok(h) ==> h@.len() == 8 && forall|i: int|
                0 <= i < 8 ==> is_lower_hex(#[trigger] h@[i]),
    {
        if self.function_name.as_str().is_empty() {
            return Err(SelectorError::InvalidInput(String::from_str("Function name is empty.")));
        }
        let hash = keccak(self.function_name.as_str());
        Ok(selector_from_digest(&hash))
    }
}

/// Hashing is deterministic: two outcomes that both meet the contract of
/// hashing one signature are the same text, or the same error.
pub proof fn lemma_selector_deterministic(
    sig: Seq<char>,
    r1: Result<String, SelectorError>,
    r2: Result<String, SelectorError>,
)
    requires
        selector_outcome(sig, r1),
        selector_outcome(sig, r2),
    ensures
        r1 is Ok <==> r2 is Ok,
        r1 matches Ok(h1) ==> r2 matches Ok(h2) && h1@ == h2@,
        r1 matches Err(e1) ==> r2 matches Err(e2) && error_text(e1) == error_text(e2),
{
}

} // verus!
