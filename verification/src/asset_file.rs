//! Hashes of asset files.

use crate::text;
use base64::Engine;
use vstd::prelude::*;

verus! {

/// How many bytes a digest has.
pub const DIGEST_BYTES: usize = 32;

/// The BLAKE3 digest of bytes.
pub uninterp spec fn blake3_digest(bytes: Seq<u8>) -> Seq<u8>;

/// `blake3::hash` gives the BLAKE3 digest of bytes, which has thirty-two bytes. What the digest
/// is is left open.
#[verifier::external_body]
fn blake3_hash(bytes: &Vec<u8>) -> (r: Vec<u8>)
    ensures
        r@ == blake3_digest(bytes@),
        r@.len() == DIGEST_BYTES,
{
    blake3::hash(bytes.as_slice()).as_bytes().to_vec()
}

/// The character of a value of six bits.
pub open spec fn sextet_char(v: int) -> char {
    if v < 26 {
        ('A' as int + v) as char
    } else if v < 52 {
        ('a' as int + v - 26) as char
    } else if v < 62 {
        ('0' as int + v - 52) as char
    } else if v == 62 {
        '+'
    } else {
        '/'
    }
}

/// The byte at a position, or zero behind the end.
pub open spec fn byte_or_zero(bytes: Seq<u8>, i: int) -> int {
    if i < bytes.len() {
        bytes[i] as int
    } else {
        0
    }
}

/// The value of group number `k` of six bits.
pub open spec fn sextet(bytes: Seq<u8>, k: int) -> int {
    let g = 3 * (k / 4);
    let v = 65536 * byte_or_zero(bytes, g) + 256 * byte_or_zero(bytes, g + 1) + byte_or_zero(
        bytes,
        g + 2,
    );
    if k % 4 == 0 {
        v / 262144
    } else if k % 4 == 1 {
        v / 4096 % 64
    } else if k % 4 == 2 {
        v / 64 % 64
    } else {
        v % 64
    }
}

/// The base64 text of bytes: four characters for three bytes, six bits each, and equals signs up
/// to the next multiple of four.
pub open spec fn base64_text(bytes: Seq<u8>) -> Seq<char> {
    Seq::new(
        (4 * ((bytes.len() + 2) / 3)) as nat,
        |k: int|
            if 6 * k < 8 * bytes.len() {
                sextet_char(sextet(bytes, k))
            } else {
                '='
            },
    )
}

/// `encode` of the `base64` crate's standard engine gives the base64 text of bytes, in the
/// standard alphabet and with padding. It is bounded so that the length of the text fits.
#[verifier::external_body]
fn base64_encode(bytes: &Vec<u8>) -> (r: String)
    requires
        bytes@.len() <= usize::MAX / 4,
    ensures
        r@ == base64_text(bytes@),
{
    base64::engine::general_purpose::STANDARD.encode(bytes.as_slice())
}

/// The hash of a file as base64 text.
#[derive(Debug)]
pub struct Base64Hash {
    text: String,
}

impl View for Base64Hash {
    type V = Seq<char>;

    closed spec fn view(&self) -> Seq<char> {
        self.text@
    }
}

impl Base64Hash {
    /// The hash as text.
    pub fn as_text(&self) -> (r: &str)
        ensures
            r@ == self@,
    {
        self.text.as_str()
    }

    /// A hash that was written as text before.
    pub fn from_text(text: String) -> (r: Base64Hash)
        ensures
            r@ == text@,
    {
        Base64Hash { text }
    }

    /// Whether two hashes are the same.
    pub fn equals(&self, other: &Base64Hash) -> (r: bool)
        ensures
            r == (self@ == other@),
    {
        text::same_text(self.text.as_str(), other.text.as_str())
    }
}

/// The hash of a digest.
pub fn encode_digest(digest: &Vec<u8>) -> (r: Base64Hash)
    requires
        digest@.len() == DIGEST_BYTES,
    ensures
        r@ == base64_text(digest@),
        r@.len() == 44,
{
    Base64Hash { text: base64_encode(digest) }
}

/// The hash of a file with the given contents: the base64 text of their BLAKE3 digest.
pub fn hash_bytes(bytes: &Vec<u8>) -> (r: Base64Hash)
    ensures
        r@ == base64_text(blake3_digest(bytes@)),
        r@.len() == 44,
{
    encode_digest(&blake3_hash(bytes))
}

/// What is said of a file that cannot be opened.
pub fn cannot_open_text(path: &str, error: &str) -> (s: String)
    ensures
        s@ == "Cannot open file "@ + path@ + ": "@ + error@,
{
    text::join4("Cannot open file ", path, ": ", error)
}

/// What is said of a file that cannot be read.
pub fn cannot_read_text(path: &str, error: &str) -> (s: String)
    ensures
        s@ == "Failed to read file "@ + path@ + ": "@ + error@,
{
    text::join4("Failed to read file ", path, ": ", error)
}

proof fn lemma_sextet_range(bytes: Seq<u8>, k: int)
    requires
        0 <= k,
    ensures
        0 <= sextet(bytes, k) < 64,
{
    let g = 3 * (k / 4);
    let v = 65536 * byte_or_zero(bytes, g) + 256 * byte_or_zero(bytes, g + 1) + byte_or_zero(
        bytes,
        g + 2,
    );
    assert(0 <= v < 16777216);
}

proof fn lemma_sextet_char(a: int, b: int)
    requires
        0 <= a < 64,
        0 <= b < 64,
    ensures
        sextet_char(a) != '=',
        sextet_char(a) == sextet_char(b) ==> a == b,
{
}

/// Digests that differ have hashes that differ.
pub proof fn hashes_tell_digests_apart(a: Seq<u8>, b: Seq<u8>)
    requires
        a.len() == DIGEST_BYTES,
        b.len() == DIGEST_BYTES,
        base64_text(a) == base64_text(b),
    ensures
        a == b,
{
    assert forall|i: int| 0 <= i < a.len() implies a[i] == b[i] by {
        let g = i / 3;
        lemma_group(a, b, g);
    }
    assert(a =~= b);
}

proof fn lemma_same_sextet(a: Seq<u8>, b: Seq<u8>, k: int)
    requires
        a.len() == DIGEST_BYTES,
        b.len() == DIGEST_BYTES,
        base64_text(a) == base64_text(b),
        0 <= k,
        6 * k < 256,
    ensures
        sextet(a, k) == sextet(b, k),
{
    lemma_sextet_range(a, k);
    lemma_sextet_range(b, k);
    lemma_sextet_char(sextet(a, k), sextet(b, k));
    assert(base64_text(a)[k] == sextet_char(sextet(a, k)));
    assert(base64_text(b)[k] == sextet_char(sextet(b, k)));
}

/// Three bytes are told apart by their groups of six bits.
proof fn lemma_three_bytes(v: u32, w: u32, a0: u8, a1: u8, a2: u8, b0: u8, b1: u8, b2: u8)
    by (bit_vector)
    requires
        v == 65536 * a0 + 256 * a1 + a2,
        w == 65536 * b0 + 256 * b1 + b2,
        v / 262144 == w / 262144,
        v / 4096 % 64 == w / 4096 % 64,
        v / 64 % 64 == w / 64 % 64,
    ensures
        a0 == b0,
        a1 == b1,
        v % 64 == w % 64 ==> a2 == b2,
{
}

proof fn lemma_group(a: Seq<u8>, b: Seq<u8>, g: int)
    requires
        a.len() == DIGEST_BYTES,
        b.len() == DIGEST_BYTES,
        base64_text(a) == base64_text(b),
        0 <= g <= 10,
    ensures
        a[3 * g] == b[3 * g],
        a[3 * g + 1] == b[3 * g + 1],
        3 * g + 2 < 32 ==> a[3 * g + 2] == b[3 * g + 2],
{
    lemma_same_sextet(a, b, 4 * g);
    lemma_same_sextet(a, b, 4 * g + 1);
    lemma_same_sextet(a, b, 4 * g + 2);
    if 3 * g + 2 < 32 {
        lemma_same_sextet(a, b, 4 * g + 3);
    }
    let last = 3 * g + 2;
    let a2 = if last < 32 {
        a[last]
    } else {
        0u8
    };
    let b2 = if last < 32 {
        b[last]
    } else {
        0u8
    };
    lemma_three_bytes(
        (65536 * a[3 * g] + 256 * a[3 * g + 1] + a2) as u32,
        (65536 * b[3 * g] + 256 * b[3 * g + 1] + b2) as u32,
        a[3 * g],
        a[3 * g + 1],
        a2,
        b[3 * g],
        b[3 * g + 1],
        b2,
    );
}

}
