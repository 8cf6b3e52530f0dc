//! Bytes as hexadecimal text.

use crate::decimal;
use crate::text;
use vstd::prelude::*;
use vstd::utf8::*;

verus! {

/// The lower-case hexadecimal digit of a value below 16.
pub open spec fn nibble_char(v: int) -> char {
    if v < 10 {
        ('0' as int + v) as char
    } else {
        ('a' as int + v - 10) as char
    }
}

/// The value of a hexadecimal digit, in either case.
pub open spec fn nibble_of(c: u8) -> Option<int> {
    if 48 <= c <= 57 {
        Some(c - 48)
    } else if 97 <= c <= 102 {
        Some(c - 97 + 10)
    } else if 65 <= c <= 70 {
        Some(c - 65 + 10)
    } else {
        None
    }
}

/// The value of digit number `i` of bytes: of the high half of a byte, then of its low half.
pub open spec fn nibble_at(bytes: Seq<u8>, i: int) -> int {
    if i % 2 == 0 {
        bytes[i / 2] as int / 16
    } else {
        bytes[i / 2] as int % 16
    }
}

/// Two lower-case digits for each byte.
pub open spec fn hex_text(bytes: Seq<u8>) -> Seq<char> {
    Seq::new(2 * bytes.len(), |i: int| nibble_char(nibble_at(bytes, i)))
}

/// Why a text is not hexadecimal text of bytes.
#[derive(Clone, Copy, Debug, PartialEq, Eq, Structural)]
pub enum HexFault {
    OddLength(usize),
    InvalidCharacter { byte: u8, index: usize },
}

impl HexFault {
    /// The fault in words.
    pub open spec fn words(self) -> Seq<char> {
        match self {
            HexFault::OddLength(n) => "hex string has odd length: "@ + decimal::decimal(n as nat),
            HexFault::InvalidCharacter { byte, index } => "invalid hex character '"@ + seq![
                byte as char,
            ] + "' at index "@ + decimal::decimal(index as nat),
        }
    }

    pub fn text(self) -> (s: String)
        ensures
            s@ == self.words(),
    {
        match self {
            HexFault::OddLength(n) => text::join2(
                "hex string has odd length: ",
                decimal::usize_text(n).as_str(),
            ),
            HexFault::InvalidCharacter { byte, index } => {
                let mut c = String::new();
                c.push(byte as char);
                assert(c@ =~= seq![byte as char]);
                text::join4(
                    "invalid hex character '",
                    c.as_str(),
                    "' at index ",
                    decimal::usize_text(index).as_str(),
                )
            },
        }
    }
}

/// The position of the first byte from `from` on that is no hexadecimal digit, or the length.
pub open spec fn first_invalid(digits: Seq<u8>, from: int) -> int
    decreases digits.len() - from,
{
    if 0 <= from < digits.len() && nibble_of(digits[from]) is Some {
        first_invalid(digits, from + 1)
    } else {
        from
    }
}

/// The bytes that pairs of digits stand for.
pub open spec fn paired(digits: Seq<u8>) -> Seq<u8> {
    Seq::new(
        digits.len() / 2,
        |i: int| (16 * nibble_of(digits[2 * i])->0 + nibble_of(digits[2 * i + 1])->0) as u8,
    )
}

/// The bytes that a series of digits stands for.
pub open spec fn hex_bytes(digits: Seq<u8>) -> Result<Seq<u8>, HexFault> {
    if digits.len() % 2 != 0 {
        Err(HexFault::OddLength(digits.len() as usize))
    } else if first_invalid(digits, 0) < digits.len() {
        let i = first_invalid(digits, 0);
        Err(HexFault::InvalidCharacter { byte: digits[i], index: i as usize })
    } else {
        Ok(paired(digits))
    }
}

proof fn lemma_first_invalid(digits: Seq<u8>, from: int)
    requires
        0 <= from <= digits.len(),
    ensures
        from <= first_invalid(digits, from) <= digits.len(),
        forall|i: int|
            from <= i < first_invalid(digits, from) ==> nibble_of(#[trigger] digits[i]) is Some,
        first_invalid(digits, from) < digits.len() ==> nibble_of(
            digits[first_invalid(digits, from)],
        ) is None,
    decreases digits.len() - from,
{
    if from < digits.len() && nibble_of(digits[from]) is Some {
        lemma_first_invalid(digits, from + 1);
    }
}

fn nibble_text(v: u8) -> (c: char)
    requires
        v < 16,
    ensures
        c == nibble_char(v as int),
{
    if v < 10 {
        (48u8 + v) as char
    } else {
        (97u8 + (v - 10)) as char
    }
}

/// The hexadecimal text of bytes.
pub fn hex_encode(bytes: &[u8]) -> (s: String)
    ensures
        s@ == hex_text(bytes@),
{
    let mut s = String::new();
    let mut i: usize = 0;
    assert(s@ =~= hex_text(bytes@.take(0)));
    while i < bytes.len()
        invariant
            i <= bytes@.len(),
            s@ == hex_text(bytes@.take(i as int)),
        decreases bytes@.len() - i,
    {
        let byte: u8 = bytes[i];
        s.push(nibble_text(byte / 16));
        s.push(nibble_text(byte % 16));
        proof {
            let few = bytes@.take(i as int);
            let more = bytes@.take(i + 1);
            assert forall|j: int| 0 <= j < 2 * few.len() implies hex_text(more)[j] == hex_text(
                few,
            )[j] by {
                assert(more[j / 2] == few[j / 2]);
            }
            assert(s@ =~= hex_text(more));
        }
        i = i + 1;
    }
    assert(bytes@.take(bytes@.len() as int) =~= bytes@);
    s
}

/// The value of a hexadecimal digit, in either case.
pub fn hex_nibble(c: u8) -> (r: Option<u8>)
    ensures
        match r {
            Some(v) => nibble_of(c) == Some(v as int) && v < 16,
            None => nibble_of(c) is None,
        },
{
    if 48 <= c && c <= 57 {
        Some(c - 48)
    } else if 97 <= c && c <= 102 {
        Some(c - 97 + 10)
    } else if 65 <= c && c <= 70 {
        Some(c - 65 + 10)
    } else {
        None
    }
}

/// The bytes that hexadecimal text stands for.
pub fn hex_decode(hex_str: &str) -> (r: Result<Vec<u8>, HexFault>)
    ensures
        match r {
            Ok(bytes) => hex_bytes(encode_utf8(hex_str@)) == Ok::<Seq<u8>, HexFault>(bytes@),
            Err(fault) => hex_bytes(encode_utf8(hex_str@)) == Err::<Seq<u8>, HexFault>(fault),
        },
{
    let digits = hex_str.as_bytes();
    let size: usize = digits.len();
    if size % 2 != 0 {
        return Err(HexFault::OddLength(size));
    }
    proof {
        lemma_first_invalid(digits@, 0);
    }
    let mut output: Vec<u8> = Vec::new();
    let mut index: usize = 0;
    while index < size
        invariant
            digits@ == encode_utf8(hex_str@),
            size == digits@.len(),
            size % 2 == 0,
            index <= size,
            index % 2 == 0,
            first_invalid(digits@, 0) == first_invalid(digits@, index as int),
            output@ == paired(digits@.take(index as int)),
        decreases size - index,
    {
        let ghost d = digits@;
        let high = match hex_nibble(digits[index]) {
            Some(high) => high,
            None => {
                return Err(HexFault::InvalidCharacter { byte: digits[index], index });
            },
        };
        assert(first_invalid(d, index as int) == first_invalid(d, index + 1));
        let low = match hex_nibble(digits[index + 1]) {
            Some(low) => low,
            None => {
                return Err(
                    HexFault::InvalidCharacter { byte: digits[index + 1], index: index + 1 },
                );
            },
        };
        output.push(16 * high + low);
        proof {
            let few = d.take(index as int);
            let more = d.take(index + 2);
            assert forall|i: int| 0 <= i < few.len() / 2 implies paired(more)[i] == paired(
                few,
            )[i] by {
                assert(more[2 * i] == few[2 * i]);
                assert(more[2 * i + 1] == few[2 * i + 1]);
            }
            assert(output@ =~= paired(more));
        }
        index = index + 2;
    }
    assert(digits@.take(size as int) =~= digits@);
    Ok(output)
}

// ---------------------------------------------------------------------------
// Laws
// ---------------------------------------------------------------------------

/// Hexadecimal text holds the digits `0` to `9` and `a` to `f` only.
pub proof fn hex_text_is_ascii(bytes: Seq<u8>)
    ensures
        is_ascii_chars(hex_text(bytes)),
        forall|i: int|
            0 <= i < hex_text(bytes).len() ==> {
                let c = #[trigger] hex_text(bytes)[i];
                '0' <= c <= '9' || 'a' <= c <= 'f'
            },
{
}

proof fn lemma_nibble(v: int)
    requires
        0 <= v < 16,
    ensures
        nibble_of(nibble_char(v) as u8) == Some(v),
{
}

/// The hexadecimal text of bytes stands for those bytes.
pub proof fn hex_decodes_what_it_encodes(bytes: Seq<u8>)
    requires
        2 * bytes.len() <= usize::MAX,
    ensures
        hex_bytes(encode_utf8(hex_text(bytes))) == Ok::<Seq<u8>, HexFault>(bytes),
{
    let chars = hex_text(bytes);
    let digits = encode_utf8(chars);
    hex_text_is_ascii(bytes);
    is_ascii_chars_encode_utf8(chars);
    assert forall|k: int| 0 <= k < digits.len() implies nibble_of(#[trigger] digits[k]) == Some(
        nibble_at(bytes, k),
    ) by {
        assert(chars[k] == nibble_char(nibble_at(bytes, k)));
        lemma_nibble(nibble_at(bytes, k));
        assert(digits[k] == chars[k] as u8);
    }
    lemma_first_invalid(digits, 0);
    assert(first_invalid(digits, 0) == digits.len());
    assert forall|i: int| 0 <= i < bytes.len() implies paired(digits)[i] == bytes[i] by {
        let high = digits[2 * i];
        let low = digits[2 * i + 1];
        assert(nibble_of(high) == Some(nibble_at(bytes, 2 * i)));
        assert(nibble_of(low) == Some(nibble_at(bytes, 2 * i + 1)));
        assert(nibble_at(bytes, 2 * i) == bytes[i] as int / 16);
        assert(nibble_at(bytes, 2 * i + 1) == bytes[i] as int % 16);
    }
    assert(paired(digits) =~= bytes);
}

/// Hexadecimal texts stand in the order of their bytes.
pub proof fn hex_text_keeps_order(a: Seq<u8>, b: Seq<u8>)
    ensures
        text::text_before(hex_text(a), hex_text(b)) == text::bytes_before(a, b),
{
    let x = encode_utf8(hex_text(a));
    let y = encode_utf8(hex_text(b));
    lemma_digits(a);
    lemma_digits(b);
    if text::bytes_before(a, b) {
        let i = choose|i: int| text::differ_at(a, b, i);
        assert forall|j: int| 0 <= j < 2 * i implies x[j] == y[j] by {
            assert(a[j / 2] == b[j / 2]);
        }
        if i == a.len() || a[i] as int / 16 < b[i] as int / 16 {
            assert(text::differ_at(x, y, 2 * i));
        } else {
            assert(x[2 * i] == y[2 * i]);
            assert(text::differ_at(x, y, 2 * i + 1));
        }
    }
    if text::bytes_before(x, y) {
        let k = choose|k: int| text::differ_at(x, y, k);
        let i = k / 2;
        assert forall|j: int| 0 <= j < i implies a[j] == b[j] by {
            assert(x[2 * j] == y[2 * j]);
            assert(x[2 * j + 1] == y[2 * j + 1]);
        }
        if i < a.len() {
            if k % 2 == 1 {
                assert(x[2 * i] == y[2 * i]);
            }
            assert(a[i] < b[i]);
        }
        assert(text::differ_at(a, b, i));
    }
}

proof fn lemma_digits(bytes: Seq<u8>)
    ensures
        encode_utf8(hex_text(bytes)).len() == 2 * bytes.len(),
        forall|k: int|
            0 <= k < 2 * bytes.len() ==> #[trigger] encode_utf8(hex_text(bytes))[k]
                == nibble_char(nibble_at(bytes, k)) as u8 && 0 <= nibble_at(bytes, k) < 16,
{
    let chars = hex_text(bytes);
    hex_text_is_ascii(bytes);
    is_ascii_chars_encode_utf8(chars);
    assert forall|k: int| 0 <= k < 2 * bytes.len() implies #[trigger] encode_utf8(chars)[k]
        == nibble_char(nibble_at(bytes, k)) as u8 && 0 <= nibble_at(bytes, k) < 16 by {
        assert(chars[k] == nibble_char(nibble_at(bytes, k)));
    }
}

/// A text of lower-case digits that stands for bytes is the hexadecimal text of those bytes.
pub proof fn hex_encodes_what_it_decodes(chars: Seq<char>, bytes: Seq<u8>)
    requires
        hex_bytes(encode_utf8(chars)) == Ok::<Seq<u8>, HexFault>(bytes),
        forall|i: int| 0 <= i < encode_utf8(chars).len() ==> {
            let b = #[trigger] encode_utf8(chars)[i];
            !(65 <= b <= 70)
        },
    ensures
        hex_text(bytes) == chars,
{
    let digits = encode_utf8(chars);
    lemma_first_invalid(digits, 0);
    let text = hex_text(bytes);
    assert(text.len() == digits.len());
    hex_text_is_ascii(bytes);
    is_ascii_chars_encode_utf8(text);
    assert forall|i: int| 0 <= i < digits.len() implies digits[i] == encode_utf8(text)[i] by {
        let high = digits[2 * (i / 2)];
        let low = digits[2 * (i / 2) + 1];
        assert(nibble_of(high) is Some);
        assert(nibble_of(low) is Some);
        assert(bytes[i / 2] == (16 * nibble_of(high)->0 + nibble_of(low)->0) as u8);
        assert(i % 2 == 0 ==> i == 2 * (i / 2));
        assert(i % 2 != 0 ==> i == 2 * (i / 2) + 1);
        assert(nibble_of(digits[i]) == Some(nibble_at(bytes, i)));
        assert(text[i] == nibble_char(nibble_at(bytes, i)));
        assert(encode_utf8(text)[i] == text[i] as u8);
    }
    assert(encode_utf8(text) =~= digits);
    encode_utf8_decode_utf8(text);
    encode_utf8_decode_utf8(chars);
}

/// A fault tells the length, or the character and where it stands.
pub proof fn faults_tell_what_is_wrong(fault: HexFault)
    ensures
        match fault {
            HexFault::OddLength(n) => fault.words()
                == "hex string has odd length: "@ + decimal::decimal(n as nat),
            HexFault::InvalidCharacter { byte, index } => fault.words()
                == "invalid hex character '"@ + seq![byte as char] + "' at index "@
                + decimal::decimal(index as nat),
        },
{
}

/// Letters stand for the same values in either case, and no byte but a digit or one of these
/// letters stands for any.
pub proof fn digits_may_be_of_either_case(v: int, c: u8)
    ensures
        0 <= v < 10 ==> nibble_of((48 + v) as u8) == Some(v),
        10 <= v < 16 ==> nibble_of((97 + v - 10) as u8) == Some(v),
        10 <= v < 16 ==> nibble_of((65 + v - 10) as u8) == Some(v),
        nibble_of(c) is Some ==> 0 <= nibble_of(c)->0 < 16,
        nibble_of(c) is Some <==> (48 <= c <= 57 || 65 <= c <= 70 || 97 <= c <= 102),
{
}

/// A text stands for bytes if and only if it has an even number of digits and nothing else. The
/// first character that is no digit is told; an odd length is told before that.
pub proof fn only_pairs_of_digits_stand_for_bytes(digits: Seq<u8>, i: int)
    requires
        digits.len() <= usize::MAX,
    ensures
        hex_bytes(digits) is Ok <==> digits.len() % 2 == 0 && forall|j: int|
            0 <= j < digits.len() ==> nibble_of(#[trigger] digits[j]) is Some,
        digits.len() % 2 != 0 ==> hex_bytes(digits) == Err::<Seq<u8>, HexFault>(
            HexFault::OddLength(digits.len() as usize),
        ),
        digits.len() % 2 == 0 && 0 <= i < digits.len() && nibble_of(digits[i]) is None && (forall|
            j: int,
        |
            0 <= j < i ==> nibble_of(#[trigger] digits[j]) is Some) ==> hex_bytes(digits) == Err::<
            Seq<u8>,
            HexFault,
        >(HexFault::InvalidCharacter { byte: digits[i], index: i as usize }),
{
    lemma_first_invalid(digits, 0);
    let f = first_invalid(digits, 0);
    if f < digits.len() {
        assert(nibble_of(digits[f]) is None);
    }
}

/// Each byte is sixteen times its first digit and its second one.
pub proof fn pairs_of_digits_make_bytes(digits: Seq<u8>, i: int)
    requires
        hex_bytes(digits) is Ok,
        0 <= 2 * i,
        2 * i + 1 < digits.len(),
    ensures
        hex_bytes(digits)->Ok_0.len() * 2 == digits.len(),
        hex_bytes(digits)->Ok_0[i] == 16 * nibble_of(digits[2 * i])->0 + nibble_of(
            digits[2 * i + 1],
        )->0,
{
    lemma_first_invalid(digits, 0);
    assert(nibble_of(digits[2 * i]) is Some);
    assert(nibble_of(digits[2 * i + 1]) is Some);
}

}
