//! Decimal text of integers, and back.

use crate::text;
use vstd::prelude::*;

verus! {

/// The character of a decimal digit.
pub open spec fn digit_char(d: nat) -> char {
    ('0' as int + d) as char
}

/// The decimal digits of `n`, most significant first, without leading zeros.
pub open spec fn decimal(n: nat) -> Seq<char>
    decreases n,
{
    if n < 10 {
        seq![digit_char(n)]
    } else {
        decimal(n / 10).push(digit_char(n % 10))
    }
}

/// Decimal text of a signed integer: a minus sign, if needed, and the digits.
pub open spec fn signed_decimal(i: int) -> Seq<char> {
    if i < 0 {
        seq!['-'] + decimal((-i) as nat)
    } else {
        decimal(i as nat)
    }
}

fn digit_text(d: u8) -> (c: char)
    requires
        d < 10,
    ensures
        c == digit_char(d as nat),
{
    (48u8 + d) as char
}

fn push_decimal(s: &mut String, n: u64)
    ensures
        final(s)@ == old(s)@ + decimal(n as nat),
    decreases n,
{
    if n >= 10 {
        push_decimal(s, n / 10);
    }
    s.push(digit_text((n % 10) as u8));
    assert(s@ =~= old(s)@ + decimal(n as nat));
}

/// The decimal text of a `u64`.
pub fn u64_text(n: u64) -> (s: String)
    ensures
        s@ == decimal(n as nat),
{
    let mut s = String::new();
    push_decimal(&mut s, n);
    assert(s@ =~= decimal(n as nat));
    s
}

/// The decimal text of a `usize`.
pub fn usize_text(n: usize) -> (s: String)
    ensures
        s@ == decimal(n as nat),
{
    u64_text(n as u64)
}

/// The decimal text of an `i64`.
pub fn i64_text(i: i64) -> (s: String)
    ensures
        s@ == signed_decimal(i as int),
{
    if i >= 0 {
        return u64_text(i as u64);
    }
    let mut s = String::new();
    s.push('-');
    // -(i + 1) fits where -i may not.
    let m: u64 = (-(i + 1)) as u64;
    push_decimal(&mut s, m + 1);
    assert(s@ =~= signed_decimal(i as int));
    s
}

// ---------------------------------------------------------------------------
// Reading
// ---------------------------------------------------------------------------

/// Why a text is not the decimal text of an integer.
#[derive(Clone, Copy, Debug, PartialEq, Eq, Structural)]
pub enum IntegerError {
    Empty,
    InvalidDigit,
    TooLarge,
    TooSmall,
}

impl IntegerError {
    /// The error in words.
    pub open spec fn words(self) -> Seq<char> {
        match self {
            IntegerError::Empty => "cannot parse integer from empty string"@,
            IntegerError::InvalidDigit => "invalid digit found in string"@,
            IntegerError::TooLarge => "number too large to fit in target type"@,
            IntegerError::TooSmall => "number too small to fit in target type"@,
        }
    }

    pub fn text(self) -> (s: String)
        ensures
            s@ == self.words(),
    {
        match self {
            IntegerError::Empty => "cannot parse integer from empty string".to_owned(),
            IntegerError::InvalidDigit => "invalid digit found in string".to_owned(),
            IntegerError::TooLarge => "number too large to fit in target type".to_owned(),
            IntegerError::TooSmall => "number too small to fit in target type".to_owned(),
        }
    }
}

pub open spec fn is_digit(c: char) -> bool {
    '0' <= c <= '9'
}

pub open spec fn digit_value(c: char) -> nat {
    (c as int - '0' as int) as nat
}

/// The value of a string of digits, read from the left; the first character that is no digit,
/// or that takes the value above `limit`, decides the error.
pub open spec fn read_digits(s: Seq<char>, limit: nat, over: IntegerError) -> Result<
    nat,
    IntegerError,
>
    decreases s.len(),
{
    if s.len() == 0 {
        Ok(0)
    } else {
        match read_digits(s.drop_last(), limit, over) {
            Err(e) => Err(e),
            Ok(v) => if !is_digit(s.last()) {
                Err(IntegerError::InvalidDigit)
            } else if 10 * v + digit_value(s.last()) > limit {
                Err(over)
            } else {
                Ok(10 * v + digit_value(s.last()))
            },
        }
    }
}

/// An unsigned integer of at most `limit`: digits after an optional plus sign.
pub open spec fn read_unsigned(s: Seq<char>, limit: nat) -> Result<nat, IntegerError> {
    if s.len() == 0 {
        Err(IntegerError::Empty)
    } else if s.len() == 1 && (s[0] == '+' || s[0] == '-') {
        Err(IntegerError::InvalidDigit)
    } else if s[0] == '+' {
        read_digits(s.skip(1), limit, IntegerError::TooLarge)
    } else {
        read_digits(s, limit, IntegerError::TooLarge)
    }
}

/// A signed integer of `-limit - 1` to `limit`: digits after an optional sign.
pub open spec fn read_signed(s: Seq<char>, limit: nat) -> Result<int, IntegerError> {
    if s.len() > 1 && s[0] == '-' {
        match read_digits(s.skip(1), (limit + 1) as nat, IntegerError::TooSmall) {
            Ok(v) => Ok(-(v as int)),
            Err(e) => Err(e),
        }
    } else {
        match read_unsigned(s, limit) {
            Ok(v) => Ok(v as int),
            Err(e) => Err(e),
        }
    }
}

proof fn lemma_read_digits_error(s: Seq<char>, i: int, limit: nat, over: IntegerError)
    requires
        0 <= i <= s.len(),
        read_digits(s.take(i), limit, over) is Err,
    ensures
        read_digits(s, limit, over) == read_digits(s.take(i), limit, over),
    decreases s.len(),
{
    if i == s.len() {
        assert(s.take(i) =~= s);
    } else {
        assert(s.drop_last().take(i) =~= s.take(i));
        lemma_read_digits_error(s.drop_last(), i, limit, over);
    }
}

fn parse_digits(v: &Vec<char>, from: usize, limit: u64, over: IntegerError) -> (r: Result<
    u64,
    IntegerError,
>)
    requires
        from <= v@.len(),
        limit >= 9,
    ensures
        match r {
            Ok(n) => read_digits(v@.skip(from as int), limit as nat, over) == Ok::<
                nat,
                IntegerError,
            >(n as nat),
            Err(e) => read_digits(v@.skip(from as int), limit as nat, over) == Err::<
                nat,
                IntegerError,
            >(e),
        },
{
    let ghost s = v@.skip(from as int);
    let mut value: u64 = 0;
    let mut i: usize = from;
    while i < v.len()
        invariant
            from <= i <= v@.len(),
            s == v@.skip(from as int),
            limit >= 9,
            read_digits(s.take(i - from), limit as nat, over) == Ok::<nat, IntegerError>(
                value as nat,
            ),
        decreases v@.len() - i,
    {
        let c = v[i];
        let ghost t = s.take(i + 1 - from);
        assert(t.drop_last() =~= s.take(i - from));
        assert(t.last() == c);
        if !('0' <= c && c <= '9') {
            proof {
                lemma_read_digits_error(s, i + 1 - from, limit as nat, over);
            }
            return Err(IntegerError::InvalidDigit);
        }
        let d: u64 = (c as u64) - 48;
        if value > (limit - d) / 10 {
            proof {
                lemma_read_digits_error(s, i + 1 - from, limit as nat, over);
            }
            return Err(over);
        }
        value = 10 * value + d;
        i = i + 1;
    }
    assert(s.take(v@.len() - from) =~= s);
    Ok(value)
}

fn parse_unsigned(s: &str, limit: u64) -> (r: Result<u64, IntegerError>)
    requires
        limit >= 9,
    ensures
        match r {
            Ok(n) => read_unsigned(s@, limit as nat) == Ok::<nat, IntegerError>(n as nat),
            Err(e) => read_unsigned(s@, limit as nat) == Err::<nat, IntegerError>(e),
        },
{
    let v = text::chars_of(s);
    if v.len() == 0 {
        return Err(IntegerError::Empty);
    }
    if v.len() == 1 && (v[0] == '+' || v[0] == '-') {
        return Err(IntegerError::InvalidDigit);
    }
    assert(v@.skip(0) =~= s@);
    if v[0] == '+' {
        parse_digits(&v, 1, limit, IntegerError::TooLarge)
    } else {
        parse_digits(&v, 0, limit, IntegerError::TooLarge)
    }
}

/// Reads a `usize`.
pub fn parse_usize(s: &str) -> (r: Result<usize, IntegerError>)
    ensures
        match r {
            Ok(n) => read_unsigned(s@, usize::MAX as nat) == Ok::<nat, IntegerError>(n as nat),
            Err(e) => read_unsigned(s@, usize::MAX as nat) == Err::<nat, IntegerError>(e),
        },
{
    match parse_unsigned(s, usize::MAX as u64) {
        Ok(n) => {
            proof {
                lemma_read_unsigned_limit(s@, usize::MAX as nat);
            }
            Ok(n as usize)
        },
        Err(e) => Err(e),
    }
}

/// Reads an `i64`.
pub fn parse_i64(s: &str) -> (r: Result<i64, IntegerError>)
    ensures
        match r {
            Ok(n) => read_signed(s@, i64::MAX as nat) == Ok::<int, IntegerError>(n as int),
            Err(e) => read_signed(s@, i64::MAX as nat) == Err::<int, IntegerError>(e),
        },
{
    let v = text::chars_of(s);
    if v.len() > 1 && v[0] == '-' {
        match parse_digits(&v, 1, 0x8000_0000_0000_0000, IntegerError::TooSmall) {
            Ok(m) => {
                proof {
                    lemma_read_digits_limit(
                        v@.skip(1),
                        0x8000_0000_0000_0000,
                        IntegerError::TooSmall,
                    );
                }
                if m == 0 {
                    Ok(0)
                } else {
                    Ok(-((m - 1) as i64) - 1)
                }
            },
            Err(e) => Err(e),
        }
    } else {
        match parse_unsigned(s, i64::MAX as u64) {
            Ok(m) => {
                proof {
                    lemma_read_unsigned_limit(s@, i64::MAX as nat);
                }
                Ok(m as i64)
            },
            Err(e) => Err(e),
        }
    }
}

proof fn lemma_read_digits_limit(s: Seq<char>, limit: nat, over: IntegerError)
    ensures
        read_digits(s, limit, over) is Ok ==> read_digits(s, limit, over)->Ok_0 <= limit,
    decreases s.len(),
{
    if s.len() > 0 {
        lemma_read_digits_limit(s.drop_last(), limit, over);
    }
}

proof fn lemma_read_unsigned_limit(s: Seq<char>, limit: nat)
    ensures
        read_unsigned(s, limit) is Ok ==> read_unsigned(s, limit)->Ok_0 <= limit,
{
    lemma_read_digits_limit(s.skip(1), limit, IntegerError::TooLarge);
    lemma_read_digits_limit(s, limit, IntegerError::TooLarge);
}

// ---------------------------------------------------------------------------
// Laws
// ---------------------------------------------------------------------------

pub proof fn lemma_decimal_digits(n: nat, limit: nat, over: IntegerError)
    requires
        n <= limit,
    ensures
        decimal(n).len() >= 1,
        forall|i: int| 0 <= i < decimal(n).len() ==> is_digit(#[trigger] decimal(n)[i]),
        read_digits(decimal(n), limit, over) == Ok::<nat, IntegerError>(n),
    decreases n,
{
    reveal_with_fuel(read_digits, 2);
    if n >= 10 {
        lemma_decimal_digits(n / 10, limit, over);
        assert(decimal(n).drop_last() =~= decimal(n / 10));
        assert(decimal(n).last() == digit_char(n % 10));
    } else {
        assert(decimal(n).drop_last() =~= Seq::<char>::empty());
        assert(decimal(n).last() == digit_char(n));
    }
}

/// The decimal text of an unsigned integer reads back as that integer.
pub proof fn unsigned_text_reads_back(n: nat, limit: nat)
    requires
        n <= limit,
    ensures
        read_unsigned(decimal(n), limit) == Ok::<nat, IntegerError>(n),
{
    lemma_decimal_digits(n, limit, IntegerError::TooLarge);
    assert(is_digit(decimal(n)[0]));
}

/// The decimal text of a signed integer reads back as that integer.
pub proof fn signed_text_reads_back(i: int, limit: nat)
    requires
        -(limit as int) - 1 <= i <= limit,
    ensures
        read_signed(signed_decimal(i), limit) == Ok::<int, IntegerError>(i),
{
    if i < 0 {
        lemma_decimal_digits((-i) as nat, (limit + 1) as nat, IntegerError::TooSmall);
        assert(signed_decimal(i).skip(1) =~= decimal((-i) as nat));
    } else {
        unsigned_text_reads_back(i as nat, limit);
        lemma_decimal_digits(i as nat, limit, IntegerError::TooLarge);
        assert(is_digit(decimal(i as nat)[0]));
    }
}

/// Different unsigned integers have different decimal texts.
pub proof fn decimal_text_is_injective(m: nat, n: nat)
    requires
        decimal(m) == decimal(n),
    ensures
        m == n,
{
    let limit = m + n;
    unsigned_text_reads_back(m, limit);
    unsigned_text_reads_back(n, limit);
}

/// Decimal text is made digit by digit: one character for each number below ten, from `0` to `9`,
/// and the text of ten times a number and a digit is that of the number, and then the digit.
pub proof fn decimal_text_goes_digit_by_digit(n: nat, digit: nat)
    requires
        digit < 10,
    ensures
        decimal(digit).len() == 1,
        decimal(digit)[0] as int == 48 + digit,
        n > 0 ==> decimal(10 * n + digit) == decimal(n).push(decimal(digit)[0]),
{
    assert((10 * n + digit) / 10 == n);
    assert((10 * n + digit) % 10 == digit);
}

/// The text of a negative number is a minus sign and the text of its magnitude.
pub proof fn signed_text_has_a_sign(i: int)
    ensures
        i >= 0 ==> signed_decimal(i) == decimal(i as nat),
        i < 0 ==> signed_decimal(i) == seq!['-'] + decimal((-i) as nat),
{
}

/// A text that holds anything but digits, behind a sign that is allowed, is no integer; a plus
/// sign changes nothing.
pub proof fn integers_are_digits(s: Seq<char>, limit: nat)
    ensures
        s.len() == 0 ==> read_unsigned(s, limit) == Err::<nat, IntegerError>(IntegerError::Empty),
        s.len() > 0 && s[0] == '-' ==> read_unsigned(s, limit) is Err,
        s.len() > 0 && is_digit(s[0]) ==> read_unsigned(seq!['+'] + s, limit) == read_unsigned(
            s,
            limit,
        ),
        read_unsigned(s, limit) is Ok ==> forall|i: int|
            1 <= i < s.len() ==> '0' <= #[trigger] s[i] <= '9',
        read_unsigned(s, limit) is Ok ==> read_unsigned(s, limit)->Ok_0 <= limit,
{
    lemma_read_unsigned_limit(s, limit);
    assert((seq!['+'] + s).skip(1) =~= s);
    if s.len() > 0 {
        if read_digits(s, limit, IntegerError::TooLarge) is Ok {
            lemma_only_digits(s, limit, IntegerError::TooLarge);
        }
        if read_digits(s.skip(1), limit, IntegerError::TooLarge) is Ok {
            lemma_only_digits(s.skip(1), limit, IntegerError::TooLarge);
        }
        if read_unsigned(s, limit) is Ok {
            assert forall|i: int| 1 <= i < s.len() implies '0' <= #[trigger] s[i] <= '9' by {
                if s[0] == '+' {
                    assert(s.skip(1)[i - 1] == s[i]);
                }
            }
        }
        if s[0] == '-' && s.len() > 1 && read_unsigned(s, limit) is Ok {
            assert(is_digit(s[0]));
        }
    }
}

proof fn lemma_only_digits(s: Seq<char>, limit: nat, over: IntegerError)
    requires
        read_digits(s, limit, over) is Ok,
    ensures
        forall|i: int| 0 <= i < s.len() ==> is_digit(#[trigger] s[i]),
    decreases s.len(),
{
    if s.len() > 0 {
        let init = s.drop_last();
        lemma_only_digits(init, limit, over);
        assert forall|i: int| 0 <= i < s.len() implies is_digit(#[trigger] s[i]) by {
            if i < init.len() {
                assert(init[i] == s[i]);
            }
        }
    }
}

/// Every error tells what is wrong with a text that is no integer.
pub proof fn errors_tell_what_is_wrong(error: IntegerError)
    ensures
        match error {
            IntegerError::Empty => error.words() == "cannot parse integer from empty string"@,
            IntegerError::InvalidDigit => error.words() == "invalid digit found in string"@,
            IntegerError::TooLarge => error.words() == "number too large to fit in target type"@,
            IntegerError::TooSmall => error.words() == "number too small to fit in target type"@,
        },
{
}

proof fn lemma_too_large(n: nat, limit: nat, over: IntegerError)
    requires
        n > limit,
    ensures
        read_digits(decimal(n), limit, over) == Err::<nat, IntegerError>(over),
    decreases n,
{
    let digits = decimal(n);
    if n < 10 {
        assert(digits.drop_last() =~= Seq::<char>::empty());
        assert(read_digits(digits.drop_last(), limit, over) == Ok::<nat, IntegerError>(0));
    } else {
        let less = n / 10;
        assert(digits.drop_last() =~= decimal(less));
        if less > limit {
            lemma_too_large(less, limit, over);
        } else {
            lemma_decimal_digits(less, limit, over);
        }
    }
}

/// An integer that is out of range is refused: as too large above it, and as too small below it.
pub proof fn integers_out_of_range_are_refused(n: nat, limit: nat)
    requires
        n > limit,
    ensures
        read_unsigned(decimal(n), limit) == Err::<nat, IntegerError>(IntegerError::TooLarge),
        read_signed(decimal(n), limit) == Err::<int, IntegerError>(IntegerError::TooLarge),
        n > limit + 1 ==> read_signed(signed_decimal(-n), limit) == Err::<int, IntegerError>(
            IntegerError::TooSmall,
        ),
{
    lemma_too_large(n, limit, IntegerError::TooLarge);
    lemma_decimal_digits(n, n, IntegerError::TooLarge);
    assert(is_digit(decimal(n)[0]));
    if n > limit + 1 {
        lemma_too_large(n, limit + 1, IntegerError::TooSmall);
        assert(signed_decimal(-n).skip(1) =~= decimal(n));
    }
}

}
