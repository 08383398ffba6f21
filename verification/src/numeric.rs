//! Numbers as the archive format writes them: ASCII digits, most significant
//! first, left-justified in a field of fixed width and padded with spaces.

use vstd::prelude::*;

verus! {

/// The padding byte of header fields.
pub const SPACE: u8 = 0x20;

/// The byte that some writers pad with instead of a space.
pub const NUL: u8 = 0x00;

/// The digit zero.
pub const DIGIT_ZERO: u8 = 0x30;

/// The two radixes of header fields.
#[derive(Clone, Copy, Debug, PartialEq, Eq, Structural)]
pub enum Radix {
    /// Base ten: times, owners, sizes, name lengths and name offsets.
    Decimal,
    /// Base eight: the mode.
    Octal,
}

impl Radix {
    /// The base as a number.
    pub open spec fn base(self) -> nat {
        match self {
            Radix::Decimal => 10,
            Radix::Octal => 8,
        }
    }

    /// The base as a number.
    pub fn value(self) -> (b: u64)
        ensures
            b == self.base(),
    {
        match self {
            Radix::Decimal => 10,
            Radix::Octal => 8,
        }
    }
}

/// Whether `b` is a digit of the radix.
pub open spec fn is_digit(b: u8, radix: Radix) -> bool {
    DIGIT_ZERO <= b && b < DIGIT_ZERO + radix.base()
}

/// Whether every byte of `s` is a digit of the radix.
pub open spec fn all_digits(s: Seq<u8>, radix: Radix) -> bool {
    forall|i: int| 0 <= i < s.len() ==> is_digit(#[trigger] s[i], radix)
}

/// The number that the digits `s` denote; zero for no digits.
pub open spec fn digits_value(s: Seq<u8>, radix: Radix) -> nat
    decreases s.len(),
{
    if s.len() == 0 {
        0
    } else {
        digits_value(s.drop_last(), radix) * radix.base() + (s.last() - DIGIT_ZERO) as nat
    }
}

/// The digits of `n`, without leading zeros; the single digit `0` for zero.
pub open spec fn digits_of(n: nat, radix: Radix) -> Seq<u8>
    decreases n,
{
    if n < radix.base() {
        seq![(DIGIT_ZERO + n) as u8]
    } else {
        proof {
            lemma_quotient_smaller(n, radix);
        }
        digits_of(n / radix.base(), radix).push((DIGIT_ZERO + n % radix.base()) as u8)
    }
}

/// Whether `b` is a byte that pads a numeric field.
pub open spec fn is_padding(b: u8) -> bool {
    b == SPACE || b == NUL
}

/// `s` without its trailing spaces.
pub open spec fn trim_spaces(s: Seq<u8>) -> Seq<u8>
    decreases s.len(),
{
    if s.len() > 0 && s.last() == SPACE {
        trim_spaces(s.drop_last())
    } else {
        s
    }
}

/// `s` without its trailing spaces and NULs.
pub open spec fn trim_padding(s: Seq<u8>) -> Seq<u8>
    decreases s.len(),
{
    if s.len() > 0 && is_padding(s.last()) {
        trim_padding(s.drop_last())
    } else {
        s
    }
}

/// `count` spaces.
pub open spec fn spaces(count: nat) -> Seq<u8> {
    Seq::new(count, |i: int| SPACE)
}

/// What a run of digits denotes: a number where there is at least one byte
/// and every byte is a digit of the radix.
pub open spec fn parse_digits_spec(s: Seq<u8>, radix: Radix) -> Option<nat> {
    if s.len() > 0 && all_digits(s, radix) {
        Some(digits_value(s, radix))
    } else {
        None
    }
}

/// What a numeric header field denotes. Trailing spaces and NULs do not
/// count; what is left must be digits of the radix. A field that holds only
/// padding denotes zero.
pub open spec fn parse_field_spec(field: Seq<u8>, radix: Radix) -> Option<nat> {
    let digits = trim_padding(field);
    if all_digits(digits, radix) {
        Some(digits_value(digits, radix))
    } else {
        None
    }
}

/// Whether `n` can be written in a field of `width` bytes.
pub open spec fn fits_field(n: nat, radix: Radix, width: nat) -> bool {
    digits_of(n, radix).len() <= width
}

/// The field of `width` bytes that holds `n`: its digits, then spaces.
pub open spec fn field_of(n: nat, radix: Radix, width: nat) -> Seq<u8>
    recommends
        fits_field(n, radix, width),
{
    digits_of(n, radix) + spaces((width - digits_of(n, radix).len()) as nat)
}

/// Narrows an optional number to those that a `u64` holds.
pub open spec fn within_u64(n: Option<nat>) -> Option<u64> {
    match n {
        Some(v) if v <= u64::MAX => Some(v as u64),
        _ => None,
    }
}

/// Dividing a number that has more than one digit by the base makes it smaller.
pub proof fn lemma_quotient_smaller(n: nat, radix: Radix)
    requires
        n >= radix.base(),
    ensures
        n / radix.base() < n,
        n / radix.base() >= 1,
{
    match radix {
        Radix::Decimal => {
            assert(n / 10 < n);
        },
        Radix::Octal => {
            assert(n / 8 < n);
        },
    }
}

/// Every byte of `digits_of` is a digit, and there is at least one.
pub proof fn lemma_digits_of_are_digits(n: nat, radix: Radix)
    ensures
        digits_of(n, radix).len() >= 1,
        all_digits(digits_of(n, radix), radix),
    decreases n,
{
    if n >= radix.base() {
        lemma_quotient_smaller(n, radix);
        lemma_digits_of_are_digits(n / radix.base(), radix);
        let head = digits_of(n / radix.base(), radix);
        let b = radix.base() as int;
        assert(0 <= (n as int) % b < b) by {
            match radix {
                Radix::Decimal => {},
                Radix::Octal => {},
            }
        }
        let last = (DIGIT_ZERO + n % radix.base()) as u8;
        assert(is_digit(last, radix));
        assert forall|i: int| 0 <= i < head.push(last).len() implies is_digit(
            #[trigger] head.push(last)[i],
            radix,
        ) by {
            if i < head.len() {
                assert(head.push(last)[i] == head[i]);
            }
        }
    }
}

/// Reading the digits of a number gives the number back.
pub proof fn lemma_digits_value_of_digits(n: nat, radix: Radix)
    ensures
        digits_value(digits_of(n, radix), radix) == n,
    decreases n,
{
    let b = radix.base();
    if n < b {
        let s = digits_of(n, radix);
        assert(s.drop_last() =~= Seq::<u8>::empty());
        assert(digits_value(s.drop_last(), radix) == 0);
        assert(digits_value(s, radix) == 0 * b + n) by {
            assert(s.last() == (DIGIT_ZERO + n) as u8);
        }
    } else {
        lemma_quotient_smaller(n, radix);
        lemma_digits_value_of_digits(n / b, radix);
        let head = digits_of(n / b, radix);
        let last = (DIGIT_ZERO + n % b) as u8;
        let s = head.push(last);
        assert(s.drop_last() =~= head);
        assert(s.last() == last);
        assert(0 <= (n as int) % (b as int) < b && (n / b) * b + n % b == n) by {
            match radix {
                Radix::Decimal => {},
                Radix::Octal => {},
            }
        }
    }
}

/// The base of the radix to the power `k`.
pub open spec fn power(radix: Radix, k: nat) -> nat
    decreases k,
{
    if k == 0 {
        1
    } else {
        radix.base() * power(radix, (k - 1) as nat)
    }
}

/// A number has at most `k` digits exactly where it is below the `k`th power
/// of the base.
pub proof fn lemma_digits_len(n: nat, radix: Radix, k: nat)
    requires
        k >= 1,
    ensures
        digits_of(n, radix).len() <= k <==> n < power(radix, k),
    decreases k,
{
    let b = radix.base();
    assert(power(radix, 1) == b) by {
        reveal_with_fuel(power, 2);
    }
    lemma_power_positive(radix, (k - 1) as nat);
    assert(power(radix, k) >= b) by (nonlinear_arith)
        requires
            power(radix, k) == b * power(radix, (k - 1) as nat),
            power(radix, (k - 1) as nat) >= 1,
            b >= 2,
    ;
    if n >= b {
        lemma_quotient_smaller(n, radix);
        lemma_digits_of_are_digits(n / b, radix);
        assert(digits_of(n, radix).len() == digits_of(n / b, radix).len() + 1);
        if k >= 2 {
            lemma_digits_len(n / b, radix, (k - 1) as nat);
            lemma_quotient_below(n, radix, power(radix, (k - 1) as nat));
        }
    } else {
        assert(digits_of(n, radix).len() == 1);
    }
}

/// Every power of the base is at least one.
pub proof fn lemma_power_positive(radix: Radix, k: nat)
    ensures
        power(radix, k) >= 1,
    decreases k,
{
    if k > 0 {
        lemma_power_positive(radix, (k - 1) as nat);
        assert(radix.base() * power(radix, (k - 1) as nat) >= 1) by (nonlinear_arith)
            requires
                radix.base() >= 2,
                power(radix, (k - 1) as nat) >= 1,
        ;
    }
}

/// `n / base` is below `limit` exactly where `n` is below `base * limit`.
pub proof fn lemma_quotient_below(n: nat, radix: Radix, limit: nat)
    ensures
        n / radix.base() < limit <==> n < radix.base() * limit,
{
    match radix {
        Radix::Decimal => {
            assert(n / 10 < limit <==> n < 10 * limit);
        },
        Radix::Octal => {
            assert(n / 8 < limit <==> n < 8 * limit);
        },
    }
}

/// Trimming leaves digits alone and takes padding after them away.
pub proof fn lemma_trim_padding_after_digits(digits: Seq<u8>, radix: Radix, count: nat)
    requires
        all_digits(digits, radix),
    ensures
        trim_padding(digits + spaces(count)) == digits,
    decreases count,
{
    let s = digits + spaces(count);
    if count == 0 {
        assert(s =~= digits);
        if digits.len() > 0 {
            assert(is_digit(digits[digits.len() - 1], radix));
        }
    } else {
        assert(s.last() == SPACE);
        assert(s.drop_last() =~= digits + spaces((count - 1) as nat));
        lemma_trim_padding_after_digits(digits, radix, (count - 1) as nat);
    }
}

/// A number written into a field is read back from it.
pub proof fn lemma_parse_field_of(n: nat, radix: Radix, width: nat)
    requires
        fits_field(n, radix, width),
    ensures
        field_of(n, radix, width).len() == width,
        parse_field_spec(field_of(n, radix, width), radix) == Some(n),
{
    let digits = digits_of(n, radix);
    lemma_digits_of_are_digits(n, radix);
    lemma_digits_value_of_digits(n, radix);
    lemma_trim_padding_after_digits(digits, radix, (width - digits.len()) as nat);
}


/// A prefix of digits denotes no more than the whole.
pub proof fn lemma_digits_value_prefix(s: Seq<u8>, radix: Radix, i: int)
    requires
        0 <= i <= s.len(),
        all_digits(s, radix),
    ensures
        digits_value(s.take(i), radix) <= digits_value(s, radix),
    decreases s.len() - i,
{
    if i == s.len() {
        assert(s.take(i) =~= s);
    } else {
        lemma_digits_value_prefix(s, radix, i + 1);
        let longer = s.take(i + 1);
        assert(longer.drop_last() =~= s.take(i));
        assert(is_digit(s[i], radix));
        let v = digits_value(s.take(i), radix);
        assert(v * radix.base() >= v) by (nonlinear_arith)
            requires
                radix.base() >= 1,
                v >= 0,
        ;
    }
}

/// The length of `bytes` without its trailing spaces.
pub fn spaces_trimmed_len(bytes: &[u8]) -> (n: usize)
    ensures
        n <= bytes@.len(),
        bytes@.take(n as int) == trim_spaces(bytes@),
{
    let mut n: usize = bytes.len();
    assert(bytes@.take(n as int) =~= bytes@);
    while n > 0 && bytes[n - 1] == SPACE
        invariant
            n <= bytes@.len(),
            trim_spaces(bytes@.take(n as int)) == trim_spaces(bytes@),
        decreases n,
    {
        assert(bytes@.take(n as int).drop_last() =~= bytes@.take(n - 1));
        n = n - 1;
    }
    n
}

/// The length of `bytes` without its trailing spaces and NULs.
pub fn padding_trimmed_len(bytes: &[u8]) -> (n: usize)
    ensures
        n <= bytes@.len(),
        bytes@.take(n as int) == trim_padding(bytes@),
{
    let mut n: usize = bytes.len();
    assert(bytes@.take(n as int) =~= bytes@);
    while n > 0 && (bytes[n - 1] == SPACE || bytes[n - 1] == NUL)
        invariant
            n <= bytes@.len(),
            trim_padding(bytes@.take(n as int)) == trim_padding(bytes@),
        decreases n,
    {
        assert(bytes@.take(n as int).drop_last() =~= bytes@.take(n - 1));
        n = n - 1;
    }
    n
}

/// Reads the first `len` bytes of `bytes` as digits. `None` where one of
/// them is no digit of the radix or the number exceeds a `u64`; zero where
/// `len` is zero.
fn digits_prefix_value(bytes: &[u8], len: usize, radix: Radix) -> (r: Option<u64>)
    requires
        len <= bytes@.len(),
    ensures
        r == within_u64(
            if all_digits(bytes@.take(len as int), radix) {
                Some(digits_value(bytes@.take(len as int), radix))
            } else {
                None
            },
        ),
{
    let base: u64 = radix.value();
    let ghost s = bytes@.take(len as int);
    let mut acc: u64 = 0;
    let mut i: usize = 0;
    while i < len
        invariant
            i <= len <= bytes@.len(),
            s == bytes@.take(len as int),
            base == radix.base(),
            all_digits(s.take(i as int), radix),
            acc == digits_value(s.take(i as int), radix),
        decreases len - i,
    {
        let b: u8 = bytes[i];
        assert(s[i as int] == b);
        if b < DIGIT_ZERO || (b - DIGIT_ZERO) as u64 >= base {
            assert(!is_digit(s[i as int], radix));
            return None;
        }
        let digit: u64 = (b - DIGIT_ZERO) as u64;
        proof {
            let longer = s.take(i + 1);
            assert(longer.drop_last() =~= s.take(i as int));
            assert(longer.last() == b);
            assert forall|j: int| 0 <= j < longer.len() implies is_digit(
                #[trigger] longer[j],
                radix,
            ) by {
                if j < i {
                    assert(longer[j] == s.take(i as int)[j]);
                }
            }
            if all_digits(s, radix) {
                lemma_digits_value_prefix(s, radix, i + 1);
            }
        }
        let scaled: u64 = match acc.checked_mul(base) {
            Some(v) => v,
            None => {
                return None;
            },
        };
        acc = match scaled.checked_add(digit) {
            Some(v) => v,
            None => {
                return None;
            },
        };
        i = i + 1;
    }
    assert(s.take(len as int) =~= s);
    Some(acc)
}

/// Reads a run of digits: at least one byte, every byte a digit of the
/// radix. `None` otherwise, and where the number exceeds a `u64`.
pub fn parse_digits(bytes: &[u8], radix: Radix) -> (r: Option<u64>)
    ensures
        r == within_u64(parse_digits_spec(bytes@, radix)),
{
    if bytes.len() == 0 {
        return None;
    }
    assert(bytes@.take(bytes@.len() as int) =~= bytes@);
    digits_prefix_value(bytes, bytes.len(), radix)
}

/// Reads a numeric header field: digits of the radix, then spaces or NULs.
/// `None` where anything else occurs or the number exceeds a `u64`.
pub fn parse_field(field: &[u8], radix: Radix) -> (r: Option<u64>)
    ensures
        r == within_u64(parse_field_spec(field@, radix)),
{
    let len: usize = padding_trimmed_len(field);
    digits_prefix_value(field, len, radix)
}

/// The digits of `n`.
pub fn format_number(n: u64, radix: Radix) -> (digits: Vec<u8>)
    ensures
        digits@ == digits_of(n as nat, radix),
    decreases n,
{
    let base: u64 = radix.value();
    if n < base {
        let mut digits: Vec<u8> = Vec::new();
        digits.push(DIGIT_ZERO + n as u8);
        assert(digits@ =~= digits_of(n as nat, radix));
        digits
    } else {
        proof {
            lemma_quotient_smaller(n as nat, radix);
        }
        let mut digits: Vec<u8> = format_number(n / base, radix);
        let low: u64 = n % base;
        digits.push(DIGIT_ZERO + low as u8);
        digits
    }
}

/// The field of `width` bytes that holds `n`, or `None` where `n` has more
/// than `width` digits.
pub fn format_field(n: u64, radix: Radix, width: usize) -> (r: Option<Vec<u8>>)
    ensures
        r is Some <==> fits_field(n as nat, radix, width as nat),
        r matches Some(field) ==> field@ == field_of(n as nat, radix, width as nat),
{
    let mut field: Vec<u8> = format_number(n, radix);
    if field.len() > width {
        return None;
    }
    let ghost digits = field@;
    while field.len() < width
        invariant
            digits == digits_of(n as nat, radix),
            digits.len() <= field@.len() <= width,
            field@ == digits + spaces((field@.len() - digits.len()) as nat),
        decreases width - field@.len(),
    {
        field.push(SPACE);
        assert(field@ =~= digits + spaces((field@.len() - digits.len()) as nat));
    }
    Some(field)
}

} // verus!
