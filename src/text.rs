//! ASCII text: decimal digits written and read, and bytes turned into
//! `String`s.
use vstd::prelude::*;

verus! {

/// The ASCII character of each byte.
pub open spec fn ascii_text(b: Seq<u8>) -> Seq<char> {
    b.map_values(|x: u8| x as char)
}

/// Every byte is below 128.
pub open spec fn is_ascii_bytes(b: Seq<u8>) -> bool {
    forall|i: int| 0 <= i < b.len() ==> #[trigger] b[i] < 128
}

pub open spec fn is_digit(b: u8) -> bool {
    0x30 <= b <= 0x39
}

pub open spec fn digit_char(d: nat) -> u8
    recommends
        d < 10,
{
    (0x30 + d) as u8
}

/// `n` in decimal, with no leading zeros (`0` is written `0`).
pub open spec fn decimal_digits(n: nat) -> Seq<u8>
    decreases n,
{
    if n < 10 {
        seq![digit_char(n)]
    } else {
        decimal_digits(n / 10).push(digit_char(n % 10))
    }
}

/// The last `width` decimal digits of `n`, zero-padded on the left.
pub open spec fn padded_digits(n: nat, width: nat) -> Seq<u8>
    decreases width,
{
    if width == 0 {
        Seq::empty()
    } else {
        padded_digits(n / 10, (width - 1) as nat).push(digit_char(n % 10))
    }
}

/// The number that a string of decimal digits denotes (most significant
/// first).
pub open spec fn digits_value(s: Seq<u8>) -> nat
    decreases s.len(),
{
    if s.len() == 0 {
        0
    } else {
        digits_value(s.drop_last()) * 10 + (s.last() - 0x30) as nat
    }
}

pub open spec fn all_digits(s: Seq<u8>) -> bool {
    forall|i: int| 0 <= i < s.len() ==> is_digit(#[trigger] s[i])
}

pub open spec fn pow10(n: nat) -> nat
    decreases n,
{
    if n == 0 {
        1
    } else {
        10 * pow10((n - 1) as nat)
    }
}

/// Powers of ten grow with the exponent.
pub proof fn lemma_pow10_mono(a: nat, b: nat)
    requires
        a <= b,
    ensures
        pow10(a) <= pow10(b),
    decreases b,
{
    if a < b {
        lemma_pow10_mono(a, (b - 1) as nat);
    }
}

/// Decimal digits are ASCII.
pub proof fn lemma_decimal_ascii(n: nat)
    ensures
        is_ascii_bytes(decimal_digits(n)),
    decreases n,
{
    if n >= 10 {
        lemma_decimal_ascii(n / 10);
    }
}

/// Padded decimal digits are ASCII.
pub proof fn lemma_padded_ascii(n: nat, w: nat)
    ensures
        is_ascii_bytes(padded_digits(n, w)),
    decreases w,
{
    if w > 0 {
        lemma_padded_ascii(n / 10, (w - 1) as nat);
    }
}

/// Appends `n` in decimal.
pub fn push_decimal(out: &mut Vec<u8>, n: u64)
    ensures
        final(out)@ == old(out)@ + decimal_digits(n as nat),
    decreases n,
{
    if n >= 10 {
        push_decimal(out, n / 10);
    }
    out.push(0x30u8 + (n % 10) as u8);
    assert(decimal_digits(n as nat) == if n < 10 {
        seq![digit_char(n as nat)]
    } else {
        decimal_digits((n / 10) as nat).push(digit_char((n % 10) as nat))
    });
    assert(final(out)@ =~= old(out)@ + decimal_digits(n as nat));
}

/// Appends the last `width` digits of `n`, zero-padded.
pub fn push_padded(out: &mut Vec<u8>, n: u64, width: u8)
    ensures
        final(out)@ == old(out)@ + padded_digits(n as nat, width as nat),
    decreases width,
{
    if width > 0 {
        push_padded(out, n / 10, width - 1);
        out.push(0x30u8 + (n % 10) as u8);
        assert(final(out)@ =~= old(out)@ + padded_digits(n as nat, width as nat));
    } else {
        assert(final(out)@ =~= old(out)@ + padded_digits(n as nat, width as nat));
    }
}

/// Relies on `String::from_utf8_lossy`: input that is valid UTF-8, as ASCII
/// is, comes back as the same text.
#[verifier::external_body]
pub(crate) fn ascii_string(b: &[u8]) -> (r: String)
    ensures
        is_ascii_bytes(b@) ==> r@ == ascii_text(b@),
{
    String::from_utf8_lossy(b).into_owned()
}

} // verus!
