//! Decimal numbers and subtitle timestamps as text.

use vstd::prelude::*;

verus! {

/// The character of the decimal digit `d`.
pub open spec fn digit_char(d: nat) -> char {
    (48 + d) as char
}

/// The decimal digits of `n`, most significant first, without leading zeros.
pub open spec fn decimal(n: nat) -> Seq<char>
    decreases n,
{
    if n < 10 {
        seq![digit_char(n)]
    } else {
        decimal(n / 10).push(digit_char(n % 10))
    }
}

/// `count` zeros.
pub open spec fn zeros(count: nat) -> Seq<char> {
    Seq::new(count, |i: int| '0')
}

/// The decimal digits of `n`, with zeros in front until there are at least
/// `width` characters.
pub open spec fn zero_padded(n: nat, width: nat) -> Seq<char> {
    let digits = decimal(n);
    if digits.len() >= width {
        digits
    } else {
        zeros((width - digits.len()) as nat) + digits
    }
}

/// One field of a timestamp: the magnitude `n` in at least `width` characters.
/// In a timestamp before zero a field that is not zero carries a minus sign,
/// which counts towards the width.
pub open spec fn field(negative: bool, n: nat, width: nat) -> Seq<char> {
    if negative && n > 0 {
        seq!['-'] + zero_padded(n, (width - 1) as nat)
    } else {
        zero_padded(n, width)
    }
}

/// The timestamp `HH:MM:SS,mmm` of `ms` milliseconds: hours, minutes, seconds
/// and milliseconds, zero-padded to two, two, two and three characters. Hours
/// beyond 99 take the characters they need. Nothing is rounded.
pub open spec fn timestamp_text(ms: int) -> Seq<char> {
    let negative = ms < 0;
    let m: nat = if ms < 0 { (-ms) as nat } else { ms as nat };
    field(negative, m / 3_600_000, 2) + seq![':'] + field(negative, (m % 3_600_000) / 60_000, 2)
        + seq![':'] + field(negative, (m % 60_000) / 1000, 2) + seq![','] + field(
        negative,
        m % 1000,
        3,
    )
}

fn digit(d: u64) -> (c: char)
    requires
        d < 10,
    ensures
        c == digit_char(d as nat),
{
    let b: u8 = 48 + (d as u8);
    b as char
}

/// Appends the decimal digits of `n` to `out`.
pub fn push_decimal(out: &mut Vec<char>, n: u64)
    ensures
        final(out)@ == old(out)@ + decimal(n as nat),
    decreases n,
{
    if n >= 10 {
        push_decimal(out, n / 10);
    }
    out.push(digit(n % 10));
    assert(out@ =~= old(out)@ + decimal(n as nat));
}

/// Appends `n` to `out` in at least `width` characters, zeros in front.
pub fn push_zero_padded(out: &mut Vec<char>, n: u64, width: usize)
    ensures
        final(out)@ == old(out)@ + zero_padded(n as nat, width as nat),
{
    let mut digits: Vec<char> = Vec::new();
    push_decimal(&mut digits, n);
    assert(digits@ =~= decimal(n as nat));
    let len = digits.len();
    let mut k: usize = len;
    while k < width
        invariant
            len <= k,
            k <= width || k == len,
            out@ == old(out)@ + zeros((k - len) as nat),
        decreases width - k,
    {
        out.push('0');
        k += 1;
        assert(out@ =~= old(out)@ + zeros((k - len) as nat));
    }
    let ghost before = out@;
    crate::text::push_all(out, &digits);
    proof {
        if len >= width {
            assert(before =~= old(out)@);
        } else {
            assert(out@ =~= old(out)@ + (zeros((width - len) as nat) + decimal(n as nat)));
        }
    }
}

fn push_field(out: &mut Vec<char>, negative: bool, n: u64, width: usize)
    requires
        width >= 1,
    ensures
        final(out)@ == old(out)@ + field(negative, n as nat, width as nat),
{
    if negative && n > 0 {
        out.push('-');
        push_zero_padded(out, n, width - 1);
        assert(out@ =~= old(out)@ + (seq!['-'] + zero_padded(n as nat, (width - 1) as nat)));
    } else {
        push_zero_padded(out, n, width);
    }
}

/// Appends the timestamp of a time given by sign and magnitude in
/// milliseconds.
pub fn push_timestamp(out: &mut Vec<char>, negative: bool, magnitude: u64)
    ensures
        final(out)@ == old(out)@ + timestamp_text(
            if negative {
                -(magnitude as int)
            } else {
                magnitude as int
            },
        ),
{
    let hours = magnitude / 3_600_000;
    let minutes = (magnitude % 3_600_000) / 60_000;
    let seconds = (magnitude % 60_000) / 1000;
    let millis = magnitude % 1000;
    let neg = negative && magnitude > 0;
    let ghost ms: int = if negative { -(magnitude as int) } else { magnitude as int };
    proof {
        assert(neg == (ms < 0));
        if !neg && negative {
            assert(magnitude == 0);
        }
    }
    push_field(out, neg, hours, 2);
    out.push(':');
    push_field(out, neg, minutes, 2);
    out.push(':');
    push_field(out, neg, seconds, 2);
    out.push(',');
    push_field(out, neg, millis, 3);
    assert(out@ =~= old(out)@ + timestamp_text(ms));
}

} // verus!
