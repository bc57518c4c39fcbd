//! Decimal numbers as text: reading them and writing them.

use vstd::prelude::*;

verus! {

/// Whether `c` is one of the ten decimal digits.
pub open spec fn is_digit(c: char) -> bool {
    '0' <= c <= '9'
}

/// Whether `s` holds decimal digits only.
pub open spec fn all_digits(s: Seq<char>) -> bool {
    forall|i: int| 0 <= i < s.len() ==> is_digit(#[trigger] s[i])
}

/// The value of the decimal digit `c`.
pub open spec fn digit_of(c: char) -> nat {
    (c as int - '0' as int) as nat
}

/// The number that the decimal digits `s` write, most significant first.
pub open spec fn digits_value(s: Seq<char>) -> nat
    decreases s.len(),
{
    if s.len() == 0 {
        0
    } else {
        digits_value(s.drop_last()) * 10 + digit_of(s.last())
    }
}

/// What is left of `s` after one leading `+`, or `-` where `minus_too` admits it.
pub open spec fn unsigned_part(s: Seq<char>, minus_too: bool) -> Seq<char> {
    if s.len() > 0 && (s[0] == '+' || (minus_too && s[0] == '-')) {
        s.skip(1)
    } else {
        s
    }
}

/// The `u32` that `s` writes: an optional `+`, then at least one decimal
/// digit and nothing else; `None` for any other text and for a number
/// beyond `u32::MAX`.
pub open spec fn parse_unsigned(s: Seq<char>) -> Option<u32> {
    let body = unsigned_part(s, false);
    if body.len() > 0 && all_digits(body) && digits_value(body) <= u32::MAX {
        Some(digits_value(body) as u32)
    } else {
        None
    }
}

/// The `i32` that `s` writes: an optional `+` or `-`, then at least one
/// decimal digit and nothing else; `None` for any other text and for a
/// number outside the range of `i32`.
pub open spec fn parse_signed(s: Seq<char>) -> Option<i32> {
    let body = unsigned_part(s, true);
    let magnitude = digits_value(body) as int;
    let value = if s.len() > 0 && s[0] == '-' {
        -magnitude
    } else {
        magnitude
    };
    if body.len() > 0 && all_digits(body) && i32::MIN <= value <= i32::MAX {
        Some(value as i32)
    } else {
        None
    }
}

/// A prefix of a digit string writes no larger a number than the whole.
pub proof fn lemma_prefix_value(s: Seq<char>, i: int)
    requires
        0 <= i <= s.len(),
    ensures
        digits_value(s.take(i)) <= digits_value(s),
    decreases s.len() - i,
{
    if i < s.len() {
        lemma_prefix_value(s, i + 1);
        assert(s.take(i + 1).drop_last() == s.take(i));
    } else {
        assert(s.take(i) == s);
    }
}

/// Whether `c` is one of the ten decimal digits.
pub fn char_is_digit(c: char) -> (b: bool)
    ensures
        b == is_digit(c),
{
    c >= '0' && c <= '9'
}

/// Reads the digits `s[from..]` as a number that is at most `limit`.
fn read_digits(s: &[char], from: usize, limit: u64) -> (r: Option<u64>)
    requires
        from <= s@.len(),
        limit < 0x1_0000_0000,
    ensures
        r == if s@.len() > from && all_digits(s@.skip(from as int)) && digits_value(
            s@.skip(from as int),
        ) <= limit {
            Some(digits_value(s@.skip(from as int)) as u64)
        } else {
            None
        },
{
    let n: usize = s.len();
    if from >= n {
        return None;
    }
    let ghost body = s@.skip(from as int);
    let mut acc: u64 = 0;
    let mut i: usize = from;
    while i < n
        invariant
            from <= i <= n == s@.len(),
            body == s@.skip(from as int),
            all_digits(body.take(i - from)),
            acc == digits_value(body.take(i - from)),
            acc <= limit < 0x1_0000_0000,
        decreases n - i,
    {
        let c: char = s[i];
        let ghost next = body.take(i - from + 1);
        proof {
            assert(next.drop_last() == body.take(i - from));
            assert(next.last() == c);
        }
        if !char_is_digit(c) {
            proof {
                assert(!is_digit(body[i - from]));
            }
            return None;
        }
        let d: u64 = (c as u32 - '0' as u32) as u64;
        let v: u64 = acc * 10 + d;
        if v > limit {
            proof {
                lemma_prefix_value(body, i - from + 1);
            }
            return None;
        }
        proof {
            assert forall|j: int| 0 <= j < next.len() implies is_digit(#[trigger] next[j]) by {
                if j < next.len() - 1 {
                    assert(next[j] == body.take(i - from)[j]);
                }
            }
        }
        acc = v;
        i += 1;
    }
    proof {
        assert(body.take(n - from) == body);
    }
    Some(acc)
}

/// Reads `s` as a `u32`.
pub fn read_u32(s: &[char]) -> (r: Option<u32>)
    ensures
        r == parse_unsigned(s@),
{
    let from: usize = if s.len() > 0 && s[0] == '+' {
        1
    } else {
        0
    };
    proof {
        assert(s@.skip(0) == s@);
    }
    match read_digits(s, from, 0xFFFF_FFFF) {
        Some(v) => Some(v as u32),
        None => None,
    }
}

/// Reads `s` as an `i32`.
pub fn read_i32(s: &[char]) -> (r: Option<i32>)
    ensures
        r == parse_signed(s@),
{
    proof {
        assert(s@.skip(0) == s@);
    }
    if s.len() > 0 && s[0] == '-' {
        match read_digits(s, 1, 0x8000_0000) {
            Some(v) => Some((0 - (v as i64)) as i32),
            None => None,
        }
    } else {
        let from: usize = if s.len() > 0 && s[0] == '+' {
            1
        } else {
            0
        };
        match read_digits(s, from, 0x7FFF_FFFF) {
            Some(v) => Some(v as i32),
            None => None,
        }
    }
}

/// The character that writes the decimal digit `d`.
pub open spec fn digit_char(d: nat) -> char {
    (d + '0' as nat) as char
}

/// The decimal digits of `n`, most significant first, without padding.
pub open spec fn decimal(n: nat) -> Seq<char>
    decreases n,
{
    if n < 10 {
        seq![digit_char(n)]
    } else {
        decimal(n / 10).push(digit_char(n % 10))
    }
}

/// `count` zeros.
pub open spec fn zeros(count: nat) -> Seq<char> {
    Seq::new(count, |i: int| '0')
}

/// The decimal digits of `n`, with zeros in front up to `width` characters.
pub open spec fn zero_padded(n: nat, width: nat) -> Seq<char> {
    let d = decimal(n);
    if d.len() >= width {
        d
    } else {
        zeros((width - d.len()) as nat) + d
    }
}

/// The decimal digits of `n` behind a `-` where it is negative, with zeros
/// between sign and digits up to `width` characters in all.
pub open spec fn signed_zero_padded(n: int, width: nat) -> Seq<char> {
    if n < 0 {
        seq!['-'] + zero_padded((-n) as nat, if width > 0 {
            (width - 1) as nat
        } else {
            0
        })
    } else {
        zero_padded(n as nat, width)
    }
}

/// The digits of `n`, most significant first.
pub fn decimal_digits(n: u64) -> (r: Vec<char>)
    ensures
        r@ == decimal(n as nat),
    decreases n,
{
    let d: u8 = (n % 10) as u8;
    let c: char = (d + 48u8) as char;
    assert(c == digit_char((n % 10) as nat));
    if n < 10 {
        let mut r: Vec<char> = Vec::new();
        r.push(c);
        r
    } else {
        let mut r = decimal_digits(n / 10);
        r.push(c);
        r
    }
}

/// Appends `n` in decimal, zero-padded to `width`.
pub fn push_padded(out: &mut Vec<char>, n: u64, width: usize)
    ensures
        final(out)@ == old(out)@ + zero_padded(n as nat, width as nat),
{
    let digits = decimal_digits(n);
    let ghost start = out@;
    let mut k: usize = digits.len();
    while k < width
        invariant
            digits@.len() <= k,
            k == digits@.len() || k <= width,
            out@ == start + zeros((k - digits@.len()) as nat),
        decreases width - k,
    {
        out.push('0');
        k += 1;
        assert(zeros((k - digits@.len()) as nat) == zeros((k - 1 - digits@.len()) as nat).push(
            '0',
        ));
    }
    let ghost pad = out@;
    super::text::extend_chars(out, digits.as_slice());
    proof {
        if digits@.len() >= width {
            assert(zeros(0) == Seq::<char>::empty());
            assert(pad == start + zeros(0));
            assert(pad == start);
        } else {
            assert(start + zeros((width - digits@.len()) as nat) + digits@ == start + (zeros(
                (width - digits@.len()) as nat,
            ) + digits@));
        }
    }
}

/// Appends `n` in decimal with its sign, zero-padded to `width`.
pub fn push_signed_padded(out: &mut Vec<char>, n: i64, width: usize)
    requires
        n > i64::MIN,
    ensures
        final(out)@ == old(out)@ + signed_zero_padded(n as int, width as nat),
{
    let ghost start = out@;
    if n < 0 {
        out.push('-');
        let w: usize = if width > 0 {
            width - 1
        } else {
            0
        };
        push_padded(out, (0 - n) as u64, w);
        proof {
            let z = zero_padded((-n) as nat, w as nat);
            assert(start.push('-') + z == start + (seq!['-'] + z));
        }
    } else {
        push_padded(out, n as u64, width);
    }
}

/// The decimal digits of a number are digits, at least one, and write it.
pub proof fn lemma_decimal(n: nat)
    ensures
        decimal(n).len() >= 1,
        all_digits(decimal(n)),
        digits_value(decimal(n)) == n,
    decreases n,
{
    let d = decimal(n);
    if n < 10 {
        assert(d.drop_last() =~= Seq::<char>::empty());
        assert(digits_value(d.drop_last()) == 0);
        assert(d.last() == digit_char(n));
        assert(digit_of(digit_char(n)) == n);
    } else {
        lemma_decimal(n / 10);
        assert(d.drop_last() =~= decimal(n / 10));
        assert(d.last() == digit_char(n % 10));
        assert(digit_of(digit_char(n % 10)) == n % 10);
        assert forall|i: int| 0 <= i < d.len() implies is_digit(#[trigger] d[i]) by {
            if i < d.len() - 1 {
                assert(d[i] == decimal(n / 10)[i]);
            }
        }
    }
}

/// Zeros in front of digits change nothing of what they write.
pub proof fn lemma_leading_zeros(k: nat, d: Seq<char>)
    requires
        all_digits(d),
    ensures
        all_digits(zeros(k) + d),
        digits_value(zeros(k) + d) == digits_value(d),
    decreases d.len(), k,
{
    let z = zeros(k) + d;
    assert forall|i: int| 0 <= i < z.len() implies is_digit(#[trigger] z[i]) by {
        if i >= k {
            assert(z[i] == d[i - k]);
        }
    }
    if d.len() > 0 {
        assert(z.drop_last() =~= zeros(k) + d.drop_last());
        assert(z.last() == d.last());
        assert forall|i: int| 0 <= i < d.drop_last().len() implies is_digit(
            #[trigger] d.drop_last()[i],
        ) by {
            assert(d.drop_last()[i] == d[i]);
        }
        lemma_leading_zeros(k, d.drop_last());
    } else if k > 0 {
        assert(z.drop_last() =~= zeros((k - 1) as nat) + d);
        assert(z.last() == '0');
        lemma_leading_zeros((k - 1) as nat, d);
    } else {
        assert(z =~= d);
    }
}

/// A padded number is made of digits, at least one, and writes the number.
pub proof fn lemma_zero_padded(n: nat, width: nat)
    ensures
        zero_padded(n, width).len() >= 1,
        all_digits(zero_padded(n, width)),
        digits_value(zero_padded(n, width)) == n,
{
    lemma_decimal(n);
    let d = decimal(n);
    if d.len() < width {
        lemma_leading_zeros((width - d.len()) as nat, d);
    }
}

/// A padded number is read back as the number.
pub proof fn lemma_padded_reads_back(n: nat, width: nat)
    ensures
        n <= u32::MAX ==> parse_unsigned(zero_padded(n, width)) == Some(n as u32),
        n <= i32::MAX ==> parse_signed(zero_padded(n, width)) == Some(n as i32),
{
    lemma_zero_padded(n, width);
    let z = zero_padded(n, width);
    assert(is_digit(z[0]));
    assert(unsigned_part(z, false) == z);
    assert(unsigned_part(z, true) == z);
}

/// A number below 100, padded to two places, has two places.
pub proof fn lemma_two_places(n: nat)
    requires
        n < 100,
    ensures
        zero_padded(n, 2).len() == 2,
{
    if n >= 10 {
        assert(decimal(n / 10).len() == 1);
    } else {
        assert(zeros(1).len() == 1);
    }
}

/// Padded numbers that are written alike are the same number.
pub proof fn lemma_padded_alike(a: nat, b: nat, width: nat)
    requires
        zero_padded(a, width) == zero_padded(b, width),
    ensures
        a == b,
{
    lemma_zero_padded(a, width);
    lemma_zero_padded(b, width);
}

/// Signed numbers that are written alike are the same number.
pub proof fn lemma_signed_alike(a: int, b: int, width: nat)
    requires
        signed_zero_padded(a, width) == signed_zero_padded(b, width),
    ensures
        a == b,
{
    let w: nat = if width > 0 {
        (width - 1) as nat
    } else {
        0
    };
    let x = signed_zero_padded(a, width);
    let y = signed_zero_padded(b, width);
    if a < 0 {
        lemma_zero_padded((-a) as nat, w);
        assert(x[0] == '-');
    } else {
        lemma_zero_padded(a as nat, width);
        assert(is_digit(x[0]));
    }
    if b < 0 {
        lemma_zero_padded((-b) as nat, w);
        assert(y[0] == '-');
    } else {
        lemma_zero_padded(b as nat, width);
        assert(is_digit(y[0]));
    }
    if a < 0 {
        assert(b < 0);
        assert(x.skip(1) =~= zero_padded((-a) as nat, w));
        assert(y.skip(1) =~= zero_padded((-b) as nat, w));
        lemma_padded_alike((-a) as nat, (-b) as nat, w);
    } else {
        assert(b >= 0);
        lemma_padded_alike(a as nat, b as nat, width);
    }
}

} // verus!
