use vstd::prelude::*;
use vstd::utf8::encode_scalar;

verus! {

/// Compares two strings character by character.
pub fn str_eq(a: &str, b: &str) -> (equal: bool)
    ensures
        equal == (a@ == b@),
{
    let n = a.unicode_len();
    let m = b.unicode_len();
    if n != m {
        return false;
    }
    let mut i: usize = 0;
    while i < n
        invariant
            n == a@.len(),
            m == b@.len(),
            n == m,
            i <= n,
            a@.take(i as int) == b@.take(i as int),
        decreases n - i,
    {
        if a.get_char(i) != b.get_char(i) {
            assert(a@[i as int] != b@[i as int]);
            return false;
        }
        assert(a@.take(i + 1) =~= a@.take(i as int).push(a@[i as int]));
        assert(b@.take(i + 1) =~= b@.take(i as int).push(b@[i as int]));
        i = i + 1;
    }
    assert(a@ =~= a@.take(n as int));
    assert(b@ =~= b@.take(n as int));
    true
}

/// The ASCII decimal digits of `n`, most significant first, without
/// leading zeros.
pub open spec fn decimal(n: nat) -> Seq<u8>
    decreases n,
{
    if n < 10 {
        seq![(0x30 + n) as u8]
    } else {
        decimal(n / 10).push((0x30 + n % 10) as u8)
    }
}

/// The decimal text of a number is at least one byte long and made of
/// ASCII digits only.
pub proof fn lemma_decimal_digits(n: nat)
    ensures
        decimal(n).len() >= 1,
        forall|i: int| 0 <= i < decimal(n).len() ==> 0x30 <= #[trigger] decimal(n)[i] <= 0x39,
    decreases n,
{
    if n >= 10 {
        lemma_decimal_digits(n / 10);
    }
}

/// Appends the ASCII decimal digits of `n`.
pub fn push_decimal(out: &mut Vec<u8>, n: u32)
    ensures
        final(out)@ == old(out)@ + decimal(n as nat),
    decreases n,
{
    if n >= 10 {
        push_decimal(out, n / 10);
    }
    out.push(0x30u8 + (n % 10) as u8);
    proof {
        assert(out@ =~= old(out)@ + decimal(n as nat));
    }
}

/// Appends bytes.
pub fn push_bytes(out: &mut Vec<u8>, bytes: &[u8])
    ensures
        final(out)@ == old(out)@ + bytes@,
{
    let mut i: usize = 0;
    while i < bytes.len()
        invariant
            i <= bytes@.len(),
            out@ == old(out)@ + bytes@.take(i as int),
        decreases bytes@.len() - i,
    {
        out.push(bytes[i]);
        assert(bytes@.take(i + 1) =~= bytes@.take(i as int).push(bytes@[i as int]));
        i = i + 1;
    }
    assert(bytes@.take(bytes@.len() as int) =~= bytes@);
}

/// Appends the UTF-8 encoding of a character.
pub fn push_utf8(out: &mut Vec<u8>, c: char)
    ensures
        final(out)@ == old(out)@ + encode_scalar(c as u32),
{
    let v: u32 = c as u32;
    proof {
        vstd::utf8::char_is_scalar(c);
    }
    if v <= 0x7f {
        out.push(v as u8);
        assert(v as u8 == (v & 0x7f) as u8) by (bit_vector)
            requires
                v <= 0x7f,
        ;
    } else if v <= 0x7ff {
        let b1: u8 = (0xc0 | ((v >> 6) & 0x1f)) as u8;
        let b2: u8 = (0x80 | (v & 0x3f)) as u8;
        assert(b1 == (0xC0 | ((v >> 6) & 0x1F) as u8) && b2 == (0x80 | (v & 0x3F) as u8))
            by (bit_vector)
            requires
                b1 == (0xc0 | ((v >> 6) & 0x1f)) as u8,
                b2 == (0x80 | (v & 0x3f)) as u8,
        ;
        out.push(b1);
        out.push(b2);
    } else if v <= 0xffff {
        let b1: u8 = (0xe0 | ((v >> 12) & 0x0f)) as u8;
        let b2: u8 = (0x80 | ((v >> 6) & 0x3f)) as u8;
        let b3: u8 = (0x80 | (v & 0x3f)) as u8;
        assert(b1 == (0xE0 | ((v >> 12) & 0x0F) as u8) && b2 == (0x80 | ((v >> 6) & 0x3F) as u8)
            && b3 == (0x80 | (v & 0x3F) as u8)) by (bit_vector)
            requires
                b1 == (0xe0 | ((v >> 12) & 0x0f)) as u8,
                b2 == (0x80 | ((v >> 6) & 0x3f)) as u8,
                b3 == (0x80 | (v & 0x3f)) as u8,
        ;
        out.push(b1);
        out.push(b2);
        out.push(b3);
    } else {
        let b1: u8 = (0xf0 | ((v >> 18) & 0x07)) as u8;
        let b2: u8 = (0x80 | ((v >> 12) & 0x3f)) as u8;
        let b3: u8 = (0x80 | ((v >> 6) & 0x3f)) as u8;
        let b4: u8 = (0x80 | (v & 0x3f)) as u8;
        assert(b1 == (0xF0 | ((v >> 18) & 0x7) as u8) && b2 == (0x80 | ((v >> 12) & 0x3F) as u8)
            && b3 == (0x80 | ((v >> 6) & 0x3F) as u8) && b4 == (0x80 | (v & 0x3F) as u8))
            by (bit_vector)
            requires
                b1 == (0xf0 | ((v >> 18) & 0x07)) as u8,
                b2 == (0x80 | ((v >> 12) & 0x3f)) as u8,
                b3 == (0x80 | ((v >> 6) & 0x3f)) as u8,
                b4 == (0x80 | (v & 0x3f)) as u8,
        ;
        out.push(b1);
        out.push(b2);
        out.push(b3);
        out.push(b4);
    }
    assert(out@ =~= old(out)@ + encode_scalar(c as u32));
}

/// An ASCII decimal digit.
pub open spec fn is_digit(c: char) -> bool {
    '0' <= c && c <= '9'
}

/// The value of a string of decimal digits, most significant first.
pub open spec fn digits_value(s: Seq<char>) -> nat
    decreases s.len(),
{
    if s.len() == 0 {
        0
    } else {
        digits_value(s.drop_last()) * 10 + ((s.last() as u32) - 0x30) as nat
    }
}

/// The value of an unsigned decimal integer as `str::parse` reads it: an
/// optional `+`, then one or more ASCII digits and nothing else.
pub open spec fn unsigned_text_value(s: Seq<char>) -> Option<nat> {
    let digits = unsigned_digits(s);
    if digits.len() > 0 && all_digits(digits) {
        Some(digits_value(digits))
    } else {
        None
    }
}

/// The text after an optional leading `+`.
pub open spec fn unsigned_digits(s: Seq<char>) -> Seq<char> {
    if s.len() > 0 && s[0] == '+' {
        s.drop_first()
    } else {
        s
    }
}

pub open spec fn all_digits(s: Seq<char>) -> bool {
    forall|i: int| 0 <= i < s.len() ==> is_digit(#[trigger] s[i])
}

/// A string of digits is worth at least as much as any of its prefixes.
proof fn lemma_digits_value_prefix(s: Seq<char>, i: int)
    requires
        0 <= i <= s.len(),
        forall|k: int| 0 <= k < s.len() ==> is_digit(#[trigger] s[k]),
    ensures
        digits_value(s.take(i)) <= digits_value(s),
    decreases s.len(),
{
    if i < s.len() {
        let t = s.drop_last();
        assert(s.take(i) =~= t.take(i));
        assert forall|k: int| 0 <= k < t.len() implies is_digit(#[trigger] t[k]) by {
            assert(t[k] == s[k]);
        }
        lemma_digits_value_prefix(t, i);
    } else {
        assert(s.take(i) =~= s);
    }
}

/// Reads an unsigned decimal integer no greater than `max`, as `str::parse`
/// does for unsigned integer types.
pub fn parse_unsigned(text: &str, max: u64) -> (value: Option<u64>)
    ensures
        value is Some <==> (unsigned_text_value(text@) matches Some(v) && v <= max),
        value matches Some(v) ==> unsigned_text_value(text@) == Some(v as nat),
{
    let n = text.unicode_len();
    if n == 0 {
        return None;
    }
    let ghost s = text@;
    let start: usize = if text.get_char(0) == '+' {
        1
    } else {
        0
    };
    let ghost digits = unsigned_digits(s);
    assert(digits =~= s.subrange(start as int, n as int));
    if start == n {
        return None;
    }
    let mut value: u64 = 0;
    let mut i: usize = start;
    while i < n
        invariant
            n == s.len(),
            s == text@,
            start <= i <= n,
            start < n,
            digits == s.subrange(start as int, n as int),
            digits == unsigned_digits(s),
            forall|k: int| 0 <= k < i - start ==> is_digit(#[trigger] digits[k]),
            value == digits_value(digits.take(i - start)),
            value <= max,
        decreases n - i,
    {
        let c = text.get_char(i);
        assert(c == digits[i - start]);
        if c < '0' || c > '9' {
            assert(!is_digit(digits[i - start]));
            assert(!all_digits(digits));
            return None;
        }
        let d: u64 = (c as u32 - 0x30) as u64;
        assert(digits.take(i - start + 1).drop_last() =~= digits.take(i - start));
        if (value as u128) * 10 + (d as u128) > max as u128 {
            proof {
                let t = digits.take(i - start + 1);
                assert(t.last() == c);
                assert(digits_value(t) == value * 10 + d);
                if all_digits(digits) {
                    lemma_digits_value_prefix(digits, i - start + 1);
                }
            }
            return None;
        }
        value = value * 10 + d;
        i = i + 1;
    }
    assert(digits.take(n - start) =~= digits);
    Some(value)
}

} // verus!
