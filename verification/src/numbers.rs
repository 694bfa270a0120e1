//! Decimal and hexadecimal text of unsigned integers.

use vstd::prelude::*;

verus! {

pub open spec fn is_digit(c: char) -> bool {
    '0' <= c <= '9'
}

pub open spec fn digit_value(c: char) -> int {
    (c as u32) - ('0' as u32)
}

/// The number a string of decimal digits denotes.
pub open spec fn digits_value(s: Seq<char>) -> int
    decreases s.len(),
{
    if s.len() == 0 {
        0
    } else {
        digits_value(s.drop_last()) * 10 + digit_value(s.last())
    }
}

/// The text after an optional leading `+`.
pub open spec fn unsigned_digits(s: Seq<char>) -> Seq<char> {
    if s.len() > 0 && s[0] == '+' {
        s.drop_first()
    } else {
        s
    }
}

/// `str::parse` of an unsigned integer type whose largest value is `max`: an
/// optional `+`, then one or more ASCII digits, denoting a value up to `max`.
pub open spec fn parse_uint_spec(s: Seq<char>, max: int) -> Option<int> {
    let d = unsigned_digits(s);
    if d.len() > 0 && (forall|i: int| 0 <= i < d.len() ==> is_digit(#[trigger] d[i]))
        && digits_value(d) <= max {
        Some(digits_value(d))
    } else {
        None
    }
}

proof fn lemma_digits_value_nonneg(s: Seq<char>)
    requires
        forall|i: int| 0 <= i < s.len() ==> is_digit(#[trigger] s[i]),
    ensures
        digits_value(s) >= 0,
    decreases s.len(),
{
    if s.len() > 0 {
        lemma_digits_value_nonneg(s.drop_last());
    }
}

proof fn lemma_digits_value_mono(s: Seq<char>, k: int)
    requires
        0 <= k <= s.len(),
        forall|i: int| 0 <= i < s.len() ==> is_digit(#[trigger] s[i]),
    ensures
        digits_value(s.take(k)) <= digits_value(s),
    decreases s.len() - k,
{
    if k < s.len() {
        lemma_digits_value_mono(s, k + 1);
        assert(s.take(k + 1).drop_last() =~= s.take(k));
        lemma_digits_value_nonneg(s.take(k));
    } else {
        assert(s.take(k) =~= s);
    }
}

proof fn lemma_parse_none_nondigit(s: Seq<char>, max: int, d: Seq<char>, k: int)
    requires
        d == unsigned_digits(s),
        0 <= k < d.len(),
        !is_digit(d[k]),
    ensures
        parse_uint_spec(s, max) is None,
{
}

proof fn lemma_parse_none_large(s: Seq<char>, max: int, d: Seq<char>)
    requires
        d == unsigned_digits(s),
        digits_value(d) > max,
    ensures
        parse_uint_spec(s, max) is None,
{
}

/// Parses an unsigned decimal no larger than `max`, as `str::parse` does.
pub fn parse_uint(v: &[char], max: u64) -> (r: Option<u64>)
    ensures
        match parse_uint_spec(v@, max as int) {
            Some(n) => r == Some(n as u64),
            None => r is None,
        },
        r matches Some(x) ==> parse_uint_spec(v@, max as int) == Some(x as int),
{
    let start: usize = if v.len() > 0 && v[0] == '+' {
        1
    } else {
        0
    };
    let ghost d = unsigned_digits(v@);
    assert(d =~= v@.skip(start as int));
    if start == v.len() {
        return None;
    }
    let mut i: usize = start;
    while i < v.len()
        invariant
            start <= i <= v.len(),
            d == v@.skip(start as int),
            d == unsigned_digits(v@),
            forall|j: int| start <= j < i ==> is_digit(#[trigger] v@[j]),
        decreases v.len() - i,
    {
        if !(v[i] >= '0' && v[i] <= '9') {
            assert(d[i - start] == v@[i as int]);
            assert(!is_digit(d[i - start]));
            proof {
                lemma_parse_none_nondigit(v@, max as int, d, i - start);
            }
            return None;
        }
        i = i + 1;
    }
    assert forall|j: int| 0 <= j < d.len() implies is_digit(#[trigger] d[j]) by {
        assert(d[j] == v@[j + start]);
    }
    let mut acc: u64 = 0;
    let mut k: usize = start;
    while k < v.len()
        invariant
            start <= k <= v.len(),
            d == v@.skip(start as int),
            d == unsigned_digits(v@),
            forall|j: int| 0 <= j < d.len() ==> is_digit(#[trigger] d[j]),
            acc == digits_value(d.take(k - start)),
            acc <= max,
        decreases v.len() - k,
    {
        proof {
            assert(d[k - start] == v@[k as int]);
            assert(is_digit(d[k - start]));
        }
        let dv = (v[k] as u32 - '0' as u32) as u64;
        proof {
            assert(d.take(k - start + 1).drop_last() =~= d.take(k - start));
            assert(d.take(k - start + 1).last() == v@[k as int]);
        }
        if dv > max || acc > (max - dv) / 10 {
            proof {
                assert(acc * 10 + dv > max) by (nonlinear_arith)
                    requires
                        dv > max || acc > (max - dv) / 10,
                        dv <= 9,
                ;
                lemma_digits_value_mono(d, k - start + 1);
                lemma_parse_none_large(v@, max as int, d);
            }
            return None;
        }
        proof {
            assert(acc * 10 + dv <= max) by (nonlinear_arith)
                requires
                    acc <= (max - dv) / 10,
                    dv <= max,
            ;
        }
        acc = acc * 10 + dv;
        k = k + 1;
    }
    assert(d.take(v.len() - start) =~= d);
    proof {
        lemma_digits_value_nonneg(d);
    }
    Some(acc)
}

} // verus!

verus! {

/// The ASCII digit of a value below 16, lowercase for 10 to 15.
pub open spec fn hex_digit(d: int) -> char {
    if d < 10 {
        (('0' as u32) + d) as char
    } else {
        (('a' as u32) + d - 10) as char
    }
}

/// `{}` of an unsigned integer: its decimal digits, no leading zeros.
pub open spec fn decimal_spec(n: nat) -> Seq<char>
    decreases n,
{
    if n < 10 {
        seq![hex_digit(n as int)]
    } else {
        decimal_spec(n / 10) + seq![hex_digit((n % 10) as int)]
    }
}

/// The last `width` lowercase hexadecimal digits of `n`, zero-padded.
pub open spec fn hex_padded_spec(n: nat, width: nat) -> Seq<char>
    decreases width,
{
    if width == 0 {
        seq![]
    } else {
        hex_padded_spec(n / 16, (width - 1) as nat) + seq![hex_digit((n % 16) as int)]
    }
}

fn hex_digit_exec(d: u64) -> (c: char)
    requires
        d < 16,
    ensures
        c == hex_digit(d as int),
{
    if d < 10 {
        proof {
            assert(('0' as u32) + d < 0xD800) by (nonlinear_arith)
                requires
                    d < 10,
            ;
        }
        char_from_u32_small(('0' as u32) + (d as u32))
    } else {
        char_from_u32_small(('a' as u32) + (d as u32) - 10)
    }
}

/// The character with a code point below `0xD800`.
#[verifier::external_body]
fn char_from_u32_small(u: u32) -> (c: char)
    requires
        u < 0xD800,
    ensures
        c == u as char,
{
    char::from_u32(u).unwrap()
}

fn push_decimal(n: u128, out: &mut Vec<char>)
    ensures
        final(out)@ == old(out)@ + decimal_spec(n as nat),
    decreases n,
{
    if n < 10 {
        out.push(hex_digit_exec(n as u64));
    } else {
        push_decimal(n / 10, out);
        out.push(hex_digit_exec((n % 10) as u64));
    }
    assert(out@ =~= old(out)@ + decimal_spec(n as nat));
}

/// `format!("{}", n)` of an unsigned integer.
pub fn decimal_chars(n: u128) -> (v: Vec<char>)
    ensures
        v@ == decimal_spec(n as nat),
{
    let mut v: Vec<char> = Vec::new();
    push_decimal(n, &mut v);
    assert(v@ =~= decimal_spec(n as nat));
    v
}

fn push_hex_padded(n: u64, width: usize, out: &mut Vec<char>)
    ensures
        final(out)@ == old(out)@ + hex_padded_spec(n as nat, width as nat),
    decreases width,
{
    if width > 0 {
        push_hex_padded(n / 16, width - 1, out);
        out.push(hex_digit_exec(n % 16));
    }
    assert(out@ =~= old(out)@ + hex_padded_spec(n as nat, width as nat));
}

/// `format!("{:08x}", n)` of a `u32`.
pub fn hex8_chars(n: u32) -> (v: Vec<char>)
    ensures
        v@ == hex_padded_spec(n as nat, 8),
{
    let mut v: Vec<char> = Vec::new();
    push_hex_padded(n as u64, 8, &mut v);
    assert(v@ =~= hex_padded_spec(n as nat, 8));
    v
}

/// Two lowercase hexadecimal digits per byte.
pub open spec fn bytes_hex_spec(b: Seq<u8>) -> Seq<char>
    decreases b.len(),
{
    if b.len() == 0 {
        seq![]
    } else {
        bytes_hex_spec(b.drop_last()) + hex_padded_spec(b.last() as nat, 2)
    }
}

} // verus!

verus! {

/// `{}` of a signed integer.
pub open spec fn signed_decimal_spec(n: int) -> Seq<char> {
    if n < 0 {
        seq!['-'] + decimal_spec((-n) as nat)
    } else {
        decimal_spec(n as nat)
    }
}

/// `format!("{}", n)` of an `i64`.
pub fn i64_decimal_chars(n: i64) -> (v: Vec<char>)
    ensures
        v@ == signed_decimal_spec(n as int),
{
    if n < 0 {
        let m: u128 = (0i128 - (n as i128)) as u128;
        let mut v: Vec<char> = Vec::new();
        v.push('-');
        let mut d = decimal_chars(m);
        v.append(&mut d);
        assert(v@ =~= signed_decimal_spec(n as int));
        v
    } else {
        decimal_chars(n as u128)
    }
}

} // verus!
