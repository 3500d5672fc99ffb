//! Reading and writing unsigned integers as text: the rules of
//! `u64::from_str`, `u8::from_str_radix(_, 16)` and `u64::to_string`.
use vstd::prelude::*;

verus! {

/// The value of `c` as a hexadecimal digit, or -1.
pub open spec fn hex_val(c: char) -> int {
    if '0' <= c && c <= '9' {
        c as int - '0' as int
    } else if 'a' <= c && c <= 'f' {
        c as int - 'a' as int + 10
    } else if 'A' <= c && c <= 'F' {
        c as int - 'A' as int + 10
    } else {
        -1
    }
}

/// `c` is a digit in base `radix` (at most 16).
pub open spec fn is_digit_in(c: char, radix: int) -> bool {
    0 <= hex_val(c) < radix
}

/// Every character of `s` is a digit in base `radix`.
pub open spec fn all_digits_in(s: Seq<char>, radix: int) -> bool {
    forall|i: int| 0 <= i < s.len() ==> is_digit_in(#[trigger] s[i], radix)
}

/// The value of the digits `s` in base `radix`, most significant first.
pub open spec fn radix_value(s: Seq<char>, radix: int) -> int
    decreases s.len(),
{
    if s.len() == 0 {
        0
    } else {
        radix_value(s.drop_last(), radix) * radix + hex_val(s.last())
    }
}

/// The digits of `s` once a leading `+` is taken off.
pub open spec fn unsigned_digits(s: Seq<char>) -> Seq<char> {
    if s.len() > 0 && s[0] == '+' {
        s.drop_first()
    } else {
        s
    }
}

/// `from_str_radix` for an unsigned type whose largest value is `max`: an
/// optional `+`, then at least one digit, and a value that fits.
pub open spec fn parse_unsigned(s: Seq<char>, radix: int, max: int) -> Option<int> {
    let d = unsigned_digits(s);
    if d.len() == 0 || !all_digits_in(d, radix) || radix_value(d, radix) > max {
        None
    } else {
        Some(radix_value(d, radix))
    }
}

/// `u64::from_str`.
pub open spec fn parse_u64(s: Seq<char>) -> Option<int> {
    parse_unsigned(s, 10, u64::MAX as int)
}

/// `u8::from_str_radix(s, 16)`.
pub open spec fn parse_hex_u8(s: Seq<char>) -> Option<int> {
    parse_unsigned(s, 16, u8::MAX as int)
}

/// The value of a prefix of digits is at most the value of the whole.
pub proof fn lemma_radix_value_prefix(s: Seq<char>, radix: int, k: int)
    requires
        2 <= radix <= 16,
        all_digits_in(s, radix),
        0 <= k <= s.len(),
    ensures
        0 <= radix_value(s.take(k), radix) <= radix_value(s, radix),
    decreases s.len(),
{
    if k < s.len() {
        let t = s.drop_last();
        assert(all_digits_in(t, radix)) by {
            assert forall|i: int| 0 <= i < t.len() implies is_digit_in(#[trigger] t[i], radix) by {
                assert(t[i] == s[i]);
            }
        }
        lemma_radix_value_prefix(t, radix, k);
        assert(t.take(k) =~= s.take(k));
        lemma_radix_value_prefix(t, radix, t.len() as int);
        assert(t.take(t.len() as int) =~= t);
        assert(is_digit_in(s[s.len() - 1], radix));
        assert(radix_value(t, radix) * radix >= radix_value(t, radix)) by (nonlinear_arith)
            requires
                radix_value(t, radix) >= 0,
                radix >= 2,
        ;
    } else {
        assert(s.take(k) =~= s);
        lemma_radix_value_nonneg(s, radix);
    }
}

/// Digit values are never negative.
pub proof fn lemma_radix_value_nonneg(s: Seq<char>, radix: int)
    requires
        2 <= radix <= 16,
        all_digits_in(s, radix),
    ensures
        radix_value(s, radix) >= 0,
    decreases s.len(),
{
    if s.len() > 0 {
        let t = s.drop_last();
        assert(all_digits_in(t, radix)) by {
            assert forall|i: int| 0 <= i < t.len() implies is_digit_in(#[trigger] t[i], radix) by {
                assert(t[i] == s[i]);
            }
        }
        lemma_radix_value_nonneg(t, radix);
        assert(is_digit_in(s[s.len() - 1], radix));
        assert(radix_value(t, radix) * radix >= 0) by (nonlinear_arith)
            requires
                radix_value(t, radix) >= 0,
                radix >= 2,
        ;
    }
}

/// The value of a digit character, computed.
pub fn digit_value(c: char) -> (v: u8)
    ensures
        hex_val(c) >= 0 ==> v as int == hex_val(c),
        hex_val(c) < 0 ==> v == 255,
{
    if '0' <= c && c <= '9' {
        ((c as u32) - ('0' as u32)) as u8
    } else if 'a' <= c && c <= 'f' {
        ((c as u32) - ('a' as u32) + 10) as u8
    } else if 'A' <= c && c <= 'F' {
        ((c as u32) - ('A' as u32) + 10) as u8
    } else {
        255
    }
}

/// `from_str_radix` for unsigned values up to `max`, over characters.
pub fn parse_unsigned_chars(s: &[char], radix: u64, max: u64) -> (r: Option<u64>)
    requires
        2 <= radix <= 16,
    ensures
        r matches Some(v) ==> parse_unsigned(s@, radix as int, max as int) == Some(v as int),
        r is None ==> parse_unsigned(s@, radix as int, max as int) is None,
{
    let start: usize = if s.len() > 0 && s[0] == '+' {
        1
    } else {
        0
    };
    let ghost d = unsigned_digits(s@);
    assert(d =~= s@.skip(start as int));
    if start == s.len() {
        return None;
    }
    let mut v: u64 = 0;
    let mut i = start;
    while i < s.len()
        invariant
            start <= i <= s@.len(),
            start < s@.len(),
            2 <= radix <= 16,
            d == s@.skip(start as int),
            d == unsigned_digits(s@),
            all_digits_in(d.take(i - start), radix as int),
            v as int == radix_value(d.take(i - start), radix as int),
            v <= max,
        decreases s@.len() - i,
    {
        let ghost k = i - start;
        assert(d.take(k + 1).drop_last() =~= d.take(k));
        assert(d.take(k + 1).last() == s@[i as int]);
        let dv = digit_value(s[i]);
        if (dv as u64) >= radix {
            proof {
                assert(d[k as int] == s@[i as int]);
                assert(!is_digit_in(d[k as int], radix as int));
                assert(!all_digits_in(d, radix as int));
                assert(unsigned_digits(s@) == d);
                assert(parse_unsigned(s@, radix as int, max as int) is None);
            }
            return None;
        }
        assert(all_digits_in(d.take(k + 1), radix as int)) by {
            assert forall|j: int| 0 <= j < k + 1 implies is_digit_in(
                #[trigger] d.take(k + 1)[j],
                radix as int,
            ) by {
                if j < k {
                    assert(d.take(k + 1)[j] == d.take(k)[j]);
                }
            }
        }
        let next: Option<u64> = match v.checked_mul(radix) {
            Some(m) => m.checked_add(dv as u64),
            None => None,
        };
        match next {
            Some(n) if n <= max => {
                v = n;
            },
            _ => {
                proof {
                    assert(radix_value(d.take(k + 1), radix as int) == v * radix + dv);
                    if all_digits_in(d, radix as int) {
                        lemma_radix_value_prefix(d, radix as int, k + 1);
                        assert(radix_value(d, radix as int) > max);
                    }
                    assert(parse_unsigned(s@, radix as int, max as int) is None);
                }
                return None;
            },
        }
        i += 1;
    }
    assert(d.take(i - start) =~= d);
    Some(v)
}

/// `u64::from_str`, over characters.
pub fn parse_u64_chars(s: &[char]) -> (r: Option<u64>)
    ensures
        r matches Some(v) ==> parse_u64(s@) == Some(v as int),
        r is None ==> parse_u64(s@) is None,
{
    parse_unsigned_chars(s, 10, u64::MAX)
}

/// `u8::from_str_radix(s, 16)`, over characters.
pub fn parse_hex_u8_chars(s: &[char]) -> (r: Option<u8>)
    ensures
        r matches Some(v) ==> parse_hex_u8(s@) == Some(v as int),
        r is None ==> parse_hex_u8(s@) is None,
{
    match parse_unsigned_chars(s, 16, 255) {
        Some(v) => Some(v as u8),
        None => None,
    }
}

/// The decimal digits of `n`, most significant first, with no leading zero
/// (`to_string` of an unsigned integer).
pub open spec fn decimal(n: nat) -> Seq<char>
    decreases n,
{
    if n < 10 {
        seq![(n + '0' as nat) as char]
    } else {
        decimal(n / 10) + seq![((n % 10) + '0' as nat) as char]
    }
}

/// `n` written in decimal (`u128::to_string`).
pub fn decimal_chars(n: u128) -> (r: Vec<char>)
    ensures
        r@ == decimal(n as nat),
    decreases n,
{
    if n < 10 {
        let mut r = Vec::new();
        r.push(char_of_digit(n as u8));
        r
    } else {
        let mut r = decimal_chars(n / 10);
        r.push(char_of_digit((n % 10) as u8));
        r
    }
}

/// The character of a decimal digit.
pub fn char_of_digit(d: u8) -> (c: char)
    requires
        d < 10,
    ensures
        c == (d as nat + '0' as nat) as char,
{
    if d == 0 { '0' }
    else if d == 1 { '1' }
    else if d == 2 { '2' }
    else if d == 3 { '3' }
    else if d == 4 { '4' }
    else if d == 5 { '5' }
    else if d == 6 { '6' }
    else if d == 7 { '7' }
    else if d == 8 { '8' }
    else { '9' }
}

} // verus!
