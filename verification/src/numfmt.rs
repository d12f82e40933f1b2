use crate::text::push_char;
use vstd::prelude::*;
use vstd::string::StrSliceExecFns;

verus! {

/// The character for one decimal digit value.
pub open spec fn digit_char(d: int) -> char
    recommends
        0 <= d < 10,
{
    ((48 + d) as u8) as char
}

pub open spec fn is_dec_digit(c: char) -> bool {
    48 <= c as int <= 57
}

pub open spec fn all_dec_digits(s: Seq<char>) -> bool {
    forall|i: int| 0 <= i < s.len() ==> is_dec_digit(#[trigger] s[i])
}

/// The decimal text of a natural number, most significant digit first.
pub open spec fn dec_chars_nat(n: nat) -> Seq<char>
    decreases n,
{
    if n < 10 {
        seq![digit_char(n as int)]
    } else {
        dec_chars_nat(n / 10).push(digit_char((n % 10) as int))
    }
}

/// The decimal text of an integer: a minus sign first when negative.
pub open spec fn dec_chars_int(v: int) -> Seq<char> {
    if v < 0 {
        seq!['-'] + dec_chars_nat((-v) as nat)
    } else {
        dec_chars_nat(v as nat)
    }
}

/// The value of a string of decimal digits.
pub open spec fn digits_val(s: Seq<char>) -> int
    decreases s.len(),
{
    if s.len() == 0 {
        0
    } else {
        digits_val(s.drop_last()) * 10 + (s.last() as int - 48)
    }
}

/// What a decimal integer literal denotes: a nonempty digit run, with one
/// optional leading minus sign; anything else denotes nothing.
pub open spec fn spec_parse_int(s: Seq<char>) -> Option<int> {
    if s.len() >= 2 && s[0] == '-' && all_dec_digits(s.skip(1)) {
        Some(-digits_val(s.skip(1)))
    } else if s.len() >= 1 && all_dec_digits(s) {
        Some(digits_val(s))
    } else {
        None
    }
}

/// As `spec_parse_int`, further refusing values outside the `i32` range.
pub open spec fn spec_parse_i32(s: Seq<char>) -> Option<i32> {
    match spec_parse_int(s) {
        Some(v) => if i32::MIN <= v <= i32::MAX {
            Some(v as i32)
        } else {
            None
        },
        None => None,
    }
}

/// Exactly `width` decimal characters holding the `width` lowest digits of `n`.
pub open spec fn zero_padded(n: nat, width: nat) -> Seq<char>
    decreases width,
{
    if width == 0 {
        Seq::empty()
    } else {
        zero_padded(n / 10, (width - 1) as nat).push(digit_char((n % 10) as int))
    }
}

/// The decimal text of the fraction `num / den`: the integer part, then six
/// fractional digits (rounded down) when they are not all zero.
pub open spec fn frac_chars(num: nat, den: nat) -> Seq<char>
    recommends
        den > 0,
{
    let whole = num / den;
    let fp = ((num % den) * 1_000_000) / den;
    if fp == 0 {
        dec_chars_nat(whole)
    } else {
        dec_chars_nat(whole) + seq!['.'] + zero_padded(fp, 6)
    }
}

/// The character for one hexadecimal digit value, lower case.
pub open spec fn hex_digit_char(d: int) -> char
    recommends
        0 <= d < 16,
{
    if d < 10 {
        ((48 + d) as u8) as char
    } else {
        ((87 + d) as u8) as char
    }
}

/// The hexadecimal text of a byte string, two characters a byte.
pub open spec fn hex_chars_of(bs: Seq<u8>) -> Seq<char>
    decreases bs.len(),
{
    if bs.len() == 0 {
        Seq::empty()
    } else {
        hex_chars_of(bs.drop_last()).push(hex_digit_char(bs.last() as int / 16)).push(
            hex_digit_char(bs.last() as int % 16),
        )
    }
}

/// Appends the decimal text of `n` to `out`.
pub fn push_u64_decimal(out: &mut String, n: u64)
    ensures
        final(out)@ == old(out)@ + dec_chars_nat(n as nat),
    decreases n,
{
    if n >= 10 {
        push_u64_decimal(out, n / 10);
        push_char(out, (48 + (n % 10) as u8) as char);
        assert(out@ =~= old(out)@ + dec_chars_nat(n as nat));
    } else {
        push_char(out, (48 + n as u8) as char);
        assert(out@ =~= old(out)@ + dec_chars_nat(n as nat));
    }
}

/// Appends the decimal text of `v` to `out`.
pub fn push_i32_decimal(out: &mut String, v: i32)
    ensures
        final(out)@ == old(out)@ + dec_chars_int(v as int),
{
    if v < 0 {
        push_char(out, '-');
        let magnitude = (-(v as i64)) as u64;
        push_u64_decimal(out, magnitude);
        assert(out@ =~= old(out)@ + dec_chars_int(v as int));
    } else {
        push_u64_decimal(out, v as u64);
    }
}

/// The decimal text of `v`.
pub fn format_i32(v: i32) -> (s: String)
    ensures
        s@ == dec_chars_int(v as int),
{
    let mut s = String::new();
    push_i32_decimal(&mut s, v);
    assert(s@ =~= dec_chars_int(v as int));
    s
}

/// Appends exactly `width` decimal characters: the low digits of `n`.
pub fn push_padded_decimal(out: &mut String, n: u64, width: u8)
    ensures
        final(out)@ == old(out)@ + zero_padded(n as nat, width as nat),
    decreases width,
{
    if width > 0 {
        push_padded_decimal(out, n / 10, width - 1);
        push_char(out, (48 + (n % 10) as u8) as char);
        assert(out@ =~= old(out)@ + zero_padded(n as nat, width as nat));
    } else {
        assert(out@ =~= old(out)@ + zero_padded(n as nat, 0));
    }
}

/// The decimal text of `num / den`, six fractional digits at most.
pub fn format_fraction(num: u64, den: u64) -> (s: String)
    requires
        0 < den <= 1_000_000_000_000,
    ensures
        s@ == frac_chars(num as nat, den as nat),
{
    let whole = num / den;
    let rem = num % den;
    let fp = (rem * 1_000_000) / den;
    let mut s = String::new();
    push_u64_decimal(&mut s, whole);
    if fp > 0 {
        push_char(&mut s, '.');
        push_padded_decimal(&mut s, fp, 6);
        assert(s@ =~= frac_chars(num as nat, den as nat));
    } else {
        assert(s@ =~= frac_chars(num as nat, den as nat));
    }
    s
}

/// Appends the lower-case hexadecimal text of `bytes` to `out`.
pub fn push_hex(out: &mut String, bytes: &Vec<u8>)
    ensures
        final(out)@ == old(out)@ + hex_chars_of(bytes@),
{
    let mut i: usize = 0;
    while i < bytes.len()
        invariant
            0 <= i <= bytes@.len(),
            out@ == old(out)@ + hex_chars_of(bytes@.take(i as int)),
        decreases bytes@.len() - i,
    {
        let b = bytes[i];
        let hi = b / 16;
        let lo = b % 16;
        let hic: char = if hi < 10 {
            (48 + hi) as char
        } else {
            (87 + hi) as char
        };
        let loc: char = if lo < 10 {
            (48 + lo) as char
        } else {
            (87 + lo) as char
        };
        push_char(out, hic);
        push_char(out, loc);
        proof {
            let t = bytes@.take((i + 1) as int);
            assert(t.drop_last() =~= bytes@.take(i as int));
            assert(t.last() == bytes@[i as int]);
            assert(out@ =~= old(out)@ + hex_chars_of(t));
        }
        i += 1;
    }
    assert(bytes@.take(bytes@.len() as int) =~= bytes@);
}

/// Parses a decimal integer, accepting exactly what `spec_parse_i32` accepts.
pub fn parse_i32(s: &str) -> (r: Option<i32>)
    ensures
        r == spec_parse_i32(s@),
{
    let n = s.unicode_len();
    if n == 0 {
        return None;
    }
    let negative = s.get_char(0) == '-';
    let start: usize = if negative {
        1
    } else {
        0
    };
    if start >= n {
        // just a minus sign
        assert(spec_parse_i32(s@) is None);
        return None;
    }
    let mut acc: u64 = 0;
    let mut i: usize = start;
    while i < n
        invariant
            n == s@.len(),
            start <= i <= n,
            start == if negative {
                1int
            } else {
                0int
            },
            negative ==> s@[0] == '-',
            !negative ==> s@[0] != '-',
            start < n,
            acc <= 0x8000_0000,
            acc == digits_val(s@.subrange(start as int, i as int)),
            forall|k: int| start <= k < i ==> is_dec_digit(#[trigger] s@[k]),
        decreases n - i,
    {
        let c = s.get_char(i);
        let cv = c as u32;
        if cv < 48 || cv > 57 {
            assert(!is_dec_digit(s@[i as int]));
            assert(spec_parse_i32(s@) is None) by {
                if negative {
                    assert(!all_dec_digits(s@.skip(1))) by {
                        assert(s@.skip(1)[i - 1] == s@[i as int]);
                    }
                } else {
                    assert(!all_dec_digits(s@));
                }
            }
            return None;
        }
        let d = (cv - 48) as u64;
        acc = acc * 10 + d;
        proof {
            let pref = s@.subrange(start as int, i as int);
            let pref2 = s@.subrange(start as int, (i + 1) as int);
            assert(pref2.drop_last() =~= pref);
            assert(pref2.last() == s@[i as int]);
        }
        i += 1;
        if acc > 0x8000_0000 {
            proof {
                lemma_digits_val_nonneg_grows(s@.subrange(start as int, i as int));
                if spec_parse_int(s@) is Some {
                    let whole = s@.subrange(start as int, n as int);
                    lemma_digits_val_prefix_le(whole, (i - start) as int);
                    assert(whole.take((i - start) as int) =~= s@.subrange(
                        start as int,
                        i as int,
                    ));
                    if negative {
                        assert(s@.skip(1) =~= whole);
                    } else {
                        assert(s@ =~= whole);
                    }
                }
            }
            return None;
        }
    }
    proof {
        let whole = s@.subrange(start as int, n as int);
        assert(whole =~= s@.subrange(start as int, i as int));
        if negative {
            assert(s@.skip(1) =~= whole);
        } else {
            assert(s@ =~= whole);
        }
    }
    if negative {
        Some((-(acc as i64)) as i32)
    } else {
        if acc > 0x7FFF_FFFF {
            return None;
        }
        Some(acc as i32)
    }
}

/// The value of a digit run is never negative, and grows with more digits.
proof fn lemma_digits_val_nonneg_grows(s: Seq<char>)
    requires
        all_dec_digits(s),
    ensures
        digits_val(s) >= 0,
        s.len() > 0 ==> digits_val(s) >= digits_val(s.drop_last()),
    decreases s.len(),
{
    if s.len() > 0 {
        assert(all_dec_digits(s.drop_last())) by {
            assert(forall|i: int|
                0 <= i < s.len() - 1 ==> s.drop_last()[i] == #[trigger] s[i]);
        }
        lemma_digits_val_nonneg_grows(s.drop_last());
    }
}

/// A digit run is worth at least any of its prefixes.
proof fn lemma_digits_val_prefix_le(s: Seq<char>, k: int)
    requires
        all_dec_digits(s),
        0 <= k <= s.len(),
    ensures
        digits_val(s.take(k)) <= digits_val(s),
    decreases s.len() - k,
{
    lemma_digits_val_nonneg_grows(s);
    if k < s.len() {
        lemma_digits_val_prefix_le(s, k + 1);
        let t = s.take(k + 1);
        assert(all_dec_digits(t)) by {
            assert(forall|i: int| 0 <= i < k + 1 ==> t[i] == #[trigger] s[i]);
        }
        lemma_digits_val_nonneg_grows(t);
        assert(t.drop_last() =~= s.take(k));
    } else {
        assert(s.take(k) =~= s);
    }
}

/// The digit characters carry the values they stand for.
pub proof fn lemma_digit_char_val(d: int)
    requires
        0 <= d < 10,
    ensures
        digit_char(d) as int == 48 + d,
        is_dec_digit(digit_char(d)),
{
    let b = (48 + d) as u8;
    assert(b as int == 48 + d);
    assert((b as char) as int == b as int);
}

/// The decimal text of a natural number is all digits and denotes it.
pub proof fn lemma_dec_chars_nat_val(n: nat)
    ensures
        all_dec_digits(dec_chars_nat(n)),
        digits_val(dec_chars_nat(n)) == n,
        dec_chars_nat(n).len() >= 1,
    decreases n,
{
    if n < 10 {
        lemma_digit_char_val(n as int);
        let s = dec_chars_nat(n);
        assert(s.drop_last() =~= Seq::<char>::empty());
        assert(digits_val(Seq::<char>::empty()) == 0);
        assert(digits_val(s) == digit_char(n as int) as int - 48);
    } else {
        lemma_dec_chars_nat_val(n / 10);
        lemma_digit_char_val((n % 10) as int);
        let s = dec_chars_nat(n);
        let p = dec_chars_nat(n / 10);
        assert(s == p.push(digit_char((n % 10) as int)));
        assert(s.drop_last() =~= p);
        assert(all_dec_digits(s)) by {
            assert(forall|i: int| 0 <= i < p.len() ==> s[i] == #[trigger] p[i]);
            assert(s[s.len() - 1] == digit_char((n % 10) as int));
        }
        assert(digits_val(s) == digits_val(p) * 10 + (digit_char((n % 10) as int) as int - 48));
    }
}

/// Round trip: parsing the decimal text of an `i32` yields it back.
pub proof fn lemma_parse_format_i32(v: i32)
    ensures
        spec_parse_i32(dec_chars_int(v as int)) == Some(v),
{
    if v < 0 {
        let m = (-(v as int)) as nat;
        lemma_dec_chars_nat_val(m);
        let s = dec_chars_int(v as int);
        assert(s.skip(1) =~= dec_chars_nat(m));
        assert(s[0] == '-');
        assert(spec_parse_int(s) == Some(-digits_val(dec_chars_nat(m))));
    } else {
        let m = v as nat;
        lemma_dec_chars_nat_val(m);
        let s = dec_chars_int(v as int);
        assert(s == dec_chars_nat(m));
        assert(s.len() >= 2 && s[0] == '-' ==> false) by {
            if s.len() >= 2 && s[0] == '-' {
                assert(is_dec_digit(s[0]));
            }
        }
        assert(spec_parse_int(s) == Some(digits_val(dec_chars_nat(m))));
    }
}

} // verus!
