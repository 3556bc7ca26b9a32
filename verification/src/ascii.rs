//! Byte-level text helpers for the HTTP/1.1 codec: whitespace trimming,
//! case folding, searching, and bounded integer parsing and formatting.

use vstd::prelude::*;
use vstd::string::StringExecFns;

verus! {

/// ASCII whitespace as it appears inside HTTP header material.
pub open spec fn is_ws_byte(b: u8) -> bool {
    b == 32 || b == 9 || b == 13 || b == 10
}

/// Lower-case folding of a single ASCII byte.
pub open spec fn lower_byte(b: u8) -> u8 {
    if 65 <= b && b <= 90 {
        (b + 32) as u8
    } else {
        b
    }
}

/// Lower-case folding of a byte sequence.
pub open spec fn lower_seq(s: Seq<u8>) -> Seq<u8> {
    s.map_values(|b: u8| lower_byte(b))
}

/// Index of the first occurrence of `t` in `s`, if any.
pub open spec fn spec_find_byte(s: Seq<u8>, t: u8) -> Option<int>
    decreases s.len(),
{
    if s.len() == 0 {
        None
    } else if s[0] == t {
        Some(0)
    } else {
        match spec_find_byte(s.drop_first(), t) {
            Some(i) => Some(i + 1),
            None => None,
        }
    }
}

/// `spec_find_byte` returns the least index holding `t`, or `None` when `t`
/// does not occur.
pub proof fn lemma_find_byte(s: Seq<u8>, t: u8)
    ensures
        match spec_find_byte(s, t) {
            Some(i) => 0 <= i < s.len() && s[i] == t && (forall|j: int| 0 <= j < i ==> s[j] != t),
            None => forall|j: int| 0 <= j < s.len() ==> s[j] != t,
        },
    decreases s.len(),
{
    if s.len() > 0 && s[0] != t {
        lemma_find_byte(s.drop_first(), t);
        let rest = s.drop_first();
        assert(forall|j: int| 1 <= j < s.len() ==> s[j] == rest[j - 1]);
    }
}

/// Finds the first occurrence of `t` at or after `from` in `data`.
pub fn find_byte_from(data: &Vec<u8>, from: usize, t: u8) -> (r: Option<usize>)
    requires
        from <= data.len(),
    ensures
        match r {
            Some(i) => from <= i < data.len() && spec_find_byte(data@.skip(from as int), t)
                == Some(i - from),
            None => spec_find_byte(data@.skip(from as int), t) is None,
        },
{
    let ghost s = data@.skip(from as int);
    proof {
        lemma_find_byte(s, t);
    }
    let mut i: usize = from;
    while i < data.len()
        invariant
            from <= i <= data.len(),
            s == data@.skip(from as int),
            forall|j: int| 0 <= j < i - from ==> s[j] != t,
        decreases data.len() - i,
    {
        if data[i] == t {
            proof {
                lemma_find_byte(s, t);
                assert(s[i - from] == t);
            }
            return Some(i);
        }
        assert(s[i - from] != t);
        i = i + 1;
    }
    proof {
        lemma_find_byte(s, t);
    }
    None
}

/// `s` without its leading ASCII whitespace.
pub open spec fn spec_trim_start(s: Seq<u8>) -> Seq<u8>
    decreases s.len(),
{
    if s.len() > 0 && is_ws_byte(s[0]) {
        spec_trim_start(s.drop_first())
    } else {
        s
    }
}

/// `s` without its trailing ASCII whitespace.
pub open spec fn spec_trim_end(s: Seq<u8>) -> Seq<u8>
    decreases s.len(),
{
    if s.len() > 0 && is_ws_byte(s.last()) {
        spec_trim_end(s.drop_last())
    } else {
        s
    }
}

/// `s` without leading and trailing ASCII whitespace.
pub open spec fn spec_trim(s: Seq<u8>) -> Seq<u8> {
    spec_trim_end(spec_trim_start(s))
}

/// Moves `lo` forward past whitespace inside the window `lo..hi`.
pub fn skip_ws_lo(data: &Vec<u8>, lo: usize, hi: usize) -> (r: usize)
    requires
        lo <= hi <= data.len(),
    ensures
        lo <= r <= hi,
        data@.subrange(r as int, hi as int) == spec_trim_start(
            data@.subrange(lo as int, hi as int),
        ),
    decreases hi - lo,
{
    if lo < hi && (data[lo] == 32 || data[lo] == 9 || data[lo] == 13 || data[lo] == 10) {
        assert(data@.subrange(lo as int, hi as int).drop_first() =~= data@.subrange(
            lo as int + 1,
            hi as int,
        ));
        skip_ws_lo(data, lo + 1, hi)
    } else {
        assert(data@.subrange(lo as int, hi as int) == spec_trim_start(
            data@.subrange(lo as int, hi as int),
        ));
        lo
    }
}

/// Moves `hi` backward past whitespace inside the window `lo..hi`.
pub fn skip_ws_hi(data: &Vec<u8>, lo: usize, hi: usize) -> (r: usize)
    requires
        lo <= hi <= data.len(),
    ensures
        lo <= r <= hi,
        data@.subrange(lo as int, r as int) == spec_trim_end(
            data@.subrange(lo as int, hi as int),
        ),
    decreases hi - lo,
{
    if lo < hi && (data[hi - 1] == 32 || data[hi - 1] == 9 || data[hi - 1] == 13 || data[hi - 1]
        == 10) {
        assert(data@.subrange(lo as int, hi as int).drop_last() =~= data@.subrange(
            lo as int,
            hi as int - 1,
        ));
        skip_ws_hi(data, lo, hi - 1)
    } else {
        assert(data@.subrange(lo as int, hi as int) == spec_trim_end(
            data@.subrange(lo as int, hi as int),
        ));
        hi
    }
}

/// Shrinks the window `lo..hi` to the trimmed content it holds.
pub fn trim_window(data: &Vec<u8>, lo: usize, hi: usize) -> (r: (usize, usize))
    requires
        lo <= hi <= data.len(),
    ensures
        lo <= r.0 <= r.1 <= hi,
        data@.subrange(r.0 as int, r.1 as int) == spec_trim(
            data@.subrange(lo as int, hi as int),
        ),
{
    let lo2 = skip_ws_lo(data, lo, hi);
    let hi2 = skip_ws_hi(data, lo2, hi);
    (lo2, hi2)
}

/// Value of one digit byte under the given radix, if it is a digit.
pub open spec fn spec_digit_val(b: u8, radix: int) -> Option<int> {
    if 48 <= b && b <= 57 && b - 48 < radix {
        Some((b - 48) as int)
    } else if 97 <= b && b <= 102 && b - 97 + 10 < radix {
        Some((b - 87) as int)
    } else if 65 <= b && b <= 70 && b - 65 + 10 < radix {
        Some((b - 55) as int)
    } else {
        None
    }
}

/// Value of a non-empty run of digit bytes, most significant first.
pub open spec fn spec_digits_val(s: Seq<u8>, radix: int) -> Option<int>
    decreases s.len(),
{
    if s.len() == 0 {
        None
    } else if s.len() == 1 {
        spec_digit_val(s[0], radix)
    } else {
        match (spec_digits_val(s.drop_last(), radix), spec_digit_val(s.last(), radix)) {
            (Some(hi), Some(d)) => Some(hi * radix + d),
            _ => None,
        }
    }
}

/// What `str::parse` for an unsigned integer (or `from_str_radix`) accepts:
/// an optional leading `+`, then digits, with the value at most `max`.
pub open spec fn spec_parse_uint(s: Seq<u8>, radix: int, max: int) -> Option<int> {
    let t = if s.len() > 0 && s[0] == 43 {
        s.drop_first()
    } else {
        s
    };
    match spec_digits_val(t, radix) {
        Some(v) => if v <= max {
            Some(v)
        } else {
            None
        },
        None => None,
    }
}

/// A digit run's value is non-negative, and every byte of it is a digit.
pub proof fn lemma_digits_val_bounds(s: Seq<u8>, radix: int)
    requires
        radix == 10 || radix == 16,
        spec_digits_val(s, radix) is Some,
    ensures
        spec_digits_val(s, radix).unwrap() >= 0,
        forall|j: int| 0 <= j < s.len() ==> spec_digit_val(s[j], radix) is Some,
    decreases s.len(),
{
    if s.len() > 1 {
        lemma_digits_val_bounds(s.drop_last(), radix);
        let hi = spec_digits_val(s.drop_last(), radix).unwrap();
        let d = spec_digit_val(s.last(), radix).unwrap();
        assert(hi * radix >= 0) by (nonlinear_arith)
            requires
                hi >= 0,
                radix > 0,
        ;
        assert(forall|j: int| 0 <= j < s.len() - 1 ==> s[j] == s.drop_last()[j]);
    }
}

/// A digit run's value only grows as more digits follow: the value of the
/// whole is at least the value of any non-empty prefix.
pub proof fn lemma_digits_val_prefix(s: Seq<u8>, radix: int, i: int)
    requires
        radix == 10 || radix == 16,
        1 <= i <= s.len(),
        spec_digits_val(s, radix) is Some,
    ensures
        spec_digits_val(s.take(i), radix) is Some,
        spec_digits_val(s.take(i), radix).unwrap() <= spec_digits_val(s, radix).unwrap(),
    decreases s.len() - i,
{
    lemma_digits_val_bounds(s, radix);
    if i == s.len() {
        assert(s.take(i) =~= s);
    } else {
        lemma_digits_val_prefix(s, radix, i + 1);
        let p1 = s.take(i + 1);
        assert(p1.drop_last() =~= s.take(i));
        assert(p1.last() == s[i]);
        let hi = spec_digits_val(s.take(i), radix);
        let d = spec_digit_val(s[i], radix);
        if i == 0 {
        } else {
            assert(spec_digits_val(p1, radix) == Some(
                hi.unwrap() * radix + d.unwrap(),
            ));
            lemma_digits_val_bounds(s.take(i), radix);
            assert(hi.unwrap() * radix >= hi.unwrap()) by (nonlinear_arith)
                requires
                    hi.unwrap() >= 0,
                    radix >= 1,
            ;
        }
    }
}

/// Evaluates the digit run in `data[start..hi]`; `None` when some byte is
/// not a digit of the radix or the value is above `max`.
#[verifier::rlimit(60)]
#[verifier::spinoff_prover]
fn digits_window(data: &Vec<u8>, start: usize, hi: usize, radix: u64, max: u64) -> (r: Option<u64>)
    requires
        start < hi <= data.len(),
        radix == 10 || radix == 16,
    ensures
        r is Some ==> spec_digits_val(data@.subrange(start as int, hi as int), radix as int)
            == Some(r.unwrap() as int) && r.unwrap() <= max,
        r is None ==> spec_digits_val(data@.subrange(start as int, hi as int), radix as int) is None
            || spec_digits_val(data@.subrange(start as int, hi as int), radix as int).unwrap()
            > max,
{
    let ghost t = data@.subrange(start as int, hi as int);
    let mut acc: u64 = 0;
    let mut i: usize = start;
    while i < hi
        invariant
            start <= i <= hi <= data.len(),
            start < hi,
            radix == 10 || radix == 16,
            t == data@.subrange(start as int, hi as int),
            i > start ==> spec_digits_val(t.take(i - start), radix as int) == Some(acc as int),
            i == start ==> acc == 0,
            acc <= max,
        decreases hi - i,
    {
        let b = data[i];
        let d: u64 = if 48 <= b && b <= 57 && ((b - 48) as u64) < radix {
            (b - 48) as u64
        } else if 97 <= b && b <= 102 && ((b - 97 + 10) as u64) < radix {
            (b - 87) as u64
        } else if 65 <= b && b <= 70 && ((b - 65 + 10) as u64) < radix {
            (b - 55) as u64
        } else {
            proof {
                assert(t[i - start] == b);
                assert(spec_digit_val(b, radix as int) is None);
                if spec_digits_val(t, radix as int) is Some {
                    lemma_digits_val_bounds(t, radix as int);
                    assert(spec_digit_val(t[i - start], radix as int) is Some);
                    assert(false);
                }
            }
            return None;
        };
        assert(t[i - start] == b);
        assert(spec_digit_val(t[i - start], radix as int) == Some(d as int));
        proof {
            let wa = acc as u128;
            let wr = radix as u128;
            assert(wa * wr <= 0xFFFFFFFFFFFFFFFFu128 * 16) by (nonlinear_arith)
                requires
                    wa <= 0xFFFFFFFFFFFFFFFFu128,
                    wr <= 16,
            ;
        }
        let wide: u128 = (acc as u128) * (radix as u128) + (d as u128);
        let ghost prev = acc as int;
        proof {
            assert(t.take(i - start + 1).drop_last() =~= t.take(i - start));
            assert(t.take(i - start + 1).last() == t[i - start]);
            if i == start {
                assert(t.take(1).len() == 1);
                assert(t.take(1)[0] == t[0]);
            }
        }
        if wide > max as u128 {
            proof {
                let full = spec_digits_val(t, radix as int);
                if full is Some {
                    lemma_digits_val_prefix(t, radix as int, i - start + 1);
                    if i == start {
                        assert(spec_digits_val(t.take(1), radix as int) == Some(d as int));
                    } else {
                        assert(spec_digits_val(t.take(i - start + 1), radix as int) == Some(
                            prev * (radix as int) + d,
                        ));
                    }
                }
            }
            return None;
        }
        acc = wide as u64;
        proof {
            if i == start {
                assert(spec_digits_val(t.take(1), radix as int) == Some(d as int));
            } else {
                assert(spec_digits_val(t.take(i - start + 1), radix as int) == Some(
                    prev * (radix as int) + d,
                ));
            }
        }
        i = i + 1;
    }
    proof {
        assert(t.take(hi - start) =~= t);
    }
    Some(acc)
}

/// A successfully parsed unsigned integer is non-negative.
pub proof fn lemma_parse_uint_nonneg(s: Seq<u8>, radix: int, max: int)
    requires
        radix == 10 || radix == 16,
        spec_parse_uint(s, radix, max) is Some,
    ensures
        spec_parse_uint(s, radix, max).unwrap() >= 0,
{
    let t = if s.len() > 0 && s[0] == 43 {
        s.drop_first()
    } else {
        s
    };
    lemma_digits_val_bounds(t, radix);
}

/// Parses the digits in `data[lo..hi]` as an unsigned integer of the given
/// radix, exactly as `str::parse` / `from_str_radix` would, rejecting values
/// above `max`.
pub fn parse_uint_window(data: &Vec<u8>, lo: usize, hi: usize, radix: u64, max: u64) -> (r: Option<
    u64,
>)
    requires
        lo <= hi <= data.len(),
        radix == 10 || radix == 16,
    ensures
        match r {
            Some(v) => spec_parse_uint(
                data@.subrange(lo as int, hi as int),
                radix as int,
                max as int,
            ) == Some(v as int) && v <= max,
            None => spec_parse_uint(data@.subrange(lo as int, hi as int), radix as int, max as int)
                is None,
        },
{
    let ghost s = data@.subrange(lo as int, hi as int);
    let start: usize = if lo < hi && data[lo] == 43 {
        lo + 1
    } else {
        lo
    };
    let ghost t = data@.subrange(start as int, hi as int);
    proof {
        if lo < hi && data@[lo as int] == 43 {
            assert(s.drop_first() =~= t);
        } else {
            assert(s =~= t);
        }
    }
    if start == hi {
        return None;
    }
    let r = digits_window(data, start, hi, radix, max);
    proof {
        if r is None && spec_digits_val(t, radix as int) is Some {
            lemma_digits_val_bounds(t, radix as int);
        }
    }
    r
}

/// The digit byte for a value below the radix; letters are lower case.
pub open spec fn spec_digit_byte(d: int) -> u8 {
    if d < 10 {
        (48 + d) as u8
    } else {
        (87 + d) as u8
    }
}

/// The digits of `n` under the given radix, most significant first, with no
/// sign and no leading zeros (a single `0` for zero).
pub open spec fn spec_uint_str(n: int, radix: int) -> Seq<u8>
    decreases n via spec_uint_str_decreases
{
    if n < radix || radix <= 1 {
        seq![spec_digit_byte(if n < radix { n } else { 0 })]
    } else {
        spec_uint_str(n / radix, radix) + seq![spec_digit_byte(n % radix)]
    }
}

#[via_fn]
proof fn spec_uint_str_decreases(n: int, radix: int) {
    if !(n < radix || radix <= 1) {
        assert(0 <= n / radix < n) by (nonlinear_arith)
            requires
                n >= radix,
                radix >= 2,
        ;
    }
}

/// Writes `n` in the given radix, least significant digit last.
pub fn uint_to_bytes(n: u64, radix: u64) -> (r: Vec<u8>)
    requires
        radix == 10 || radix == 16,
    ensures
        r@ == spec_uint_str(n as int, radix as int),
    decreases n,
{
    if n < radix {
        let d = n as u8;
        let b: u8 = if d < 10 {
            48 + d
        } else {
            87 + d
        };
        let mut v: Vec<u8> = Vec::new();
        v.push(b);
        assert(v@ =~= spec_uint_str(n as int, radix as int));
        v
    } else {
        let mut v = uint_to_bytes(n / radix, radix);
        let d = (n % radix) as u8;
        let b: u8 = if d < 10 {
            48 + d
        } else {
            87 + d
        };
        v.push(b);
        assert(v@ =~= spec_uint_str(n as int, radix as int));
        v
    }
}

/// Every byte written by `spec_uint_str` is a digit of its radix.
pub proof fn lemma_uint_str_digits(n: int, radix: int)
    requires
        n >= 0,
        radix == 10 || radix == 16,
    ensures
        spec_uint_str(n, radix).len() >= 1,
        forall|j: int|
            0 <= j < spec_uint_str(n, radix).len() ==> (48 <= #[trigger] spec_uint_str(n, radix)[j]
                <= 57 || (radix == 16 && 97 <= spec_uint_str(n, radix)[j] <= 102)),
        forall|j: int|
            0 <= j < spec_uint_str(n, radix).len() ==> spec_digit_val(
                #[trigger] spec_uint_str(n, radix)[j],
                radix,
            ) is Some,
    decreases n,
{
    if n < radix {
        assert(0 <= n < radix);
    } else {
        assert(0 <= n / radix < n && 0 <= n % radix < radix) by (nonlinear_arith)
            requires
                n >= radix,
                radix >= 2,
        ;
        lemma_uint_str_digits(n / radix, radix);
        let s = spec_uint_str(n, radix);
        let p = spec_uint_str(n / radix, radix);
        assert(forall|j: int| 0 <= j < p.len() ==> s[j] == p[j]);
        assert(s[s.len() - 1] == spec_digit_byte(n % radix));
    }
}

/// If `t` occurs at `i` and nowhere earlier, the search finds exactly `i`.
pub proof fn lemma_find_byte_at(s: Seq<u8>, t: u8, i: int)
    requires
        0 <= i < s.len(),
        s[i] == t,
        forall|j: int| 0 <= j < i ==> s[j] != t,
    ensures
        spec_find_byte(s, t) == Some(i),
{
    lemma_find_byte(s, t);
    match spec_find_byte(s, t) {
        None => {
            assert(false);
        },
        Some(i2) => {
            if i2 < i {
                assert(s[i2] != t);
            } else if i2 > i {
                assert(s[i] != t);
            }
        },
    }
}

/// Formatting then parsing a number gives it back: the digit run written
/// by `spec_uint_str` evaluates to the number it was written from.
pub proof fn lemma_digits_val_of_uint_str(n: int, radix: int)
    requires
        n >= 0,
        radix == 10 || radix == 16,
    ensures
        spec_digits_val(spec_uint_str(n, radix), radix) == Some(n),
    decreases n,
{
    let s = spec_uint_str(n, radix);
    if n < radix {
        assert(s.len() == 1);
        assert(spec_digit_val(spec_digit_byte(n), radix) == Some(n));
    } else {
        assert(0 <= n / radix < n && 0 <= n % radix < radix) by (nonlinear_arith)
            requires
                n >= radix,
                radix >= 2,
        ;
        lemma_digits_val_of_uint_str(n / radix, radix);
        let p = spec_uint_str(n / radix, radix);
        assert(s.drop_last() =~= p);
        assert(s.last() == spec_digit_byte(n % radix));
        assert(spec_digit_val(spec_digit_byte(n % radix), radix) == Some(n % radix));
        assert(s.len() > 1) by {
            crate::ascii::lemma_uint_str_digits(n / radix, radix);
        }
        assert((n / radix) * radix + n % radix == n) by (nonlinear_arith)
            requires
                radix >= 2,
        ;
    }
}

/// Parsing what `spec_uint_str` wrote gives the number back, for any bound
/// the number respects.
pub proof fn lemma_parse_uint_inverse(n: int, radix: int, max: int)
    requires
        0 <= n <= max,
        radix == 10 || radix == 16,
    ensures
        spec_parse_uint(spec_uint_str(n, radix), radix, max) == Some(n),
{
    let s = spec_uint_str(n, radix);
    lemma_uint_str_digits(n, radix);
    assert(s[0] != 43);
    lemma_digits_val_of_uint_str(n, radix);
}

/// The digit characters of `n` in decimal, as `u64::to_string` writes them.
pub open spec fn spec_dec_chars(n: int) -> Seq<char> {
    spec_uint_str(n, 10).map_values(|b: u8| b as char)
}

/// Appends the character of one decimal digit byte to a string.
fn append_digit_char(s: &mut String, b: u8)
    requires
        48 <= b <= 57,
    ensures
        final(s)@ == old(s)@ + seq![b as char],
{
    if b == 48 {
        proof {
            reveal_strlit("0");
        }
        s.append("0");
        assert(s@ =~= old(s)@ + seq![48u8 as char]);
    } else if b == 49 {
        proof {
            reveal_strlit("1");
        }
        s.append("1");
        assert(s@ =~= old(s)@ + seq![49u8 as char]);
    } else if b == 50 {
        proof {
            reveal_strlit("2");
        }
        s.append("2");
        assert(s@ =~= old(s)@ + seq![50u8 as char]);
    } else if b == 51 {
        proof {
            reveal_strlit("3");
        }
        s.append("3");
        assert(s@ =~= old(s)@ + seq![51u8 as char]);
    } else if b == 52 {
        proof {
            reveal_strlit("4");
        }
        s.append("4");
        assert(s@ =~= old(s)@ + seq![52u8 as char]);
    } else if b == 53 {
        proof {
            reveal_strlit("5");
        }
        s.append("5");
        assert(s@ =~= old(s)@ + seq![53u8 as char]);
    } else if b == 54 {
        proof {
            reveal_strlit("6");
        }
        s.append("6");
        assert(s@ =~= old(s)@ + seq![54u8 as char]);
    } else if b == 55 {
        proof {
            reveal_strlit("7");
        }
        s.append("7");
        assert(s@ =~= old(s)@ + seq![55u8 as char]);
    } else if b == 56 {
        proof {
            reveal_strlit("8");
        }
        s.append("8");
        assert(s@ =~= old(s)@ + seq![56u8 as char]);
    } else {
        proof {
            reveal_strlit("9");
        }
        s.append("9");
        assert(s@ =~= old(s)@ + seq![57u8 as char]);
    }
}

/// Writes `n` in decimal, exactly as `u64::to_string` would.
pub fn u64_to_dec_string(n: u64) -> (r: String)
    ensures
        r@ == spec_dec_chars(n as int),
{
    let bytes = uint_to_bytes(n, 10);
    proof {
        lemma_uint_str_digits(n as int, 10);
    }
    let mut s = String::new();
    let mut i: usize = 0;
    while i < bytes.len()
        invariant
            i <= bytes.len(),
            bytes@ == spec_uint_str(n as int, 10),
            forall|j: int| 0 <= j < bytes@.len() ==> 48 <= #[trigger] bytes@[j] <= 57,
            s@ == bytes@.take(i as int).map_values(|b: u8| b as char),
        decreases bytes.len() - i,
    {
        append_digit_char(&mut s, bytes[i]);
        proof {
            let m1 = bytes@.take(i + 1).map_values(|b: u8| b as char);
            let m0 = bytes@.take(i as int).map_values(|b: u8| b as char);
            assert(forall|j: int| 0 <= j < i ==> bytes@.take(i + 1)[j] == bytes@.take(i as int)[j]);
            assert(m1 =~= m0 + seq![bytes@[i as int] as char]);
        }
        i = i + 1;
    }
    proof {
        assert(bytes@.take(bytes@.len() as int) =~= bytes@);
    }
    s
}

/// Compares `data[lo..hi]` with `pat` byte for byte.
pub fn window_eq(data: &Vec<u8>, lo: usize, hi: usize, pat: &[u8]) -> (r: bool)
    requires
        lo <= hi <= data.len(),
    ensures
        r == (data@.subrange(lo as int, hi as int) == pat@),
{
    let n = pat.len();
    if hi - lo != n {
        proof {
            assert(data@.subrange(lo as int, hi as int).len() == hi - lo);
        }
        return false;
    }
    let mut i: usize = 0;
    while i < n
        invariant
            lo <= hi <= data.len(),
            n == pat@.len(),
            hi - lo == n,
            i <= n,
            forall|j: int| 0 <= j < i ==> data@.subrange(lo as int, hi as int)[j] == pat@[j],
        decreases n - i,
    {
        let a = data[lo + i];
        let b = *vstd::slice::slice_index_get(pat, i);
        if a != b {
            assert(data@.subrange(lo as int, hi as int)[i as int] != pat@[i as int]);
            return false;
        }
        assert(data@.subrange(lo as int, hi as int)[i as int] == pat@[i as int]);
        i = i + 1;
    }
    proof {
        assert(data@.subrange(lo as int, hi as int) =~= pat@);
    }
    true
}

/// Compares `data[lo..hi]` with `pat`, folding ASCII letters to lower case.
pub fn window_eq_lower(data: &Vec<u8>, lo: usize, hi: usize, pat: &[u8]) -> (r: bool)
    requires
        lo <= hi <= data.len(),
    ensures
        r == (lower_seq(data@.subrange(lo as int, hi as int)) == lower_seq(pat@)),
{
    let ghost w = data@.subrange(lo as int, hi as int);
    let n = pat.len();
    if hi - lo != n {
        proof {
            assert(lower_seq(w).len() == hi - lo);
            assert(lower_seq(pat@).len() == n);
        }
        return false;
    }
    let mut i: usize = 0;
    while i < n
        invariant
            lo <= hi <= data.len(),
            w == data@.subrange(lo as int, hi as int),
            n == pat@.len(),
            hi - lo == n,
            i <= n,
            forall|j: int| 0 <= j < i ==> lower_byte(w[j]) == lower_byte(pat@[j]),
        decreases n - i,
    {
        let a = data[lo + i];
        let b = *vstd::slice::slice_index_get(pat, i);
        let la: u8 = if 65 <= a && a <= 90 {
            a + 32
        } else {
            a
        };
        let lb: u8 = if 65 <= b && b <= 90 {
            b + 32
        } else {
            b
        };
        if la != lb {
            assert(lower_seq(w)[i as int] == lower_byte(w[i as int]));
            assert(lower_seq(pat@)[i as int] == lower_byte(pat@[i as int]));
            return false;
        }
        i = i + 1;
    }
    proof {
        assert forall|j: int| 0 <= j < n implies lower_seq(w)[j] == lower_seq(pat@)[j] by {
            assert(lower_byte(w[j]) == lower_byte(pat@[j]));
        }
        assert(lower_seq(w) =~= lower_seq(pat@));
    }
    true
}

/// Whether `needle` occurs as a contiguous run inside `hay`.
pub open spec fn spec_contains_seq(hay: Seq<u8>, needle: Seq<u8>) -> bool {
    exists|i: int|
        0 <= i && i + needle.len() <= hay.len() && #[trigger] hay.subrange(i, i + needle.len())
            == needle
}

/// Substring search for `pat` inside `data[lo..hi]`.
pub fn window_contains(data: &Vec<u8>, lo: usize, hi: usize, pat: &[u8]) -> (r: bool)
    requires
        lo <= hi <= data.len(),
    ensures
        r == spec_contains_seq(data@.subrange(lo as int, hi as int), pat@),
{
    let ghost w = data@.subrange(lo as int, hi as int);
    let n = pat.len();
    if n > hi - lo {
        proof {
            assert(!spec_contains_seq(w, pat@));
        }
        return false;
    }
    if n == 0 {
        proof {
            assert(w.subrange(0, 0 + pat@.len() as int) =~= pat@);
            assert(spec_contains_seq(w, pat@));
        }
        return true;
    }
    let mut i: usize = 0;
    while i <= (hi - lo) - n
        invariant
            lo <= hi <= data.len(),
            w == data@.subrange(lo as int, hi as int),
            n == pat@.len(),
            1 <= n <= hi - lo,
            i <= (hi - lo) - n + 1,
            forall|k: int| 0 <= k < i ==> #[trigger] w.subrange(k, k + n) != pat@,
        decreases (hi - lo) - n + 1 - i,
    {
        if window_eq(data, lo + i, lo + i + n, pat) {
            proof {
                assert(w.subrange(i as int, i + n) =~= data@.subrange(
                    lo + i as int,
                    lo + i + n as int,
                ));
            }
            return true;
        }
        proof {
            assert(w.subrange(i as int, i + n) =~= data@.subrange(
                lo + i as int,
                lo + i + n as int,
            ));
        }
        i = i + 1;
    }
    proof {
        assert(!spec_contains_seq(w, pat@));
    }
    false
}

} // verus!
