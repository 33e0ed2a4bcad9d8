//! Decimal numerals: the texts that `str::parse` accepts for integers and
//! for `f64`, and the decimal rendering of counts.
use vstd::prelude::*;
use crate::text::{is_digit, digit_value, all_digits, chars_of, check_digit};

verus! {

/// The value of a string of decimal digits, most significant first.
pub open spec fn digits_value(s: Seq<char>) -> nat
    decreases s.len(),
{
    if s.len() == 0 {
        0
    } else {
        digits_value(s.drop_last()) * 10 + digit_value(s.last())
    }
}

pub open spec fn is_sign(c: char) -> bool {
    c == '+' || c == '-'
}

/// `s` without one leading `+`.
pub open spec fn strip_plus(s: Seq<char>) -> Seq<char> {
    if s.len() > 0 && s[0] == '+' {
        s.drop_first()
    } else {
        s
    }
}

/// `s` without one leading sign.
pub open spec fn strip_sign(s: Seq<char>) -> Seq<char> {
    if s.len() > 0 && is_sign(s[0]) {
        s.drop_first()
    } else {
        s
    }
}

/// A non-empty string of digits whose value is at most `limit`.
pub open spec fn bounded_digits(d: Seq<char>, limit: nat) -> bool {
    d.len() > 0 && all_digits(d) && digits_value(d) <= limit
}

/// What `s.parse::<u32>()` gives: an optional `+`, then one or more
/// digits, with a value that fits in 32 bits.
pub open spec fn u32_text(s: Seq<char>) -> Option<u32> {
    let d = strip_plus(s);
    if bounded_digits(d, u32::MAX as nat) {
        Some(digits_value(d) as u32)
    } else {
        None
    }
}

/// What `s.parse::<i32>()` gives: an optional sign, then one or more digits,
/// with a value in the range of `i32`.
pub open spec fn i32_text(s: Seq<char>) -> Option<i32> {
    if s.len() > 0 && s[0] == '-' {
        let d = s.drop_first();
        if bounded_digits(d, 0x8000_0000) {
            Some((0 - digits_value(d)) as i32)
        } else {
            None
        }
    } else {
        let d = strip_plus(s);
        if bounded_digits(d, i32::MAX as nat) {
            Some(digits_value(d) as i32)
        } else {
            None
        }
    }
}

/// The character of a decimal digit `d < 10`.
pub open spec fn digit_char(d: nat) -> char {
    ('0' as int + d) as char
}

/// The decimal rendering of `n`, without leading zeros, as `to_string` gives it.
pub open spec fn decimal_text(n: nat) -> Seq<char>
    decreases n,
{
    if n < 10 {
        seq![digit_char(n)]
    } else {
        decimal_text(n / 10).push(digit_char(n % 10))
    }
}

/// ASCII lower case, the case folding under which `f64` parsing compares.
pub open spec fn ascii_lower(c: char) -> char {
    if 'A' <= c && c <= 'Z' {
        (c as int + 32) as char
    } else {
        c
    }
}

pub open spec fn lowercase(s: Seq<char>) -> Seq<char> {
    s.map_values(|c: char| ascii_lower(c))
}

/// `inf`, `infinity` or `nan`, in any case.
pub open spec fn is_special_float(b: Seq<char>) -> bool {
    ||| lowercase(b) == seq!['i', 'n', 'f']
    ||| lowercase(b) == seq!['i', 'n', 'f', 'i', 'n', 'i', 't', 'y']
    ||| lowercase(b) == seq!['n', 'a', 'n']
}

/// `Digit+ | Digit+ '.' Digit* | Digit* '.' Digit+`.
pub open spec fn is_mantissa(m: Seq<char>) -> bool {
    ||| m.len() > 0 && all_digits(m)
    ||| m.len() >= 2 && exists|p: int|
        0 <= p < m.len() && m[p] == '.' && all_digits(#[trigger] m.take(p)) && all_digits(
            m.skip(p + 1),
        )
}

/// Empty, or `e` (either case), an optional sign and one or more digits.
pub open spec fn is_exponent_part(x: Seq<char>) -> bool {
    x.len() == 0 || ((x[0] == 'e' || x[0] == 'E') && strip_sign(x.drop_first()).len() > 0
        && all_digits(strip_sign(x.drop_first())))
}

/// A mantissa followed by an optional exponent.
pub open spec fn is_decimal_number(b: Seq<char>) -> bool {
    exists|k: int| 0 <= k <= b.len() && is_mantissa(#[trigger] b.take(k)) && is_exponent_part(b.skip(k))
}

/// The texts on which `s.parse::<f64>()` succeeds: an optional sign, then
/// `inf`, `infinity`, `nan` or a decimal number with an optional exponent.
pub open spec fn is_float_literal(s: Seq<char>) -> bool {
    is_special_float(strip_sign(s)) || is_decimal_number(strip_sign(s))
}

proof fn lemma_digits_value_prefix(s: Seq<char>, k: int)
    requires
        0 <= k <= s.len(),
    ensures
        digits_value(s.take(k)) <= digits_value(s),
    decreases s.len(),
{
    if k < s.len() {
        lemma_digits_value_prefix(s.drop_last(), k);
        assert(s.drop_last().take(k) =~= s.take(k));
    } else {
        assert(s.take(k) =~= s);
    }
}

/// Reads the digits of `cs[lo..]`: their value when there is at least one,
/// all are digits and the value is at most `limit`.
fn read_digits(cs: &Vec<char>, lo: usize, limit: u64) -> (r: Option<u64>)
    requires
        lo <= cs@.len(),
        limit <= 0x1_0000_0000,
    ensures
        r == (if bounded_digits(cs@.skip(lo as int), limit as nat) {
            Some(digits_value(cs@.skip(lo as int)) as u64)
        } else {
            None
        }),
{
    let n = cs.len();
    let ghost d = cs@.skip(lo as int);
    if lo == n {
        return None;
    }
    let mut acc: u64 = 0;
    let mut i: usize = lo;
    assert(d.take(0) =~= Seq::<char>::empty());
    while i < n
        invariant
            n == cs@.len(),
            lo <= i <= n,
            d == cs@.skip(lo as int),
            limit <= 0x1_0000_0000,
            all_digits(d.take(i - lo)),
            acc == digits_value(d.take(i - lo)),
            acc <= limit,
        decreases n - i,
    {
        let c = cs[i];
        assert(d.take(i - lo + 1).drop_last() =~= d.take(i - lo));
        assert(d.take(i - lo + 1).last() == c);
        if !check_digit(c) {
            assert(!all_digits(d)) by {
                assert(d[i - lo] == c);
            }
            return None;
        }
        let v = (c as u32 - '0' as u32) as u64;
        let next = acc * 10 + v;
        assert(all_digits(d.take(i - lo + 1)));
        if next > limit {
            proof {
                lemma_digits_value_prefix(d, i - lo + 1);
            }
            return None;
        }
        acc = next;
        i += 1;
    }
    assert(d.take(n - lo) =~= d);
    Some(acc)
}

/// `s.parse::<u32>()`.
pub fn parse_u32(s: &str) -> (r: Option<u32>)
    ensures
        r == u32_text(s@),
{
    let cs = chars_of(s);
    let lo: usize = if cs.len() > 0 && cs[0] == '+' { 1 } else { 0 };
    assert(cs@.skip(lo as int) =~= strip_plus(s@));
    match read_digits(&cs, lo, 0xffff_ffff) {
        Some(v) => Some(v as u32),
        None => None,
    }
}

/// `s.parse::<i32>()`.
pub fn parse_i32(s: &str) -> (r: Option<i32>)
    ensures
        r == i32_text(s@),
{
    let cs = chars_of(s);
    if cs.len() > 0 && cs[0] == '-' {
        assert(cs@.skip(1) =~= s@.drop_first());
        match read_digits(&cs, 1, 0x8000_0000) {
            Some(v) => Some((0 - (v as i64)) as i32),
            None => None,
        }
    } else {
        let lo: usize = if cs.len() > 0 && cs[0] == '+' { 1 } else { 0 };
        assert(cs@.skip(lo as int) =~= strip_plus(s@));
        match read_digits(&cs, lo, 0x7fff_ffff) {
            Some(v) => Some(v as i32),
            None => None,
        }
    }
}

/// The one-character text of the digit `d`.
fn digit_str(d: u64) -> (r: &'static str)
    requires
        d < 10,
    ensures
        r@ == seq![digit_char(d as nat)],
{
    let digits = "0123456789";
    proof {
        reveal_strlit("0123456789");
    }
    let r = digits.substring_char(d as usize, (d + 1) as usize);
    assert(r@ =~= seq![digit_char(d as nat)]);
    r
}

/// `n.to_string()`.
pub fn decimal_string(n: u64) -> (r: String)
    ensures
        r@ == decimal_text(n as nat),
    decreases n,
{
    if n < 10 {
        digit_str(n).to_owned()
    } else {
        let mut s = decimal_string(n / 10);
        s.append(digit_str(n % 10));
        s
    }
}

/// A character that can occur in no mantissa spoils every text holding it.
proof fn lemma_not_mantissa(m: Seq<char>, j: int)
    requires
        0 <= j < m.len(),
        !is_digit(m[j]),
        m[j] != '.',
    ensures
        !is_mantissa(m),
{
    assert(!all_digits(m)) by {
        assert(!is_digit(m[j]));
    }
    assert forall|p: int|
        0 <= p < m.len() && m[p] == '.' implies !(all_digits(#[trigger] m.take(p)) && all_digits(
        m.skip(p + 1),
    )) by {
        if j < p {
            assert(m.take(p)[j] == m[j]);
        } else {
            assert(m.skip(p + 1)[j - p - 1] == m[j]);
        }
    }
}

/// Whether every character of `cs[lo..hi]` is a digit.
fn check_all_digits(cs: &Vec<char>, lo: usize, hi: usize) -> (r: bool)
    requires
        lo <= hi <= cs@.len(),
    ensures
        r == all_digits(cs@.subrange(lo as int, hi as int)),
{
    let mut i = lo;
    while i < hi
        invariant
            lo <= i <= hi,
            hi <= cs@.len(),
            all_digits(cs@.subrange(lo as int, i as int)),
        decreases hi - i,
    {
        if !check_digit(cs[i]) {
            assert(cs@.subrange(lo as int, hi as int)[i - lo] == cs@[i as int]);
            return false;
        }
        assert forall|j: int| 0 <= j < i + 1 - lo implies is_digit(
            #[trigger] cs@.subrange(lo as int, i + 1)[j],
        ) by {
            if j < i - lo {
                assert(cs@.subrange(lo as int, i + 1)[j] == cs@.subrange(lo as int, i as int)[j]);
            }
        }
        i += 1;
    }
    true
}

/// Whether `cs[lo..hi]` is a mantissa.
fn check_mantissa(cs: &Vec<char>, lo: usize, hi: usize) -> (r: bool)
    requires
        lo <= hi <= cs@.len(),
    ensures
        r == is_mantissa(cs@.subrange(lo as int, hi as int)),
{
    let ghost m = cs@.subrange(lo as int, hi as int);
    let mut dot: Option<usize> = None;
    let mut i = lo;
    while i < hi
        invariant
            lo <= i <= hi,
            hi <= cs@.len(),
            m == cs@.subrange(lo as int, hi as int),
            match dot {
                None => all_digits(m.take(i - lo)),
                Some(p) => p < i - lo && m[p as int] == '.' && all_digits(m.take(p as int))
                    && all_digits(m.subrange(p + 1, i - lo)),
            },
        decreases hi - i,
    {
        let c = cs[i];
        let ghost j = i - lo;
        assert(m[j] == c);
        if check_digit(c) {
            match dot {
                None => {
                    assert forall|k: int| 0 <= k < j + 1 implies is_digit(#[trigger] m.take(j + 1)[k]) by {
                        if k < j {
                            assert(m.take(j + 1)[k] == m.take(j)[k]);
                        }
                    }
                },
                Some(p) => {
                    assert forall|k: int| 0 <= k < j + 1 - p - 1 implies is_digit(
                        #[trigger] m.subrange(p + 1, j + 1)[k],
                    ) by {
                        if k < j - p - 1 {
                            assert(m.subrange(p + 1, j + 1)[k] == m.subrange(p + 1, j)[k]);
                        }
                    }
                },
            }
        } else if c == '.' && dot.is_none() {
            assert(m.subrange(j + 1, j + 1) =~= Seq::<char>::empty());
            dot = Some(i - lo);
        } else {
            if c != '.' {
                proof {
                    lemma_not_mantissa(m, j);
                }
            } else {
                let p0 = dot.unwrap();
                assert(!all_digits(m)) by {
                    assert(!is_digit(m[j]));
                }
                assert forall|p: int|
                    0 <= p < m.len() && m[p] == '.' implies !(all_digits(#[trigger] m.take(p))
                    && all_digits(m.skip(p + 1))) by {
                    if p < j {
                        assert(m.skip(p + 1)[j - p - 1] == m[j]);
                    } else {
                        assert(m.take(p)[p0 as int] == m[p0 as int]);
                    }
                }
            }
            return false;
        }
        i += 1;
    }
    match dot {
        None => {
            assert(m.take(hi - lo) =~= m);
            hi > lo
        },
        Some(p) => {
            assert(m.subrange(p + 1, hi - lo) =~= m.skip(p + 1));
            assert(!all_digits(m)) by {
                assert(!is_digit(m[p as int]));
            }
            if hi - lo >= 2 {
                assert(0 <= p < m.len() && m[p as int] == '.' && all_digits(m.take(p as int))
                    && all_digits(m.skip(p + 1)));
            }
            hi - lo >= 2
        },
    }
}

/// Whether `cs[lo..]` is an exponent part.
fn check_exponent(cs: &Vec<char>, lo: usize) -> (r: bool)
    requires
        lo <= cs@.len(),
    ensures
        r == is_exponent_part(cs@.skip(lo as int)),
{
    let n = cs.len();
    let ghost x = cs@.skip(lo as int);
    if lo == n {
        return true;
    }
    assert(x[0] == cs@[lo as int]);
    if cs[lo] != 'e' && cs[lo] != 'E' {
        return false;
    }
    let ghost rest = x.drop_first();
    assert(rest =~= cs@.skip(lo + 1));
    let mut j = lo + 1;
    if j < n && (cs[j] == '+' || cs[j] == '-') {
        j += 1;
    }
    assert(strip_sign(rest) =~= cs@.subrange(j as int, n as int));
    j < n && check_all_digits(cs, j, n)
}

/// Whether `cs[lo..]` is a decimal number.
fn check_decimal_number(cs: &Vec<char>, lo: usize) -> (r: bool)
    requires
        lo <= cs@.len(),
    ensures
        r == is_decimal_number(cs@.skip(lo as int)),
{
    let n = cs.len();
    let ghost b = cs@.skip(lo as int);
    let mut e = lo;
    while e < n && cs[e] != 'e' && cs[e] != 'E'
        invariant
            lo <= e <= n,
            n == cs@.len(),
            forall|k: int| lo <= k < e ==> cs@[k] != 'e' && cs@[k] != 'E',
        decreases n - e,
    {
        e += 1;
    }
    let ghost k0 = e - lo;
    assert(b.take(k0) =~= cs@.subrange(lo as int, e as int));
    assert(b.skip(k0) =~= cs@.skip(e as int));
    let r = check_mantissa(cs, lo, e) && check_exponent(cs, e);
    if !r {
        assert forall|k: int| 0 <= k <= b.len() implies !(is_mantissa(#[trigger] b.take(k))
            && is_exponent_part(b.skip(k))) by {
            if k < k0 {
                assert(b.skip(k)[0] == cs@[lo + k]);
            } else if k > k0 {
                assert(b.take(k)[k0] == cs@[e as int]);
                lemma_not_mantissa(b.take(k), k0);
            }
        }
    }
    r
}

/// Whether `b` equals the lower-case `word` under ASCII case folding.
fn lower_equals(cs: &Vec<char>, lo: usize, word: &Vec<char>) -> (r: bool)
    requires
        lo <= cs@.len(),
    ensures
        r == (lowercase(cs@.skip(lo as int)) == word@),
{
    let n = cs.len();
    let ghost b = cs@.skip(lo as int);
    if n - lo != word.len() {
        assert(lowercase(b).len() != word@.len());
        return false;
    }
    let mut i: usize = 0;
    while i < word.len()
        invariant
            n == cs@.len(),
            lo <= n,
            b == cs@.skip(lo as int),
            n - lo == word@.len(),
            i <= word@.len(),
            forall|k: int| 0 <= k < i ==> ascii_lower(b[k]) == word@[k],
        decreases word@.len() - i,
    {
        let c = cs[lo + i];
        let w = word[i];
        assert(b[i as int] == c);
        let lowered = if 'A' <= c && c <= 'Z' {
            ((c as u32) as u8 + 32) as char
        } else {
            c
        };
        assert(lowered == ascii_lower(c));
        if lowered != w {
            assert(lowercase(b)[i as int] != word@[i as int]);
            return false;
        }
        i += 1;
    }
    assert(lowercase(b) =~= word@);
    true
}

/// Whether `s.parse::<f64>()` succeeds.
pub fn is_float_text(s: &str) -> (r: bool)
    ensures
        r == is_float_literal(s@),
{
    let cs = chars_of(s);
    let lo: usize = if cs.len() > 0 && (cs[0] == '+' || cs[0] == '-') { 1 } else { 0 };
    assert(cs@.skip(lo as int) =~= strip_sign(s@));
    let inf = vec!['i', 'n', 'f'];
    let infinity = vec!['i', 'n', 'f', 'i', 'n', 'i', 't', 'y'];
    let nan = vec!['n', 'a', 'n'];
    lower_equals(&cs, lo, &inf) || lower_equals(&cs, lo, &infinity) || lower_equals(&cs, lo, &nan)
        || check_decimal_number(&cs, lo)
}

/// A text of digits around one decimal point, at least two characters
/// long and without a sign, parses as `f64`.
pub proof fn lemma_point_decimal_is_float(m: Seq<char>, p: int)
    requires
        0 <= p < m.len(),
        m.len() >= 2,
        m[p] == '.',
        all_digits(m.take(p)),
        all_digits(m.skip(p + 1)),
    ensures
        is_float_literal(m),
{
    if p > 0 {
        assert(m.take(p)[0] == m[0]);
    } else {
        assert(m.skip(p + 1)[0] == m[1]);
    }
    assert(!is_sign(m[0]));
    assert(strip_sign(m) == m);
    assert(m.take(m.len() as int) =~= m);
    assert(is_mantissa(m.take(m.len() as int)));
    assert(m.skip(m.len() as int).len() == 0);
    assert(is_exponent_part(m.skip(m.len() as int)));
}

/// Every character of `s` at the positions `lo..hi` is a digit.
pub open spec fn digits_between(s: Seq<char>, lo: int, hi: int) -> bool
    decreases hi - lo,
{
    lo >= hi || (is_digit(s[lo]) && digits_between(s, lo + 1, hi))
}

pub proof fn lemma_digits_between(s: Seq<char>, lo: int, hi: int)
    requires
        0 <= lo <= hi <= s.len(),
        digits_between(s, lo, hi),
    ensures
        all_digits(s.subrange(lo, hi)),
    decreases hi - lo,
{
    if lo < hi {
        lemma_digits_between(s, lo + 1, hi);
        assert forall|j: int| 0 <= j < hi - lo implies is_digit(#[trigger] s.subrange(lo, hi)[j]) by {
            if j > 0 {
                assert(s.subrange(lo, hi)[j] == s.subrange(lo + 1, hi)[j - 1]);
            }
        }
    }
}

/// `s[lo..hi]`, digits around the point at `p`, parses as `f64`.
pub proof fn lemma_point_decimal_between(s: Seq<char>, lo: int, p: int, hi: int)
    requires
        0 <= lo <= p < hi <= s.len(),
        hi - lo >= 2,
        s[p] == '.',
        digits_between(s, lo, p),
        digits_between(s, p + 1, hi),
    ensures
        is_float_literal(s.subrange(lo, hi)),
{
    let m = s.subrange(lo, hi);
    lemma_digits_between(s, lo, p);
    lemma_digits_between(s, p + 1, hi);
    assert(m.take(p - lo) =~= s.subrange(lo, p));
    assert(m.skip(p - lo + 1) =~= s.subrange(p + 1, hi));
    lemma_point_decimal_is_float(m, p - lo);
}

/// `0` followed by `s[lo..hi]`, a point and digits, parses as `f64`.
pub proof fn lemma_zero_prefixed_decimal(s: Seq<char>, lo: int, hi: int)
    requires
        0 <= lo < hi <= s.len(),
        s[lo] == '.',
        digits_between(s, lo + 1, hi),
    ensures
        is_float_literal(seq!['0'] + s.subrange(lo, hi)),
{
    let m = seq!['0'] + s.subrange(lo, hi);
    lemma_digits_between(s, lo + 1, hi);
    assert(m.take(1) =~= seq!['0']);
    assert(m.skip(2) =~= s.subrange(lo + 1, hi));
    lemma_point_decimal_is_float(m, 1);
}

/// `0.` followed by the digits `s[lo..hi]` parses as `f64`.
pub proof fn lemma_zero_point_prefixed(s: Seq<char>, lo: int, hi: int)
    requires
        0 <= lo <= hi <= s.len(),
        digits_between(s, lo, hi),
    ensures
        is_float_literal(seq!['0', '.'] + s.subrange(lo, hi)),
{
    let m = seq!['0', '.'] + s.subrange(lo, hi);
    lemma_digits_between(s, lo, hi);
    assert(m.take(1) =~= seq!['0']);
    assert(m.skip(2) =~= s.subrange(lo, hi));
    lemma_point_decimal_is_float(m, 1);
}

/// A single digit is what `parse::<u32>` reads as its value.
pub proof fn lemma_single_digit_u32(t: Seq<char>)
    requires
        t.len() == 1,
        is_digit(t[0]),
    ensures
        u32_text(t) == Some(digit_value(t[0]) as u32),
{
    assert(strip_plus(t) == t);
    assert(t.drop_last().len() == 0);
    assert(digits_value(t.drop_last()) == 0);
    assert(t.last() == t[0]);
}

} // verus!
