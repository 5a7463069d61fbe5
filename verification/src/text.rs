//! Verified text helpers: comparison, splitting, trimming, and conversion
//! between decimal text and fixed-point numbers.

use vstd::prelude::*;
use vstd::string::StrSliceExecFns;
use vstd::string::StringExecFns;
use crate::fx::SCALE;
use crate::fx::FX_VAL_MAX;

verus! {

/// Largest magnitude (in fixed-point units) that the decimal parsers accept.
pub const PARSE_MAX: u64 = 4_000_000_000_000_000;

/// Whether `c` is a decimal digit.
pub open spec fn is_digit_char(c: char) -> bool {
    48 <= c as u32 <= 57
}

/// The numeric value of the digit `c`.
pub open spec fn digit_of(c: char) -> int {
    c as u32 - 48
}

/// The digit character for value `d` (0 through 9).
pub open spec fn digit_char(d: int) -> char {
    ((d + 48) as u8) as char
}

/// Whether every character of `s` is a decimal digit.
pub open spec fn all_digits(s: Seq<char>) -> bool {
    forall|i: int| 0 <= i < s.len() ==> is_digit_char(#[trigger] s[i])
}

/// The number denoted by the digit string `s` (0 for the empty string).
pub open spec fn digits_val(s: Seq<char>) -> int
    decreases s.len(),
{
    if s.len() == 0 {
        0
    } else {
        digits_val(s.drop_last()) * 10 + digit_of(s.last())
    }
}

pub proof fn lemma_digits_val_nonneg(s: Seq<char>)
    requires
        all_digits(s),
    ensures
        digits_val(s) >= 0,
    decreases s.len(),
{
    if s.len() > 0 {
        assert(all_digits(s.drop_last()));
        lemma_digits_val_nonneg(s.drop_last());
    }
}

/// Compare two string slices for equality of their character sequences.
pub fn str_eq(a: &str, b: &str) -> (r: bool)
    ensures
        r == (a@ == b@),
{
    let alen = a.unicode_len();
    let blen = b.unicode_len();
    if alen != blen {
        return false;
    }
    let mut i: usize = 0;
    while i < alen
        invariant
            alen == a@.len(),
            blen == b@.len(),
            alen == blen,
            0 <= i <= alen,
            forall|j: int| 0 <= j < i ==> a@[j] == b@[j],
        decreases alen - i,
    {
        if a.get_char(i) != b.get_char(i) {
            return false;
        }
        i += 1;
    }
    proof {
        assert(a@ =~= b@);
    }
    true
}

/// The character `c` with an upper-case ASCII letter folded to lower case.
pub open spec fn lower_char(c: char) -> char {
    if 65 <= c as u32 <= 90 {
        ((c as u8) + 32) as char
    } else {
        c
    }
}

/// The sequence `s` with upper-case ASCII letters folded to lower case.
pub open spec fn lower_seq(s: Seq<char>) -> Seq<char> {
    Seq::new(s.len(), |i: int| lower_char(s[i]))
}

fn lower_char_exec(c: char) -> (r: char)
    ensures
        r == lower_char(c),
{
    let u = c as u32;
    if 65 <= u && u <= 90 {
        ((c as u8) + 32) as char
    } else {
        c
    }
}

/// Compare two string slices for equality up to ASCII case.
pub fn str_eq_ignore_case(a: &str, b: &str) -> (r: bool)
    ensures
        r == (lower_seq(a@) == lower_seq(b@)),
{
    let alen = a.unicode_len();
    let blen = b.unicode_len();
    if alen != blen {
        proof {
            assert(lower_seq(a@).len() != lower_seq(b@).len());
        }
        return false;
    }
    let mut i: usize = 0;
    while i < alen
        invariant
            alen == a@.len(),
            blen == b@.len(),
            alen == blen,
            0 <= i <= alen,
            forall|j: int| 0 <= j < i ==> lower_char(a@[j]) == lower_char(b@[j]),
        decreases alen - i,
    {
        if lower_char_exec(a.get_char(i)) != lower_char_exec(b.get_char(i)) {
            proof {
                assert(lower_seq(a@)[i as int] != lower_seq(b@)[i as int]);
            }
            return false;
        }
        i += 1;
    }
    proof {
        assert(lower_seq(a@) =~= lower_seq(b@));
    }
    true
}

/// Whether `s` begins with the characters of `p`.
pub open spec fn spec_starts_with(s: Seq<char>, p: Seq<char>) -> bool {
    s.len() >= p.len() && s.subrange(0, p.len() as int) == p
}

pub fn str_starts_with(s: &str, p: &str) -> (r: bool)
    ensures
        r == spec_starts_with(s@, p@),
{
    let slen = s.unicode_len();
    let plen = p.unicode_len();
    if slen < plen {
        return false;
    }
    let mut i: usize = 0;
    while i < plen
        invariant
            slen == s@.len(),
            plen == p@.len(),
            plen <= slen,
            0 <= i <= plen,
            forall|j: int| 0 <= j < i ==> s@[j] == p@[j],
        decreases plen - i,
    {
        if s.get_char(i) != p.get_char(i) {
            proof {
                assert(s@.subrange(0, p@.len() as int)[i as int] != p@[i as int]);
            }
            return false;
        }
        i += 1;
    }
    proof {
        assert(s@.subrange(0, p@.len() as int) =~= p@);
    }
    true
}

/// Index of the first occurrence of `c` in `s`, or -1 when absent.
pub open spec fn spec_find(s: Seq<char>, c: char) -> int
    decreases s.len(),
{
    if s.len() == 0 {
        -1
    } else if s[0] == c {
        0
    } else {
        let r = spec_find(s.subrange(1, s.len() as int), c);
        if r < 0 {
            -1
        } else {
            r + 1
        }
    }
}

pub fn find_char(s: &str, c: char) -> (r: Option<usize>)
    ensures
        match r {
            Some(i) => spec_find(s@, c) == i as int && i < s@.len(),
            None => spec_find(s@, c) == -1,
        },
    decreases s@.len(),
{
    let len = s.unicode_len();
    if len == 0 {
        return None;
    }
    if s.get_char(0) == c {
        return Some(0);
    }
    let tail = s.substring_char(1, len);
    match find_char(tail, c) {
        Some(i) => Some(i + 1),
        None => None,
    }
}

/// `s` divided at every occurrence of `sep`; the separators are dropped and
/// the pieces (possibly empty) are kept in order.
pub open spec fn spec_split(s: Seq<char>, sep: char) -> Seq<Seq<char>>
    decreases s.len(),
{
    let i = spec_find(s, sep);
    if !(0 <= i < s.len()) {
        seq![s]
    } else {
        seq![s.subrange(0, i)] + spec_split(s.subrange(i + 1, s.len() as int), sep)
    }
}

pub fn split_by(s: &str, sep: char) -> (r: Vec<String>)
    ensures
        r@.len() == spec_split(s@, sep).len(),
        forall|i: int| 0 <= i < r@.len() ==> r@[i]@ == spec_split(s@, sep)[i],
    decreases s@.len(),
{
    let len = s.unicode_len();
    match find_char(s, sep) {
        None => {
            let mut v: Vec<String> = Vec::new();
            v.push(s.to_owned());
            v
        },
        Some(i) => {
            let head = s.substring_char(0, i).to_owned();
            let tail = s.substring_char(i + 1, len);
            let mut rest = split_by(tail, sep);
            rest.insert(0, head);
            rest
        },
    }
}

/// `s` with leading and trailing spaces removed.
pub open spec fn spec_trim(s: Seq<char>) -> Seq<char>
    decreases s.len(),
{
    if s.len() > 0 && s[0] == ' ' {
        spec_trim(s.subrange(1, s.len() as int))
    } else if s.len() > 0 && s.last() == ' ' {
        spec_trim(s.drop_last())
    } else {
        s
    }
}

pub fn trim_spaces(s: &str) -> (r: String)
    ensures
        r@ == spec_trim(s@),
    decreases s@.len(),
{
    let len = s.unicode_len();
    if len > 0 && s.get_char(0) == ' ' {
        trim_spaces(s.substring_char(1, len))
    } else if len > 0 && s.get_char(len - 1) == ' ' {
        proof {
            assert(s@.subrange(0, s@.len() - 1) =~= s@.drop_last());
        }
        trim_spaces(s.substring_char(0, len - 1))
    } else {
        s.to_owned()
    }
}

/// The digit string's value when every character is a digit and the value is
/// at most `PARSE_MAX`; `None` otherwise (the empty string has value 0).
pub open spec fn spec_parse_digits(s: Seq<char>) -> Option<u64> {
    if all_digits(s) && digits_val(s) <= PARSE_MAX {
        Some(digits_val(s) as u64)
    } else {
        None
    }
}

pub fn parse_digits(s: &str) -> (r: Option<u64>)
    ensures
        r == spec_parse_digits(s@),
    decreases s@.len(),
{
    let len = s.unicode_len();
    if len == 0 {
        return Some(0);
    }
    proof {
        assert(s@.subrange(0, s@.len() - 1) =~= s@.drop_last());
        if all_digits(s@) {
            assert(all_digits(s@.drop_last()));
        }
        lemma_digits_val_nonneg_total(s@.drop_last());
    }
    let prefix = s.substring_char(0, len - 1);
    let last = s.get_char(len - 1);
    let lu = last as u32;
    if lu < 48 || lu > 57 {
        return None;
    }
    match parse_digits(prefix) {
        None => {
            proof {
                if all_digits(s@) {
                    // the prefix is all digits, so its value was too large
                    lemma_digits_val_nonneg(s@.drop_last());
                    assert(digits_val(s@) == digits_val(s@.drop_last()) * 10 + digit_of(
                        s@.last(),
                    ));
                    assert(digits_val(s@.drop_last()) * 10 >= digits_val(s@.drop_last()))
                        by (nonlinear_arith)
                        requires
                            digits_val(s@.drop_last()) >= 0,
                    ;
                }
            }
            None
        },
        Some(acc) => {
            proof {
                assert forall|i: int| 0 <= i < s@.len() implies is_digit_char(
                    #[trigger] s@[i],
                ) by {
                    if i < s@.len() - 1 {
                        assert(s@.drop_last()[i] == s@[i]);
                    } else {
                        assert(s@[i] == s@.last());
                    }
                }
            }
            let d: u64 = (lu - 48) as u64;
            let v: u64 = acc * 10 + d;
            if v > PARSE_MAX {
                None
            } else {
                Some(v)
            }
        },
    }
}

proof fn lemma_digits_val_nonneg_total(s: Seq<char>)
    ensures
        all_digits(s) ==> digits_val(s) >= 0,
{
    if all_digits(s) {
        lemma_digits_val_nonneg(s);
    }
}

/// The value of a fractional digit string, scaled to six decimal places;
/// digits past the sixth are ignored.
pub open spec fn frac_val(s: Seq<char>) -> int {
    if s.len() >= 6 {
        digits_val(s.subrange(0, 6))
    } else if s.len() == 5 {
        digits_val(s) * 10
    } else if s.len() == 4 {
        digits_val(s) * 100
    } else if s.len() == 3 {
        digits_val(s) * 1000
    } else if s.len() == 2 {
        digits_val(s) * 10000
    } else if s.len() == 1 {
        digits_val(s) * 100000
    } else {
        0
    }
}

fn parse_frac(s: &str) -> (r: Option<u64>)
    ensures
        match r {
            Some(v) => all_digits(s@) && v == frac_val(s@) && v < 1000000,
            None => !all_digits(s@),
        },
{
    let len = s.unicode_len();
    let head = if len >= 6 {
        s.substring_char(0, 6)
    } else {
        s.substring_char(0, len)
    };
    let rest = if len >= 6 {
        s.substring_char(6, len)
    } else {
        s.substring_char(len, len)
    };
    if !all_digits_exec(rest) {
        proof {
            if len >= 6 {
                assert(!all_digits(s@)) by {
                    let k = choose|i: int|
                        0 <= i < s@.subrange(6, s@.len() as int).len()
                            && !is_digit_char(s@.subrange(6, s@.len() as int)[i]);
                    assert(s@[k + 6] == s@.subrange(6, s@.len() as int)[k]);
                }
            }
        }
        return None;
    }
    match parse_digits(head) {
        None => {
            proof {
                if len >= 6 {
                    lemma_digits_small(s@.subrange(0, 6));
                    let k = choose|i: int|
                        0 <= i < 6 && !is_digit_char(s@.subrange(0, 6)[i]);
                    assert(s@[k] == s@.subrange(0, 6)[k]);
                } else {
                    assert(s@.subrange(0, s@.len() as int) =~= s@);
                    lemma_digits_small(s@);
                }
            }
            None
        },
        Some(v) => {
            proof {
                if len >= 6 {
                    lemma_digits_small(s@.subrange(0, 6));
                    assert forall|i: int| 0 <= i < s@.len() implies is_digit_char(
                        #[trigger] s@[i],
                    ) by {
                        if i < 6 {
                            assert(s@.subrange(0, 6)[i] == s@[i]);
                        } else {
                            assert(s@.subrange(6, s@.len() as int)[i - 6] == s@[i]);
                        }
                    }
                } else {
                    assert(s@.subrange(0, s@.len() as int) =~= s@);
                    reveal_with_fuel(pow10_of, 8);
                    lemma_digits_val_bounded(s@, s@.len() as int);
                }
            }
            if len >= 6 {
                Some(v)
            } else if len == 5 {
                Some(v * 10)
            } else if len == 4 {
                Some(v * 100)
            } else if len == 3 {
                Some(v * 1000)
            } else if len == 2 {
                Some(v * 10000)
            } else if len == 1 {
                Some(v * 100000)
            } else {
                Some(0)
            }
        },
    }
}

/// A digit string of at most 6 digits has value below 1000000.
proof fn lemma_digits_small(s: Seq<char>)
    requires
        s.len() <= 6,
    ensures
        all_digits(s) ==> 0 <= digits_val(s) < 1000000,
{
    if all_digits(s) {
        lemma_digits_val_bounded(s, 6);
        reveal_with_fuel(pow10_of, 8);
        assert(pow10_of(6) == 1000000);
    }
}

spec fn pow10_of(k: int) -> int
    decreases k,
{
    if k <= 0 {
        1
    } else {
        10 * pow10_of(k - 1)
    }
}

proof fn lemma_digits_val_bounded(s: Seq<char>, k: int)
    requires
        all_digits(s),
        s.len() <= k,
    ensures
        0 <= digits_val(s) < pow10_of(k),
    decreases k,
{
    if s.len() == 0 {
        assert(pow10_of(k) >= 1) by {
            lemma_pow10_pos(k);
        }
    } else {
        assert(all_digits(s.drop_last()));
        lemma_digits_val_bounded(s.drop_last(), k - 1);
    }
}

proof fn lemma_pow10_pos(k: int)
    ensures
        pow10_of(k) >= 1,
    decreases (if k > 0 { k } else { 0 }),
{
    if k > 0 {
        lemma_pow10_pos(k - 1);
    }
}

fn all_digits_exec(s: &str) -> (r: bool)
    ensures
        r == all_digits(s@),
{
    let len = s.unicode_len();
    let mut i: usize = 0;
    while i < len
        invariant
            len == s@.len(),
            0 <= i <= len,
            forall|j: int| 0 <= j < i ==> is_digit_char(#[trigger] s@[j]),
        decreases len - i,
    {
        let u = s.get_char(i) as u32;
        if u < 48 || u > 57 {
            return false;
        }
        i += 1;
    }
    true
}

/// The fixed-point number denoted by decimal text: an optional sign, an
/// integer part and an optional fractional part, at least one digit in all;
/// fractional digits past the sixth are ignored and magnitudes beyond
/// `FX_VAL_MAX` are rejected.
pub open spec fn spec_parse_fixed(s: Seq<char>) -> Option<i64> {
    let neg = s.len() > 0 && s[0] == '-';
    let body = if s.len() > 0 && (s[0] == '-' || s[0] == '+') {
        s.subrange(1, s.len() as int)
    } else {
        s
    };
    let dot = spec_find(body, '.');
    let ipart = if dot < 0 {
        body
    } else {
        body.subrange(0, dot)
    };
    let fpart = if dot < 0 {
        Seq::<char>::empty()
    } else {
        body.subrange(dot + 1, body.len() as int)
    };
    if all_digits(ipart) && all_digits(fpart) && ipart.len() + fpart.len() >= 1 && spec_find(
        fpart,
        '.',
    ) == -1 {
        let v = digits_val(ipart) * SCALE + frac_val(fpart);
        if v <= FX_VAL_MAX {
            Some((if neg { -v } else { v }) as i64)
        } else {
            None
        }
    } else {
        None
    }
}

/// Parse decimal text into a fixed-point number.
pub fn parse_fixed(s: &str) -> (r: Option<i64>)
    ensures
        r == spec_parse_fixed(s@),
{
    let len = s.unicode_len();
    let has_sign = if len > 0 {
        let c0 = s.get_char(0);
        c0 == '-' || c0 == '+'
    } else {
        false
    };
    let neg = if len > 0 {
        s.get_char(0) == '-'
    } else {
        false
    };
    let body = if has_sign {
        s.substring_char(1, len)
    } else {
        s.substring_char(0, len)
    };
    proof {
        if !has_sign {
            assert(s@.subrange(0, s@.len() as int) =~= s@);
        }
    }
    let blen = body.unicode_len();
    let (ipart, fpart) = match find_char(body, '.') {
        None => (body.substring_char(0, blen), body.substring_char(blen, blen)),
        Some(d) => (body.substring_char(0, d), body.substring_char(d + 1, blen)),
    };
    proof {
        assert(body@.subrange(0, body@.len() as int) =~= body@);
        assert(body@.subrange(body@.len() as int, body@.len() as int)
            =~= Seq::<char>::empty());
    }
    if ipart.unicode_len() == 0 && fpart.unicode_len() == 0 {
        return None;
    }
    if find_char(fpart, '.').is_some() {
        return None;
    }
    let iv = match parse_digits(ipart) {
        None => {
            proof {
                if all_digits(ipart@) {
                    lemma_digits_val_nonneg(ipart@);
                    lemma_scale_monotone(digits_val(ipart@));
                    if all_digits(fpart@) {
                        lemma_frac_nonneg(fpart@);
                    }
                }
            }
            return None;
        },
        Some(v) => v,
    };
    let fv = match parse_frac(fpart) {
        None => {
            return None;
        },
        Some(v) => v,
    };
    proof {
        lemma_digits_val_nonneg(ipart@);
        lemma_frac_nonneg(fpart@);
    }
    if iv > (FX_VAL_MAX as u64) / (SCALE as u64) {
        proof {
            lemma_scale_monotone(digits_val(ipart@));
        }
        return None;
    }
    let v: u64 = iv * (SCALE as u64) + fv;
    if v > FX_VAL_MAX as u64 {
        return None;
    }
    if neg {
        Some(-(v as i64))
    } else {
        Some(v as i64)
    }
}

pub proof fn lemma_frac_nonneg(s: Seq<char>)
    requires
        all_digits(s),
    ensures
        0 <= frac_val(s) < 1000000,
{
    reveal_with_fuel(pow10_of, 8);
    if s.len() >= 6 {
        assert(all_digits(s.subrange(0, 6)));
        lemma_digits_val_bounded(s.subrange(0, 6), 6);
    } else if s.len() == 5 {
        lemma_digits_val_bounded(s, 5);
    } else if s.len() == 4 {
        lemma_digits_val_bounded(s, 4);
    } else if s.len() == 3 {
        lemma_digits_val_bounded(s, 3);
    } else if s.len() == 2 {
        lemma_digits_val_bounded(s, 2);
    } else if s.len() == 1 {
        lemma_digits_val_bounded(s, 1);
    }
}

/// If the integer part exceeds `FX_VAL_MAX / SCALE` then the scaled value
/// exceeds `FX_VAL_MAX`.
proof fn lemma_scale_monotone(iv: int)
    ensures
        iv >= 0 ==> iv * SCALE >= iv,
        iv > (FX_VAL_MAX as int) / (SCALE as int) ==> iv * SCALE > FX_VAL_MAX,
{
    assert(iv >= 0 ==> iv * SCALE >= iv * 1) by (nonlinear_arith);
    assert(iv >= 4000000001 ==> iv * 1000000 >= 4000000001000000i64 as int) by (nonlinear_arith);
}

/// The digit character for value `d` (0 through 9), written out so that no
/// reasoning about character codes is needed.
pub open spec fn out_digit(d: int) -> char {
    if d == 0 {
        '0'
    } else if d == 1 {
        '1'
    } else if d == 2 {
        '2'
    } else if d == 3 {
        '3'
    } else if d == 4 {
        '4'
    } else if d == 5 {
        '5'
    } else if d == 6 {
        '6'
    } else if d == 7 {
        '7'
    } else if d == 8 {
        '8'
    } else {
        '9'
    }
}

/// The decimal digit string of the non-negative number `n`.
pub open spec fn spec_dec(n: int) -> Seq<char>
    decreases n,
{
    if n < 10 {
        seq![out_digit(n)]
    } else {
        spec_dec(n / 10).push(out_digit(n % 10))
    }
}

/// The low `w` decimal digits of `n`, most significant first.
pub open spec fn spec_dec_padded(n: int, w: int) -> Seq<char>
    decreases w,
{
    if w <= 0 {
        Seq::<char>::empty()
    } else {
        spec_dec_padded(n / 10, w - 1).push(out_digit(n % 10))
    }
}

/// `s` with trailing zero digits removed.
pub open spec fn strip_zeros(s: Seq<char>) -> Seq<char>
    decreases s.len(),
{
    if s.len() > 0 && s.last() == '0' {
        strip_zeros(s.drop_last())
    } else {
        s
    }
}

fn push_out_digit(s: &mut String, d: u64)
    requires
        d < 10,
    ensures
        final(s)@ == old(s)@ + seq![out_digit(d as int)],
{
    proof {
        reveal_strlit("0");
        reveal_strlit("1");
        reveal_strlit("2");
        reveal_strlit("3");
        reveal_strlit("4");
        reveal_strlit("5");
        reveal_strlit("6");
        reveal_strlit("7");
        reveal_strlit("8");
        reveal_strlit("9");
    }
    if d == 0 {
        s.append("0");
    } else if d == 1 {
        s.append("1");
    } else if d == 2 {
        s.append("2");
    } else if d == 3 {
        s.append("3");
    } else if d == 4 {
        s.append("4");
    } else if d == 5 {
        s.append("5");
    } else if d == 6 {
        s.append("6");
    } else if d == 7 {
        s.append("7");
    } else if d == 8 {
        s.append("8");
    } else {
        s.append("9");
    }
    proof {
        assert(s@ =~= old(s)@ + seq![out_digit(d as int)]);
    }
}

/// Append the decimal digits of `n` to `s`.
pub fn fmt_u64_into(s: &mut String, n: u64)
    ensures
        final(s)@ == old(s)@ + spec_dec(n as int),
    decreases n,
{
    if n < 10 {
        push_out_digit(s, n);
    } else {
        fmt_u64_into(s, n / 10);
        push_out_digit(s, n % 10);
        proof {
            assert(s@ =~= old(s)@ + spec_dec(n as int));
        }
    }
}

/// The decimal rendering of `n`.
pub fn fmt_u64(n: u64) -> (r: String)
    ensures
        r@ == spec_dec(n as int),
{
    let mut s = String::new();
    fmt_u64_into(&mut s, n);
    proof {
        assert(s@ =~= spec_dec(n as int));
    }
    s
}

/// The decimal rendering of `n`, as for `u64` values.
pub fn fmt_usize(n: usize) -> (r: String)
    ensures
        r@ == spec_dec(n as int),
{
    fmt_u64(n as u64)
}

fn fmt_dec_padded_into(s: &mut String, n: u64, w: u64)
    ensures
        final(s)@ == old(s)@ + spec_dec_padded(n as int, w as int),
    decreases w,
{
    if w == 0 {
        proof {
            assert(s@ =~= old(s)@ + spec_dec_padded(n as int, 0));
        }
    } else {
        fmt_dec_padded_into(s, n / 10, w - 1);
        push_out_digit(s, n % 10);
        proof {
            assert(s@ =~= old(s)@ + spec_dec_padded(n as int, w as int));
        }
    }
}

/// The decimal rendering of the signed number `n`.
pub open spec fn spec_fmt_i64(n: int) -> Seq<char> {
    if n < 0 {
        seq!['-'] + spec_dec(-n)
    } else {
        spec_dec(n)
    }
}

pub fn fmt_i64(n: i64) -> (r: String)
    ensures
        r@ == spec_fmt_i64(n as int),
{
    let mut s = String::new();
    if n < 0 {
        proof {
            reveal_strlit("-");
        }
        s.append("-");
        let a: u64 = (-(n as i128)) as u64;
        fmt_u64_into(&mut s, a);
        proof {
            assert(s@ =~= spec_fmt_i64(n as int));
        }
    } else {
        fmt_u64_into(&mut s, n as u64);
        proof {
            assert(s@ =~= spec_fmt_i64(n as int));
        }
    }
    s
}

/// The decimal rendering of a fixed-point number: the whole part, then a
/// fractional part of up to six digits with trailing zeros removed; whole
/// values carry no fractional part.
pub open spec fn spec_fmt_fixed(v: int) -> Seq<char> {
    let a = if v < 0 {
        -v
    } else {
        v
    };
    let ip = a / (SCALE as int);
    let f = a % (SCALE as int);
    let sign: Seq<char> = if v < 0 {
        seq!['-']
    } else {
        Seq::<char>::empty()
    };
    if f == 0 {
        sign + spec_dec(ip)
    } else {
        sign + spec_dec(ip) + seq!['.'] + strip_zeros(spec_dec_padded(f, 6))
    }
}

pub fn fmt_fixed(v: i64) -> (r: String)
    ensures
        r@ == spec_fmt_fixed(v as int),
{
    let a: u64 = if v < 0 {
        (-(v as i128)) as u64
    } else {
        v as u64
    };
    let ip: u64 = a / (SCALE as u64);
    let f: u64 = a % (SCALE as u64);
    let mut s = String::new();
    if v < 0 {
        proof {
            reveal_strlit("-");
        }
        s.append("-");
    }
    fmt_u64_into(&mut s, ip);
    if f != 0 {
        proof {
            reveal_strlit(".");
        }
        s.append(".");
        let ghost full: Seq<char> = spec_dec_padded(f as int, 6);
        let mut fr: u64 = f;
        let mut w: u64 = 6;
        proof {
            reveal_with_fuel(pow10_of, 8);
        }
        while fr % 10 == 0
            invariant
                fr > 0,
                1 <= w <= 6,
                fr < pow10_of(w as int),
                strip_zeros(spec_dec_padded(fr as int, w as int)) == strip_zeros(full),
            decreases fr,
        {
            proof {
                reveal_with_fuel(pow10_of, 8);
                assert(fr >= 10);
                if w == 1 {
                    assert(pow10_of(1) == 10);
                    assert(false);
                }
                assert(spec_dec_padded(fr as int, w as int).last() == out_digit(
                    fr as int % 10,
                ));
                assert(spec_dec_padded(fr as int, w as int).drop_last()
                    =~= spec_dec_padded(fr as int / 10, w as int - 1));
            }
            fr = fr / 10;
            w = w - 1;
        }
        proof {
            assert(spec_dec_padded(fr as int, w as int).last() == out_digit(fr as int % 10));
            assert(strip_zeros(spec_dec_padded(fr as int, w as int)) == spec_dec_padded(
                fr as int,
                w as int,
            ));
        }
        fmt_dec_padded_into(&mut s, fr, w);
    }
    proof {
        assert(s@ =~= spec_fmt_fixed(v as int));
    }
    s
}


/// A successfully parsed fixed-point number is bounded by `FX_VAL_MAX` in
/// magnitude.
pub proof fn lemma_parse_fixed_bounded(s: Seq<char>)
    ensures
        spec_parse_fixed(s) is Some ==> -FX_VAL_MAX <= spec_parse_fixed(s)->Some_0
            <= FX_VAL_MAX,
{
    if spec_parse_fixed(s) is Some {
        let body = if s.len() > 0 && (s[0] == '-' || s[0] == '+') {
            s.subrange(1, s.len() as int)
        } else {
            s
        };
        let dot = spec_find(body, '.');
        let ipart = if dot < 0 {
            body
        } else {
            body.subrange(0, dot)
        };
        let fpart = if dot < 0 {
            Seq::<char>::empty()
        } else {
            body.subrange(dot + 1, body.len() as int)
        };
        lemma_digits_val_nonneg(ipart);
        lemma_frac_nonneg(fpart);
        assert(digits_val(ipart) * SCALE >= 0) by (nonlinear_arith)
            requires
                digits_val(ipart) >= 0,
                SCALE == 1000000,
        ;
    }
}

/// Parse decimal text into an unsigned index.
pub open spec fn spec_parse_index(s: Seq<char>) -> Option<usize> {
    if s.len() > 0 && all_digits(s) && digits_val(s) <= PARSE_MAX && digits_val(s)
        <= usize::MAX {
        Some(digits_val(s) as usize)
    } else {
        None
    }
}

pub fn parse_index(s: &str) -> (r: Option<usize>)
    ensures
        r == spec_parse_index(s@),
{
    if s.unicode_len() == 0 {
        return None;
    }
    match parse_digits(s) {
        None => None,
        Some(v) => {
            proof {
                lemma_digits_val_nonneg(s@);
            }
            if v <= usize::MAX as u64 {
                Some(v as usize)
            } else {
                None
            }
        },
    }
}

} // verus!
