//! Character-level text utilities with specifications: conversion between
//! `&str`/`String` and character vectors, decimal formatting and parsing,
//! whitespace trimming, splitting and searching.
use vstd::prelude::*;

verus! {

broadcast use vstd::string::group_string_axioms;

// ---------------------------------------------------------------------------
// Trusted std calls that vstd does not specify.
// ---------------------------------------------------------------------------

/// `c` in ASCII lower case.
pub open spec fn lower_ascii(c: char) -> char {
    if 'A' <= c <= 'Z' {
        ((c as u32) + 32) as char
    } else {
        c
    }
}

/// Calls `String::push`; the contract claims the character is appended.
#[verifier::external_body]
pub fn string_push(s: &mut String, c: char)
    ensures
        final(s)@ == old(s)@.push(c),
{
    s.push(c);
}

/// Calls `<str as PartialEq>::eq`; the contract claims it compares the
/// character sequences (byte equality of UTF-8 is character equality).
#[verifier::external_body]
pub fn str_eq(a: &str, b: &str) -> (r: bool)
    ensures
        r == (a@ == b@),
{
    a == b
}

// ---------------------------------------------------------------------------
// Conversions
// ---------------------------------------------------------------------------

/// The characters of `s`, in order.
pub fn chars_of(s: &str) -> (r: Vec<char>)
    ensures
        r@ == s@,
{
    let mut out: Vec<char> = Vec::new();
    for c in it: s.chars()
        invariant
            it.seq() == s@,
            out@ == it.seq().take(it.index() as int),
    {
        out.push(c);
    }
    proof {
        assert(out@ =~= s@);
    }
    out
}

/// A `String` holding exactly the characters of `v`.
pub fn string_of(v: &[char]) -> (r: String)
    ensures
        r@ == v@,
{
    let mut s = String::new();
    push_chars(&mut s, v);
    s
}

/// Appends the characters of `v` to `s`.
pub fn push_chars(s: &mut String, v: &[char])
    ensures
        final(s)@ == old(s)@ + v@,
{
    let mut i: usize = 0;
    while i < v.len()
        invariant
            i <= v@.len(),
            s@ == old(s)@ + v@.take(i as int),
        decreases v@.len() - i,
    {
        string_push(s, v[i]);
        i = i + 1;
        proof {
            assert(v@.take(i as int) =~= v@.take((i - 1) as int).push(v@[i - 1]));
        }
    }
    proof {
        assert(v@.take(i as int) =~= v@);
    }
}

/// Appends `t` to `s`.
pub fn push_str(s: &mut String, t: &str)
    ensures
        final(s)@ == old(s)@ + t@,
{
    s.append(t);
}

/// A `String` holding the characters of `t`.
pub fn string_from(t: &str) -> (r: String)
    ensures
        r@ == t@,
{
    String::from_str(t)
}


// ---------------------------------------------------------------------------
// Decimal numbers
// ---------------------------------------------------------------------------

/// The ASCII digit for `d` (`0 <= d < 10`).
pub open spec fn digit_char(d: int) -> char {
    (d + 48) as char
}

/// Whether `c` is an ASCII decimal digit.
pub open spec fn is_digit(c: char) -> bool {
    '0' <= c && c <= '9'
}

/// The value of an ASCII digit.
pub open spec fn digit_value(c: char) -> int {
    (c as int) - 48
}

/// Shortest decimal spelling of a natural number.
pub open spec fn dec_nat(n: nat) -> Seq<char>
    decreases n,
{
    if n < 10 {
        seq![digit_char(n as int)]
    } else {
        dec_nat(n / 10).push(digit_char((n % 10) as int))
    }
}

/// Decimal spelling of an integer, with a leading `-` when negative
/// (the spelling Rust's `Display` gives integers).
pub open spec fn dec_int(i: int) -> Seq<char> {
    if i < 0 {
        seq!['-'] + dec_nat((-i) as nat)
    } else {
        dec_nat(i as nat)
    }
}

/// Every character of `s` is a decimal digit.
pub open spec fn all_digits(s: Seq<char>) -> bool {
    forall|i: int| 0 <= i < s.len() ==> #[trigger] is_digit(s[i])
}

/// The value of a (possibly empty) string of decimal digits.
pub open spec fn digits_value(s: Seq<char>) -> int
    decreases s.len(),
{
    if s.len() == 0 {
        0
    } else {
        digits_value(s.drop_last()) * 10 + digit_value(s.last())
    }
}

/// Rust's `str::parse` for integers, before the range check: an optional
/// sign (`-` only where `signed`), then one or more decimal digits.
pub open spec fn parse_int_spec(s: Seq<char>, signed: bool) -> Option<int> {
    if s.len() == 0 {
        None
    } else if s[0] == '-' && signed {
        let r = s.drop_first();
        if r.len() > 0 && all_digits(r) {
            Some(-digits_value(r))
        } else {
            None
        }
    } else if s[0] == '+' {
        let r = s.drop_first();
        if r.len() > 0 && all_digits(r) {
            Some(digits_value(r))
        } else {
            None
        }
    } else if all_digits(s) {
        Some(digits_value(s))
    } else {
        None
    }
}

/// `parse_int_spec` restricted to the range `lo..=hi` of the target type.
pub open spec fn parse_in_range(s: Seq<char>, signed: bool, lo: int, hi: int) -> Option<int> {
    match parse_int_spec(s, signed) {
        Some(v) => if lo <= v <= hi {
            Some(v)
        } else {
            None
        },
        None => None,
    }
}

pub proof fn lemma_digits_value_nonneg(s: Seq<char>)
    requires
        all_digits(s),
    ensures
        digits_value(s) >= 0,
    decreases s.len(),
{
    if s.len() > 0 {
        assert(is_digit(s[s.len() - 1]));
        lemma_digits_value_nonneg(s.drop_last());
    }
}

pub proof fn lemma_dec_nat_digits(n: nat)
    ensures
        all_digits(dec_nat(n)),
        dec_nat(n).len() >= 1,
        digits_value(dec_nat(n)) == n,
        dec_nat(n)[0] != '-' && dec_nat(n)[0] != '+',
    decreases n,
{
    if n < 10 {
        assert(dec_nat(n).drop_last() =~= Seq::<char>::empty());
        assert(digit_value(digit_char(n as int)) == n);
        let s = dec_nat(n);
        assert(digits_value(s) == digits_value(s.drop_last()) * 10 + digit_value(s.last()));
    } else {
        lemma_dec_nat_digits(n / 10);
        let s = dec_nat(n);
        assert(s.drop_last() =~= dec_nat(n / 10));
        assert(digit_value(digit_char((n % 10) as int)) == n % 10);
        assert(n == (n / 10) * 10 + n % 10) by (nonlinear_arith);
        assert(s.last() == digit_char((n % 10) as int));
        assert(digits_value(s) == digits_value(s.drop_last()) * 10 + digit_value(s.last()));
        assert forall|i: int| 0 <= i < s.len() implies #[trigger] is_digit(s[i]) by {
            if i < s.len() - 1 {
                assert(is_digit(dec_nat(n / 10)[i]));
            }
        }
    }
}

/// Parsing the decimal spelling of an integer gives the integer back.
pub proof fn lemma_parse_dec_int(i: int, signed: bool)
    requires
        signed || i >= 0,
    ensures
        parse_int_spec(dec_int(i), signed) == Some(i),
{
    if i < 0 {
        let n = (-i) as nat;
        lemma_dec_nat_digits(n);
        assert(dec_int(i).drop_first() =~= dec_nat(n));
    } else {
        lemma_dec_nat_digits(i as nat);
    }
}

fn digit_of(d: u64) -> (c: char)
    requires
        d < 10,
    ensures
        c == digit_char(d as int),
{
    let b: u8 = (d as u8) + 48;
    b as char
}

/// Appends the decimal spelling of `n`.
pub fn push_u64(s: &mut String, n: u64)
    ensures
        final(s)@ == old(s)@ + dec_nat(n as nat),
    decreases n,
{
    if n < 10 {
        string_push(s, digit_of(n));
        assert(seq![digit_char(n as int)] =~= dec_nat(n as nat));
    } else {
        push_u64(s, n / 10);
        string_push(s, digit_of(n % 10));
        proof {
            assert(dec_nat(n as nat) == dec_nat((n / 10) as nat).push(digit_char((n % 10) as int)));
        }
        assert(s@ =~= old(s)@ + dec_nat(n as nat));
    }
}

/// Appends the decimal spelling of `v` (as Rust's `Display` writes it).
pub fn push_i64(s: &mut String, v: i64)
    ensures
        final(s)@ == old(s)@ + dec_int(v as int),
{
    if v < 0 {
        string_push(s, '-');
        let m: u64 = if v == i64::MIN {
            9223372036854775808u64
        } else {
            (-v) as u64
        };
        push_u64(s, m);
        assert(s@ =~= old(s)@ + dec_int(v as int));
    } else {
        push_u64(s, v as u64);
    }
}

/// The decimal spelling of `v` as a new string.
pub fn fmt_i64(v: i64) -> (r: String)
    ensures
        r@ == dec_int(v as int),
{
    let mut s = String::new();
    push_i64(&mut s, v);
    assert(s@ =~= dec_int(v as int));
    s
}

/// Parses an optionally signed decimal integer of at most 2^64 - 1 in
/// magnitude; `None` when the text is not an integer or is out of `lo..=hi`.
pub fn parse_int_chars(s: &[char], signed: bool, lo: i128, hi: i128) -> (r: Option<i128>)
    requires
        -18446744073709551615 <= lo,
        hi <= 18446744073709551615,
    ensures
        r matches Some(v) ==> parse_in_range(s@, signed, lo as int, hi as int) == Some(v as int),
        r is None ==> parse_in_range(s@, signed, lo as int, hi as int) is None,
{
    if s.len() == 0 {
        return None;
    }
    let mut start: usize = 0;
    let mut negative = false;
    if s[0] == '-' && signed {
        negative = true;
        start = 1;
    } else if s[0] == '+' {
        start = 1;
    }
    if start >= s.len() {
        return None;
    }
    let ghost body = s@.subrange(start as int, s@.len() as int);
    let limit: u128 = 18446744073709551615u128;
    let mut acc: u128 = 0;
    let mut over = false;
    let mut i: usize = start;
    while i < s.len()
        invariant
            start <= i <= s@.len(),
            start == 0 || start == 1,
            limit == 18446744073709551615,
            start == 1 ==> (s@[0] == '+' || (s@[0] == '-' && signed && negative)),
            start == 0 ==> !(s@[0] == '+' || (s@[0] == '-' && signed)),
            negative == (start == 1 && s@[0] == '-' && signed),
            body == s@.subrange(start as int, s@.len() as int),
            all_digits(s@.subrange(start as int, i as int)),
            !over ==> acc == digits_value(s@.subrange(start as int, i as int)),
            !over ==> acc <= limit,
            over ==> digits_value(s@.subrange(start as int, i as int)) > limit,
        decreases s@.len() - i,
    {
        let c = s[i];
        if !('0' <= c && c <= '9') {
            proof {
                assert(body[i - start] == c);
                assert(!is_digit(body[i - start]));
                assert(!all_digits(body));
                if start == 1 {
                    assert(body =~= s@.drop_first());
                } else {
                    assert(body =~= s@);
                }
            }
            return None;
        }
        assert((c as u32) >= 48 && (c as u32) <= 57);
        let ghost pre = s@.subrange(start as int, i as int);
        let ghost post = s@.subrange(start as int, i + 1);
        proof {
            assert(post.drop_last() =~= pre);
            assert(post.last() == c);
            assert forall|k: int| 0 <= k < post.len() implies #[trigger] is_digit(post[k]) by {
                if k < pre.len() {
                    assert(post[k] == pre[k]);
                }
            }
            lemma_digits_value_nonneg(pre);
        }
        let d: u128 = ((c as u32) - 48) as u128;
        if !over {
            if acc > (limit - d) / 10 {
                over = true;
                proof {
                    assert(digits_value(post) == digits_value(pre) * 10 + d);
                    assert((acc as int) * 10 + d > limit) by (nonlinear_arith)
                        requires acc > (limit - d) / 10, d < 10, limit == 18446744073709551615;
                }
            } else {
                proof {
                    assert((acc as int) * 10 + d <= limit) by (nonlinear_arith)
                        requires acc <= (limit - d) / 10, d < 10, limit == 18446744073709551615;
                }
                acc = acc * 10 + d;
            }
        } else {
            proof {
                assert(digits_value(pre) * 10 + d > limit) by (nonlinear_arith)
                    requires digits_value(pre) > limit, d >= 0, limit >= 0;
            }
        }
        i = i + 1;
    }
    proof {
        assert(s@.subrange(start as int, i as int) =~= body);
        if start == 1 {
            assert(body =~= s@.drop_first());
        } else {
            assert(body =~= s@);
        }
    }
    if over {
        return None;
    }
    let v: i128 = if negative { -(acc as i128) } else { acc as i128 };
    if v < lo || v > hi {
        None
    } else {
        Some(v)
    }
}

/// `str::parse::<i32>`.
pub fn parse_i32(s: &[char]) -> (r: Option<i32>)
    ensures
        r matches Some(v) ==> parse_in_range(s@, true, i32::MIN as int, i32::MAX as int) == Some(v as int),
        r is None ==> parse_in_range(s@, true, i32::MIN as int, i32::MAX as int) is None,
{
    match parse_int_chars(s, true, i32::MIN as i128, i32::MAX as i128) {
        Some(v) => Some(v as i32),
        None => None,
    }
}

/// `str::parse::<i64>`.
pub fn parse_i64(s: &[char]) -> (r: Option<i64>)
    ensures
        r matches Some(v) ==> parse_in_range(s@, true, i64::MIN as int, i64::MAX as int) == Some(v as int),
        r is None ==> parse_in_range(s@, true, i64::MIN as int, i64::MAX as int) is None,
{
    match parse_int_chars(s, true, i64::MIN as i128, i64::MAX as i128) {
        Some(v) => Some(v as i64),
        None => None,
    }
}

/// `str::parse::<u16>`.
pub fn parse_u16(s: &[char]) -> (r: Option<u16>)
    ensures
        r matches Some(v) ==> parse_in_range(s@, false, 0, u16::MAX as int) == Some(v as int),
        r is None ==> parse_in_range(s@, false, 0, u16::MAX as int) is None,
{
    match parse_int_chars(s, false, 0, u16::MAX as i128) {
        Some(v) => Some(v as u16),
        None => None,
    }
}

/// `str::parse::<u8>`.
pub fn parse_u8(s: &[char]) -> (r: Option<u8>)
    ensures
        r matches Some(v) ==> parse_in_range(s@, false, 0, u8::MAX as int) == Some(v as int),
        r is None ==> parse_in_range(s@, false, 0, u8::MAX as int) is None,
{
    match parse_int_chars(s, false, 0, u8::MAX as i128) {
        Some(v) => Some(v as u8),
        None => None,
    }
}

/// `str::parse::<u32>`.
pub fn parse_u32(s: &[char]) -> (r: Option<u32>)
    ensures
        r matches Some(v) ==> parse_in_range(s@, false, 0, u32::MAX as int) == Some(v as int),
        r is None ==> parse_in_range(s@, false, 0, u32::MAX as int) is None,
{
    match parse_int_chars(s, false, 0, u32::MAX as i128) {
        Some(v) => Some(v as u32),
        None => None,
    }
}

/// `str::parse::<usize>`.
pub fn parse_usize(s: &[char]) -> (r: Option<usize>)
    ensures
        r matches Some(v) ==> parse_in_range(s@, false, 0, usize::MAX as int) == Some(v as int),
        r is None ==> parse_in_range(s@, false, 0, usize::MAX as int) is None,
{
    match parse_int_chars(s, false, 0, usize::MAX as i128) {
        Some(v) => Some(v as usize),
        None => None,
    }
}

/// Writing an `i64` in decimal and parsing it back gives the value back.
pub proof fn lemma_i64_text_roundtrip(v: i64)
    ensures
        parse_in_range(dec_int(v as int), true, i64::MIN as int, i64::MAX as int) == Some(v as int),
        -2147483648 <= v <= 2147483647 ==> parse_in_range(dec_int(v as int), true, i32::MIN as int, i32::MAX as int) == Some(v as int),
        0 <= v <= 65535 ==> parse_in_range(dec_int(v as int), false, 0, u16::MAX as int) == Some(v as int),
        0 <= v <= 255 ==> parse_in_range(dec_int(v as int), false, 0, u8::MAX as int) == Some(v as int),
{
    lemma_parse_dec_int(v as int, true);
    if v >= 0 {
        lemma_parse_dec_int(v as int, false);
    }
}


// ---------------------------------------------------------------------------
// Whitespace, searching and splitting
// ---------------------------------------------------------------------------

/// `char::is_whitespace`: the Unicode `White_Space` property.
pub open spec fn is_ws(c: char) -> bool {
    ||| ('\u{9}' <= c && c <= '\u{d}')
    ||| c == ' '
    ||| c == '\u{85}'
    ||| c == '\u{a0}'
    ||| c == '\u{1680}'
    ||| ('\u{2000}' <= c && c <= '\u{200a}')
    ||| c == '\u{2028}'
    ||| c == '\u{2029}'
    ||| c == '\u{202f}'
    ||| c == '\u{205f}'
    ||| c == '\u{3000}'
}

pub fn is_ws_exec(c: char) -> (r: bool)
    ensures
        r == is_ws(c),
{
    ('\u{9}' <= c && c <= '\u{d}') || c == ' ' || c == '\u{85}' || c == '\u{a0}' || c
        == '\u{1680}' || ('\u{2000}' <= c && c <= '\u{200a}') || c == '\u{2028}' || c
        == '\u{2029}' || c == '\u{202f}' || c == '\u{205f}' || c == '\u{3000}'
}

/// `str::trim_start`.
pub open spec fn trim_start(s: Seq<char>) -> Seq<char>
    decreases s.len(),
{
    if s.len() > 0 && is_ws(s[0]) {
        trim_start(s.drop_first())
    } else {
        s
    }
}

/// `str::trim_end`.
pub open spec fn trim_end(s: Seq<char>) -> Seq<char>
    decreases s.len(),
{
    if s.len() > 0 && is_ws(s.last()) {
        trim_end(s.drop_last())
    } else {
        s
    }
}

/// `str::trim`.
pub open spec fn trim(s: Seq<char>) -> Seq<char> {
    trim_end(trim_start(s))
}

/// Position of the first `c` in `s`, or `s.len()` when there is none.
pub open spec fn index_of(s: Seq<char>, c: char) -> int
    decreases s.len(),
{
    if s.len() == 0 {
        0
    } else if s[0] == c {
        0
    } else {
        1 + index_of(s.drop_first(), c)
    }
}

pub proof fn lemma_index_of(s: Seq<char>, c: char)
    ensures
        0 <= index_of(s, c) <= s.len(),
        index_of(s, c) < s.len() ==> s[index_of(s, c)] == c,
        forall|k: int| 0 <= k < index_of(s, c) ==> s[k] != c,
    decreases s.len(),
{
    if s.len() > 0 && s[0] != c {
        lemma_index_of(s.drop_first(), c);
        assert forall|k: int| 0 <= k < index_of(s, c) implies s[k] != c by {
            if k > 0 {
                assert(s[k] == s.drop_first()[k - 1]);
            }
        }
    }
}

pub proof fn lemma_index_of_unique(s: Seq<char>, c: char, i: int)
    requires
        0 <= i <= s.len(),
        i < s.len() ==> s[i] == c,
        forall|k: int| 0 <= k < i ==> s[k] != c,
    ensures
        index_of(s, c) == i,
    decreases s.len(),
{
    if s.len() > 0 && s[0] != c {
        assert forall|k: int| 0 <= k < i - 1 implies s.drop_first()[k] != c by {
            assert(s.drop_first()[k] == s[k + 1]);
        }
        lemma_index_of_unique(s.drop_first(), c, i - 1);
    }
}

/// First position of `c` at or after `from`, or `s.len()`.
pub fn find_char_from(s: &[char], c: char, from: usize) -> (r: usize)
    requires
        from <= s@.len(),
    ensures
        r == from + index_of(s@.skip(from as int), c),
        from <= r <= s@.len(),
        r < s@.len() ==> s@[r as int] == c,
        forall|k: int| from <= k < r ==> s@[k] != c,
{
    let mut i = from;
    while i < s.len() && s[i] != c
        invariant
            from <= i <= s@.len(),
            forall|k: int| from <= k < i ==> s@[k] != c,
        decreases s@.len() - i,
    {
        i = i + 1;
    }
    proof {
        let t = s@.skip(from as int);
        assert forall|k: int| 0 <= k < i - from implies t[k] != c by {
            assert(t[k] == s@[k + from]);
        }
        lemma_index_of_unique(t, c, i - from);
    }
    i
}

/// `str::trim_end`.
pub fn trim_end_chars(s: &[char]) -> (r: Vec<char>)
    ensures
        r@ == trim_end(s@),
{
    let mut hi: usize = s.len();
    proof {
        assert(s@.subrange(0, s@.len() as int) =~= s@);
    }
    while hi > 0 && is_ws_exec(s[hi - 1])
        invariant
            hi <= s@.len(),
            trim_end(s@) == trim_end(s@.subrange(0, hi as int)),
        decreases hi,
    {
        proof {
            assert(s@.subrange(0, hi as int).drop_last() =~= s@.subrange(0, hi - 1));
        }
        hi = hi - 1;
    }
    slice_vec(s, 0, hi)
}

/// `str::trim_start`.
pub fn trim_start_chars(s: &[char]) -> (r: Vec<char>)
    ensures
        r@ == trim_start(s@),
{
    let mut lo: usize = 0;
    proof {
        assert(s@.skip(0) =~= s@);
    }
    while lo < s.len() && is_ws_exec(s[lo])
        invariant
            lo <= s@.len(),
            trim_start(s@) == trim_start(s@.skip(lo as int)),
        decreases s@.len() - lo,
    {
        proof {
            assert(s@.skip(lo as int).drop_first() =~= s@.skip(lo + 1));
        }
        lo = lo + 1;
    }
    proof {
        assert(s@.skip(lo as int) =~= s@.subrange(lo as int, s@.len() as int));
    }
    slice_vec(s, lo, s.len())
}

/// Trims whitespace at both ends.
pub fn trim_chars(s: &[char]) -> (r: Vec<char>)
    ensures
        r@ == trim(s@),
{
    let mut lo: usize = 0;
    proof {
        assert(s@.skip(0) =~= s@);
    }
    while lo < s.len() && is_ws_exec(s[lo])
        invariant
            lo <= s@.len(),
            trim_start(s@) == trim_start(s@.skip(lo as int)),
        decreases s@.len() - lo,
    {
        proof {
            assert(s@.skip(lo as int).drop_first() =~= s@.skip(lo + 1));
        }
        lo = lo + 1;
    }
    let mut hi: usize = s.len();
    let ghost mid = s@.skip(lo as int);
    proof {
        assert(trim_start(mid) == mid);
    }
    while hi > lo && is_ws_exec(s[hi - 1])
        invariant
            lo <= hi <= s@.len(),
            mid == s@.skip(lo as int),
            trim_end(mid) == trim_end(s@.subrange(lo as int, hi as int)),
        decreases hi,
    {
        proof {
            assert(s@.subrange(lo as int, hi as int).drop_last() =~= s@.subrange(lo as int, hi - 1));
        }
        hi = hi - 1;
    }
    proof {
        assert(mid =~= s@.subrange(lo as int, s@.len() as int));
    }
    let r = slice_vec(s, lo, hi);
    r
}

/// A copy of `s[lo..hi]`.
pub fn slice_vec(s: &[char], lo: usize, hi: usize) -> (r: Vec<char>)
    requires
        lo <= hi <= s@.len(),
    ensures
        r@ == s@.subrange(lo as int, hi as int),
{
    let mut out: Vec<char> = Vec::new();
    let mut i = lo;
    while i < hi
        invariant
            lo <= i <= hi,
            hi <= s@.len(),
            out@ == s@.subrange(lo as int, i as int),
        decreases hi - i,
    {
        out.push(s[i]);
        i = i + 1;
        proof {
            assert(out@ =~= s@.subrange(lo as int, i as int));
        }
    }
    out
}

/// Whether `p` is a prefix of `s`.
pub fn starts_with(s: &[char], p: &str) -> (r: bool)
    ensures
        r == p@.is_prefix_of(s@),
{
    let pv = chars_of(p);
    if pv.len() > s.len() {
        return false;
    }
    let mut i: usize = 0;
    while i < pv.len()
        invariant
            i <= pv@.len() <= s@.len(),
            pv@ == p@,
            forall|k: int| 0 <= k < i ==> s@[k] == pv@[k],
        decreases pv@.len() - i,
    {
        if s[i] != pv[i] {
            return false;
        }
        i = i + 1;
    }
    proof {
        assert(s@.take(pv@.len() as int) =~= pv@);
    }
    true
}

/// Whether `s` and `t` are the same character sequence.
pub fn chars_eq(s: &[char], t: &str) -> (r: bool)
    ensures
        r == (s@ == t@),
{
    let tv = chars_of(t);
    if tv.len() != s.len() {
        return false;
    }
    let b = starts_with(s, t);
    proof {
        if b {
            assert(s@ =~= t@);
        }
    }
    b
}

/// `str::strip_prefix`.
pub fn strip_prefix(s: &[char], p: &str) -> (r: Option<Vec<char>>)
    ensures
        r is Some == p@.is_prefix_of(s@),
        r matches Some(v) ==> v@ == s@.skip(p@.len() as int),
{
    if starts_with(s, p) {
        let n = chars_of(p).len();
        Some(slice_vec(s, n, s.len()))
    } else {
        None
    }
}

/// `str::strip_suffix`.
pub fn strip_suffix_chars(s: &[char], p: &str) -> (r: Option<Vec<char>>)
    ensures
        r is Some <==> (p@.len() <= s@.len() && s@.skip(s@.len() - p@.len()) == p@),
        r matches Some(v) ==> v@ == s@.take(s@.len() - p@.len()),
{
    let pv = chars_of(p);
    if pv.len() > s.len() {
        return None;
    }
    let n = s.len();
    let base = n - pv.len();
    let mut k: usize = 0;
    while k < pv.len()
        invariant
            n == s@.len(),
            k <= pv@.len(),
            pv@ == p@,
            base + pv@.len() == s@.len(),
            forall|j: int| 0 <= j < k ==> s@[base + j] == pv@[j],
        decreases pv@.len() - k,
    {
        if s[base + k] != pv[k] {
            proof {
                assert(s@.skip(base as int)[k as int] != p@[k as int]);
            }
            return None;
        }
        k = k + 1;
    }
    proof {
        assert(s@.skip(base as int) =~= p@);
        assert(s@.subrange(0, base as int) =~= s@.take(base as int));
    }
    Some(slice_vec(s, 0, base))
}

/// `str::split_once(c)`: the parts before and after the first `c`.
pub fn split_once(s: &[char], c: char) -> (r: Option<(Vec<char>, Vec<char>)>)
    ensures
        r is Some == (index_of(s@, c) < s@.len()),
        r matches Some((a, b)) ==> a@ == s@.take(index_of(s@, c)) && b@ == s@.skip(
            index_of(s@, c) + 1,
        ),
{
    let k = find_char_from(s, c, 0);
    proof {
        assert(s@.skip(0) =~= s@);
    }
    if k < s.len() {
        let a = slice_vec(s, 0, k);
        let b = slice_vec(s, k + 1, s.len());
        proof {
            assert(a@ =~= s@.take(k as int));
            assert(b@ =~= s@.skip(k + 1));
        }
        Some((a, b))
    } else {
        None
    }
}

/// The text of one line of `str::lines`: a trailing `\r` is dropped only
/// when the line ended with `\n`.
pub open spec fn line_text(l: Seq<char>) -> Seq<char> {
    if l.len() > 0 && l.last() == '\r' {
        l.drop_last()
    } else {
        l
    }
}

/// `str::lines`.
pub open spec fn lines_spec(s: Seq<char>) -> Seq<Seq<char>>
    decreases s.len(),
{
    if s.len() == 0 {
        seq![]
    } else {
        let k = index_of(s, '\n');
        if k < s.len() {
            proof {
                lemma_index_of(s, '\n');
            }
            seq![line_text(s.take(k))] + lines_spec(s.skip(k + 1))
        } else {
            seq![s]
        }
    }
}

/// The lines of `s`, as `str::lines` yields them.
pub fn lines(s: &[char]) -> (r: Vec<Vec<char>>)
    ensures
        r.deep_view() == lines_spec(s@),
{
    let mut out: Vec<Vec<char>> = Vec::new();
    let mut pos: usize = 0;
    proof {
        assert(s@.skip(0) =~= s@);
    }
    while pos < s.len()
        invariant
            pos <= s@.len(),
            lines_spec(s@) == out.deep_view() + lines_spec(s@.skip(pos as int)),
        decreases s@.len() - pos,
    {
        let k = find_char_from(s, '\n', pos);
        let ghost rest = s@.skip(pos as int);
        proof {
            lemma_index_of(rest, '\n');
        }
        let ghost old_out = out.deep_view();
        if k < s.len() {
            let mut line = slice_vec(s, pos, k);
            if line.len() > 0 && line[line.len() - 1] == '\r' {
                line.pop();
            }
            let ghost old_pos = pos;
            proof {
                assert(rest.take(k - pos) =~= s@.subrange(pos as int, k as int));
                assert(rest.skip(k - pos + 1) =~= s@.skip(k + 1));
                assert(line@ =~= line_text(rest.take(k - pos)));
                assert(lines_spec(rest) == seq![line_text(rest.take(k - pos))] + lines_spec(rest.skip(k - pos + 1)));
            }
            proof {
                assert(line.deep_view() =~= line@);
            }
            out.push(line);
            pos = k + 1;
            proof {
                assert(out.deep_view() =~= old_out.push(line_text(rest.take(k - old_pos))));
                assert(lines_spec(s@) =~= out.deep_view() + lines_spec(s@.skip(pos as int)));
            }
        } else {
            let line = slice_vec(s, pos, s.len());
            proof {
                assert(line@ =~= rest);
                assert(lines_spec(rest) == seq![rest]);
            }
            proof {
                assert(line.deep_view() =~= line@);
            }
            out.push(line);
            pos = s.len();
            proof {
                assert(out.deep_view() =~= old_out.push(rest));
                assert(s@.skip(pos as int) =~= Seq::<char>::empty());
            }
        }
    }
    proof {
        assert(s@.skip(pos as int) =~= Seq::<char>::empty());
        assert(out.deep_view() + Seq::<Seq<char>>::empty() =~= out.deep_view());
    }
    out
}

// ---------------------------------------------------------------------------
// Substrings, replacing and whitespace splitting
// ---------------------------------------------------------------------------

/// Position of the first occurrence of `p` in `s`, or `s.len()` when there
/// is none.
pub open spec fn find_sub(s: Seq<char>, p: Seq<char>) -> int
    decreases s.len(),
{
    if p.is_prefix_of(s) {
        0
    } else if s.len() == 0 {
        0
    } else {
        1 + find_sub(s.drop_first(), p)
    }
}

/// Whether `p` occurs in `s` at `i`.
pub fn matches_at(s: &[char], i: usize, p: &[char]) -> (r: bool)
    requires
        i <= s@.len(),
    ensures
        r == p@.is_prefix_of(s@.skip(i as int)),
{
    if p.len() > s.len() - i {
        return false;
    }
    let mut k: usize = 0;
    while k < p.len()
        invariant
            k <= p@.len(),
            i <= s@.len(),
            s@.len() <= usize::MAX,
            i + p@.len() <= s@.len(),
            forall|j: int| 0 <= j < k ==> s@[i + j] == p@[j],
        decreases p@.len() - k,
    {
        if s[i + k] != p[k] {
            assert(s@.skip(i as int)[k as int] != p@[k as int]);
            return false;
        }
        k = k + 1;
    }
    assert(s@.skip(i as int).take(p@.len() as int) =~= p@);
    true
}

pub proof fn lemma_find_sub_bound(s: Seq<char>, p: Seq<char>)
    ensures
        0 <= find_sub(s, p) <= s.len(),
    decreases s.len(),
{
    if !p.is_prefix_of(s) && s.len() > 0 {
        lemma_find_sub_bound(s.drop_first(), p);
    }
}

/// `str::split_once` with a pattern: the parts before and after the first
/// occurrence of `p`.
pub fn split_once_str(s: &[char], p: &[char]) -> (r: Option<(Vec<char>, Vec<char>)>)
    requires
        p@.len() > 0,
    ensures
        r is Some == p@.is_prefix_of(s@.skip(find_sub(s@, p@))),
        r matches Some((a, b)) ==> a@ == s@.take(find_sub(s@, p@)) && b@ == s@.skip(
            find_sub(s@, p@) + p@.len(),
        ),
{
    let mut i: usize = 0;
    proof {
        assert(s@.skip(0) =~= s@);
    }
    while i < s.len() && !matches_at(s, i, p)
        invariant
            i <= s@.len(),
            find_sub(s@, p@) == i + find_sub(s@.skip(i as int), p@),
        decreases s@.len() - i,
    {
        proof {
            assert(s@.skip(i as int).drop_first() =~= s@.skip(i + 1));
        }
        i = i + 1;
    }
    proof {
        if i == s.len() {
            assert(s@.skip(i as int) =~= Seq::<char>::empty());
        }
    }
    if i < s.len() || matches_at(s, i, p) {
        proof {
            assert(find_sub(s@, p@) == i);
        }
        let a = slice_vec(s, 0, i);
        let b = slice_vec(s, i + p.len(), s.len());
        proof {
            assert(a@ =~= s@.take(i as int));
            assert(b@ =~= s@.skip(i + p@.len()));
        }
        Some((a, b))
    } else {
        None
    }
}

/// `str::replace` with a non-empty pattern: occurrences are found from the
/// left and do not overlap.
pub open spec fn replace_spec(s: Seq<char>, pat: Seq<char>, rep: Seq<char>) -> Seq<char>
    decreases s.len(),
{
    if s.len() == 0 || pat.len() == 0 {
        s
    } else if pat.is_prefix_of(s) {
        rep + replace_spec(s.skip(pat.len() as int), pat, rep)
    } else {
        seq![s[0]] + replace_spec(s.drop_first(), pat, rep)
    }
}

/// Replaces every occurrence of `pat` by `rep`.
pub fn replace_chars(s: &[char], pat: &[char], rep: &[char]) -> (r: Vec<char>)
    requires
        pat@.len() > 0,
    ensures
        r@ == replace_spec(s@, pat@, rep@),
{
    let mut out: Vec<char> = Vec::new();
    let mut i: usize = 0;
    proof {
        assert(s@.skip(0) =~= s@);
    }
    while i < s.len()
        invariant
            i <= s@.len(),
            pat@.len() > 0,
            replace_spec(s@, pat@, rep@) == out@ + replace_spec(s@.skip(i as int), pat@, rep@),
        decreases s@.len() - i,
    {
        let ghost rest = s@.skip(i as int);
        if matches_at(s, i, pat) {
            let mut k: usize = 0;
            let ghost o0 = out@;
            while k < rep.len()
                invariant
                    k <= rep@.len(),
                    out@ == o0 + rep@.take(k as int),
                decreases rep@.len() - k,
            {
                out.push(rep[k]);
                k = k + 1;
                proof {
                    assert(rep@.take(k as int) =~= rep@.take(k - 1).push(rep@[k - 1]));
                }
            }
            proof {
                assert(rep@.take(k as int) =~= rep@);
                assert(rest.skip(pat@.len() as int) =~= s@.skip(i + pat@.len()));
                assert(out@ + replace_spec(s@.skip(i + pat@.len()), pat@, rep@) =~= o0 + (rep@
                    + replace_spec(rest.skip(pat@.len() as int), pat@, rep@)));
            }
            i = i + pat.len();
        } else {
            let ghost o0 = out@;
            out.push(s[i]);
            proof {
                assert(rest.drop_first() =~= s@.skip(i + 1));
                assert(out@ + replace_spec(s@.skip(i + 1), pat@, rep@) =~= o0 + (seq![rest[0]]
                    + replace_spec(rest.drop_first(), pat@, rep@)));
            }
            i = i + 1;
        }
    }
    proof {
        assert(s@.skip(i as int) =~= Seq::<char>::empty());
        assert(out@ + Seq::<char>::empty() =~= out@);
    }
    out
}

/// The words of `cur` followed by `s`, as `str::split_whitespace` yields
/// them: runs of non-whitespace characters.
pub open spec fn split_ws_acc(s: Seq<char>, cur: Seq<char>) -> Seq<Seq<char>>
    decreases s.len(),
{
    let done: Seq<Seq<char>> = if cur.len() > 0 {
        seq![cur]
    } else {
        seq![]
    };
    if s.len() == 0 {
        done
    } else if is_ws(s[0]) {
        done + split_ws_acc(s.drop_first(), seq![])
    } else {
        split_ws_acc(s.drop_first(), cur.push(s[0]))
    }
}

/// `str::split_whitespace`.
pub open spec fn split_ws(s: Seq<char>) -> Seq<Seq<char>> {
    split_ws_acc(s, seq![])
}

/// The whitespace-separated words of `s`.
pub fn split_whitespace(s: &[char]) -> (r: Vec<Vec<char>>)
    ensures
        r.deep_view() == split_ws(s@),
{
    let mut out: Vec<Vec<char>> = Vec::new();
    let mut cur: Vec<char> = Vec::new();
    let mut i: usize = 0;
    proof {
        assert(s@.skip(0) =~= s@);
        assert(out.deep_view() =~= Seq::<Seq<char>>::empty());
    }
    while i < s.len()
        invariant
            i <= s@.len(),
            split_ws(s@) == out.deep_view() + split_ws_acc(s@.skip(i as int), cur@),
        decreases s@.len() - i,
    {
        let c = s[i];
        let ghost rest = s@.skip(i as int);
        proof {
            assert(rest.drop_first() =~= s@.skip(i + 1));
            assert(rest[0] == c);
        }
        if is_ws_exec(c) {
            if cur.len() > 0 {
                let ghost o0 = out.deep_view();
                let ghost cw = cur@;
                let w = cur;
                proof {
                    assert(w.deep_view() =~= w@);
                }
                out.push(w);
                cur = Vec::new();
                proof {
                    assert(out.deep_view() =~= o0.push(cw));
                    assert(split_ws(s@) =~= out.deep_view() + split_ws_acc(s@.skip(i + 1), cur@));
                }
            } else {
                proof {
                    assert(split_ws_acc(rest, cur@) == Seq::<Seq<char>>::empty() + split_ws_acc(
                        rest.drop_first(),
                        seq![],
                    ));
                    assert(cur@ =~= Seq::<char>::empty());
                    assert(Seq::<Seq<char>>::empty() + split_ws_acc(rest.drop_first(), seq![])
                        =~= split_ws_acc(rest.drop_first(), seq![]));
                }
            }
        } else {
            cur.push(c);
        }
        i = i + 1;
    }
    proof {
        assert(s@.skip(i as int) =~= Seq::<char>::empty());
    }
    if cur.len() > 0 {
        let ghost o0 = out.deep_view();
        let ghost cw = cur@;
        proof {
            assert(cur.deep_view() =~= cur@);
        }
        out.push(cur);
        proof {
            assert(out.deep_view() =~= o0.push(cw));
            assert(split_ws(s@) =~= out.deep_view());
        }
    } else {
        proof {
            assert(split_ws(s@) =~= out.deep_view());
        }
    }
    out
}


/// The bytes of a character in UTF-8.
pub open spec fn utf8_char_len(c: char) -> nat {
    if (c as u32) < 0x80 {
        1
    } else if (c as u32) < 0x800 {
        2
    } else if (c as u32) < 0x10000 {
        3
    } else {
        4
    }
}

/// The bytes of a character sequence in UTF-8.
pub open spec fn utf8_len_spec(s: Seq<char>) -> nat
    decreases s.len(),
{
    if s.len() == 0 {
        0
    } else {
        utf8_len_spec(s.drop_last()) + utf8_char_len(s.last())
    }
}

/// The length of `s` in UTF-8 bytes (what `str::len` gives), saturating
/// at the largest `usize`.
pub fn utf8_len(s: &str) -> (r: usize)
    ensures
        utf8_len_spec(s@) <= usize::MAX ==> r == utf8_len_spec(s@),
{
    let cs = chars_of(s);
    let mut n: usize = 0;
    let mut i: usize = 0;
    while i < cs.len()
        invariant
            i <= cs@.len(),
            cs@ == s@,
            utf8_len_spec(cs@.take(i as int)) <= usize::MAX ==> n == utf8_len_spec(cs@.take(i as int)),
            utf8_len_spec(cs@.take(i as int)) > usize::MAX ==> n == usize::MAX,
        decreases cs@.len() - i,
    {
        let c = cs[i] as u32;
        let w: usize = if c < 0x80 {
            1
        } else if c < 0x800 {
            2
        } else if c < 0x10000 {
            3
        } else {
            4
        };
        proof {
            assert(cs@.take(i + 1).drop_last() =~= cs@.take(i as int));
            assert(w == utf8_char_len(cs@[i as int]));
        }
        n = n.saturating_add(w);
        i = i + 1;
    }
    proof {
        assert(cs@.take(cs@.len() as int) =~= cs@);
    }
    n
}

/// Whether `p` occurs in `s`.
pub fn contains_sub_str(s: &str, p: &str) -> (r: bool)
    ensures
        r == exists|i: int| 0 <= i <= s@.len() && p@.is_prefix_of(#[trigger] s@.skip(i)),
{
    let sc = chars_of(s);
    let pc = chars_of(p);
    let mut i: usize = 0;
    while i < sc.len()
        invariant
            i <= sc@.len(),
            sc@ == s@,
            pc@ == p@,
            forall|k: int| 0 <= k < i ==> !p@.is_prefix_of(#[trigger] s@.skip(k)),
        decreases sc@.len() - i,
    {
        if matches_at(&sc, i, &pc) {
            return true;
        }
        i = i + 1;
    }
    matches_at(&sc, sc.len(), &pc)
}

// ---------------------------------------------------------------------------
// Joining and filtering
// ---------------------------------------------------------------------------

/// `parts` joined with `sep` between neighbours.
pub open spec fn join_sep(parts: Seq<Seq<char>>, sep: Seq<char>) -> Seq<char>
    decreases parts.len(),
{
    if parts.len() == 0 {
        seq![]
    } else if parts.len() == 1 {
        parts[0]
    } else {
        join_sep(parts.drop_last(), sep) + sep + parts.last()
    }
}

/// The character sequences of some strings.
pub open spec fn views(v: Seq<String>) -> Seq<Seq<char>> {
    v.map_values(|p: String| p@)
}

/// The strings of `parts` joined with `sep` (`[..].join(sep)`).
pub fn join_strings(parts: &Vec<String>, sep: &str) -> (r: String)
    ensures
        r@ == join_sep(views(parts@), sep@),
{
    let mut out = String::new();
    let mut i: usize = 0;
    while i < parts.len()
        invariant
            i <= parts@.len(),
            out@ == join_sep(views(parts@).take(i as int), sep@),
        decreases parts@.len() - i,
    {
        proof {
            let t = views(parts@).take(i + 1);
            assert(t.drop_last() =~= views(parts@).take(i as int));
            assert(t.last() == parts@[i as int]@);
            if i == 0 {
                assert(t.len() == 1);
            }
        }
        if i > 0 {
            push_str(&mut out, sep);
        }
        push_str(&mut out, parts[i].as_str());
        i = i + 1;
    }
    proof {
        assert(views(parts@).take(i as int) =~= views(parts@));
    }
    out
}

/// `s` without its underscores.
pub open spec fn without_underscores(s: Seq<char>) -> Seq<char>
    decreases s.len(),
{
    if s.len() == 0 {
        seq![]
    } else if s.last() == '_' {
        without_underscores(s.drop_last())
    } else {
        without_underscores(s.drop_last()).push(s.last())
    }
}

/// `s` without its underscores (`s.replace('_', "")`).
pub fn remove_underscores(s: &[char]) -> (r: Vec<char>)
    ensures
        r@ == without_underscores(s@),
{
    let mut out: Vec<char> = Vec::new();
    let mut i: usize = 0;
    while i < s.len()
        invariant
            i <= s@.len(),
            out@ == without_underscores(s@.take(i as int)),
        decreases s@.len() - i,
    {
        proof {
            assert(s@.take(i + 1).drop_last() =~= s@.take(i as int));
        }
        if s[i] != '_' {
            out.push(s[i]);
        }
        i = i + 1;
    }
    proof {
        assert(s@.take(i as int) =~= s@);
    }
    out
}

/// The decimal spelling of `n`, padded with leading zeros to five
/// characters (`{:05}`).
pub open spec fn pad5(n: nat) -> Seq<char> {
    let d = dec_nat(n);
    if d.len() < 5 {
        Seq::new((5 - d.len()) as nat, |_i: int| '0') + d
    } else {
        d
    }
}

/// Appends `n` as `{:05}` writes it.
pub fn push_pad5(s: &mut String, n: u64)
    ensures
        final(s)@ == old(s)@ + pad5(n as nat),
{
    let mut d = String::new();
    push_u64(&mut d, n);
    let dc = chars_of(d.as_str());
    if dc.len() < 5 {
        let k: usize = 5 - dc.len();
        let mut j: usize = 0;
        while j < k
            invariant
                j <= k,
                k == 5 - dc@.len(),
                s@ == old(s)@ + Seq::new(j as nat, |_i: int| '0'),
            decreases k - j,
        {
            string_push(s, '0');
            j = j + 1;
            proof {
                assert(s@ =~= old(s)@ + Seq::new(j as nat, |_i: int| '0'));
            }
        }
    }
    push_chars(s, &dc);
    proof {
        assert(s@ =~= old(s)@ + pad5(n as nat));
    }
}

// ---------------------------------------------------------------------------
// Order
// ---------------------------------------------------------------------------

/// Lexicographic order of character sequences.
pub open spec fn seq_lt(a: Seq<char>, b: Seq<char>) -> bool
    decreases a.len(),
{
    if a.len() == 0 {
        b.len() > 0
    } else if b.len() == 0 {
        false
    } else if a[0] != b[0] {
        (a[0] as int) < (b[0] as int)
    } else {
        seq_lt(a.drop_first(), b.drop_first())
    }
}

/// Whether `a` sorts before `b`.
pub fn chars_lt(a: &[char], b: &[char]) -> (r: bool)
    ensures
        r == seq_lt(a@, b@),
{
    let mut i: usize = 0;
    proof {
        assert(a@.skip(0) =~= a@);
        assert(b@.skip(0) =~= b@);
    }
    while i < a.len() && i < b.len()
        invariant
            i <= a@.len(),
            i <= b@.len(),
            seq_lt(a@, b@) == seq_lt(a@.skip(i as int), b@.skip(i as int)),
        decreases a@.len() - i,
    {
        if a[i] != b[i] {
            proof {
                assert(a@.skip(i as int)[0] == a@[i as int]);
                assert(b@.skip(i as int)[0] == b@[i as int]);
            }
            return a[i] < b[i];
        }
        proof {
            assert(a@.skip(i as int).drop_first() =~= a@.skip(i + 1));
            assert(b@.skip(i as int).drop_first() =~= b@.skip(i + 1));
        }
        i = i + 1;
    }
    proof {
        if i == a@.len() {
            assert(a@.skip(i as int).len() == 0);
        } else {
            assert(b@.skip(i as int).len() == 0);
        }
    }
    i == a.len() && i < b.len()
}

/// `seq_lt` never holds of a sequence and itself.
pub proof fn lemma_seq_lt_irreflexive(a: Seq<char>)
    ensures
        !seq_lt(a, a),
    decreases a.len(),
{
    if a.len() > 0 {
        lemma_seq_lt_irreflexive(a.drop_first());
    }
}

/// `seq_lt` is transitive.
pub proof fn lemma_seq_lt_transitive(a: Seq<char>, b: Seq<char>, c: Seq<char>)
    requires
        seq_lt(a, b),
        seq_lt(b, c),
    ensures
        seq_lt(a, c),
    decreases a.len(),
{
    if a.len() > 0 && b.len() > 0 && c.len() > 0 && a[0] == b[0] && b[0] == c[0] {
        lemma_seq_lt_transitive(a.drop_first(), b.drop_first(), c.drop_first());
    }
}

/// Of two different sequences one sorts before the other, and not both.
pub proof fn lemma_seq_lt_total(a: Seq<char>, b: Seq<char>)
    ensures
        a != b ==> (seq_lt(a, b) || seq_lt(b, a)),
        !(seq_lt(a, b) && seq_lt(b, a)),
    decreases a.len(),
{
    if a.len() > 0 && b.len() > 0 && a[0] == b[0] {
        lemma_seq_lt_total(a.drop_first(), b.drop_first());
        if a.drop_first() == b.drop_first() {
            assert forall|i: int| 0 <= i < a.len() implies a[i] == b[i] by {
                if i > 0 {
                    assert(a[i] == a.drop_first()[i - 1]);
                    assert(b[i] == b.drop_first()[i - 1]);
                }
            }
            assert(a =~= b);
        }
    } else if a.len() == 0 && b.len() == 0 {
        assert(a =~= b);
    }
}

} // verus!
