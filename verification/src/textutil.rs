//! Character-sequence utilities shared by the parsing and writing stages:
//! whitespace tests, substring search, integer parsing and decimal rendering.

use vstd::prelude::*;

verus! {

/// The characters Rust's `char::is_whitespace` recognises (the Unicode
/// `White_Space` property); blank detection follows it.
pub open spec fn is_space_char(c: char) -> bool {
    c == ' ' || c == '\t' || c == '\n' || c == '\r' || c == '\u{0B}' || c == '\u{0C}'
        || c == '\u{85}' || c == '\u{A0}' || c == '\u{1680}' || c == '\u{2000}' || c == '\u{2001}'
        || c == '\u{2002}' || c == '\u{2003}' || c == '\u{2004}' || c == '\u{2005}'
        || c == '\u{2006}' || c == '\u{2007}' || c == '\u{2008}' || c == '\u{2009}'
        || c == '\u{200A}' || c == '\u{2028}' || c == '\u{2029}' || c == '\u{202F}'
        || c == '\u{205F}' || c == '\u{3000}'
}

/// A sequence is blank when every character is whitespace; trimming it
/// would leave nothing.
pub open spec fn is_blank(s: Seq<char>) -> bool {
    forall|i: int| 0 <= i < s.len() ==> is_space_char(s[i])
}

/// Literal line breaks removed, all other characters kept in order.
pub open spec fn strip_breaks(s: Seq<char>) -> Seq<char>
    decreases s.len(),
{
    if s.len() == 0 {
        Seq::empty()
    } else if s[0] == '\r' || s[0] == '\n' {
        strip_breaks(s.drop_first())
    } else {
        seq![s[0]] + strip_breaks(s.drop_first())
    }
}

/// The needle occurs in the haystack starting at `i`.
pub open spec fn matches_at(h: Seq<char>, n: Seq<char>, i: int) -> bool {
    0 <= i && i + n.len() <= h.len() && h.subrange(i, i + n.len() as int) == n
}

/// Position of the first occurrence of `n` in `h` at or after `from`.
pub open spec fn find_sub_from(h: Seq<char>, n: Seq<char>, from: int) -> Option<int>
    decreases h.len() - from + 1,
{
    if from < 0 || from + n.len() > h.len() {
        None
    } else if matches_at(h, n, from) {
        Some(from)
    } else {
        find_sub_from(h, n, from + 1)
    }
}

pub open spec fn contains_sub(h: Seq<char>, n: Seq<char>) -> bool {
    find_sub_from(h, n, 0) is Some
}

/// Position of the last occurrence of `n` in `h` at or before `from`.
pub open spec fn rfind_sub_from(h: Seq<char>, n: Seq<char>, from: int) -> Option<int>
    decreases from + 1,
{
    if from < 0 {
        None
    } else if from + n.len() <= h.len() && matches_at(h, n, from) {
        Some(from)
    } else {
        rfind_sub_from(h, n, from - 1)
    }
}

/// Position of the last occurrence of `n` in `h`, as `str::rfind` gives it.
pub open spec fn rfind_sub(h: Seq<char>, n: Seq<char>) -> Option<int> {
    rfind_sub_from(h, n, h.len() - n.len())
}

pub open spec fn starts_with(h: Seq<char>, n: Seq<char>) -> bool {
    n.len() <= h.len() && h.subrange(0, n.len() as int) == n
}

// ---------------------------------------------------------------------------
// Trusted bridges between `String`/`&str` and `Vec<char>`.
// ---------------------------------------------------------------------------

/// Relies on str::chars: it yields exactly the characters of the string.
#[verifier::external_body]
pub fn str_chars(s: &str) -> (r: Vec<char>)
    ensures
        r@ == s@,
{
    s.chars().collect()
}

/// Relies on String's FromIterator impl: collecting characters builds the
/// string of exactly those characters.
#[verifier::external_body]
pub fn chars_string(v: &Vec<char>) -> (r: String)
    ensures
        r@ == v@,
{
    v.iter().collect()
}

/// Relies on str's PartialEq impl: two slices are equal exactly when their
/// character sequences are.
#[verifier::external_body]
pub fn str_eq(a: &str, b: &str) -> (r: bool)
    ensures
        r == (a@ == b@),
{
    a == b
}

// ---------------------------------------------------------------------------
// Executable counterparts.
// ---------------------------------------------------------------------------

pub fn is_space(c: char) -> (r: bool)
    ensures
        r == is_space_char(c),
{
    c == ' ' || c == '\t' || c == '\n' || c == '\r' || c == '\u{0B}' || c == '\u{0C}'
        || c == '\u{85}' || c == '\u{A0}' || c == '\u{1680}' || c == '\u{2000}' || c == '\u{2001}'
        || c == '\u{2002}' || c == '\u{2003}' || c == '\u{2004}' || c == '\u{2005}'
        || c == '\u{2006}' || c == '\u{2007}' || c == '\u{2008}' || c == '\u{2009}'
        || c == '\u{200A}' || c == '\u{2028}' || c == '\u{2029}' || c == '\u{202F}'
        || c == '\u{205F}' || c == '\u{3000}'
}

pub fn blank(v: &Vec<char>) -> (r: bool)
    ensures
        r == is_blank(v@),
{
    let mut i: usize = 0;
    while i < v.len()
        invariant
            0 <= i <= v@.len(),
            forall|j: int| 0 <= j < i ==> is_space_char(v@[j]),
        decreases v@.len() - i,
    {
        if !is_space(v[i]) {
            return false;
        }
        i += 1;
    }
    true
}

pub fn remove_breaks(v: &Vec<char>) -> (r: Vec<char>)
    ensures
        r@ == strip_breaks(v@),
{
    let mut out: Vec<char> = Vec::new();
    let mut i: usize = 0;
    proof {
        assert(v@.skip(0) == v@);
    }
    while i < v.len()
        invariant
            0 <= i <= v@.len(),
            strip_breaks(v@) == out@ + strip_breaks(v@.skip(i as int)),
        decreases v@.len() - i,
    {
        let c = v[i];
        proof {
            assert(v@.skip(i as int).drop_first() == v@.skip(i + 1));
            assert(v@.skip(i as int)[0] == v@[i as int]);
        }
        if c != '\r' && c != '\n' {
            out.push(c);
        }
        i += 1;
    }
    proof {
        assert(v@.skip(v@.len() as int) =~= Seq::<char>::empty());
        assert(strip_breaks(v@) =~= out@);
    }
    out
}

/// Whether the needle occurs at position `at`.
fn matches_here(h: &Vec<char>, n: &Vec<char>, at: usize) -> (r: bool)
    requires
        at + n@.len() <= h@.len(),
    ensures
        r == matches_at(h@, n@, at as int),
{
    let hl = h.len();
    let mut j: usize = 0;
    while j < n.len()
        invariant
            0 <= j <= n@.len(),
            at + n@.len() <= h@.len(),
            hl == h@.len(),
            forall|k: int| 0 <= k < j ==> h@[at + k] == n@[k],
        decreases n@.len() - j,
    {
        if h[at + j] != n[j] {
            proof {
                assert(h@.subrange(at as int, at + n@.len() as int)[j as int] == h@[at + j]);
            }
            return false;
        }
        j += 1;
    }
    proof {
        assert(h@.subrange(at as int, at + n@.len() as int) =~= n@);
    }
    true
}

pub fn find_sub(h: &Vec<char>, n: &Vec<char>) -> (r: Option<usize>)
    ensures
        r matches Some(i) ==> find_sub_from(h@, n@, 0) == Some(i as int),
        r is None ==> find_sub_from(h@, n@, 0) is None,
{
    if n.len() > h.len() {
        return None;
    }
    let last = h.len() - n.len();
    let mut i: usize = 0;
    loop
        invariant
            0 <= i <= last,
            last == h@.len() - n@.len(),
            n@.len() <= h@.len(),
            find_sub_from(h@, n@, 0) == find_sub_from(h@, n@, i as int),
        ensures
            find_sub_from(h@, n@, 0) is None,
        decreases last - i,
    {
        if matches_here(h, n, i) {
            return Some(i);
        }
        if i == last {
            break;
        }
        i += 1;
    }
    None
}

pub fn contains(h: &Vec<char>, n: &Vec<char>) -> (r: bool)
    ensures
        r == contains_sub(h@, n@),
{
    match find_sub(h, n) {
        Some(_) => true,
        None => false,
    }
}

pub fn rfind(h: &Vec<char>, n: &Vec<char>) -> (r: Option<usize>)
    ensures
        r matches Some(i) ==> rfind_sub(h@, n@) == Some(i as int) && i + n@.len() <= h@.len(),
        r is None ==> rfind_sub(h@, n@) is None,
{
    if n.len() > h.len() {
        return None;
    }
    let mut i: usize = h.len() - n.len();
    loop
        invariant
            n@.len() <= h@.len(),
            0 <= i,
            i + n@.len() <= h@.len(),
            rfind_sub(h@, n@) == rfind_sub_from(h@, n@, i as int),
        ensures
            rfind_sub(h@, n@) is None,
        decreases i,
    {
        if matches_here(h, n, i) {
            return Some(i);
        }
        if i == 0 {
            proof {
                assert(rfind_sub_from(h@, n@, 0int) == rfind_sub_from(h@, n@, -1int));
            }
            break;
        }
        i -= 1;
    }
    None
}

pub fn has_prefix(h: &Vec<char>, n: &Vec<char>) -> (r: bool)
    ensures
        r == starts_with(h@, n@),
{
    if n.len() > h.len() {
        return false;
    }
    matches_here(h, n, 0)
}

// ---------------------------------------------------------------------------
// Integer parsing, following str::parse for u32 and i32.
// ---------------------------------------------------------------------------

pub open spec fn is_digit(c: char) -> bool {
    c == '0' || c == '1' || c == '2' || c == '3' || c == '4' || c == '5' || c == '6' || c == '7'
        || c == '8' || c == '9'
}

pub open spec fn digit_of(c: char) -> int {
    if c == '0' {
        0
    } else if c == '1' {
        1
    } else if c == '2' {
        2
    } else if c == '3' {
        3
    } else if c == '4' {
        4
    } else if c == '5' {
        5
    } else if c == '6' {
        6
    } else if c == '7' {
        7
    } else if c == '8' {
        8
    } else {
        9
    }
}

pub open spec fn all_digits(s: Seq<char>) -> bool {
    forall|i: int| 0 <= i < s.len() ==> is_digit(s[i])
}

/// Numeric value of a digit string, most significant digit first.
pub open spec fn digits_val(s: Seq<char>) -> int
    decreases s.len(),
{
    if s.len() == 0 {
        0
    } else {
        digits_val(s.drop_last()) * 10 + digit_of(s.last())
    }
}

/// What `str::parse::<u32>` yields: an optional `+` sign, then digits,
/// rejected when empty, malformed or out of range.
pub open spec fn parse_u32_spec(s: Seq<char>) -> Option<u32> {
    let body = if s.len() > 0 && s[0] == '+' {
        s.drop_first()
    } else {
        s
    };
    if body.len() > 0 && all_digits(body) && digits_val(body) <= u32::MAX {
        Some(digits_val(body) as u32)
    } else {
        None
    }
}

/// What `str::parse::<i32>` yields: an optional sign, then digits,
/// rejected when empty, malformed or out of range.
pub open spec fn parse_i32_spec(s: Seq<char>) -> Option<i32> {
    let neg = s.len() > 0 && s[0] == '-';
    let body = if s.len() > 0 && (s[0] == '-' || s[0] == '+') {
        s.drop_first()
    } else {
        s
    };
    if body.len() > 0 && all_digits(body) {
        let m = digits_val(body);
        if neg && -m >= i32::MIN {
            Some((-m) as i32)
        } else if !neg && m <= i32::MAX {
            Some(m as i32)
        } else {
            None
        }
    } else {
        None
    }
}

pub fn exec_is_digit(c: char) -> (r: bool)
    ensures
        r == is_digit(c),
{
    c == '0' || c == '1' || c == '2' || c == '3' || c == '4' || c == '5' || c == '6' || c == '7'
        || c == '8' || c == '9'
}

pub fn exec_digit_of(c: char) -> (r: u32)
    requires
        is_digit(c),
    ensures
        r == digit_of(c),
{
    if c == '0' {
        0
    } else if c == '1' {
        1
    } else if c == '2' {
        2
    } else if c == '3' {
        3
    } else if c == '4' {
        4
    } else if c == '5' {
        5
    } else if c == '6' {
        6
    } else if c == '7' {
        7
    } else if c == '8' {
        8
    } else {
        9
    }
}

/// Magnitude of the digit run from `from` on, clamped just above `u32::MAX`;
/// `None` when empty or holding a non-digit.
fn digits_value_clamped(v: &Vec<char>, from: usize) -> (r: Option<u64>)
    requires
        from <= v@.len(),
    ensures
        r is Some <==> (v@.skip(from as int).len() > 0 && all_digits(v@.skip(from as int))),
        r matches Some(m) ==> {
            let val = digits_val(v@.skip(from as int));
            (val <= u32::MAX && m == val) || (val > u32::MAX && m == 0x1_0000_0000u64)
        },
{
    if from == v.len() {
        return None;
    }
    let ghost s = v@.skip(from as int);
    let mut acc: u64 = 0;
    let mut i: usize = from;
    while i < v.len()
        invariant
            from <= i <= v@.len(),
            s == v@.skip(from as int),
            all_digits(v@.subrange(from as int, i as int)),
            ({
                let val = digits_val(v@.subrange(from as int, i as int));
                (val <= u32::MAX && acc == val) || (val > u32::MAX && acc == 0x1_0000_0000u64)
            }),
        decreases v@.len() - i,
    {
        let c = v[i];
        if !exec_is_digit(c) {
            proof {
                assert(v@.skip(from as int)[i - from] == v@[i as int]);
                assert(!all_digits(v@.skip(from as int)));
            }
            return None;
        }
        let d = exec_digit_of(c);
        let ghost pre = v@.subrange(from as int, i as int);
        let ghost post = v@.subrange(from as int, i + 1);
        proof {
            assert(post.drop_last() =~= pre);
            assert(post.last() == v@[i as int]);
        }
        if acc > u32::MAX as u64 {
            // already past the range; the value only grows
            proof {
                assert(digits_val(pre) * 10 >= digits_val(pre)) by {
                    assert(digits_val(pre) * 10 == digits_val(pre) * 9 + digits_val(pre));
                    assert(digits_val(pre) >= 0) by {
                        lemma_digits_val_nonneg(pre);
                    }
                    assert(digits_val(pre) * 9 >= 0);
                }
            }
            acc = 0x1_0000_0000u64;
        } else {
            acc = acc * 10 + d as u64;
            if acc > u32::MAX as u64 {
                acc = 0x1_0000_0000u64;
            }
        }
        i += 1;
    }
    proof {
        assert(v@.subrange(from as int, v@.len() as int) =~= s);
    }
    Some(acc)
}

proof fn lemma_digits_val_nonneg(s: Seq<char>)
    ensures
        digits_val(s) >= 0,
    decreases s.len(),
{
    if s.len() > 0 {
        lemma_digits_val_nonneg(s.drop_last());
    }
}

/// `str::parse::<u32>` on a character vector.
pub fn parse_u32(v: &Vec<char>) -> (r: Option<u32>)
    ensures
        r == parse_u32_spec(v@),
{
    let start: usize = if v.len() > 0 && v[0] == '+' {
        1
    } else {
        0
    };
    proof {
        if start == 1 {
            assert(v@.skip(1) =~= v@.drop_first());
        } else {
            assert(v@.skip(0) =~= v@);
        }
    }
    match digits_value_clamped(v, start) {
        None => None,
        Some(m) => {
            if m <= u32::MAX as u64 {
                Some(m as u32)
            } else {
                None
            }
        },
    }
}

/// `str::parse::<i32>` on a character vector.
pub fn parse_i32(v: &Vec<char>) -> (r: Option<i32>)
    ensures
        r == parse_i32_spec(v@),
{
    let neg = v.len() > 0 && v[0] == '-';
    let start: usize = if v.len() > 0 && (v[0] == '-' || v[0] == '+') {
        1
    } else {
        0
    };
    proof {
        if start == 1 {
            assert(v@.skip(1) =~= v@.drop_first());
        } else {
            assert(v@.skip(0) =~= v@);
        }
    }
    match digits_value_clamped(v, start) {
        None => None,
        Some(m) => {
            if neg {
                if m <= 0x8000_0000u64 {
                    Some((-(m as i64)) as i32)
                } else {
                    None
                }
            } else {
                if m <= i32::MAX as u64 {
                    Some(m as i32)
                } else {
                    None
                }
            }
        },
    }
}

// ---------------------------------------------------------------------------
// Decimal rendering of integers and small fractions.
// ---------------------------------------------------------------------------

pub open spec fn digit_char(d: int) -> char {
    if d == 0 {
        '0'
    } else if d == 1 {
        '1'
    } else if d == 2 {
        '2'
    } else if d == 3 {
        '3'
    } else if d == 4 {
        '4'
    } else if d == 5 {
        '5'
    } else if d == 6 {
        '6'
    } else if d == 7 {
        '7'
    } else if d == 8 {
        '8'
    } else {
        '9'
    }
}

/// Decimal digits of a non-negative integer, most significant first.
pub open spec fn dec_digits(n: int) -> Seq<char>
    decreases n,
{
    if n < 10 {
        seq![digit_char(n)]
    } else {
        dec_digits(n / 10).push(digit_char(n % 10))
    }
}

/// Up to `k` fractional digits of `rem / den` by long division, stopping
/// early when the remainder runs out.
pub open spec fn frac_digits(rem: int, den: int, k: int) -> Seq<char>
    decreases k,
{
    if rem <= 0 || k <= 0 {
        Seq::empty()
    } else {
        seq![digit_char((rem * 10) / den)] + frac_digits((rem * 10) % den, den, k - 1)
    }
}

/// Decimal rendering of the rational `n / den`: sign, integer part, and a
/// fractional part only when the division does not come out even, cut off
/// after six digits.
pub open spec fn dec_string(n: int, den: int) -> Seq<char> {
    let m = if n < 0 {
        -n
    } else {
        n
    };
    let sign: Seq<char> = if n < 0 {
        seq!['-']
    } else {
        Seq::empty()
    };
    let q = m / den;
    let r = m % den;
    if r == 0 {
        sign + dec_digits(q)
    } else {
        sign + dec_digits(q) + seq!['.'] + frac_digits(r, den, 6)
    }
}

fn exec_digit_char(d: u64) -> (r: char)
    requires
        d < 10,
    ensures
        r == digit_char(d as int),
{
    if d == 0 {
        '0'
    } else if d == 1 {
        '1'
    } else if d == 2 {
        '2'
    } else if d == 3 {
        '3'
    } else if d == 4 {
        '4'
    } else if d == 5 {
        '5'
    } else if d == 6 {
        '6'
    } else if d == 7 {
        '7'
    } else if d == 8 {
        '8'
    } else {
        '9'
    }
}

/// Decimal digits of `n`, most significant first.
pub fn u64_digits(n: u64) -> (r: Vec<char>)
    ensures
        r@ == dec_digits(n as int),
    decreases n,
{
    if n < 10 {
        let mut out: Vec<char> = Vec::new();
        out.push(exec_digit_char(n));
        proof {
            assert(out@ =~= dec_digits(n as int));
        }
        out
    } else {
        let mut out = u64_digits(n / 10);
        out.push(exec_digit_char(n % 10));
        out
    }
}

/// Decimal rendering of `n / den`, matching `dec_string`.
pub fn render_fraction(n: i32, den: u32) -> (r: Vec<char>)
    requires
        1 <= den <= 1000,
    ensures
        r@ == dec_string(n as int, den as int),
{
    let mag: u64 = if n < 0 {
        (-(n as i64)) as u64
    } else {
        n as u64
    };
    let d = den as u64;
    let q = mag / d;
    let mut rem = mag % d;
    let mut out: Vec<char> = Vec::new();
    if n < 0 {
        out.push('-');
    }
    let mut digits = u64_digits(q);
    out.append(&mut digits);
    if rem == 0 {
        proof {
            assert(out@ =~= dec_string(n as int, den as int));
        }
        return out;
    }
    out.push('.');
    let ghost rem0 = rem as int;
    let ghost f6 = frac_digits(rem0, den as int, 6);
    let ghost head = out@;
    let mut k: usize = 0;
    while rem > 0 && k < 6
        invariant
            1 <= den <= 1000,
            d == den as u64,
            rem < d,
            0 <= k <= 6,
            k <= f6.len(),
            f6 == frac_digits(rem0, den as int, 6),
            out@ == head + f6.take(k as int),
            f6.skip(k as int) == frac_digits(rem as int, den as int, 6 - k as int),
        decreases 6 - k,
    {
        let t = rem * 10;
        let dig = t / d;
        proof {
            assert(dig < 10) by (nonlinear_arith)
                requires
                    dig == t / d,
                    t == rem * 10,
                    rem < d,
                    1 <= d,
            ;
            assert(frac_digits(rem as int, den as int, 6 - k as int) == seq![
                digit_char((rem * 10) as int / den as int),
            ] + frac_digits((rem * 10) as int % den as int, den as int, 6 - k as int - 1));
            assert(f6.skip(k as int).len() >= 1);
            assert(k < f6.len());
            assert(f6.skip(k as int)[0] == f6[k as int]);
            assert(f6[k as int] == digit_char(dig as int));
        }
        out.push(exec_digit_char(dig));
        rem = t % d;
        k += 1;
        proof {
            assert(f6.take(k as int) =~= f6.take(k - 1).push(f6[k - 1]));
            assert(f6.skip(k - 1).drop_first() =~= f6.skip(k as int));
        }
    }
    proof {
        assert(frac_digits(rem as int, den as int, 6 - k as int) =~= Seq::<char>::empty());
        assert(f6.skip(k as int).len() == 0);
        assert(k == f6.len());
        assert(f6.take(k as int) =~= f6);
        assert(out@ =~= dec_string(n as int, den as int));
    }
    out
}

} // verus!

verus! {

proof fn lemma_find_some_upto(h: Seq<char>, n: Seq<char>, from: int, i: int)
    requires
        0 <= from <= i,
        matches_at(h, n, i),
    ensures
        find_sub_from(h, n, from) is Some,
    decreases i - from,
{
    if from == i {
    } else if matches_at(h, n, from) {
    } else {
        lemma_find_some_upto(h, n, from + 1, i);
    }
}

/// A last-occurrence search that succeeds yields a real match, in range.
pub proof fn lemma_rfind_sub_bounds(h: Seq<char>, n: Seq<char>, from: int)
    requires
        rfind_sub_from(h, n, from) is Some,
    ensures
        ({
            let p = rfind_sub_from(h, n, from)->0;
            0 <= p && p + n.len() <= h.len() && matches_at(h, n, p)
        }),
    decreases from + 1,
{
    if from >= 0 && !(from + n.len() <= h.len() && matches_at(h, n, from)) {
        lemma_rfind_sub_bounds(h, n, from - 1);
    }
}

/// A match anywhere means the needle occurs in the haystack.
pub proof fn lemma_matches_to_contains(h: Seq<char>, n: Seq<char>, i: int)
    requires
        matches_at(h, n, i),
    ensures
        contains_sub(h, n),
{
    lemma_find_some_upto(h, n, 0, i);
}

/// A match inside the middle piece survives concatenation, shifted by the
/// left piece's length.
pub proof fn lemma_matches_concat_mid(
    a: Seq<char>,
    b: Seq<char>,
    c: Seq<char>,
    n: Seq<char>,
    i: int,
)
    requires
        matches_at(b, n, i),
    ensures
        matches_at(a + b + c, n, a.len() + i),
{
    let h = a + b + c;
    assert(h.subrange(a.len() + i, a.len() + i + n.len() as int) =~= b.subrange(
        i,
        i + n.len() as int,
    ));
}

} // verus!
