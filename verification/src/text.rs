//! Byte-level text scanning used by the console-line parsers.
//!
//! Every position here is a byte offset into the UTF-8 encoding of a string,
//! which is how `str::find` and `str` slicing count.
use vstd::prelude::*;
use vstd::utf8::*;
use vstd::string::StringSliceAdditionalSpecFns;

verus! {

broadcast use vstd::utf8::is_char_boundary_iff_is_leading_byte, vstd::utf8::encode_utf8_valid_utf8,
    vstd::utf8::is_char_boundary_start_end_of_seq;

/// The UTF-8 bytes of a string literal or slice.
pub open spec fn utf8(s: &str) -> Seq<u8> {
    s.spec_bytes()
}

/// The UTF-8 bytes of a `String`.
pub open spec fn bytes(s: String) -> Seq<u8> {
    encode_utf8(s@)
}

/// `i` is the first index of byte `c` in `s`.
pub open spec fn is_first_byte(s: Seq<u8>, c: u8, i: int) -> bool {
    &&& 0 <= i < s.len()
    &&& s[i] == c
    &&& forall|j: int| 0 <= j < i ==> s[j] != c
}

/// The index of the first occurrence of byte `c` in `s`, if there is one.
pub open spec fn first_byte(s: Seq<u8>, c: u8) -> Option<int> {
    if exists|i: int| is_first_byte(s, c, i) {
        Some(choose|i: int| is_first_byte(s, c, i))
    } else {
        None
    }
}

/// `pat` occurs in `s` starting at byte `i`.
pub open spec fn occurs_at(s: Seq<u8>, pat: Seq<u8>, i: int) -> bool {
    &&& 0 <= i
    &&& i + pat.len() <= s.len()
    &&& s.subrange(i, i + pat.len()) == pat
}

/// `i` is the first index at which `pat` occurs in `s`.
pub open spec fn is_first_occurrence(s: Seq<u8>, pat: Seq<u8>, i: int) -> bool {
    &&& occurs_at(s, pat, i)
    &&& forall|j: int| 0 <= j < i ==> !occurs_at(s, pat, j)
}

/// The index of the first occurrence of `pat` in `s`, if there is one.
pub open spec fn first_occurrence(s: Seq<u8>, pat: Seq<u8>) -> Option<int> {
    if exists|i: int| is_first_occurrence(s, pat, i) {
        Some(choose|i: int| is_first_occurrence(s, pat, i))
    } else {
        None
    }
}

/// `s` contains `pat` somewhere.
pub open spec fn contains(s: Seq<u8>, pat: Seq<u8>) -> bool {
    exists|i: int| occurs_at(s, pat, i)
}

/// `s` begins with `pat`.
pub open spec fn starts_with(s: Seq<u8>, pat: Seq<u8>) -> bool {
    occurs_at(s, pat, 0)
}

/// Slicing a string at byte `i` is allowed (`i` is within the string and on a
/// character boundary).
pub open spec fn cuttable(s: Seq<u8>, i: int) -> bool {
    &&& 0 <= i <= s.len()
    &&& is_char_boundary(s, i)
}

/// The bytes of `s` from `i` on.
pub open spec fn skip(s: Seq<u8>, i: int) -> Seq<u8> {
    s.subrange(i, s.len() as int)
}

pub proof fn lemma_first_byte_unique(s: Seq<u8>, c: u8, i: int)
    requires
        is_first_byte(s, c, i),
    ensures
        first_byte(s, c) == Some(i),
{
    let k = choose|k: int| is_first_byte(s, c, k);
    assert(is_first_byte(s, c, k));
    if k < i {
        assert(s[k] != c);
    } else if i < k {
        assert(s[i] != c);
    }
}

pub proof fn lemma_first_occurrence_unique(s: Seq<u8>, pat: Seq<u8>, i: int)
    requires
        is_first_occurrence(s, pat, i),
    ensures
        first_occurrence(s, pat) == Some(i),
        contains(s, pat),
{
    let k = choose|k: int| is_first_occurrence(s, pat, k);
    assert(is_first_occurrence(s, pat, k));
    if k < i {
        assert(!occurs_at(s, pat, k));
    } else if i < k {
        assert(!occurs_at(s, pat, i));
    }
}

/// The first occurrence of a byte, when there is one, is where the byte is.
pub proof fn lemma_first_byte_facts(s: Seq<u8>, c: u8)
    ensures
        first_byte(s, c) matches Some(i) ==> is_first_byte(s, c, i),
        first_byte(s, c) is None ==> forall|j: int| 0 <= j < s.len() ==> s[j] != c,
{
    if first_byte(s, c) is None {
        assert forall|j: int| 0 <= j < s.len() implies s[j] != c by {
            if s[j] == c {
                let k = first_index_of(s, c, j);
                assert(is_first_byte(s, c, k));
            }
        }
    }
}

/// Some first index of `c` exists once `c` occurs at or before `j`.
proof fn first_index_of(s: Seq<u8>, c: u8, j: int) -> (k: int)
    requires
        0 <= j < s.len(),
        s[j] == c,
    ensures
        is_first_byte(s, c, k),
    decreases j,
{
    if exists|m: int| 0 <= m < j && s[m] == c {
        let m = choose|m: int| 0 <= m < j && s[m] == c;
        first_index_of(s, c, m)
    } else {
        j
    }
}

pub proof fn lemma_first_occurrence_facts(s: Seq<u8>, pat: Seq<u8>)
    ensures
        first_occurrence(s, pat) matches Some(i) ==> is_first_occurrence(s, pat, i),
        first_occurrence(s, pat) is None <==> !contains(s, pat),
{
    if contains(s, pat) {
        let j = choose|j: int| occurs_at(s, pat, j);
        let k = first_occurrence_of(s, pat, j);
        lemma_first_occurrence_unique(s, pat, k);
    }
}

proof fn first_occurrence_of(s: Seq<u8>, pat: Seq<u8>, j: int) -> (k: int)
    requires
        occurs_at(s, pat, j),
    ensures
        is_first_occurrence(s, pat, k),
    decreases j,
{
    if exists|m: int| 0 <= m < j && occurs_at(s, pat, m) {
        let m = choose|m: int| 0 <= m < j && occurs_at(s, pat, m);
        first_occurrence_of(s, pat, m)
    } else {
        j
    }
}

/// In a valid UTF-8 sequence every ASCII byte starts a character, and so
/// does the byte after it.
pub proof fn lemma_ascii_is_boundary(s: Seq<u8>, i: int)
    requires
        valid_utf8(s),
        0 <= i < s.len(),
        s[i] < 128,
    ensures
        cuttable(s, i),
        cuttable(s, i + 1),
{
    assert(is_leading_byte_width_1(s[i]));
    assert(is_char_boundary(s, i));
    lemma_after_ascii_is_boundary(s, i);
}

/// The byte after an ASCII character starts a character (or ends the sequence).
proof fn lemma_after_ascii_is_boundary(s: Seq<u8>, i: int)
    requires
        valid_utf8(s),
        0 <= i < s.len(),
        is_char_boundary(s, i),
        s[i] < 128,
    ensures
        is_char_boundary(s, i + 1),
    decreases s.len(),
{
    let n = length_of_first_scalar(s);
    let t = pop_first_scalar(s);
    assert(valid_first_scalar(s) && valid_utf8(t));
    assert(1 <= n <= s.len());
    assert(t.len() == s.len() - n);
    if i == 0 {
        assert(is_leading_byte_width_1(s[0]));
        assert(n == 1);
        assert(is_char_boundary(t, 0));
        assert(is_char_boundary(s, 1));
    } else {
        assert(is_char_boundary(t, i - n));
        assert(i - n >= 0);
        assert(t[i - n] == s[i]);
        lemma_after_ascii_is_boundary(t, i - n);
        assert(is_char_boundary(s, i + 1));
    }
}

/// Finds the first occurrence of `c` in `s`, as `str::find` does for an ASCII character.
pub fn find_byte(s: &[u8], c: u8) -> (r: Option<usize>)
    ensures
        match r {
            Some(i) => first_byte(s@, c) == Some(i as int),
            None => first_byte(s@, c) is None,
        },
{
    let mut i: usize = 0;
    while i < s.len()
        invariant
            0 <= i <= s@.len(),
            forall|j: int| 0 <= j < i ==> s@[j] != c,
        decreases s@.len() - i,
    {
        if s[i] == c {
            proof {
                lemma_first_byte_unique(s@, c, i as int);
            }
            return Some(i);
        }
        i = i + 1;
    }
    assert(!exists|k: int| is_first_byte(s@, c, k));
    None
}

/// Whether `pat` occurs in `s` at byte `i`.
pub fn matches_at(s: &[u8], pat: &[u8], i: usize) -> (r: bool)
    ensures
        r == occurs_at(s@, pat@, i as int),
{
    let n = s.len();
    if i > n || pat.len() > n - i {
        return false;
    }
    let mut k: usize = 0;
    while k < pat.len()
        invariant
            n == s@.len(),
            i <= s@.len(),
            i + pat@.len() <= s@.len(),
            0 <= k <= pat@.len(),
            forall|j: int| 0 <= j < k ==> s@[i + j] == pat@[j],
        decreases pat@.len() - k,
    {
        assert(i + k < s@.len());
        if s[i + k] != pat[k] {
            assert(s@.subrange(i as int, i + pat@.len())[k as int] != pat@[k as int]);
            return false;
        }
        k = k + 1;
    }
    assert(s@.subrange(i as int, i + pat@.len()) =~= pat@);
    true
}

/// Finds the first occurrence of `pat` in `s`, as `str::find` does for a string pattern.
pub fn find_pattern(s: &[u8], pat: &[u8]) -> (r: Option<usize>)
    ensures
        match r {
            Some(i) => first_occurrence(s@, pat@) == Some(i as int),
            None => first_occurrence(s@, pat@) is None,
        },
{
    if pat.len() > s.len() {
        proof {
            lemma_first_occurrence_facts(s@, pat@);
        }
        return None;
    }
    let last = s.len() - pat.len();
    let mut i: usize = 0;
    while i < last
        invariant
            0 <= i <= last,
            last == s@.len() - pat@.len(),
            forall|j: int| 0 <= j < i ==> !occurs_at(s@, pat@, j),
        decreases last - i,
    {
        if matches_at(s, pat, i) {
            proof {
                lemma_first_occurrence_unique(s@, pat@, i as int);
            }
            return Some(i);
        }
        i = i + 1;
    }
    if matches_at(s, pat, last) {
        proof {
            lemma_first_occurrence_unique(s@, pat@, last as int);
        }
        return Some(last);
    }
    proof {
        assert forall|j: int| !occurs_at(s@, pat@, j) by {
            if 0 <= j && j + pat@.len() <= s@.len() && j != last {
                assert(j < i);
            }
        }
        lemma_first_occurrence_facts(s@, pat@);
    }
    None
}

/// Whether `s` contains `pat`, as `str::contains` does.
pub fn contains_pattern(s: &[u8], pat: &[u8]) -> (r: bool)
    ensures
        r == contains(s@, pat@),
{
    proof {
        lemma_first_occurrence_facts(s@, pat@);
    }
    find_pattern(s, pat).is_some()
}

/// Whether `s` begins with `pat`, as `str::starts_with` does.
pub fn begins_with(s: &[u8], pat: &[u8]) -> (r: bool)
    ensures
        r == starts_with(s@, pat@),
{
    matches_at(s, pat, 0)
}

/// Whether two byte strings are equal.
pub fn same_bytes(a: &[u8], b: &[u8]) -> (r: bool)
    ensures
        r == (a@ == b@),
{
    if a.len() != b.len() {
        return false;
    }
    let r = matches_at(a, b, 0);
    proof {
        assert(a@.subrange(0, a@.len() as int) =~= a@);
    }
    r
}

/* Unsigned integers, as `str::parse` reads them */

pub open spec fn is_digit(b: u8) -> bool {
    48 <= b <= 57
}

/// The value of a string of decimal digits.
pub open spec fn digits_value(s: Seq<u8>) -> nat
    decreases s.len(),
{
    if s.len() == 0 {
        0
    } else {
        digits_value(s.drop_last()) * 10 + (s.last() - 48) as nat
    }
}

/// The digits that `str::parse` reads for an unsigned integer: an optional `+`
/// followed by the rest.
pub open spec fn unsigned_digits(s: Seq<u8>) -> Seq<u8> {
    if s.len() > 0 && s[0] == 43 {
        s.drop_first()
    } else {
        s
    }
}

/// What `str::parse` gives for an unsigned integer type whose largest value is
/// `max`: an optional `+`, then one or more ASCII digits, with a value of at
/// most `max`.
pub open spec fn parse_unsigned(s: Seq<u8>, max: nat) -> Option<nat> {
    let d = unsigned_digits(s);
    if d.len() > 0 && (forall|i: int| 0 <= i < d.len() ==> is_digit(#[trigger] d[i]))
        && digits_value(d) <= max {
        Some(digits_value(d))
    } else {
        None
    }
}

proof fn lemma_digits_value_grows(s: Seq<u8>, k: int)
    requires
        0 <= k <= s.len(),
        forall|i: int| 0 <= i < s.len() ==> is_digit(#[trigger] s[i]),
    ensures
        digits_value(s.subrange(0, k)) <= digits_value(s),
    decreases s.len() - k,
{
    if k < s.len() {
        let t = s.subrange(0, s.len() - 1);
        assert(t =~= s.drop_last());
        assert(t.subrange(0, k) =~= s.subrange(0, k));
        lemma_digits_value_grows(t, k);
    } else {
        assert(s.subrange(0, k) =~= s);
    }
}

/// Reads an unsigned integer of at most `max`, as `str::parse` does for
/// `u8`, `u32` and `u64`.
pub fn parse_unsigned_bytes(s: &[u8], max: u64) -> (r: Option<u64>)
    ensures
        match r {
            Some(v) => parse_unsigned(s@, max as nat) == Some(v as nat),
            None => parse_unsigned(s@, max as nat) is None,
        },
{
    let start: usize = if s.len() > 0 && s[0] == 43 { 1 } else { 0 };
    let ghost d = unsigned_digits(s@);
    proof {
        assert(d =~= s@.subrange(start as int, s@.len() as int));
    }
    if start == s.len() {
        assert(d.len() == 0);
        return None;
    }
    let mut v: u64 = 0;
    let mut i: usize = start;
    while i < s.len()
        invariant
            start <= i <= s@.len(),
            d == unsigned_digits(s@),
            d == s@.subrange(start as int, s@.len() as int),
            forall|j: int| 0 <= j < i - start ==> is_digit(#[trigger] d[j]),
            v as nat == digits_value(d.subrange(0, i - start)),
            v <= max,
        decreases s@.len() - i,
    {
        let b = s[i];
        assert(d[i - start] == b);
        if b < 48 || b > 57 {
            assert(!is_digit(d[i - start]));
            assert(!(forall|j: int| 0 <= j < d.len() ==> is_digit(#[trigger] d[j])));
            return None;
        }
        let digit = (b - 48) as u64;
        proof {
            let p = d.subrange(0, i + 1 - start);
            assert(p.drop_last() =~= d.subrange(0, i - start));
            assert(p.last() == b);
            assert(digits_value(p) == v * 10 + digit);
        }
        if digit > max || v > (max - digit) / 10 {
            proof {
                let p = d.subrange(0, i + 1 - start);
                assert(digits_value(p) > max) by (nonlinear_arith)
                    requires
                        digits_value(p) == v * 10 + digit,
                        digit > max || v > (max - digit) / 10,
                        digit <= 9,
                {}
                if forall|j: int| 0 <= j < d.len() ==> is_digit(#[trigger] d[j]) {
                    lemma_digits_value_grows(d, i + 1 - start);
                    assert(digits_value(d) > max);
                }
            }
            return None;
        }
        proof {
            assert(v * 10 + digit <= max) by (nonlinear_arith)
                requires
                    v <= (max - digit) / 10,
                    digit <= max,
            {}
        }
        v = v * 10 + digit;
        i = i + 1;
    }
    proof {
        assert(d.subrange(0, d.len() as int) =~= d);
    }
    Some(v)
}

/* Working on string slices */

/// Copies a string slice into a new `String`.
pub fn copy_str(s: &str) -> (r: String)
    ensures
        r@ == s@,
        bytes(r) == utf8(s),
{
    s.to_owned()
}

/// Cuts `s` at byte `i`, which is on a character boundary.
pub fn cut(s: &str, i: usize) -> (r: (&str, &str))
    requires
        cuttable(utf8(s), i as int),
    ensures
        utf8(r.0) == utf8(s).subrange(0, i as int),
        utf8(r.1) == skip(utf8(s), i as int),
{
    s.split_at(i)
}

/// Whether `s` can be cut at byte `i`.
pub fn can_cut(s: &str, i: usize) -> (r: bool)
    ensures
        r == cuttable(utf8(s), i as int),
{
    s.is_char_boundary(i)
}

/// Finds the first ASCII character `c` in `s`; the text can be cut right
/// before and right after it.
pub fn find_ascii(s: &str, c: u8) -> (r: Option<usize>)
    requires
        c < 128,
    ensures
        match r {
            Some(i) => first_byte(utf8(s), c) == Some(i as int) && cuttable(utf8(s), i as int)
                && cuttable(utf8(s), i + 1),
            None => first_byte(utf8(s), c) is None,
        },
        utf8(s).len() <= usize::MAX,
{
    let b = s.as_bytes();
    let _n = b.len();
    let r = find_byte(b, c);
    proof {
        lemma_first_byte_facts(utf8(s), c);
        if let Some(i) = r {
            lemma_ascii_is_boundary(utf8(s), i as int);
        }
    }
    r
}

/// Reads a `u8` written in decimal.
pub fn read_u8(s: &str) -> (r: Option<u8>)
    ensures
        match r {
            Some(v) => parse_unsigned(utf8(s), 255) == Some(v as nat),
            None => parse_unsigned(utf8(s), 255) is None,
        },
{
    match parse_unsigned_bytes(s.as_bytes(), 255) {
        Some(v) => Some(v as u8),
        None => None,
    }
}

/* Decimal floating-point texts, as `f32::from_str` accepts them */

/// A byte with ASCII capitals made small.
pub open spec fn lower(b: u8) -> u8 {
    if 65 <= b <= 90 {
        (b + 32) as u8
    } else {
        b
    }
}

/// The text with ASCII capitals made small.
pub open spec fn lowered(s: Seq<u8>) -> Seq<u8> {
    s.map_values(|b: u8| lower(b))
}

/// Every byte is an ASCII digit.
pub open spec fn all_digits(s: Seq<u8>) -> bool {
    forall|i: int| 0 <= i < s.len() ==> is_digit(#[trigger] s[i])
}

/// `Digit+ | Digit+ '.' Digit* | Digit* '.' Digit+`
pub open spec fn mantissa_text(m: Seq<u8>) -> bool {
    match first_byte(m, 46) {
        None => m.len() > 0 && all_digits(m),
        Some(d) => all_digits(m.subrange(0, d)) && all_digits(skip(m, d + 1)) && m.len() > 1,
    }
}

/// `Sign? Digit+`
pub open spec fn exponent_text(e: Seq<u8>) -> bool {
    let digits = if e.len() > 0 && (e[0] == 43 || e[0] == 45) {
        e.drop_first()
    } else {
        e
    };
    digits.len() > 0 && all_digits(digits)
}

/// `'inf' | 'infinity' | 'nan' | Number`, where a number is a mantissa with
/// an optional exponent after an `e`.
pub open spec fn unsigned_float_text(t: Seq<u8>) -> bool {
    if t == utf8("inf") || t == utf8("infinity") || t == utf8("nan") {
        true
    } else {
        match first_byte(t, 101) {
            None => mantissa_text(t),
            Some(e) => mantissa_text(t.subrange(0, e)) && exponent_text(skip(t, e + 1)),
        }
    }
}

/// A text that `f32::from_str` reads: once lowercased, an optional sign and
/// then `inf`, `infinity`, `nan` or a decimal number with an optional
/// exponent (the grammar in the documentation of `f32::from_str`).
pub open spec fn float_text(s: Seq<u8>) -> bool {
    let l = lowered(s);
    let t = if l.len() > 0 && (l[0] == 43 || l[0] == 45) {
        l.drop_first()
    } else {
        l
    };
    unsigned_float_text(t)
}

/// Whether every byte is an ASCII digit.
fn digits_only(s: &[u8]) -> (r: bool)
    ensures
        r == all_digits(s@),
{
    let mut i: usize = 0;
    while i < s.len()
        invariant
            0 <= i <= s@.len(),
            forall|k: int| 0 <= k < i ==> is_digit(#[trigger] s@[k]),
        decreases s@.len() - i,
    {
        if s[i] < 48 || s[i] > 57 {
            assert(!is_digit(s@[i as int]));
            return false;
        }
        i = i + 1;
    }
    true
}

fn mantissa_ok(m: &[u8]) -> (r: bool)
    ensures
        r == mantissa_text(m@),
{
    let n = m.len();
    match find_byte(m, 46) {
        None => n > 0 && digits_only(m),
        Some(d) => {
            proof {
                lemma_first_byte_facts(m@, 46);
            }
            let ok = digits_only(&m[0..d]) && digits_only(&m[d + 1..n]);
            ok && n > 1
        },
    }
}

fn exponent_ok(e: &[u8]) -> (r: bool)
    ensures
        r == exponent_text(e@),
{
    let n = e.len();
    let start: usize = if n > 0 && (e[0] == 43 || e[0] == 45) {
        1
    } else {
        0
    };
    let digits = &e[start..n];
    proof {
        if start == 1 {
            assert(digits@ =~= e@.drop_first());
        } else {
            assert(digits@ =~= e@);
        }
    }
    digits.len() > 0 && digits_only(digits)
}

/// Whether `f32::from_str` reads the text (see `float_text`).
pub fn is_float_text(s: &[u8]) -> (r: bool)
    ensures
        r == float_text(s@),
{
    let n = s.len();
    let mut l: Vec<u8> = Vec::new();
    let mut i: usize = 0;
    while i < n
        invariant
            n == s@.len(),
            0 <= i <= n,
            l@ == s@.take(i as int).map_values(|b: u8| lower(b)),
        decreases n - i,
    {
        let b = s[i];
        let c = if 65 <= b && b <= 90 {
            b + 32
        } else {
            b
        };
        l.push(c);
        proof {
            assert(s@.take(i + 1).map_values(|b: u8| lower(b)) =~= s@.take(i as int).map_values(
                |b: u8| lower(b),
            ).push(lower(b)));
        }
        i = i + 1;
    }
    proof {
        assert(s@.take(n as int) =~= s@);
    }
    let start: usize = if n > 0 && (l[0] == 43 || l[0] == 45) {
        1
    } else {
        0
    };
    let t = &l.as_slice()[start..n];
    proof {
        if start == 1 {
            assert(t@ =~= lowered(s@).drop_first());
        } else {
            assert(t@ =~= lowered(s@));
        }
    }
    if same_bytes(t, "inf".as_bytes()) || same_bytes(t, "infinity".as_bytes()) || same_bytes(
        t,
        "nan".as_bytes(),
    ) {
        return true;
    }
    let m = t.len();
    match find_byte(t, 101) {
        None => mantissa_ok(t),
        Some(e) => {
            proof {
                lemma_first_byte_facts(t@, 101);
            }
            let mant = &t[0..e];
            let exp = &t[e + 1..m];
            mantissa_ok(mant) && exponent_ok(exp)
        },
    }
}

} // verus!
