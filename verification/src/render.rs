//! Building text: decimal numbers and the `String` operations used to build it.
use vstd::prelude::*;
use vstd::string::StringExecFns;

verus! {

/// `String::push` appends one character.
pub assume_specification[ String::push ](s: &mut String, ch: char)
    ensures
        final(s)@ == old(s)@.push(ch),
;

/// `String::pop` removes the last character and returns it, or returns `None`
/// for an empty string.
pub assume_specification[ String::pop ](s: &mut String) -> (r: Option<char>)
    ensures
        old(s)@.len() == 0 ==> r is None && final(s)@ == old(s)@,
        old(s)@.len() > 0 ==> r == Some(old(s)@.last()) && final(s)@ == old(s)@.drop_last(),
;

/// `String::clear` empties the string.
pub assume_specification[ String::clear ](s: &mut String)
    ensures
        final(s)@ == Seq::<char>::empty(),
;

/// The character of a decimal digit.
pub open spec fn digit_char(d: nat) -> char {
    (d + 48) as char
}

/// The decimal text of a natural number, without leading zeros.
pub open spec fn decimal(n: nat) -> Seq<char>
    decreases n,
{
    if n < 10 {
        seq![digit_char(n)]
    } else {
        decimal(n / 10).push(digit_char(n % 10))
    }
}

/// The decimal text of `n` is made of digits, starts with no `0` unless it
/// is `0` itself, and reads back as `n`: its digits' value, most significant
/// first, is `n`, so that parsing it as an unsigned integer of at most `max`
/// gives `n` whenever `n <= max`.
pub proof fn lemma_decimal_reads_back(n: nat, max: nat)
    ensures
        ({
            let b = decimal(n).map_values(|c: char| c as u8);
            &&& forall|i: int| 0 <= i < b.len() ==> crate::text::is_digit(#[trigger] b[i])
            &&& b.len() > 0
            &&& (n > 0 ==> b[0] != 48)
            &&& crate::text::digits_value(b) == n
            &&& n <= max ==> crate::text::parse_unsigned(b, max) == Some(n)
        }),
    decreases n,
{
    let b = decimal(n).map_values(|c: char| c as u8);
    if n < 10 {
        assert(b =~= seq![(n + 48) as u8]);
        assert(b.drop_last() =~= Seq::<u8>::empty());
        assert(crate::text::digits_value(b.drop_last()) == 0);
        assert(b.last() == (n + 48) as u8);
        assert(((n + 48) as u8) - 48 == n);
        assert(crate::text::digits_value(b) == n);
        assert(forall|i: int| 0 <= i < b.len() ==> crate::text::is_digit(#[trigger] b[i]));
    } else {
        lemma_decimal_reads_back(n / 10, max);
        let a = decimal(n / 10).map_values(|c: char| c as u8);
        assert(b =~= a.push((n % 10 + 48) as u8));
        assert(b.drop_last() =~= a);
        assert(b[0] == a[0]);
        assert(crate::text::digits_value(b) == crate::text::digits_value(a) * 10 + n % 10);
        assert(crate::text::digits_value(b) == n);
        assert(forall|i: int| 0 <= i < b.len() ==> crate::text::is_digit(#[trigger] b[i])) by {
            assert forall|i: int| 0 <= i < b.len() implies crate::text::is_digit(#[trigger] b[i]) by {
                if i < a.len() {
                    assert(b[i] == a[i]);
                }
            }
        }
    }
    assert(crate::text::unsigned_digits(b) == b);
}

/// Appends the decimal text of `n`.
pub fn push_decimal(out: &mut String, n: u64)
    ensures
        final(out)@ == old(out)@ + decimal(n as nat),
    decreases n,
{
    if n >= 10 {
        push_decimal(out, n / 10);
    }
    let d = (n % 10) as u8;
    out.push((d + 48) as char);
    proof {
        assert(old(out)@ + decimal(n as nat) =~= final(out)@);
    }
}

/// Appends a string slice.
pub fn push_text(out: &mut String, t: &str)
    ensures
        final(out)@ == old(out)@ + t@,
{
    out.append(t);
}

} // verus!
