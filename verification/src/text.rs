//! Character and string helpers: ASCII upper-casing and decimal rendering.

use vstd::prelude::*;
use vstd::string::StringExecFns;

verus! {

/// ASCII upper-casing of a single character: `a`..`z` map to `A`..`Z`,
/// every other character is unchanged.
pub open spec fn spec_upper(c: char) -> char {
    if 'a' <= c && c <= 'z' {
        ((c as int) - 32) as char
    } else {
        c
    }
}

/// Pointwise ASCII upper-casing of a character sequence.
pub open spec fn upper_seq(s: Seq<char>) -> Seq<char> {
    Seq::new(s.len(), |i: int| spec_upper(s[i]))
}

/// Upper-casing is idempotent: an upper-cased character has no lower-case form.
pub proof fn lemma_upper_idempotent(c: char)
    ensures
        spec_upper(spec_upper(c)) == spec_upper(c),
{
}

/// ASCII upper-casing of one character.
pub fn upper_char(c: char) -> (r: char)
    ensures
        r == spec_upper(c),
{
    let u = c as u32;
    if 97 <= u && u <= 122 {
        ((u - 32) as u8) as char
    } else {
        c
    }
}

/// Relies on `String::push` from std: appends exactly the given character at
/// the end of the string.
#[verifier::external_body]
pub(crate) fn push_char(s: &mut String, c: char)
    ensures
        final(s)@ == old(s)@.push(c),
{
    s.push(c);
}

/// ASCII upper-casing of a string.
pub fn to_upper_string(s: &str) -> (r: String)
    ensures
        r@ == upper_seq(s@),
{
    let n = s.unicode_len();
    let mut r = String::new();
    let mut i: usize = 0;
    while i < n
        invariant
            n == s@.len(),
            i <= n,
            r@ == upper_seq(s@).take(i as int),
        decreases n - i,
    {
        let c = s.get_char(i);
        push_char(&mut r, upper_char(c));
        i = i + 1;
        proof {
            assert(r@ =~= upper_seq(s@).take(i as int));
        }
    }
    proof {
        assert(upper_seq(s@).take(n as int) =~= upper_seq(s@));
    }
    r
}

/// The decimal digit character of a value below ten.
pub open spec fn digit_char(d: int) -> char {
    (48 + d) as char
}

/// The decimal rendering of a non-negative integer, most significant digit
/// first, with no leading zeros (a lone zero for zero itself).
pub open spec fn dec_str(n: nat) -> Seq<char>
    decreases n,
{
    if n < 10 {
        seq![digit_char(n as int)]
    } else {
        dec_str(n / 10).push(digit_char((n % 10) as int))
    }
}

/// Renders an integer in decimal.
pub fn dec_string(n: usize) -> (r: String)
    ensures
        r@ == dec_str(n as nat),
{
    let mut digits: Vec<char> = Vec::new();
    let mut m: usize = n;
    loop
        invariant_except_break
            dec_str(n as nat) == dec_str(m as nat) + digits@.reverse(),
        ensures
            dec_str(n as nat) == digits@.reverse(),
        decreases m,
    {
        let ghost prev = digits@;
        let d = m % 10;
        let c = ((48 + d) as u8) as char;
        digits.push(c);
        proof {
            assert(digits@.reverse() =~= seq![c] + prev.reverse());
            assert(digit_char((m % 10) as int) == c);
            if m < 10 {
                assert(dec_str(m as nat) =~= seq![c]);
                assert(dec_str(n as nat) =~= digits@.reverse());
            } else {
                assert(dec_str(m as nat) == dec_str((m / 10) as nat).push(c));
                assert(dec_str((m / 10) as nat) + digits@.reverse() =~= dec_str(m as nat)
                    + prev.reverse());
            }
        }
        if m < 10 {
            break ;
        }
        m = m / 10;
    }
    let mut r = String::new();
    let mut i: usize = digits.len();
    while i > 0
        invariant
            i <= digits@.len(),
            r@ =~= digits@.subrange(i as int, digits@.len() as int).reverse(),
        decreases i,
    {
        i = i - 1;
        push_char(&mut r, digits[i]);
        proof {
            assert(r@ =~= digits@.subrange(i as int, digits@.len() as int).reverse());
        }
    }
    proof {
        assert(digits@.subrange(0, digits@.len() as int) =~= digits@);
        assert(r@ =~= dec_str(n as nat));
    }
    r
}

} // verus!
