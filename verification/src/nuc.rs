//! The four-letter nucleotide alphabet and its text conversions.

use vstd::prelude::*;
use vstd::string::StringExecFns;

use crate::text::push_char;
use crate::text::spec_upper;
use crate::text::to_upper_string;
use crate::text::upper_char;
use crate::text::upper_seq;

verus! {

/// A nucleotide.
#[derive(Debug, Clone, Copy, PartialEq, Eq, Hash, Structural)]
pub enum Nuc {
    /// Adenine
    A,
    /// Cytosine
    C,
    /// Guanine
    G,
    /// Thymine
    T,
}

/// The nucleotide denoted by a character, case-insensitively; `None` for any
/// character outside the alphabet.
pub open spec fn char_nuc(c: char) -> Option<Nuc> {
    if spec_upper(c) == 'A' {
        Some(Nuc::A)
    } else if spec_upper(c) == 'C' {
        Some(Nuc::C)
    } else if spec_upper(c) == 'G' {
        Some(Nuc::G)
    } else if spec_upper(c) == 'T' {
        Some(Nuc::T)
    } else {
        None
    }
}

/// The canonical (upper-case) letter of a nucleotide.
pub open spec fn nuc_char(n: Nuc) -> char {
    match n {
        Nuc::A => 'A',
        Nuc::C => 'C',
        Nuc::G => 'G',
        Nuc::T => 'T',
    }
}

/// Reading a character depends only on its upper-cased form, and the
/// canonical letter of the nucleotide read is that upper-cased form.
pub proof fn lemma_char_nuc_upper(c: char)
    ensures
        char_nuc(c) == char_nuc(spec_upper(c)),
        char_nuc(c) is Some ==> nuc_char(char_nuc(c)->0) == spec_upper(c),
{
    crate::text::lemma_upper_idempotent(c);
}

/// Whether every character of a text denotes a nucleotide, case-insensitively.
pub open spec fn valid_text(s: Seq<char>) -> bool {
    forall|i: int| 0 <= i < s.len() ==> char_nuc(#[trigger] s[i]) is Some
}

/// The nucleotide sequence a valid text denotes.
pub open spec fn parsed(s: Seq<char>) -> Seq<Nuc>
    recommends
        valid_text(s),
{
    Seq::new(s.len(), |i: int| char_nuc(s[i])->0)
}

/// How many characters of a text denote the given nucleotide,
/// case-insensitively.
pub open spec fn count_char_ci(s: Seq<char>, n: Nuc) -> nat
    decreases s.len(),
{
    if s.len() == 0 {
        0
    } else {
        count_char_ci(s.drop_last(), n) + (if char_nuc(s.last()) == Some(n) {
            1nat
        } else {
            0nat
        })
    }
}

/// Case insensitivity: texts with the same upper-cased form are equally
/// valid and denote the same symbol sequence, so building from either yields
/// identical packed representations and identical counts.
pub proof fn lemma_case_insensitive(s1: Seq<char>, s2: Seq<char>)
    requires
        upper_seq(s1) == upper_seq(s2),
    ensures
        valid_text(s1) <==> valid_text(s2),
        valid_text(s1) ==> parsed(s1) == parsed(s2),
{
    assert(s1.len() == s2.len()) by {
        assert(upper_seq(s1).len() == s1.len());
        assert(upper_seq(s2).len() == s2.len());
    }
    assert forall|i: int|
        #![trigger char_nuc(s1[i])]
        #![trigger char_nuc(s2[i])]
        0 <= i < s1.len() implies char_nuc(s1[i]) == char_nuc(s2[i]) by {
        assert(spec_upper(s1[i]) == spec_upper(s2[i])) by {
            assert(upper_seq(s1)[i] == spec_upper(s1[i]));
            assert(upper_seq(s2)[i] == spec_upper(s2[i]));
        }
        lemma_char_nuc_upper(s1[i]);
        lemma_char_nuc_upper(s2[i]);
    }
    if valid_text(s1) {
        assert(valid_text(s2));
        assert(parsed(s1) =~= parsed(s2));
    }
    if valid_text(s2) {
        assert(valid_text(s1));
    }
}

/// An error carrying the text that failed to denote a nucleotide.
#[derive(Debug)]
pub struct ParseNucError<T>(T);

/// The diagnostic message for a failed parse of the given text.
pub open spec fn parse_error_msg(v: Seq<char>) -> Seq<char> {
    "failed to parse nucleotide from "@ + v
}

impl<T> ParseNucError<T> {
    /// The offending input carried for diagnostics.
    pub closed spec fn value(self) -> T {
        self.0
    }

    pub(crate) fn new(v: T) -> (r: ParseNucError<T>)
        ensures
            r.value() == v,
    {
        ParseNucError(v)
    }
}

impl ParseNucError<char> {
    /// The diagnostic message, naming the offending character.
    pub fn message(&self) -> (r: String)
        ensures
            r@ == parse_error_msg(seq![self.value()]),
    {
        let mut r = String::from_str("failed to parse nucleotide from ");
        push_char(&mut r, self.0);
        proof {
            assert(r@ =~= parse_error_msg(seq![self.value()]));
        }
        r
    }
}

impl ParseNucError<String> {
    /// The diagnostic message, naming the offending text.
    pub fn message(&self) -> (r: String)
        ensures
            r@ == parse_error_msg(self.value()@),
    {
        let mut r = String::from_str("failed to parse nucleotide from ");
        r.append(self.0.as_str());
        r
    }
}

impl Nuc {
    /// Parses one character, case-insensitively; any character outside
    /// `A`/`C`/`G`/`T` fails, the error carrying that character.
    pub fn try_from(value: char) -> (r: Result<Nuc, ParseNucError<char>>)
        ensures
            r is Ok <==> char_nuc(value) is Some,
            r is Ok ==> r->Ok_0 == char_nuc(value)->0,
            r is Err ==> r->Err_0.value() == value,
    {
        let up = upper_char(value);
        if up == 'A' {
            Ok(Nuc::A)
        } else if up == 'C' {
            Ok(Nuc::C)
        } else if up == 'G' {
            Ok(Nuc::G)
        } else if up == 'T' {
            Ok(Nuc::T)
        } else {
            Err(ParseNucError::new(value))
        }
    }

    /// Parses a single-character string, case-insensitively; any other string
    /// fails, the error carrying the upper-cased input.
    pub fn from_str(s: &str) -> (r: Result<Nuc, ParseNucError<String>>)
        ensures
            r is Ok <==> s@.len() == 1 && char_nuc(s@[0]) is Some,
            r is Ok ==> r->Ok_0 == char_nuc(s@[0])->0,
            r is Err ==> r->Err_0.value()@ == upper_seq(s@),
    {
        let upper = to_upper_string(s);
        if upper.as_str().unicode_len() == 1 {
            let c = upper.as_str().get_char(0);
            proof {
                crate::text::lemma_upper_idempotent(s@[0]);
            }
            if c == 'A' {
                Ok(Nuc::A)
            } else if c == 'C' {
                Ok(Nuc::C)
            } else if c == 'G' {
                Ok(Nuc::G)
            } else if c == 'T' {
                Ok(Nuc::T)
            } else {
                Err(ParseNucError::new(upper))
            }
        } else {
            Err(ParseNucError::new(upper))
        }
    }
}

} // verus!
