//! Decimal literals, kept as they were written.
//!
//! A literal is a run of digits with at most one point in it and at least one
//! digit: `12`, `1.5`, `.5` and `7.` are literals, `.` and `1.2.3` are not. That
//! is exactly the set of texts over digits and points that denote a number in
//! the usual decimal notation, so a caller can hand the text of any [`Decimal`]
//! to a number parser of its choice and never meet a malformed one.

use vstd::prelude::*;
use vstd::string::StringExecFns;

verus! {

/// One of the ten digits.
pub open spec fn is_digit(c: char) -> bool {
    '0' <= c <= '9'
}

/// A character that a literal may hold: a digit or the point.
pub open spec fn is_number_char(c: char) -> bool {
    is_digit(c) || c == '.'
}

/// `t` is a decimal literal: digits and at most one point, with a digit among
/// them.
pub open spec fn is_decimal(t: Seq<char>) -> bool {
    &&& forall|i: int| 0 <= i < t.len() ==> is_number_char(#[trigger] t[i])
    &&& exists|i: int| 0 <= i < t.len() && is_digit(#[trigger] t[i])
    &&& forall|i: int, j: int| 0 <= i < j < t.len() && #[trigger] t[i] == '.' ==> #[trigger] t[j] != '.'
}

/// Whether `c` is a digit or the point.
pub fn number_char(c: char) -> (r: bool)
    ensures
        r == is_number_char(c),
{
    ('0' <= c && c <= '9') || c == '.'
}

/// Whether `text` is a decimal literal.
pub fn decimal(text: &str) -> (r: bool)
    ensures
        r == is_decimal(text@),
{
    let mut clean = true;
    let mut digit = false;
    let mut point = false;
    let mut twice = false;
    for c in it: text.chars()
        invariant
            it.seq() == text@,
            clean <==> forall|i: int| 0 <= i < it.index() ==> is_number_char(#[trigger] text@[i]),
            digit <==> exists|i: int| 0 <= i < it.index() && is_digit(#[trigger] text@[i]),
            point <==> exists|i: int| 0 <= i < it.index() && #[trigger] text@[i] == '.',
            !twice <==> forall|i: int, j: int|
                0 <= i < j < it.index() && #[trigger] text@[i] == '.' ==> #[trigger] text@[j]
                    != '.',
    {
        if !number_char(c) {
            clean = false;
        }
        if '0' <= c && c <= '9' {
            digit = true;
        }
        if c == '.' {
            if point {
                twice = true;
            }
            point = true;
        }
    }
    clean && digit && !twice
}

/// A decimal literal.
#[derive(Debug, PartialEq)]
pub struct Decimal {
    text: String,
}

impl View for Decimal {
    type V = Seq<char>;

    closed spec fn view(&self) -> Seq<char> {
        self.text@
    }
}

impl Decimal {
    #[verifier::type_invariant]
    spec fn well_formed(self) -> bool {
        is_decimal(self.text@)
    }

    /// Reads `text` as a literal; `None` when it is not one.
    pub fn parse(text: &str) -> (r: Option<Decimal>)
        ensures
            r is Some <==> is_decimal(text@),
            r matches Some(d) ==> d@ == text@,
    {
        if decimal(text) {
            Some(Decimal { text: text.to_owned() })
        } else {
            None
        }
    }

    /// Takes `text` as a literal, or hands it back when it is not one.
    pub fn from_string(text: String) -> (r: Result<Decimal, String>)
        ensures
            r is Ok <==> is_decimal(text@),
            r matches Ok(d) ==> d@ == text@,
            r matches Err(t) ==> t@ == text@,
    {
        if decimal(text.as_str()) {
            Ok(Decimal { text })
        } else {
            Err(text)
        }
    }

    /// The literal as it was written.
    pub fn as_str(&self) -> (s: &str)
        ensures
            s@ == self@,
            is_decimal(s@),
    {
        proof {
            use_type_invariant(self);
        }
        self.text.as_str()
    }
}

impl Clone for Decimal {
    fn clone(&self) -> (r: Self)
        ensures
            r@ == self@,
    {
        proof {
            use_type_invariant(self);
        }
        Decimal { text: self.text.clone() }
    }
}

} // verus!
