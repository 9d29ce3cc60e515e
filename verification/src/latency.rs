//! The latency that a probe reports, held as the decimal numeral that the
//! probing utility printed.
//!
//! A latency is a numeral with an optional minus sign, digits, and at most
//! one point among them; it is kept only when it is not below zero. The
//! numeral is kept as text, so no digit of it is lost.
use crate::text::{all_digits, char_is_digit, find_char, index_of, is_digit, to_chars};
use vstd::prelude::*;
use vstd::slice::slice_subrange;
use vstd::string::StringExecFns;

verus! {

/// The numeral without its minus sign, if it has one.
pub open spec fn unsigned_part(t: Seq<char>) -> Seq<char> {
    if t.len() > 0 && t[0] == '-' {
        t.drop_first()
    } else {
        t
    }
}

/// The digits before the point.
pub open spec fn whole_part(t: Seq<char>) -> Seq<char> {
    unsigned_part(t).take(index_of(unsigned_part(t), '.'))
}

/// The digits after the point; none where there is no point.
pub open spec fn fraction_part(t: Seq<char>) -> Seq<char> {
    let body = unsigned_part(t);
    if index_of(body, '.') < body.len() {
        body.skip(index_of(body, '.') + 1)
    } else {
        Seq::empty()
    }
}

/// A decimal numeral: an optional minus sign, then digits with at most one
/// point among them, before them or after them, and at least one digit.
pub open spec fn is_decimal_literal(t: Seq<char>) -> bool {
    &&& all_digits(whole_part(t))
    &&& all_digits(fraction_part(t))
    &&& whole_part(t).len() + fraction_part(t).len() >= 1
}

/// Every digit is a zero.
pub open spec fn all_zeros(s: Seq<char>) -> bool {
    forall|i: int| 0 <= i < s.len() ==> #[trigger] s[i] == '0'
}

/// A decimal numeral that denotes a number below zero: it has a minus sign
/// and a digit other than zero.
pub open spec fn is_negative_literal(t: Seq<char>) -> bool {
    &&& t.len() > 0
    &&& t[0] == '-'
    &&& !(all_zeros(whole_part(t)) && all_zeros(fraction_part(t)))
}

/// A numeral that is kept as a latency: a decimal numeral that is not below
/// zero.
pub open spec fn is_latency_literal(t: Seq<char>) -> bool {
    is_decimal_literal(t) && !is_negative_literal(t)
}

/// A round-trip time in milliseconds, as the numeral that reported it.
#[derive(Debug)]
pub struct Latency {
    text: String,
}

impl View for Latency {
    type V = Seq<char>;

    /// The numeral of the latency.
    closed spec fn view(&self) -> Seq<char> {
        self.text@
    }
}

impl Clone for Latency {
    fn clone(&self) -> (r: Self)
        ensures
            r@ == self@,
    {
        proof {
            use_type_invariant(self);
        }
        Latency { text: self.text.clone() }
    }
}

impl Latency {
    /// The text is a decimal numeral that is not below zero.
    #[verifier::type_invariant]
    closed spec fn well_formed(&self) -> bool {
        is_latency_literal(self.text@)
    }

    /// Reads a latency: `Some` exactly for a decimal numeral that is not
    /// below zero, and then the latency is that numeral.
    pub fn parse(s: &str) -> (r: Option<Latency>)
        ensures
            r is Some <==> is_latency_literal(s@),
            r matches Some(l) ==> l@ == s@,
    {
        let chars = to_chars(s);
        if check_latency_literal(chars.as_slice()) {
            Some(Latency { text: String::from_str(s) })
        } else {
            None
        }
    }

    /// The numeral of this latency.
    pub fn as_str(&self) -> (s: &str)
        ensures
            s@ == self@,
            is_latency_literal(s@),
    {
        proof {
            use_type_invariant(self);
        }
        self.text.as_str()
    }
}

/// Whether every character is a digit.
fn check_all_digits(s: &[char]) -> (b: bool)
    ensures
        b == all_digits(s@),
{
    let mut i: usize = 0;
    while i < s.len()
        invariant
            i <= s@.len(),
            forall|j: int| 0 <= j < i ==> is_digit(s@[j]),
        decreases s@.len() - i,
    {
        if !char_is_digit(s[i]) {
            return false;
        }
        i += 1;
    }
    true
}

/// Whether every character is a zero.
fn check_all_zeros(s: &[char]) -> (b: bool)
    ensures
        b == all_zeros(s@),
{
    let mut i: usize = 0;
    while i < s.len()
        invariant
            i <= s@.len(),
            forall|j: int| 0 <= j < i ==> s@[j] == '0',
        decreases s@.len() - i,
    {
        if s[i] != '0' {
            return false;
        }
        i += 1;
    }
    true
}

/// Whether `t` is a decimal numeral that is not below zero.
pub fn check_latency_literal(t: &[char]) -> (b: bool)
    ensures
        b == is_latency_literal(t@),
{
    let n: usize = t.len();
    let signed: bool = n > 0 && t[0] == '-';
    let body: &[char] = if signed {
        slice_subrange(t, 1, n)
    } else {
        t
    };
    assert(body@ =~= unsigned_part(t@));
    let dot: usize = find_char(body, '.');
    let whole: &[char] = slice_subrange(body, 0, dot);
    assert(whole@ =~= whole_part(t@));
    let m: usize = body.len();
    let fraction: &[char] = if dot < m {
        slice_subrange(body, dot + 1, m)
    } else {
        slice_subrange(body, m, m)
    };
    assert(fraction@ =~= fraction_part(t@));
    if !check_all_digits(whole) || !check_all_digits(fraction) {
        return false;
    }
    if whole.len() == 0 && fraction.len() == 0 {
        return false;
    }
    if signed {
        check_all_zeros(whole) && check_all_zeros(fraction)
    } else {
        true
    }
}

} // verus!
