//! Searching a text for a word and for the first numeral after a position.
use crate::text::is_digit;
use vstd::prelude::*;

verus! {

/// `pat` stands in `s` at index `i`.
pub open spec fn occurs_at(s: Seq<char>, pat: Seq<char>, i: int) -> bool {
    0 <= i && i + pat.len() <= s.len() && s.subrange(i, i + pat.len()) == pat
}

/// The first index at or after `i` at which `pat` stands in `s`.
pub open spec fn occurrence_from(s: Seq<char>, pat: Seq<char>, i: int) -> Option<int>
    decreases s.len() - i,
{
    if 0 <= i && i + pat.len() <= s.len() {
        if occurs_at(s, pat, i) {
            Some(i)
        } else if i < s.len() {
            occurrence_from(s, pat, i + 1)
        } else {
            None
        }
    } else {
        None
    }
}

/// The first index at which `pat` stands in `s`.
pub open spec fn first_occurrence(s: Seq<char>, pat: Seq<char>) -> Option<int> {
    occurrence_from(s, pat, 0)
}

/// A character that a numeral of a latency may hold: a digit, a point or a
/// minus sign.
pub open spec fn is_numeric_char(c: char) -> bool {
    is_digit(c) || c == '.' || c == '-'
}

/// The index of the first numeric character of `s`, or its length when it
/// holds none.
pub open spec fn numeric_start(s: Seq<char>) -> int
    decreases s.len(),
{
    if s.len() == 0 || is_numeric_char(s[0]) {
        0
    } else {
        1 + numeric_start(s.drop_first())
    }
}

/// How many numeric characters `s` begins with.
pub open spec fn numeric_run_len(s: Seq<char>) -> int
    decreases s.len(),
{
    if s.len() == 0 || !is_numeric_char(s[0]) {
        0
    } else {
        1 + numeric_run_len(s.drop_first())
    }
}

/// The first occurrence is an occurrence, and there is none before it; where
/// there is no first occurrence, there is no occurrence at all.
pub proof fn lemma_occurrence_from(s: Seq<char>, pat: Seq<char>, i: int)
    requires
        0 <= i,
    ensures
        match occurrence_from(s, pat, i) {
            Some(k) => i <= k && occurs_at(s, pat, k) && forall|j: int|
                i <= j < k ==> !occurs_at(s, pat, j),
            None => forall|j: int| i <= j ==> !occurs_at(s, pat, j),
        },
    decreases s.len() - i,
{
    if i + pat.len() <= s.len() && !occurs_at(s, pat, i) {
        if i < s.len() {
            lemma_occurrence_from(s, pat, i + 1);
        } else {
            assert(pat.len() == 0);
            assert(s.subrange(i, i + pat.len()) =~= pat);
        }
    }
}

/// The position that holds `pat` with no occurrence from `i` on before it is
/// the first occurrence from `i` on.
pub proof fn lemma_occurrence_from_is(s: Seq<char>, pat: Seq<char>, i: int, k: int)
    requires
        0 <= i <= k,
        occurs_at(s, pat, k),
        forall|j: int| i <= j < k ==> !occurs_at(s, pat, j),
    ensures
        occurrence_from(s, pat, i) == Some(k),
    decreases k - i,
{
    if i < k {
        lemma_occurrence_from_is(s, pat, i + 1, k);
    }
}

/// `numeric_start` is the one position that holds a numeric character with
/// none before it.
pub proof fn lemma_numeric_start_is(s: Seq<char>, i: int)
    requires
        0 <= i <= s.len(),
        forall|j: int| 0 <= j < i ==> !is_numeric_char(s[j]),
        i < s.len() ==> is_numeric_char(s[i]),
    ensures
        numeric_start(s) == i,
    decreases s.len(),
{
    if s.len() > 0 && i > 0 {
        let t = s.drop_first();
        assert forall|j: int| 0 <= j < i - 1 implies !is_numeric_char(t[j]) by {
            assert(t[j] == s[j + 1]);
        }
        lemma_numeric_start_is(t, i - 1);
    }
}

/// `numeric_run_len` is the one position before which every character is
/// numeric and at which the run ends.
pub proof fn lemma_numeric_run_len_is(s: Seq<char>, i: int)
    requires
        0 <= i <= s.len(),
        forall|j: int| 0 <= j < i ==> is_numeric_char(s[j]),
        i < s.len() ==> !is_numeric_char(s[i]),
    ensures
        numeric_run_len(s) == i,
    decreases s.len(),
{
    if s.len() > 0 && i > 0 {
        let t = s.drop_first();
        assert forall|j: int| 0 <= j < i - 1 implies is_numeric_char(t[j]) by {
            assert(t[j] == s[j + 1]);
        }
        lemma_numeric_run_len_is(t, i - 1);
    }
}

/// Whether a character may stand in the numeral of a latency.
pub fn char_is_numeric(c: char) -> (b: bool)
    ensures
        b == is_numeric_char(c),
{
    let u: u32 = c as u32;
    (0x30 <= u && u <= 0x39) || c == '.' || c == '-'
}

/// Whether `pat` stands in `s` at index `i`.
pub fn matches_at(s: &[char], pat: &[char], i: usize) -> (b: bool)
    requires
        i + pat@.len() <= s@.len(),
    ensures
        b == occurs_at(s@, pat@, i as int),
{
    let m: usize = pat.len();
    let n: usize = s.len();
    let mut k: usize = 0;
    while k < m
        invariant
            m == pat@.len(),
            n == s@.len(),
            i + m <= s@.len(),
            k <= m,
            forall|j: int| 0 <= j < k ==> s@[i + j] == pat@[j],
        decreases m - k,
    {
        if s[i + k] != pat[k] {
            assert(s@.subrange(i as int, i + m)[k as int] != pat@[k as int]);
            return false;
        }
        k += 1;
    }
    assert(s@.subrange(i as int, i + m) =~= pat@);
    true
}

/// Finds the first place at which `pat` stands in `s`.
pub fn find_word(s: &[char], pat: &[char]) -> (r: Option<usize>)
    ensures
        match first_occurrence(s@, pat@) {
            Some(k) => 0 <= k && r == Some(k as usize) && k + pat@.len() <= s@.len(),
            None => r is None,
        },
{
    let n: usize = s.len();
    let m: usize = pat.len();
    if m > n {
        return None;
    }
    let last: usize = n - m;
    let mut i: usize = 0;
    while i < last
        invariant
            n == s@.len(),
            m == pat@.len(),
            last == n - m,
            i <= last,
            forall|j: int| 0 <= j < i ==> !occurs_at(s@, pat@, j),
        decreases last - i,
    {
        if matches_at(s, pat, i) {
            proof {
                lemma_occurrence_from_is(s@, pat@, 0, i as int);
            }
            return Some(i);
        }
        i += 1;
    }
    if matches_at(s, pat, last) {
        proof {
            lemma_occurrence_from_is(s@, pat@, 0, last as int);
        }
        Some(last)
    } else {
        proof {
            lemma_occurrence_from(s@, pat@, 0);
        }
        None
    }
}

/// Finds the first numeric character of `s`; its length when it holds none.
pub fn find_numeric(s: &[char]) -> (i: usize)
    ensures
        i == numeric_start(s@),
        i <= s@.len(),
{
    let mut i: usize = 0;
    while i < s.len() && !char_is_numeric(s[i])
        invariant
            i <= s@.len(),
            forall|j: int| 0 <= j < i ==> !is_numeric_char(s@[j]),
        decreases s@.len() - i,
    {
        i += 1;
    }
    proof {
        lemma_numeric_start_is(s@, i as int);
    }
    i
}

/// Counts the numeric characters that `s` begins with.
pub fn numeric_run(s: &[char]) -> (i: usize)
    ensures
        i == numeric_run_len(s@),
        i <= s@.len(),
        forall|j: int| 0 <= j < i ==> is_numeric_char(s@[j]),
{
    let mut i: usize = 0;
    while i < s.len() && char_is_numeric(s[i])
        invariant
            i <= s@.len(),
            forall|j: int| 0 <= j < i ==> is_numeric_char(s@[j]),
        decreases s@.len() - i,
    {
        i += 1;
    }
    proof {
        lemma_numeric_run_len_is(s@, i as int);
    }
    i
}

} // verus!
