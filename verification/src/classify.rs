//! Reading the output of one run of the probing utility: was the host
//! reached, and with what latency.
//!
//! The bytes are first turned into text and the text is lower-cased; from
//! there on everything is a search in a sequence of characters.
use crate::latency::{check_latency_literal, is_latency_literal, Latency};
use crate::scan::{
    find_numeric, find_word, first_occurrence, numeric_run, numeric_run_len, numeric_start,
};
use crate::text::to_chars;
use vstd::prelude::*;
use vstd::slice::slice_subrange;
use vstd::string::StrSliceExecFns;
use vstd::utf8::{decode_utf8, valid_utf8};

verus! {

/// The two families of probing utility.
#[derive(Clone, Copy, Debug, PartialEq, Eq, Structural)]
pub enum Platform {
    /// The utility takes its timeout in milliseconds, prints in the language
    /// of the machine, and its exit status says nothing reliable.
    MillisecondTimeout,
    /// The utility takes its timeout in whole seconds, and its exit status
    /// says whether the host answered.
    DecimalTimeout,
}

/// What one run of the utility showed.
#[derive(Clone, Debug)]
pub struct Verdict {
    /// Whether the host answered.
    pub success: bool,
    /// The latency that the utility printed, on a success that printed one.
    pub latency: Option<Latency>,
}

/// The text that the GBK decoder of `encoding_rs` makes of `bytes`.
pub uninterp spec fn gbk_text(bytes: Seq<u8>) -> Seq<char>;

/// The text that `String::from_utf8_lossy` makes of `bytes`.
pub uninterp spec fn utf8_lossy_text(bytes: Seq<u8>) -> Seq<char>;

/// The text that `str::to_lowercase` makes of `s`.
pub uninterp spec fn lowercase_text(s: Seq<char>) -> Seq<char>;

/// The longest output that the GBK decoder is given: an eighth of the
/// address space, so that its buffer, which may be three times as long as its
/// input, can be sized.
pub open spec fn decodable(bytes: Seq<u8>) -> bool {
    bytes.len() <= usize::MAX / 8
}

/// The outputs that can be read for a family: any for the decimal family,
/// and for the millisecond family those that the GBK decoder can be given.
pub open spec fn readable(platform: Platform, bytes: Seq<u8>) -> bool {
    platform == Platform::MillisecondTimeout ==> decodable(bytes)
}

/// `core::str::from_utf8`: the text of `bytes` where they are valid UTF-8,
/// nothing where they are not.
#[verifier::external_body]
fn utf8_text(bytes: &[u8]) -> (r: Option<&str>)
    ensures
        r is Some <==> valid_utf8(bytes@),
        r matches Some(s) ==> s@ == decode_utf8(bytes@),
{
    core::str::from_utf8(bytes).ok()
}

/// `String::from_utf8_lossy`: the text of `bytes`, with the replacement
/// character in place of what is not valid UTF-8. The contract names the
/// result and says no more of it.
#[verifier::external_body]
fn utf8_lossy(bytes: &[u8]) -> (r: String)
    ensures
        r@ == utf8_lossy_text(bytes@),
{
    String::from_utf8_lossy(bytes).into_owned()
}

/// `encoding_rs::Encoding::decode` on `encoding_rs::GBK`: the text of
/// `bytes` read as GBK, a byte order mark at their start honoured and
/// malformed sequences replaced. The contract names the result and says no
/// more of it. The decoder panics when it cannot size its buffer, which the
/// bound on the length rules out.
#[verifier::external_body]
fn gbk_decode(bytes: &[u8]) -> (r: String)
    requires
        decodable(bytes@),
    ensures
        r@ == gbk_text(bytes@),
{
    encoding_rs::GBK.decode(bytes).0.into_owned()
}

/// `str::to_lowercase`: the lower-case equivalent of `s` by the Unicode
/// rules. The contract names the result and says no more of it.
#[verifier::external_body]
fn lowercase(s: &str) -> (r: String)
    ensures
        r@ == lowercase_text(s@),
{
    s.to_lowercase()
}

/// The text of the output of a utility of the given family, before it is
/// lower-cased. The millisecond family prints in the machine's language:
/// what is not valid UTF-8 is read as GBK. The other family's output is read
/// as UTF-8, with what is invalid replaced.
pub open spec fn decoded_text(platform: Platform, bytes: Seq<u8>) -> Seq<char> {
    match platform {
        Platform::MillisecondTimeout => if valid_utf8(bytes) {
            decode_utf8(bytes)
        } else {
            gbk_text(bytes)
        },
        Platform::DecimalTimeout => utf8_lossy_text(bytes),
    }
}

/// The text in which markers are looked for.
pub open spec fn output_text(platform: Platform, bytes: Seq<u8>) -> Seq<char> {
    lowercase_text(decoded_text(platform, bytes))
}

/// The words that show an answer in the output of the millisecond family, in
/// Chinese and in English.
pub open spec fn success_markers() -> Seq<Seq<char>> {
    seq![
        seq!['\u{56de}', '\u{590d}'],
        seq!['\u{6765}', '\u{81ea}'],
        seq!['r', 'e', 'p', 'l', 'y', ' ', 'f', 'r', 'o', 'm'],
        seq!['t', 't', 'l', '='],
        seq!['b', 'y', 't', 'e', 's', '='],
        seq!['t', 'i', 'm', 'e', '='],
    ]
}

/// The words that introduce a latency, in the order in which they are tried.
pub open spec fn time_markers() -> Seq<Seq<char>> {
    seq![
        seq!['t', 'i', 'm', 'e', '='],
        seq!['\u{65f6}', '\u{95f4}', '='],
        seq!['l', 'a', 't', 'e', 'n', 'c', 'y', '='],
    ]
}

/// Some word among the first `n` of `words` stands in `text`.
pub open spec fn any_occurs(text: Seq<char>, words: Seq<Seq<char>>, n: int) -> bool {
    exists|k: int| 0 <= k < n && k < words.len() && first_occurrence(text, #[trigger] words[k]) is Some
}

/// The text shows an answer.
pub open spec fn has_success_marker(text: Seq<char>) -> bool {
    any_occurs(text, success_markers(), success_markers().len() as int)
}

/// Where the text goes on after a marker: the first word of `words` from
/// index `k` on that stands in `text` decides, and the place is the end of
/// its first occurrence.
pub open spec fn marker_end(text: Seq<char>, words: Seq<Seq<char>>, k: int) -> Option<int>
    decreases words.len() - k,
{
    if k < 0 || k >= words.len() {
        None
    } else {
        match first_occurrence(text, words[k]) {
            Some(i) => Some(i + words[k].len()),
            None => marker_end(text, words, k + 1),
        }
    }
}

/// The numeral that follows the first time marker: from the end of the
/// marker, the first numeric character and all numeric characters that
/// follow it without a gap.
pub open spec fn latency_token(text: Seq<char>) -> Option<Seq<char>> {
    match marker_end(text, time_markers(), 0) {
        None => None,
        Some(p) => {
            let rest = text.skip(p);
            let from = numeric_start(rest);
            if from >= rest.len() {
                None
            } else {
                Some(rest.skip(from).take(numeric_run_len(rest.skip(from))))
            }
        },
    }
}

/// The latency that the text reports: the numeral after the first time
/// marker, where it is a decimal numeral and not below zero.
pub open spec fn reported_latency(text: Seq<char>) -> Option<Seq<char>> {
    match latency_token(text) {
        Some(t) => if is_latency_literal(t) {
            Some(t)
        } else {
            None
        },
        None => None,
    }
}

/// Whether the run counts as an answer: by the words in the text for the
/// millisecond family, by the exit status for the other. A run that printed
/// nothing is no answer for either.
pub open spec fn is_answer(platform: Platform, text: Seq<char>, exit_ok: bool) -> bool {
    match platform {
        Platform::MillisecondTimeout => has_success_marker(text),
        Platform::DecimalTimeout => exit_ok && text.len() > 0,
    }
}

/// What a verdict must be for a text and an exit status: a success exactly
/// for an answer, and a latency only on a success.
pub open spec fn verdict_matches(
    v: Verdict,
    platform: Platform,
    text: Seq<char>,
    exit_ok: bool,
) -> bool {
    &&& v.success == is_answer(platform, text, exit_ok)
    &&& match v.latency {
        Some(l) => v.success && reported_latency(text) == Some(l@),
        None => !v.success || reported_latency(text) is None,
    }
}

/// The success markers as vectors of characters.
fn success_words() -> (w: Vec<Vec<char>>)
    ensures
        w@.len() == success_markers().len(),
        forall|k: int| 0 <= k < w@.len() ==> (#[trigger] w@[k])@ == success_markers()[k],
{
    let mut w: Vec<Vec<char>> = Vec::new();
    w.push(vec!['\u{56de}', '\u{590d}']);
    w.push(vec!['\u{6765}', '\u{81ea}']);
    w.push(vec!['r', 'e', 'p', 'l', 'y', ' ', 'f', 'r', 'o', 'm']);
    w.push(vec!['t', 't', 'l', '=']);
    w.push(vec!['b', 'y', 't', 'e', 's', '=']);
    w.push(vec!['t', 'i', 'm', 'e', '=']);
    assert forall|k: int| 0 <= k < w@.len() implies (#[trigger] w@[k])@ == success_markers()[k] by {
        assert(w@[k]@ =~= success_markers()[k]);
    }
    w
}

/// The time markers as vectors of characters.
fn time_words() -> (w: Vec<Vec<char>>)
    ensures
        w@.len() == time_markers().len(),
        forall|k: int| 0 <= k < w@.len() ==> (#[trigger] w@[k])@ == time_markers()[k],
{
    let mut w: Vec<Vec<char>> = Vec::new();
    w.push(vec!['t', 'i', 'm', 'e', '=']);
    w.push(vec!['\u{65f6}', '\u{95f4}', '=']);
    w.push(vec!['l', 'a', 't', 'e', 'n', 'c', 'y', '=']);
    assert forall|k: int| 0 <= k < w@.len() implies (#[trigger] w@[k])@ == time_markers()[k] by {
        assert(w@[k]@ =~= time_markers()[k]);
    }
    w
}

/// Whether a lower-cased text shows an answer of the millisecond family.
pub fn shows_answer(text: &str) -> (b: bool)
    ensures
        b == has_success_marker(text@),
{
    let chars = to_chars(text);
    let words = success_words();
    let mut k: usize = 0;
    while k < words.len()
        invariant
            chars@ == text@,
            k <= words@.len(),
            words@.len() == success_markers().len(),
            forall|j: int| 0 <= j < words@.len() ==> (#[trigger] words@[j])@ == success_markers()[j],
            !any_occurs(text@, success_markers(), k as int),
        decreases words@.len() - k,
    {
        let found = find_word(chars.as_slice(), words[k].as_slice());
        assert(words@[k as int]@ == success_markers()[k as int]);
        if found.is_some() {
            assert(first_occurrence(text@, success_markers()[k as int]) is Some);
            return true;
        }
        k += 1;
    }
    false
}

/// The place in `chars` after the first time marker.
fn find_marker_end(chars: &[char]) -> (r: Option<usize>)
    ensures
        match marker_end(chars@, time_markers(), 0) {
            Some(p) => 0 <= p <= chars@.len() && r == Some(p as usize),
            None => r is None,
        },
{
    let words = time_words();
    let n: usize = chars.len();
    let mut k: usize = 0;
    while k < words.len()
        invariant
            n == chars@.len(),
            k <= words@.len(),
            words@.len() == time_markers().len(),
            forall|j: int| 0 <= j < words@.len() ==> (#[trigger] words@[j])@ == time_markers()[j],
            marker_end(chars@, time_markers(), 0) == marker_end(chars@, time_markers(), k as int),
        decreases words@.len() - k,
    {
        assert(words@[k as int]@ == time_markers()[k as int]);
        match find_word(chars, words[k].as_slice()) {
            Some(i) => {
                return Some(i + words[k].len());
            },
            None => {},
        }
        k += 1;
    }
    None
}

/// Reads the latency that a lower-cased text reports: the numeral after the
/// first time marker, where it is a decimal numeral and not below zero.
pub fn latency_of_text(text: &str) -> (r: Option<Latency>)
    ensures
        match reported_latency(text@) {
            Some(t) => r is Some && r->Some_0@ == t,
            None => r is None,
        },
{
    let chars = to_chars(text);
    let s: &[char] = chars.as_slice();
    let n: usize = s.len();
    let p: usize = match find_marker_end(s) {
        Some(p) => p,
        None => { return None; },
    };
    let rest: &[char] = slice_subrange(s, p, n);
    assert(rest@ =~= s@.skip(p as int));
    let from: usize = find_numeric(rest);
    if from >= rest.len() {
        return None;
    }
    let tail: &[char] = slice_subrange(rest, from, rest.len());
    assert(tail@ =~= rest@.skip(from as int));
    let len: usize = numeric_run(tail);
    let token: &[char] = slice_subrange(tail, 0, len);
    assert(token@ =~= tail@.take(len as int));
    if !check_latency_literal(token) {
        return None;
    }
    let numeral: &str = text.substring_char(p + from, p + from + len);
    assert(numeral@ =~= token@);
    Latency::parse(numeral)
}

/// Judges one run of the utility from its lower-cased output text and its
/// exit status.
pub fn classify_text(platform: Platform, text: &str, exit_ok: bool) -> (v: Verdict)
    ensures
        verdict_matches(v, platform, text@, exit_ok),
{
    let success: bool = match platform {
        Platform::MillisecondTimeout => shows_answer(text),
        Platform::DecimalTimeout => exit_ok && !text.is_empty(),
    };
    if success {
        Verdict { success: true, latency: latency_of_text(text) }
    } else {
        Verdict { success: false, latency: None }
    }
}

/// Turns the output of the utility into the text in which markers are
/// looked for.
pub fn decode_output(platform: Platform, output: &[u8]) -> (text: String)
    requires
        readable(platform, output@),
    ensures
        text@ == output_text(platform, output@),
{
    match platform {
        Platform::MillisecondTimeout => match utf8_text(output) {
            Some(s) => lowercase(s),
            None => {
                let decoded = gbk_decode(output);
                lowercase(decoded.as_str())
            },
        },
        Platform::DecimalTimeout => {
            let decoded = utf8_lossy(output);
            lowercase(decoded.as_str())
        },
    }
}

/// Judges one run of the utility from the bytes it printed and its exit
/// status.
pub fn classify_output(platform: Platform, output: &[u8], exit_ok: bool) -> (v: Verdict)
    requires
        readable(platform, output@),
    ensures
        verdict_matches(v, platform, output_text(platform, output@), exit_ok),
{
    let text = decode_output(platform, output);
    classify_text(platform, text.as_str(), exit_ok)
}

/// Reads the latency from the bytes that a utility of the decimal family
/// printed.
pub fn extract_response_time(output: &[u8]) -> (r: Option<Latency>)
    ensures
        match reported_latency(output_text(Platform::DecimalTimeout, output@)) {
            Some(t) => r is Some && r->Some_0@ == t,
            None => r is None,
        },
{
    let decoded = utf8_lossy(output);
    let text = lowercase(decoded.as_str());
    latency_of_text(text.as_str())
}

} // verus!
