//! IPv4 addresses as 32-bit numbers and as dotted-quad text.
//!
//! The text of an address is its four octets as shortest decimal numerals,
//! joined by dots. Reading is the exact inverse of writing: a text is
//! accepted only if it is the text of some address, and then it is the text
//! of the address that was read.
use crate::text::{
    all_digits, char_is_digit, decimal_text, decimal_value, find_char, index_of, is_canonical_numeral, is_digit,
    lemma_canonical_numeral_text, lemma_decimal_text_len, lemma_decimal_text_value,
    lemma_index_of_bounds, lemma_index_of_is, push_decimal,
};
use vstd::arithmetic::div_mod::{
    lemma_fundamental_div_mod_converse_div, lemma_fundamental_div_mod_converse_mod,
};
use vstd::prelude::*;
use vstd::slice::slice_subrange;

verus! {

/// The octet that `s` denotes: a canonical numeral of a number up to 255.
pub open spec fn octet_value(s: Seq<char>) -> Option<nat> {
    if is_canonical_numeral(s) && decimal_value(s) <= 255 {
        Some(decimal_value(s))
    } else {
        None
    }
}

/// The address with the octets `a.b.c.d`.
pub open spec fn compose(a: nat, b: nat, c: nat, d: nat) -> nat {
    a * 0x100_0000 + b * 0x1_0000 + c * 0x100 + d
}

/// Octet `k` of an address, counted from the left, `k` from 0 to 3.
pub open spec fn octet(addr: u32, k: int) -> nat {
    if k == 0 {
        (addr / 0x100_0000) as nat
    } else if k == 1 {
        (addr / 0x1_0000 % 0x100) as nat
    } else if k == 2 {
        (addr / 0x100 % 0x100) as nat
    } else {
        (addr % 0x100) as nat
    }
}

/// The dotted-quad text of an address.
pub open spec fn address_text(addr: u32) -> Seq<char> {
    decimal_text(octet(addr, 0)) + seq!['.'] + decimal_text(octet(addr, 1)) + seq!['.']
        + decimal_text(octet(addr, 2)) + seq!['.'] + decimal_text(octet(addr, 3))
}

/// The address that `s` denotes: four octets separated by three dots, with
/// nothing before, between or after them.
#[verifier::opaque]
pub open spec fn address_value(s: Seq<char>) -> Option<u32> {
    let i1 = index_of(s, '.');
    let r1 = s.skip(i1 + 1);
    let i2 = index_of(r1, '.');
    let r2 = r1.skip(i2 + 1);
    let i3 = index_of(r2, '.');
    let r3 = r2.skip(i3 + 1);
    if i1 < s.len() && i2 < r1.len() && i3 < r2.len() {
        match (
            octet_value(s.take(i1)),
            octet_value(r1.take(i2)),
            octet_value(r2.take(i3)),
            octet_value(r3),
        ) {
            (Some(a), Some(b), Some(c), Some(d)) => Some(compose(a, b, c, d) as u32),
            _ => None,
        }
    } else {
        None
    }
}

/// An address is made of its octets.
#[verifier::rlimit(50)]
pub proof fn lemma_octets_compose(addr: u32)
    ensures
        compose(octet(addr, 0), octet(addr, 1), octet(addr, 2), octet(addr, 3)) == addr,
        forall|k: int| 0 <= k <= 3 ==> #[trigger] octet(addr, k) <= 255,
{
}

/// The octets of a composed address are the ones it was made of.
#[verifier::rlimit(50)]
pub proof fn lemma_compose_octets(a: nat, b: nat, c: nat, d: nat)
    requires
        a <= 255,
        b <= 255,
        c <= 255,
        d <= 255,
    ensures
        compose(a, b, c, d) <= u32::MAX,
        octet(compose(a, b, c, d) as u32, 0) == a,
        octet(compose(a, b, c, d) as u32, 1) == b,
        octet(compose(a, b, c, d) as u32, 2) == c,
        octet(compose(a, b, c, d) as u32, 3) == d,
{
    let n = compose(a, b, c, d) as int;
    let low3 = (b * 0x1_0000 + c * 0x100 + d) as int;
    let low2 = (c * 0x100 + d) as int;
    lemma_fundamental_div_mod_converse_div(n, 0x100_0000, a as int, low3);
    lemma_fundamental_div_mod_converse_div(n, 0x1_0000, (a * 0x100 + b) as int, low2);
    lemma_fundamental_div_mod_converse_mod((a * 0x100 + b) as int, 0x100, a as int, b as int);
    lemma_fundamental_div_mod_converse_div(
        n,
        0x100,
        (a * 0x1_0000 + b * 0x100 + c) as int,
        d as int,
    );
    lemma_fundamental_div_mod_converse_mod(
        (a * 0x1_0000 + b * 0x100 + c) as int,
        0x100,
        (a * 0x100 + b) as int,
        c as int,
    );
    lemma_fundamental_div_mod_converse_mod(
        n,
        0x100,
        (a * 0x1_0000 + b * 0x100 + c) as int,
        d as int,
    );
}

/// A run of digits holds no dot.
proof fn lemma_numeral_has_no_dot(s: Seq<char>)
    requires
        all_digits(s),
    ensures
        forall|j: int| 0 <= j < s.len() ==> s[j] != '.',
{
    assert forall|j: int| 0 <= j < s.len() implies s[j] != '.' by {
        assert(is_digit(s[j]));
    }
}

/// Where the first dot is when a numeral is followed by a dot.
proof fn lemma_first_dot_after_numeral(n: Seq<char>, rest: Seq<char>)
    requires
        all_digits(n),
    ensures
        index_of(n + seq!['.'] + rest, '.') == n.len(),
        (n + seq!['.'] + rest).take(n.len() as int) == n,
        (n + seq!['.'] + rest).skip(n.len() as int + 1) == rest,
{
    let s = n + seq!['.'] + rest;
    lemma_numeral_has_no_dot(n);
    assert forall|j: int| 0 <= j < n.len() implies s[j] != '.' by {
        assert(s[j] == n[j]);
    }
    assert(s[n.len() as int] == '.');
    lemma_index_of_is(s, '.', n.len() as int);
    assert(s.take(n.len() as int) =~= n);
    assert(s.skip(n.len() as int + 1) =~= rest);
}

/// Reading the text of an address gives the address back.
#[verifier::rlimit(50)]
pub proof fn lemma_address_text_value(addr: u32)
    ensures
        address_value(address_text(addr)) == Some(addr),
{
    reveal(address_value);
    let a = decimal_text(octet(addr, 0));
    let b = decimal_text(octet(addr, 1));
    let c = decimal_text(octet(addr, 2));
    let d = decimal_text(octet(addr, 3));
    lemma_decimal_text_value(octet(addr, 0));
    lemma_decimal_text_value(octet(addr, 1));
    lemma_decimal_text_value(octet(addr, 2));
    lemma_decimal_text_value(octet(addr, 3));
    lemma_octets_compose(addr);
    let s = address_text(addr);
    let r1 = b + seq!['.'] + c + seq!['.'] + d;
    let r2 = c + seq!['.'] + d;
    assert(s =~= a + seq!['.'] + r1);
    assert(r1 =~= b + seq!['.'] + r2);
    lemma_first_dot_after_numeral(a, r1);
    lemma_first_dot_after_numeral(b, r2);
    lemma_first_dot_after_numeral(c, d);
    assert(octet(addr, 0) <= 255 && octet(addr, 1) <= 255 && octet(addr, 2) <= 255 && octet(
        addr,
        3,
    ) <= 255);
}

/// A canonical numeral of an octet is the shortest numeral of that octet.
proof fn lemma_octet_text(s: Seq<char>)
    requires
        octet_value(s) is Some,
    ensures
        decimal_text(octet_value(s)->Some_0) == s,
        octet_value(s)->Some_0 <= 255,
{
    lemma_canonical_numeral_text(s);
}

/// The text of the address with the octets `a.b.c.d`.
proof fn lemma_text_of_composed(a: nat, b: nat, c: nat, d: nat)
    requires
        a <= 255,
        b <= 255,
        c <= 255,
        d <= 255,
    ensures
        compose(a, b, c, d) <= u32::MAX,
        address_text(compose(a, b, c, d) as u32) == decimal_text(a) + seq!['.'] + decimal_text(b)
            + seq!['.'] + decimal_text(c) + seq!['.'] + decimal_text(d),
{
    lemma_compose_octets(a, b, c, d);
}

/// A text that denotes an address is the text of that address.
#[verifier::rlimit(50)]
pub proof fn lemma_address_value_text(s: Seq<char>)
    requires
        address_value(s) is Some,
    ensures
        address_text(address_value(s)->Some_0) == s,
{
    reveal(address_value);
    let i1 = index_of(s, '.');
    let r1 = s.skip(i1 + 1);
    let i2 = index_of(r1, '.');
    let r2 = r1.skip(i2 + 1);
    let i3 = index_of(r2, '.');
    let r3 = r2.skip(i3 + 1);
    lemma_index_of_bounds(s, '.');
    lemma_index_of_bounds(r1, '.');
    lemma_index_of_bounds(r2, '.');
    let a = s.take(i1);
    let b = r1.take(i2);
    let c = r2.take(i3);
    lemma_octet_text(a);
    lemma_octet_text(b);
    lemma_octet_text(c);
    lemma_octet_text(r3);
    lemma_text_of_composed(
        octet_value(a)->Some_0,
        octet_value(b)->Some_0,
        octet_value(c)->Some_0,
        octet_value(r3)->Some_0,
    );
    assert(r2 =~= c + seq!['.'] + r3);
    assert(r1 =~= b + seq!['.'] + r2);
    assert(s =~= a + seq!['.'] + r1);
    assert(s =~= a + seq!['.'] + b + seq!['.'] + c + seq!['.'] + r3);
}

/// Two addresses with the same text are the same address.
pub proof fn lemma_address_text_injective(x: u32, y: u32)
    requires
        address_text(x) == address_text(y),
    ensures
        x == y,
{
    lemma_address_text_value(x);
    lemma_address_text_value(y);
}

/// Reads one octet.
pub fn parse_octet(s: &[char]) -> (r: Option<u8>)
    ensures
        match octet_value(s@) {
            Some(v) => r == Some(v as u8),
            None => r is None,
        },
{
    let n: usize = s.len();
    if n == 0 {
        return None;
    }
    if n > 3 {
        proof {
            if is_canonical_numeral(s@) {
                lemma_canonical_numeral_text(s@);
                lemma_decimal_text_len(decimal_value(s@));
            }
        }
        return None;
    }
    if n > 1 && s[0] == '0' {
        return None;
    }
    let mut acc: u32 = 0;
    let mut i: usize = 0;
    while i < n
        invariant
            n == s@.len(),
            n <= 3,
            i <= n,
            all_digits(s@.take(i as int)),
            acc == decimal_value(s@.take(i as int)),
            acc <= 999,
            i == 0 ==> acc == 0,
            i == 1 ==> acc <= 9,
            i == 2 ==> acc <= 99,
        decreases n - i,
    {
        let c: char = s[i];
        let ghost before = s@.take(i as int);
        let ghost after = s@.take(i as int + 1);
        assert(after.drop_last() =~= before);
        assert(after.last() == c);
        if !char_is_digit(c) {
            assert(!is_digit(s@[i as int]));
            return None;
        }
        assert forall|j: int| 0 <= j < after.len() implies is_digit(#[trigger] after[j]) by {
            if j < before.len() {
                assert(after[j] == before[j]);
            }
        }
        acc = acc * 10 + (c as u32 - 0x30);
        i += 1;
    }
    assert(s@.take(n as int) =~= s@);
    if acc > 255 {
        None
    } else {
        Some(acc as u8)
    }
}

/// Reads a dotted-quad address.
#[verifier::rlimit(50)]
pub fn parse_address(s: &[char]) -> (r: Option<u32>)
    ensures
        r == address_value(s@),
{
    reveal(address_value);
    let n: usize = s.len();
    let i1: usize = find_char(s, '.');
    if i1 >= n {
        return None;
    }
    let r1: &[char] = slice_subrange(s, i1 + 1, n);
    assert(r1@ =~= s@.skip(i1 + 1));
    let i2: usize = find_char(r1, '.');
    if i2 >= r1.len() {
        return None;
    }
    let r2: &[char] = slice_subrange(r1, i2 + 1, r1.len());
    assert(r2@ =~= r1@.skip(i2 + 1));
    let i3: usize = find_char(r2, '.');
    if i3 >= r2.len() {
        return None;
    }
    let r3: &[char] = slice_subrange(r2, i3 + 1, r2.len());
    assert(r3@ =~= r2@.skip(i3 + 1));
    let first: &[char] = slice_subrange(s, 0, i1);
    let second: &[char] = slice_subrange(r1, 0, i2);
    let third: &[char] = slice_subrange(r2, 0, i3);
    assert(first@ =~= s@.take(i1 as int));
    assert(second@ =~= r1@.take(i2 as int));
    assert(third@ =~= r2@.take(i3 as int));
    let a: u8 = match parse_octet(first) {
        Some(v) => v,
        None => { return None; },
    };
    let b: u8 = match parse_octet(second) {
        Some(v) => v,
        None => { return None; },
    };
    let c: u8 = match parse_octet(third) {
        Some(v) => v,
        None => { return None; },
    };
    let d: u8 = match parse_octet(r3) {
        Some(v) => v,
        None => { return None; },
    };
    let addr: u32 = (a as u32) * 0x100_0000 + (b as u32) * 0x1_0000 + (c as u32) * 0x100 + (
    d as u32);
    Some(addr)
}

/// Appends the dotted-quad text of `addr` to `out`.
pub fn push_address(out: &mut String, addr: u32)
    ensures
        final(out)@ == old(out)@ + address_text(addr),
{
    proof {
        reveal_strlit(".");
    }
    assert("."@ =~= seq!['.']);
    push_decimal(out, (addr / 0x100_0000) as u128);
    out.append(".");
    push_decimal(out, (addr / 0x1_0000 % 0x100) as u128);
    out.append(".");
    push_decimal(out, (addr / 0x100 % 0x100) as u128);
    out.append(".");
    push_decimal(out, (addr % 0x100) as u128);
    assert(out@ =~= old(out)@ + address_text(addr));
}

/// The dotted-quad text of `addr`.
pub fn format_address(addr: u32) -> (s: String)
    ensures
        s@ == address_text(addr),
{
    let mut s = String::new();
    push_address(&mut s, addr);
    assert(Seq::<char>::empty() + address_text(addr) =~= address_text(addr));
    s
}

} // verus!
