//! Sizes and durations as short texts for people.
use crate::text::{decimal_text, digit_char, digit_str, push_decimal};
use vstd::prelude::*;
use vstd::string::StringExecFns;

verus! {

/// The text of a duration given in seconds: hours, minutes and seconds,
/// without the leading parts that are zero.
pub open spec fn duration_text(seconds: u64) -> Seq<char> {
    let h = (seconds / 3600) as nat;
    let m = (seconds % 3600 / 60) as nat;
    let s = (seconds % 60) as nat;
    if h > 0 {
        decimal_text(h) + seq!['h', ' '] + decimal_text(m) + seq!['m', ' '] + decimal_text(s)
            + seq!['s']
    } else if m > 0 {
        decimal_text(m) + seq!['m', ' '] + decimal_text(s) + seq!['s']
    } else {
        decimal_text(s) + seq!['s']
    }
}

/// Writes a duration, such as `1h 1m 1s`, `1m 5s` or `30s`.
pub fn format_duration(seconds: u64) -> (text: String)
    ensures
        text@ == duration_text(seconds),
{
    proof {
        reveal_strlit("h ");
        reveal_strlit("m ");
        reveal_strlit("s");
    }
    assert("h "@ =~= seq!['h', ' ']);
    assert("m "@ =~= seq!['m', ' ']);
    assert("s"@ =~= seq!['s']);
    let hours: u64 = seconds / 3600;
    let minutes: u64 = (seconds % 3600) / 60;
    let secs: u64 = seconds % 60;
    let mut text = String::new();
    if hours > 0 {
        push_decimal(&mut text, hours as u128);
        text.append("h ");
        push_decimal(&mut text, minutes as u128);
        text.append("m ");
        push_decimal(&mut text, secs as u128);
        text.append("s");
    } else if minutes > 0 {
        push_decimal(&mut text, minutes as u128);
        text.append("m ");
        push_decimal(&mut text, secs as u128);
        text.append("s");
    } else {
        push_decimal(&mut text, secs as u128);
        text.append("s");
    }
    assert(text@ =~= duration_text(seconds));
    text
}

/// `num / den`, rounded to the nearest whole number, a tie to the even one.
pub open spec fn round_half_even(num: nat, den: nat) -> nat {
    let q = num / den;
    let r = num % den;
    if 2 * r > den || (2 * r == den && q % 2 == 1) {
        q + 1
    } else {
        q
    }
}

/// The step between the sizes that are told apart: one up to 2^53 bytes, and
/// doubling with each doubling of the size from there, so that a size keeps
/// 53 significant binary digits.
pub open spec fn size_step(bytes: u64) -> nat {
    if bytes < 0x20_0000_0000_0000 {
        1
    } else if bytes < 0x40_0000_0000_0000 {
        2
    } else if bytes < 0x80_0000_0000_0000 {
        4
    } else if bytes < 0x100_0000_0000_0000 {
        8
    } else if bytes < 0x200_0000_0000_0000 {
        16
    } else if bytes < 0x400_0000_0000_0000 {
        32
    } else if bytes < 0x800_0000_0000_0000 {
        64
    } else if bytes < 0x1000_0000_0000_0000 {
        128
    } else if bytes < 0x2000_0000_0000_0000 {
        256
    } else if bytes < 0x4000_0000_0000_0000 {
        512
    } else if bytes < 0x8000_0000_0000_0000 {
        1024
    } else {
        2048
    }
}

/// The size that is written for `bytes`: the nearest multiple of the step, a
/// tie to the even one.
pub open spec fn held_size(bytes: u64) -> nat {
    round_half_even(bytes as nat, size_step(bytes)) * size_step(bytes)
}

/// The unit in which a size is written: the largest of B, KB, MB, GB and TB
/// that the size reaches, by its number from 0 to 4.
pub open spec fn unit_index(size: nat) -> nat {
    if size < 0x400 {
        0
    } else if size < 0x10_0000 {
        1
    } else if size < 0x4000_0000 {
        2
    } else if size < 0x100_0000_0000 {
        3
    } else {
        4
    }
}

/// How many bytes a unit holds.
pub open spec fn unit_size(k: nat) -> nat {
    if k == 0 {
        1
    } else if k == 1 {
        0x400
    } else if k == 2 {
        0x10_0000
    } else if k == 3 {
        0x4000_0000
    } else {
        0x100_0000_0000
    }
}

/// The name of a unit.
pub open spec fn unit_name(k: nat) -> Seq<char> {
    if k == 0 {
        seq!['B']
    } else if k == 1 {
        seq!['K', 'B']
    } else if k == 2 {
        seq!['M', 'B']
    } else if k == 3 {
        seq!['G', 'B']
    } else {
        seq!['T', 'B']
    }
}

/// The size in hundredths of its unit, rounded to the nearest, a tie to the
/// even one.
pub open spec fn size_hundredths(bytes: u64) -> nat {
    round_half_even(held_size(bytes) * 100, unit_size(unit_index(held_size(bytes))))
}

/// The text of a size: the number of units with two decimals, a space, and
/// the name of the unit.
pub open spec fn bytes_text(bytes: u64) -> Seq<char> {
    let h = size_hundredths(bytes);
    decimal_text(h / 100) + seq!['.', digit_char(h / 10 % 10), digit_char(h % 10), ' ']
        + unit_name(unit_index(held_size(bytes)))
}

/// Divides and rounds to the nearest whole number, a tie to the even one.
fn divide_half_even(num: u128, den: u128) -> (q: u128)
    requires
        1 <= den <= 0x100_0000_0000,
        num <= 0x1_0000_0000_0000_0000_0000,
    ensures
        q == round_half_even(num as nat, den as nat),
        q <= num,
{
    let q: u128 = num / den;
    let r: u128 = num % den;
    assert(q <= num) by (nonlinear_arith)
        requires
            q == num / den,
            den >= 1,
    ;
    if 2 * r > den || (2 * r == den && q % 2 == 1) {
        assert(q + 1 <= num) by (nonlinear_arith)
            requires
                q == num / den,
                r == num % den,
                den >= 1,
                r >= 1,
        ;
        q + 1
    } else {
        q
    }
}

/// The step between the sizes that are told apart around `bytes`.
fn step_of(bytes: u64) -> (step: u64)
    ensures
        step == size_step(bytes),
        1 <= step <= 2048,
{
    if bytes < 0x20_0000_0000_0000 {
        1
    } else if bytes < 0x40_0000_0000_0000 {
        2
    } else if bytes < 0x80_0000_0000_0000 {
        4
    } else if bytes < 0x100_0000_0000_0000 {
        8
    } else if bytes < 0x200_0000_0000_0000 {
        16
    } else if bytes < 0x400_0000_0000_0000 {
        32
    } else if bytes < 0x800_0000_0000_0000 {
        64
    } else if bytes < 0x1000_0000_0000_0000 {
        128
    } else if bytes < 0x2000_0000_0000_0000 {
        256
    } else if bytes < 0x4000_0000_0000_0000 {
        512
    } else if bytes < 0x8000_0000_0000_0000 {
        1024
    } else {
        2048
    }
}

/// Writes a size in bytes in the largest fitting unit up to TB, with two
/// decimals, such as `1.00 KB`.
pub fn format_bytes(bytes: u64) -> (text: String)
    ensures
        text@ == bytes_text(bytes),
{
    proof {
        reveal_strlit(".");
        reveal_strlit(" ");
        reveal_strlit("B");
        reveal_strlit("KB");
        reveal_strlit("MB");
        reveal_strlit("GB");
        reveal_strlit("TB");
    }
    let step: u64 = step_of(bytes);
    let steps: u128 = divide_half_even(bytes as u128, step as u128);
    assert(steps * step <= 0x8_0000_0000_0000_0000_0000) by (nonlinear_arith)
        requires
            steps <= 0xffff_ffff_ffff_ffff,
            step <= 2048,
    ;
    let size: u128 = steps * (step as u128);
    assert(size == held_size(bytes));
    let (k, unit, name): (u8, u128, &'static str) = if size < 0x400 {
        (0, 1, "B")
    } else if size < 0x10_0000 {
        (1, 0x400, "KB")
    } else if size < 0x4000_0000 {
        (2, 0x10_0000, "MB")
    } else if size < 0x100_0000_0000 {
        (3, 0x4000_0000, "GB")
    } else {
        (4, 0x100_0000_0000, "TB")
    };
    assert(k == unit_index(size as nat));
    assert(unit == unit_size(k as nat));
    assert(name@ =~= unit_name(k as nat));
    let hundredths: u128 = divide_half_even(size * 100, unit);
    assert(hundredths == size_hundredths(bytes));
    let mut text = String::new();
    push_decimal(&mut text, hundredths / 100);
    text.append(".");
    text.append(digit_str((hundredths / 10 % 10) as u8));
    text.append(digit_str((hundredths % 10) as u8));
    text.append(" ");
    text.append(name);
    assert(text@ =~= bytes_text(bytes));
    text
}

} // verus!
