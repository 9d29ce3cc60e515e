//! Port notation: a comma-separated list of ports and port ranges, and the
//! sorted list of the ports it selects.
use crate::text::{
    find_char, index_of, lemma_index_of_bounds, parse_unsigned, to_chars, trim, trimmed,
    unsigned_value,
};
use vstd::prelude::*;
use vstd::slice::slice_subrange;

verus! {

/// The bounds that one trimmed segment gives, both inclusive: those of a
/// range `first-last`, cut at its first dash with both sides trimmed, or a
/// single port twice. Nothing where a number is missing or is no port.
pub open spec fn segment_bounds(t: Seq<char>) -> Option<(nat, nat)> {
    if t.contains('-') {
        let i = index_of(t, '-');
        match (
            unsigned_value(trimmed(t.take(i)), 65535),
            unsigned_value(trimmed(t.skip(i + 1)), 65535),
        ) {
            (Some(a), Some(b)) => Some((a, b)),
            _ => None,
        }
    } else {
        match unsigned_value(t, 65535) {
            Some(a) => Some((a, a)),
            None => None,
        }
    }
}

/// Whether one trimmed segment selects port `p`. A range whose first port
/// is above its last selects nothing.
pub open spec fn segment_selects(t: Seq<char>, p: int) -> bool {
    match segment_bounds(t) {
        Some((a, b)) => a <= p <= b,
        None => false,
    }
}

/// Whether some segment of the list selects port `p`.
pub open spec fn port_selected(s: Seq<char>, p: int) -> bool
    decreases s.len(),
{
    let i = index_of(s, ',');
    if i < 0 || i >= s.len() {
        segment_selects(trimmed(s), p)
    } else {
        segment_selects(trimmed(s.take(i)), p) || port_selected(s.skip(i + 1), p)
    }
}

/// Each element is below the next.
pub open spec fn strictly_increasing(v: Seq<u16>) -> bool {
    forall|i: int, j: int| 0 <= i < j < v.len() ==> v[i] < v[j]
}

/// Two increasing lists with the same members are the same list: the
/// sorted list of the selected ports is unique.
#[verifier::rlimit(50)]
pub proof fn lemma_increasing_lists_equal(a: Seq<u16>, b: Seq<u16>)
    requires
        strictly_increasing(a),
        strictly_increasing(b),
        forall|p: u16| a.contains(p) <==> b.contains(p),
    ensures
        a == b,
    decreases a.len(),
{
    if a.len() == 0 {
        if b.len() > 0 {
            assert(b.contains(b[0]));
            assert(a.contains(b[0]));
        }
        assert(a =~= b);
    } else {
        let x = a.last();
        assert(a.contains(x));
        assert(b.contains(x));
        let k = choose|k: int| 0 <= k < b.len() && b[k] == x;
        if k < b.len() - 1 {
            let y = b.last();
            assert(b[k] < y);
            assert(b.contains(y));
            assert(a.contains(y));
            let m = choose|m: int| 0 <= m < a.len() && a[m] == y;
            if m < a.len() - 1 {
                assert(a[m] < a[a.len() - 1]);
            }
        }
        let a0 = a.drop_last();
        let b0 = b.drop_last();
        assert forall|p: u16| a0.contains(p) <==> b0.contains(p) by {
            if a0.contains(p) {
                let i = choose|i: int| 0 <= i < a0.len() && a0[i] == p;
                assert(a[i] == p);
                assert(a[i] < a[a.len() - 1]);
                assert(a.contains(p));
                let j = choose|j: int| 0 <= j < b.len() && b[j] == p;
                assert(j < b.len() - 1);
                assert(b0[j] == p);
            }
            if b0.contains(p) {
                let i = choose|i: int| 0 <= i < b0.len() && b0[i] == p;
                assert(b[i] == p);
                assert(b[i] < b[b.len() - 1]);
                assert(b.contains(p));
                let j = choose|j: int| 0 <= j < a.len() && a[j] == p;
                assert(j < a.len() - 1);
                assert(a0[j] == p);
            }
        }
        lemma_increasing_lists_equal(a0, b0);
        assert(a =~= a0.push(x));
        assert(b =~= b0.push(x));
    }
}

/// Reads the bounds of one trimmed segment.
fn parse_segment(t: &[char]) -> (r: Option<(u32, u32)>)
    ensures
        match segment_bounds(t@) {
            Some((a, b)) => r == Some((a as u32, b as u32)) && a <= 65535 && b <= 65535,
            None => r is None,
        },
{
    let n: usize = t.len();
    let i: usize = find_char(t, '-');
    proof {
        lemma_index_of_bounds(t@, '-');
    }
    if i < n {
        let left: &[char] = slice_subrange(t, 0, i);
        let right: &[char] = slice_subrange(t, i + 1, n);
        assert(left@ =~= t@.take(i as int));
        assert(right@ =~= t@.skip(i + 1));
        let first = parse_unsigned(trim(left), 65535);
        let last = parse_unsigned(trim(right), 65535);
        match (first, last) {
            (Some(a), Some(b)) => Some((a, b)),
            _ => None,
        }
    } else {
        match parse_unsigned(t, 65535) {
            Some(a) => Some((a, a)),
            None => None,
        }
    }
}

/// Marks the ports from `a` to `b`, both inclusive.
fn mark_range(marks: &mut Vec<bool>, a: u32, b: u32)
    requires
        old(marks)@.len() == 65536,
        a <= 65535,
        b <= 65535,
    ensures
        final(marks)@.len() == 65536,
        forall|q: int|
            0 <= q < 65536 ==> #[trigger] final(marks)@[q] == (old(marks)@[q] || a <= q <= b),
{
    if a > b {
        return ;
    }
    let mut p: u32 = a;
    while p <= b
        invariant
            marks@.len() == 65536,
            a <= p <= b + 1,
            b <= 65535,
            forall|q: int| 0 <= q < 65536 ==> #[trigger] marks@[q] == (old(marks)@[q] || a <= q < p),
        decreases b + 1 - p,
    {
        marks.set(p as usize, true);
        p += 1;
    }
}

/// What the marks say while a list is read: a port is selected by the list
/// exactly if it is marked or, as long as the reading goes on, selected by
/// what is left of the list from `start` on.
pub open spec fn marks_cover(marks: Seq<bool>, whole: Seq<char>, start: int, done: bool) -> bool {
    &&& marks.len() == 65536
    &&& forall|q: int|
        0 <= q < 65536 ==> port_selected(whole, q) == (#[trigger] marks[q] || (!done
            && port_selected(whole.skip(start), q)))
}

/// One step of reading a port list from the left: once the ports of the
/// segment at `start` are marked, the marks cover the list up to the next
/// segment, or all of it where the segment was the last.
proof fn lemma_marks_step(before: Seq<bool>, after: Seq<bool>, whole: Seq<char>, start: int)
    requires
        0 <= start <= whole.len(),
        marks_cover(before, whole, start, false),
        after.len() == 65536,
        forall|q: int|
            0 <= q < 65536 ==> #[trigger] after[q] == (before[q] || segment_selects(
                trimmed(whole.skip(start).take(index_of(whole.skip(start), ','))),
                q,
            )),
    ensures
        ({
            let rest = whole.skip(start);
            let i = index_of(rest, ',');
            if i < rest.len() {
                marks_cover(after, whole, start + i + 1, false)
            } else {
                marks_cover(after, whole, start, true)
            }
        }),
{
    let rest = whole.skip(start);
    let i = index_of(rest, ',');
    lemma_index_of_bounds(rest, ',');
    if i < rest.len() {
        assert(rest.skip(i + 1) =~= whole.skip(start + i + 1));
    } else {
        assert(rest.take(i) =~= rest);
    }
    assert forall|q: int| 0 <= q < 65536 implies port_selected(whole, q) == (#[trigger] after[q]
        || (i < rest.len() && port_selected(whole.skip(start + i + 1), q))) by {
        assert(port_selected(whole, q) == (before[q] || port_selected(rest, q)));
    }
}

/// Reads a port list and gives the ports it selects, each once, in
/// increasing order. A segment that is no port and no range of ports selects
/// nothing and is passed over.
#[verifier::rlimit(50)]
pub fn parse_ports(port_str: &str) -> (ports: Vec<u16>)
    ensures
        strictly_increasing(ports@),
        forall|p: u16| ports@.contains(p) <==> port_selected(port_str@, p as int),
{
    let chars = to_chars(port_str);
    let s: &[char] = chars.as_slice();
    let n: usize = s.len();
    let mut marks: Vec<bool> = vec![false; 65536];
    let mut start: usize = 0;
    let mut done: bool = false;
    assert(s@.skip(0) =~= s@);
    while !done
        invariant
            s@ == port_str@,
            n == s@.len(),
            start <= n,
            marks_cover(marks@, s@, start as int, done),
        decreases n - start + (if done { 0int } else { 1int }),
    {
        let rest: &[char] = slice_subrange(s, start, n);
        let i: usize = find_char(rest, ',');
        let piece: &[char] = slice_subrange(rest, 0, i);
        let segment: &[char] = trim(piece);
        let ghost before = marks@;
        proof {
            assert(rest@ =~= s@.skip(start as int));
            assert(piece@ =~= rest@.take(i as int));
        }
        match parse_segment(segment) {
            Some((a, b)) => {
                mark_range(&mut marks, a, b);
            },
            None => {},
        }
        proof {
            lemma_marks_step(before, marks@, s@, start as int);
        }
        if i < rest.len() {
            start = start + i + 1;
        } else {
            done = true;
        }
    }
    let mut ports: Vec<u16> = Vec::new();
    let mut q: u32 = 0;
    while q < 65536
        invariant
            q <= 65536,
            marks@.len() == 65536,
            strictly_increasing(ports@),
            forall|k: int| 0 <= k < ports@.len() ==> (#[trigger] ports@[k]) < q && marks@[ports@[k] as int],
            forall|x: int| 0 <= x < q && marks@[x] ==> ports@.contains(x as u16),
        decreases 65536 - q,
    {
        if marks[q as usize] {
            let ghost old_ports = ports@;
            ports.push(q as u16);
            proof {
                assert forall|x: int| 0 <= x < q + 1 && marks@[x] implies ports@.contains(
                    x as u16,
                ) by {
                    if x < q {
                        assert(old_ports.contains(x as u16));
                        let k = choose|k: int| 0 <= k < old_ports.len() && old_ports[k] == x as u16;
                        assert(ports@[k] == x as u16);
                    } else {
                        assert(ports@[ports@.len() - 1] == x as u16);
                    }
                }
            }
        }
        q += 1;
    }
    proof {
        assert forall|p: u16| ports@.contains(p) <==> port_selected(port_str@, p as int) by {
            if ports@.contains(p) {
                let k = choose|k: int| 0 <= k < ports@.len() && ports@[k] == p;
                assert(marks@[ports@[k] as int]);
            }
            assert(marks@[p as int] == port_selected(s@, p as int));
        }
    }
    ports
}

} // verus!
