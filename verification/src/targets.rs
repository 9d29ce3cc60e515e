//! Target notation: what a list of addresses, ranges and CIDR blocks stands
//! for, and the parser that expands it.
//!
//! An expansion is a sequence of 32-bit addresses in the order in which the
//! notation names them; what the parser returns is the dotted-quad text of
//! each, in that order. Nothing is reordered and nothing is removed when it
//! occurs twice.
use crate::ipv4::{
    address_text, address_value, format_address, lemma_address_text_injective,
    lemma_address_value_text, octet, parse_address,
};
use crate::text::{
    find_char, index_of, last_index_of, lemma_index_of_bounds, lemma_index_of_is, parse_unsigned,
    rfind_char, to_chars, trim, trimmed, unsigned_value,
};
use vstd::arithmetic::power2::{lemma2_to64, lemma2_to64_rest, pow2};
use vstd::bits::lemma_u32_shl_is_mul;
use vstd::prelude::*;
use vstd::slice::slice_subrange;

verus! {

/// Why a target specification was refused.
#[derive(Clone, Copy, Debug, PartialEq, Eq, Structural)]
pub enum TargetParseError {
    /// A single address, the base of a range or the address of a CIDR block
    /// is not a dotted quad.
    InvalidAddress,
    /// A range has no dash, its end is not an octet, or its end is below the
    /// last octet of its base.
    InvalidRange,
    /// A CIDR block has not exactly one slash, or its prefix length is not a
    /// number from 0 to 32.
    InvalidCidr,
    /// A CIDR block with prefix length 31 or 32: nothing lies strictly
    /// between its network address and its broadcast address.
    NoUsableHosts,
    /// The specification names no address at all.
    EmptyTargetSet,
}

/// What is said to the operator about each error.
pub open spec fn error_text(e: TargetParseError) -> Seq<char> {
    match e {
        TargetParseError::InvalidAddress => "invalid IP address"@,
        TargetParseError::InvalidRange => "invalid IP range"@,
        TargetParseError::InvalidCidr => "invalid CIDR block"@,
        TargetParseError::NoUsableHosts => "CIDR block has no usable host addresses"@,
        TargetParseError::EmptyTargetSet => "no valid IP address in the target specification"@,
    }
}

impl TargetParseError {
    /// A short message for the operator.
    pub fn message(&self) -> (s: &'static str)
        ensures
            s@ == error_text(*self),
    {
        match self {
            TargetParseError::InvalidAddress => "invalid IP address",
            TargetParseError::InvalidRange => "invalid IP range",
            TargetParseError::InvalidCidr => "invalid CIDR block",
            TargetParseError::NoUsableHosts => "CIDR block has no usable host addresses",
            TargetParseError::EmptyTargetSet => "no valid IP address in the target specification",
        }
    }
}

/// `count` consecutive addresses, the first of them `first`.
pub open spec fn address_run(first: int, count: int) -> Seq<u32> {
    Seq::new(count as nat, |i: int| (first + i) as u32)
}

/// The netmask of a prefix length: that many leading one bits.
pub open spec fn prefix_mask(prefix: u32) -> u32 {
    if prefix == 0 {
        0
    } else {
        0xffff_ffffu32 << ((32 - prefix) as u32)
    }
}

/// The network address of the block that `addr` lies in.
pub open spec fn network_of(addr: u32, prefix: u32) -> u32 {
    addr & prefix_mask(prefix)
}

/// The broadcast address of the block that `addr` lies in.
pub open spec fn broadcast_of(addr: u32, prefix: u32) -> u32 {
    network_of(addr, prefix) | !prefix_mask(prefix)
}

/// The usable hosts of a block: the addresses strictly between its network
/// address and its broadcast address, in increasing order.
pub open spec fn cidr_hosts(addr: u32, prefix: u32) -> Seq<u32> {
    address_run(
        network_of(addr, prefix) + 1,
        broadcast_of(addr, prefix) - network_of(addr, prefix) - 1,
    )
}

/// What `address/prefix` stands for. Neither part is trimmed.
pub open spec fn cidr_expansion(s: Seq<char>) -> Result<Seq<u32>, TargetParseError> {
    let i = index_of(s, '/');
    let left = s.take(i);
    let right = s.skip(i + 1);
    if i >= s.len() || right.contains('/') {
        Err(TargetParseError::InvalidCidr)
    } else {
        match address_value(left) {
            None => Err(TargetParseError::InvalidAddress),
            Some(addr) => match unsigned_value(right, 32) {
                None => Err(TargetParseError::InvalidCidr),
                Some(prefix) => if prefix >= 31 {
                    Err(TargetParseError::NoUsableHosts)
                } else {
                    Ok(cidr_hosts(addr, prefix as u32))
                },
            },
        }
    }
}

/// What `base-end` stands for: the text is cut at its last dash, both sides
/// are trimmed, and the last octet runs from that of the base up to `end`.
pub open spec fn range_expansion(s: Seq<char>) -> Result<Seq<u32>, TargetParseError> {
    let i = last_index_of(s, '-');
    if i < 0 {
        Err(TargetParseError::InvalidRange)
    } else {
        match address_value(trimmed(s.take(i))) {
            None => Err(TargetParseError::InvalidAddress),
            Some(base) => match unsigned_value(trimmed(s.skip(i + 1)), 255) {
                None => Err(TargetParseError::InvalidRange),
                Some(end) => if end < octet(base, 3) {
                    Err(TargetParseError::InvalidRange)
                } else {
                    Ok(address_run(base as int, end - octet(base, 3) + 1))
                },
            },
        }
    }
}

/// What one trimmed segment stands for. A slash makes it a CIDR block,
/// otherwise a dash makes it a range, otherwise it is a single address. An
/// empty segment stands for nothing and is no error.
#[verifier::opaque]
pub open spec fn segment_expansion(t: Seq<char>) -> Result<Seq<u32>, TargetParseError> {
    if t.len() == 0 {
        Ok(Seq::empty())
    } else if t.contains('/') {
        cidr_expansion(t)
    } else if t.contains('-') {
        range_expansion(t)
    } else {
        match address_value(t) {
            Some(addr) => Ok(seq![addr]),
            None => Err(TargetParseError::InvalidAddress),
        }
    }
}

/// One expansion after another: the first error wins, and without an error
/// the second sequence follows the first.
pub open spec fn join_expansions(
    x: Result<Seq<u32>, TargetParseError>,
    y: Result<Seq<u32>, TargetParseError>,
) -> Result<Seq<u32>, TargetParseError> {
    match x {
        Err(e) => Err(e),
        Ok(a) => match y {
            Err(e) => Err(e),
            Ok(b) => Ok(a + b),
        },
    }
}

/// What a comma-separated list of segments stands for, read from the left.
pub open spec fn list_expansion(s: Seq<char>) -> Result<Seq<u32>, TargetParseError>
    decreases s.len(),
{
    let i = index_of(s, ',');
    if i < 0 || i >= s.len() {
        segment_expansion(trimmed(s))
    } else {
        join_expansions(segment_expansion(trimmed(s.take(i))), list_expansion(s.skip(i + 1)))
    }
}

/// What a whole target specification stands for: the expansion of its list,
/// which must name at least one address.
pub open spec fn target_expansion(s: Seq<char>) -> Result<Seq<u32>, TargetParseError> {
    match list_expansion(s) {
        Err(e) => Err(e),
        Ok(addrs) => if addrs.len() == 0 {
            Err(TargetParseError::EmptyTargetSet)
        } else {
            Ok(addrs)
        },
    }
}

/// The dotted-quad text of each address.
pub open spec fn address_texts(addrs: Seq<u32>) -> Seq<Seq<char>> {
    Seq::new(addrs.len(), |i: int| address_text(addrs[i]))
}

/// The characters of each string.
pub open spec fn string_views(v: Seq<String>) -> Seq<Seq<char>> {
    Seq::new(v.len(), |i: int| v[i]@)
}

/// What a parser owes its caller: the texts of the expansion, or its error.
pub open spec fn yields(
    r: Result<Vec<String>, TargetParseError>,
    expansion: Result<Seq<u32>, TargetParseError>,
) -> bool {
    match expansion {
        Ok(addrs) => r is Ok && string_views(r->Ok_0@) == address_texts(addrs),
        Err(e) => r == Err::<Vec<String>, TargetParseError>(e),
    }
}

/// Appends the texts of `count` consecutive addresses.
fn push_run(out: &mut Vec<String>, first: u32, count: u32)
    requires
        first + count <= 0x1_0000_0000,
    ensures
        string_views(final(out)@) == string_views(old(out)@) + address_texts(
            address_run(first as int, count as int),
        ),
{
    let mut i: u32 = 0;
    assert(string_views(out@) =~= string_views(old(out)@) + address_texts(
        address_run(first as int, 0),
    ));
    while i < count
        invariant
            i <= count,
            first + count <= 0x1_0000_0000,
            string_views(out@) == string_views(old(out)@) + address_texts(
                address_run(first as int, i as int),
            ),
        decreases count - i,
    {
        let ghost before = out@;
        let text = format_address(first + i);
        out.push(text);
        assert(string_views(out@) =~= string_views(before).push(address_text((first + i) as u32)));
        assert(address_texts(address_run(first as int, i as int + 1)) =~= address_texts(
            address_run(first as int, i as int),
        ).push(address_text((first + i) as u32)));
        i += 1;
    }
}

/// The usable hosts of a block with a prefix length up to 30 number
/// 2^(32 - prefix) - 2, and each lies strictly between the network address
/// and the broadcast address of the block.
#[verifier::rlimit(50)]
pub proof fn lemma_cidr_hosts(addr: u32, prefix: u32)
    requires
        prefix <= 30,
    ensures
        cidr_hosts(addr, prefix).len() == pow2((32 - prefix) as nat) - 2,
        forall|i: int|
            0 <= i < cidr_hosts(addr, prefix).len() ==> network_of(addr, prefix) < (
            #[trigger] cidr_hosts(addr, prefix)[i]) < broadcast_of(addr, prefix),
        !cidr_hosts(addr, prefix).contains(network_of(addr, prefix)),
        !cidr_hosts(addr, prefix).contains(broadcast_of(addr, prefix)),
{
    let mask = prefix_mask(prefix);
    let shift = (32 - prefix) as u32;
    let network = network_of(addr, prefix);
    let broadcast = broadcast_of(addr, prefix);
    lemma_block_has_room(addr, prefix);
    lemma2_to64();
    lemma2_to64_rest();
    if prefix == 0 {
        assert(((addr & 0) | !0u32) - (addr & 0) == 0xffff_ffff) by (bit_vector);
    } else {
        assert(((addr & mask) | !mask) - (addr & mask) == (1u32 << shift) - 1) by (bit_vector)
            requires
                2 <= shift < 32,
                mask == 0xffff_ffffu32 << shift,
        ;
        vstd::bits::lemma_u32_pow2_no_overflow(shift as nat);
        lemma_u32_shl_is_mul(1u32, shift);
    }
    assert(broadcast - network == pow2(shift as nat) - 1);
}

/// The text of a block with a valid address and a prefix length up to 30
/// expands to the usable hosts of the block, and the texts of the network
/// address and of the broadcast address are not among the texts of the
/// hosts.
pub proof fn lemma_cidr_block_expansion(s: Seq<char>, addr: u32, prefix: u32)
    requires
        index_of(s, '/') < s.len(),
        !s.skip(index_of(s, '/') + 1).contains('/'),
        address_value(s.take(index_of(s, '/'))) == Some(addr),
        unsigned_value(s.skip(index_of(s, '/') + 1), 32) == Some(prefix as nat),
        prefix <= 30,
    ensures
        cidr_expansion(s) == Ok::<Seq<u32>, TargetParseError>(cidr_hosts(addr, prefix)),
        address_texts(cidr_hosts(addr, prefix)).len() == pow2((32 - prefix) as nat) - 2,
        !address_texts(cidr_hosts(addr, prefix)).contains(
            address_text(network_of(addr, prefix)),
        ),
        !address_texts(cidr_hosts(addr, prefix)).contains(
            address_text(broadcast_of(addr, prefix)),
        ),
{
    lemma_cidr_hosts(addr, prefix);
    let hosts = cidr_hosts(addr, prefix);
    let texts = address_texts(hosts);
    assert forall|i: int| 0 <= i < texts.len() implies texts[i] != address_text(
        network_of(addr, prefix),
    ) && texts[i] != address_text(broadcast_of(addr, prefix)) by {
        assert(network_of(addr, prefix) < hosts[i] < broadcast_of(addr, prefix));
        if texts[i] == address_text(network_of(addr, prefix)) {
            lemma_address_text_injective(hosts[i], network_of(addr, prefix));
        }
        if texts[i] == address_text(broadcast_of(addr, prefix)) {
            lemma_address_text_injective(hosts[i], broadcast_of(addr, prefix));
        }
    }
}

/// A block with prefix length 31 or 32 has no usable hosts, whatever its
/// address.
pub proof fn lemma_cidr_without_hosts(s: Seq<char>)
    requires
        index_of(s, '/') < s.len(),
        !s.skip(index_of(s, '/') + 1).contains('/'),
        address_value(s.take(index_of(s, '/'))) is Some,
        unsigned_value(s.skip(index_of(s, '/') + 1), 32) == Some(31nat) || unsigned_value(
            s.skip(index_of(s, '/') + 1),
            32,
        ) == Some(32nat),
    ensures
        cidr_expansion(s) == Err::<Seq<u32>, TargetParseError>(TargetParseError::NoUsableHosts),
{
}

/// A range whose end is below the last octet of its base is refused.
pub proof fn lemma_range_end_below_start(s: Seq<char>, base: u32, end: nat)
    requires
        last_index_of(s, '-') >= 0,
        address_value(trimmed(s.take(last_index_of(s, '-')))) == Some(base),
        unsigned_value(trimmed(s.skip(last_index_of(s, '-') + 1)), 255) == Some(end),
        end < octet(base, 3),
    ensures
        range_expansion(s) == Err::<Seq<u32>, TargetParseError>(TargetParseError::InvalidRange),
{
}

/// A range whose end is not below the last octet of its base expands to the
/// addresses from the base up to the one with `end` as its last octet: only
/// the last octet changes.
#[verifier::rlimit(50)]
pub proof fn lemma_range_addresses(s: Seq<char>, base: u32, end: nat)
    requires
        last_index_of(s, '-') >= 0,
        address_value(trimmed(s.take(last_index_of(s, '-')))) == Some(base),
        unsigned_value(trimmed(s.skip(last_index_of(s, '-') + 1)), 255) == Some(end),
        octet(base, 3) <= end,
    ensures
        range_expansion(s) is Ok,
        range_expansion(s)->Ok_0.len() == end - octet(base, 3) + 1,
        forall|i: int|
            #![trigger range_expansion(s)->Ok_0[i]]
            0 <= i < range_expansion(s)->Ok_0.len() ==> {
                let a = range_expansion(s)->Ok_0[i];
                &&& octet(a, 0) == octet(base, 0)
                &&& octet(a, 1) == octet(base, 1)
                &&& octet(a, 2) == octet(base, 2)
                &&& octet(a, 3) == octet(base, 3) + i
            },
{
    let low = octet(base, 3);
    let run = address_run(base as int, end - low + 1);
    assert(range_expansion(s) == Ok::<Seq<u32>, TargetParseError>(run));
    assert forall|i: int| 0 <= i < run.len() implies {
        let a = #[trigger] run[i];
        &&& octet(a, 0) == octet(base, 0)
        &&& octet(a, 1) == octet(base, 1)
        &&& octet(a, 2) == octet(base, 2)
        &&& octet(a, 3) == octet(base, 3) + i
    } by {
        lemma_last_octet_step(base, i);
    }
}

/// Adding to an address no more than its last octet has room for changes
/// the last octet only.
proof fn lemma_last_octet_step(base: u32, i: int)
    requires
        0 <= i,
        octet(base, 3) + i <= 255,
    ensures
        base + i <= u32::MAX,
        octet((base + i) as u32, 0) == octet(base, 0),
        octet((base + i) as u32, 1) == octet(base, 1),
        octet((base + i) as u32, 2) == octet(base, 2),
        octet((base + i) as u32, 3) == octet(base, 3) + i,
{
    let high = base / 0x100;
    let low = base % 0x100;
    assert(base == high * 0x100 + low);
    let next = base + i;
    assert(next == high * 0x100 + (low + i));
    assert(next / 0x100 == high);
    assert(next % 0x100 == low + i);
    assert(next / 0x1_0000 == base / 0x1_0000);
    assert(next / 0x100_0000 == base / 0x100_0000);
}

/// Joining expansions is associative.
pub proof fn lemma_join_associative(
    x: Result<Seq<u32>, TargetParseError>,
    y: Result<Seq<u32>, TargetParseError>,
    z: Result<Seq<u32>, TargetParseError>,
)
    ensures
        join_expansions(join_expansions(x, y), z) == join_expansions(x, join_expansions(y, z)),
{
    if x is Ok && y is Ok && z is Ok {
        assert((x->Ok_0 + y->Ok_0) + z->Ok_0 =~= x->Ok_0 + (y->Ok_0 + z->Ok_0));
    }
}

/// Two lists joined by a comma stand for what the first stands for, followed
/// by what the second stands for; an error in the first comes before an
/// error in the second.
#[verifier::rlimit(50)]
pub proof fn lemma_list_join(a: Seq<char>, b: Seq<char>)
    ensures
        list_expansion(a + seq![','] + b) == join_expansions(
            list_expansion(a),
            list_expansion(b),
        ),
    decreases a.len(),
{
    let s = a + seq![','] + b;
    let i = index_of(a, ',');
    lemma_index_of_bounds(a, ',');
    if i < a.len() {
        assert forall|j: int| 0 <= j < i implies s[j] != ',' by {
            assert(s[j] == a[j]);
        }
        assert(s[i] == a[i]);
        lemma_index_of_is(s, ',', i);
        assert(s.take(i) =~= a.take(i));
        assert(s.skip(i + 1) =~= a.skip(i + 1) + seq![','] + b);
        lemma_list_join(a.skip(i + 1), b);
        lemma_join_associative(
            segment_expansion(trimmed(a.take(i))),
            list_expansion(a.skip(i + 1)),
            list_expansion(b),
        );
    } else {
        assert forall|j: int| 0 <= j < a.len() implies s[j] != ',' by {
            assert(s[j] == a[j]);
        }
        assert(s[a.len() as int] == ',');
        lemma_index_of_is(s, ',', a.len() as int);
        assert(s.take(a.len() as int) =~= a);
        assert(s.skip(a.len() as int + 1) =~= b);
    }
}

/// Two target specifications that each expand, joined by a comma, expand to
/// the addresses of the first followed by the addresses of the second.
pub proof fn lemma_targets_join(a: Seq<char>, b: Seq<char>)
    requires
        target_expansion(a) is Ok,
        target_expansion(b) is Ok,
    ensures
        target_expansion(a + seq![','] + b) == Ok::<Seq<u32>, TargetParseError>(
            target_expansion(a)->Ok_0 + target_expansion(b)->Ok_0,
        ),
        address_texts(target_expansion(a + seq![','] + b)->Ok_0) == address_texts(
            target_expansion(a)->Ok_0,
        ) + address_texts(target_expansion(b)->Ok_0),
{
    lemma_list_join(a, b);
    assert(address_texts(target_expansion(a)->Ok_0 + target_expansion(b)->Ok_0) =~= address_texts(
        target_expansion(a)->Ok_0,
    ) + address_texts(target_expansion(b)->Ok_0));
}

/// A single address stands for itself: the one text that the parser gives
/// is the segment as it was written.
pub proof fn lemma_single_address(t: Seq<char>)
    requires
        t.len() > 0,
        !t.contains('/'),
        !t.contains('-'),
        address_value(t) is Some,
    ensures
        segment_expansion(t) is Ok,
        address_texts(segment_expansion(t)->Ok_0) == seq![t],
{
    reveal(segment_expansion);
    lemma_address_value_text(t);
    assert(address_texts(seq![address_value(t)->Some_0]) =~= seq![t]);
}

/// What an expander owes when it appends to a list: on success the texts of
/// the expansion follow what the list held; on an error the list is as it
/// was.
pub open spec fn appends(
    before: Seq<String>,
    after: Seq<String>,
    r: Result<(), TargetParseError>,
    expansion: Result<Seq<u32>, TargetParseError>,
) -> bool {
    match expansion {
        Ok(addrs) => r is Ok && string_views(after) == string_views(before) + address_texts(addrs),
        Err(e) => r == Err::<(), TargetParseError>(e) && after == before,
    }
}

/// Between the network address and the broadcast address of a block with a
/// prefix length up to 30 lies at least one address.
proof fn lemma_block_has_room(addr: u32, prefix: u32)
    requires
        prefix <= 30,
    ensures
        network_of(addr, prefix) + 1 < broadcast_of(addr, prefix),
{
    let mask = prefix_mask(prefix);
    let shift = (32 - prefix) as u32;
    assert(prefix != 0 ==> mask == 0xffff_ffffu32 << shift);
    assert(prefix == 0 ==> mask == 0);
    assert((addr & mask) + 1 < ((addr & mask) | !mask)) by (bit_vector)
        requires
            2 <= shift <= 32,
            shift < 32 ==> mask == 0xffff_ffffu32 << shift,
            shift == 32 ==> mask == 0,
    ;
}

/// Expands one CIDR block and appends the texts of its usable hosts.
#[verifier::rlimit(50)]
fn expand_cidr(s: &[char], out: &mut Vec<String>) -> (r: Result<(), TargetParseError>)
    ensures
        appends(old(out)@, final(out)@, r, cidr_expansion(s@)),
{
    let n: usize = s.len();
    let i: usize = find_char(s, '/');
    if i >= n {
        return Err(TargetParseError::InvalidCidr);
    }
    let left: &[char] = slice_subrange(s, 0, i);
    let right: &[char] = slice_subrange(s, i + 1, n);
    assert(left@ =~= s@.take(i as int));
    assert(right@ =~= s@.skip(i + 1));
    let j: usize = find_char(right, '/');
    proof {
        lemma_index_of_bounds(right@, '/');
    }
    if j < right.len() {
        return Err(TargetParseError::InvalidCidr);
    }
    let addr: u32 = match parse_address(left) {
        Some(a) => a,
        None => { return Err(TargetParseError::InvalidAddress); },
    };
    let prefix: u32 = match parse_unsigned(right, 32) {
        Some(p) => p,
        None => { return Err(TargetParseError::InvalidCidr); },
    };
    if prefix >= 31 {
        return Err(TargetParseError::NoUsableHosts);
    }
    let mask: u32 = if prefix == 0 {
        0
    } else {
        u32::MAX << (32 - prefix)
    };
    assert(mask == prefix_mask(prefix));
    let network: u32 = addr & mask;
    let broadcast: u32 = network | !mask;
    proof {
        lemma_block_has_room(addr, prefix);
    }
    push_run(out, network + 1, broadcast - network - 1);
    Ok(())
}

/// Expands one range and appends the texts of its addresses.
#[verifier::rlimit(50)]
fn expand_range(s: &[char], out: &mut Vec<String>) -> (r: Result<(), TargetParseError>)
    ensures
        appends(old(out)@, final(out)@, r, range_expansion(s@)),
{
    let n: usize = s.len();
    let i: usize = match rfind_char(s, '-') {
        Some(i) => i,
        None => { return Err(TargetParseError::InvalidRange); },
    };
    let left: &[char] = slice_subrange(s, 0, i);
    let right: &[char] = slice_subrange(s, i + 1, n);
    assert(left@ =~= s@.take(i as int));
    assert(right@ =~= s@.skip(i + 1));
    let base: u32 = match parse_address(trim(left)) {
        Some(a) => a,
        None => { return Err(TargetParseError::InvalidAddress); },
    };
    let end: u32 = match parse_unsigned(trim(right), 255) {
        Some(e) => e,
        None => { return Err(TargetParseError::InvalidRange); },
    };
    let low: u32 = base % 0x100;
    if end < low {
        return Err(TargetParseError::InvalidRange);
    }
    push_run(out, base, end - low + 1);
    Ok(())
}

/// Expands one trimmed segment and appends the texts of its addresses.
fn expand_segment(t: &[char], out: &mut Vec<String>) -> (r: Result<(), TargetParseError>)
    ensures
        appends(old(out)@, final(out)@, r, segment_expansion(t@)),
{
    reveal(segment_expansion);
    if t.len() == 0 {
        assert(string_views(out@) + address_texts(Seq::empty()) =~= string_views(out@));
        return Ok(());
    }
    proof {
        lemma_index_of_bounds(t@, '/');
        lemma_index_of_bounds(t@, '-');
    }
    if find_char(t, '/') < t.len() {
        expand_cidr(t, out)
    } else if find_char(t, '-') < t.len() {
        expand_range(t, out)
    } else {
        match parse_address(t) {
            Some(addr) => {
                let text = format_address(addr);
                out.push(text);
                assert(string_views(out@) =~= string_views(old(out)@) + address_texts(seq![addr]));
                Ok(())
            },
            None => Err(TargetParseError::InvalidAddress),
        }
    }
}

/// Expands a CIDR block, `address/prefix`, into the texts of its usable
/// hosts: every address strictly between the network address and the
/// broadcast address, in increasing order.
pub fn parse_cidr(cidr: &str) -> (r: Result<Vec<String>, TargetParseError>)
    ensures
        yields(r, cidr_expansion(cidr@)),
{
    let chars = to_chars(cidr);
    let mut out: Vec<String> = Vec::new();
    match expand_cidr(chars.as_slice(), &mut out) {
        Ok(()) => {
            assert(string_views(Seq::<String>::empty()) + address_texts(
                cidr_expansion(cidr@)->Ok_0,
            ) =~= address_texts(cidr_expansion(cidr@)->Ok_0));
            Ok(out)
        },
        Err(e) => Err(e),
    }
}

/// Expands a range, `base-end`, into the texts of the addresses whose last
/// octet runs from that of the base up to `end`, in increasing order.
pub fn parse_ip_range(range_str: &str) -> (r: Result<Vec<String>, TargetParseError>)
    ensures
        yields(r, range_expansion(range_str@)),
{
    let chars = to_chars(range_str);
    let mut out: Vec<String> = Vec::new();
    match expand_range(chars.as_slice(), &mut out) {
        Ok(()) => {
            assert(string_views(Seq::<String>::empty()) + address_texts(
                range_expansion(range_str@)->Ok_0,
            ) =~= address_texts(range_expansion(range_str@)->Ok_0));
            Ok(out)
        },
        Err(e) => Err(e),
    }
}

/// One step of reading a list from the left: what the list stands for, given
/// what the segments before `start` gave and what the segment at `start`
/// gives.
#[verifier::rlimit(50)]
proof fn lemma_list_step(
    whole: Seq<char>,
    start: int,
    acc: Seq<u32>,
    here: Result<Seq<u32>, TargetParseError>,
)
    requires
        0 <= start <= whole.len(),
        list_expansion(whole) == join_expansions(Ok(acc), list_expansion(whole.skip(start))),
        here == segment_expansion(
            trimmed(whole.skip(start).take(index_of(whole.skip(start), ','))),
        ),
    ensures
        ({
            let rest = whole.skip(start);
            let i = index_of(rest, ',');
            match here {
                Err(e) => list_expansion(whole) == Err::<Seq<u32>, TargetParseError>(e),
                Ok(found) => {
                    &&& address_texts(acc) + address_texts(found) == address_texts(acc + found)
                    &&& i < rest.len() ==> list_expansion(whole) == join_expansions(
                        Ok(acc + found),
                        list_expansion(whole.skip(start + i + 1)),
                    )
                    &&& i >= rest.len() ==> list_expansion(whole) == Ok::<
                        Seq<u32>,
                        TargetParseError,
                    >(acc + found)
                },
            }
        }),
{
    let rest = whole.skip(start);
    let i = index_of(rest, ',');
    lemma_index_of_bounds(rest, ',');
    if i < rest.len() {
        assert(rest.skip(i + 1) =~= whole.skip(start + i + 1));
        let tail = list_expansion(rest.skip(i + 1));
        assert(list_expansion(rest) == join_expansions(here, tail));
        if here is Ok && tail is Ok {
            assert(acc + (here->Ok_0 + tail->Ok_0) =~= (acc + here->Ok_0) + tail->Ok_0);
        }
    } else {
        assert(rest.take(i) =~= rest);
        assert(list_expansion(rest) == here);
    }
    if here is Ok {
        assert(address_texts(acc) + address_texts(here->Ok_0) =~= address_texts(
            acc + here->Ok_0,
        ));
    }
}

/// Expands a target specification into the texts of the addresses it names,
/// segment by segment from the left.
#[verifier::rlimit(50)]
pub fn parse_targets(targets: &str) -> (r: Result<Vec<String>, TargetParseError>)
    ensures
        yields(r, target_expansion(targets@)),
{
    let chars = to_chars(targets);
    let s: &[char] = chars.as_slice();
    let n: usize = s.len();
    let mut out: Vec<String> = Vec::new();
    let ghost mut acc: Seq<u32> = Seq::empty();
    let mut start: usize = 0;
    let mut done: bool = false;
    assert(s@.skip(0) =~= s@);
    assert(string_views(out@) =~= address_texts(acc));
    assert(join_expansions(Ok(acc), list_expansion(s@)) == list_expansion(s@)) by {
        if list_expansion(s@) is Ok {
            assert(acc + list_expansion(s@)->Ok_0 =~= list_expansion(s@)->Ok_0);
        }
    }
    while !done
        invariant
            s@ == targets@,
            n == s@.len(),
            start <= n,
            string_views(out@) == address_texts(acc),
            done ==> list_expansion(s@) == Ok::<Seq<u32>, TargetParseError>(acc),
            !done ==> list_expansion(s@) == join_expansions(
                Ok(acc),
                list_expansion(s@.skip(start as int)),
            ),
        decreases n - start + (if done { 0int } else { 1int }),
    {
        let rest: &[char] = slice_subrange(s, start, n);
        let i: usize = find_char(rest, ',');
        let piece: &[char] = slice_subrange(rest, 0, i);
        let segment: &[char] = trim(piece);
        proof {
            assert(rest@ =~= s@.skip(start as int));
            assert(piece@ =~= rest@.take(i as int));
            lemma_list_step(s@, start as int, acc, segment_expansion(segment@));
        }
        match expand_segment(segment, &mut out) {
            Ok(()) => {},
            Err(e) => {
                return Err(e);
            },
        }
        proof {
            acc = acc + segment_expansion(segment@)->Ok_0;
        }
        if i < rest.len() {
            start = start + i + 1;
        } else {
            done = true;
        }
    }
    if out.len() == 0 {
        Err(TargetParseError::EmptyTargetSet)
    } else {
        Ok(out)
    }
}

} // verus!
