//! Addresses and networks bound to the monitored interface.
//!
//! An address is held as its numeric value (32 bits for IPv4, 128 bits for
//! IPv6); a network is an address together with a prefix length. Membership
//! of an address in a network compares the leading `prefix` bits.

use vstd::prelude::*;

verus! {

/// An IPv4 or IPv6 address, as a plain numeric value.
#[derive(Clone, Copy, PartialEq, Eq, Structural, Debug)]
pub enum IpAddress {
    V4(u32),
    V6(u128),
}

/// A network: the base address of `addr`'s family together with the number
/// of leading bits that members must share with it.
#[derive(Clone, Copy, PartialEq, Eq, Structural, Debug)]
pub struct Network {
    pub addr: IpAddress,
    pub prefix: u8,
}

/// The longest admissible prefix for an address family.
pub open spec fn spec_max_prefix(addr: IpAddress) -> u8 {
    match addr {
        IpAddress::V4(_) => 32u8,
        IpAddress::V6(_) => 128u8,
    }
}

impl Network {
    /// A network is well formed when its prefix fits its address family.
    pub open spec fn wf(self) -> bool {
        self.prefix <= spec_max_prefix(self.addr)
    }
}

/// Whether the leading `prefix` bits of `a` and `b` agree.
pub open spec fn spec_v4_prefix_match(a: u32, b: u32, prefix: u8) -> bool
    recommends
        prefix <= 32,
{
    if prefix == 0 {
        true
    } else {
        (a >> ((32 - prefix) as u32)) == (b >> ((32 - prefix) as u32))
    }
}

/// Whether the leading `prefix` bits of `a` and `b` agree.
pub open spec fn spec_v6_prefix_match(a: u128, b: u128, prefix: u8) -> bool
    recommends
        prefix <= 128,
{
    if prefix == 0 {
        true
    } else {
        (a >> ((128 - prefix) as u128)) == (b >> ((128 - prefix) as u128))
    }
}

/// Whether `addr` lies inside `net`. An address of the other family is
/// never a member.
pub open spec fn spec_contains(net: Network, addr: IpAddress) -> bool {
    match (net.addr, addr) {
        (IpAddress::V4(n), IpAddress::V4(a)) => spec_v4_prefix_match(n, a, net.prefix),
        (IpAddress::V6(n), IpAddress::V6(a)) => spec_v6_prefix_match(n, a, net.prefix),
        _ => false,
    }
}

/// The decimal digit character for a value below ten.
pub open spec fn spec_dec_digit(d: int) -> char
    recommends
        0 <= d < 10,
{
    if d == 0 { '0' }
    else if d == 1 { '1' }
    else if d == 2 { '2' }
    else if d == 3 { '3' }
    else if d == 4 { '4' }
    else if d == 5 { '5' }
    else if d == 6 { '6' }
    else if d == 7 { '7' }
    else if d == 8 { '8' }
    else { '9' }
}

/// The decimal rendering of an unsigned value, most significant digit first.
pub open spec fn spec_dec_string(n: int) -> Seq<char>
    recommends
        n >= 0,
    decreases n,
{
    if n < 10 {
        seq![spec_dec_digit(n)]
    } else {
        spec_dec_string(n / 10).push(spec_dec_digit(n % 10))
    }
}

/// Appends the character of one decimal digit to `s`.
fn push_dec_digit(s: &mut String, d: u8)
    requires
        d < 10,
    ensures
        final(s)@ == old(s)@.push(spec_dec_digit(d as int)),
{
    proof {
        reveal_strlit("0");
        reveal_strlit("1");
        reveal_strlit("2");
        reveal_strlit("3");
        reveal_strlit("4");
        reveal_strlit("5");
        reveal_strlit("6");
        reveal_strlit("7");
        reveal_strlit("8");
        reveal_strlit("9");
    }
    match d {
        0 => s.append("0"),
        1 => s.append("1"),
        2 => s.append("2"),
        3 => s.append("3"),
        4 => s.append("4"),
        5 => s.append("5"),
        6 => s.append("6"),
        7 => s.append("7"),
        8 => s.append("8"),
        _ => s.append("9"),
    }
    assert(final(s)@ =~= old(s)@.push(spec_dec_digit(d as int)));
}

/// Appends the decimal rendering of `n` to `s`.
pub fn append_u64_dec(s: &mut String, n: u64)
    ensures
        final(s)@ == old(s)@ + spec_dec_string(n as int),
    decreases n,
{
    if n < 10 {
        push_dec_digit(s, n as u8);
        assert(final(s)@ =~= old(s)@ + spec_dec_string(n as int));
    } else {
        append_u64_dec(s, n / 10);
        push_dec_digit(s, (n % 10) as u8);
        assert(final(s)@ =~= old(s)@ + spec_dec_string(n as int));
    }
}

/// The dotted-decimal rendering of an IPv4 address value.
pub open spec fn spec_v4_string(a: u32) -> Seq<char> {
    spec_dec_string(a as int / 0x1000000)
        + seq!['.'] + spec_dec_string((a as int / 0x10000) % 256)
        + seq!['.'] + spec_dec_string((a as int / 0x100) % 256)
        + seq!['.'] + spec_dec_string(a as int % 256)
}

/// Appends the dotted-decimal rendering of an IPv4 address to `s`.
pub fn append_v4(s: &mut String, a: u32)
    ensures
        final(s)@ == old(s)@ + spec_v4_string(a),
{
    proof {
        reveal_strlit(".");
    }
    append_u64_dec(s, (a / 0x1000000) as u64);
    s.append(".");
    append_u64_dec(s, ((a / 0x10000) % 256) as u64);
    s.append(".");
    append_u64_dec(s, ((a / 0x100) % 256) as u64);
    s.append(".");
    append_u64_dec(s, (a % 256) as u64);
    assert(final(s)@ =~= old(s)@ + spec_v4_string(a));
}

/// The lowercase hexadecimal digit character for a value below sixteen.
pub open spec fn spec_hex_digit(d: int) -> char
    recommends
        0 <= d < 16,
{
    if d < 10 { spec_dec_digit(d) }
    else if d == 10 { 'a' }
    else if d == 11 { 'b' }
    else if d == 12 { 'c' }
    else if d == 13 { 'd' }
    else if d == 14 { 'e' }
    else { 'f' }
}

/// The lowercase hexadecimal rendering of an unsigned value, without
/// leading zeros.
pub open spec fn spec_hex_string(n: int) -> Seq<char>
    recommends
        n >= 0,
    decreases n,
{
    if n < 16 {
        seq![spec_hex_digit(n)]
    } else {
        spec_hex_string(n / 16).push(spec_hex_digit(n % 16))
    }
}

/// Appends the character of one hexadecimal digit to `s`.
fn push_hex_digit(s: &mut String, d: u8)
    requires
        d < 16,
    ensures
        final(s)@ == old(s)@.push(spec_hex_digit(d as int)),
{
    proof {
        reveal_strlit("a");
        reveal_strlit("b");
        reveal_strlit("c");
        reveal_strlit("d");
        reveal_strlit("e");
        reveal_strlit("f");
    }
    if d < 10 {
        push_dec_digit(s, d);
    } else {
        match d {
            10 => s.append("a"),
            11 => s.append("b"),
            12 => s.append("c"),
            13 => s.append("d"),
            14 => s.append("e"),
            _ => s.append("f"),
        }
    }
    assert(final(s)@ =~= old(s)@.push(spec_hex_digit(d as int)));
}

/// Appends the hexadecimal rendering of one 16-bit group to `s`.
fn append_hex16(s: &mut String, n: u16)
    ensures
        final(s)@ == old(s)@ + spec_hex_string(n as int),
    decreases n,
{
    if n < 16 {
        push_hex_digit(s, n as u8);
        assert(final(s)@ =~= old(s)@ + spec_hex_string(n as int));
    } else {
        append_hex16(s, n / 16);
        push_hex_digit(s, (n % 16) as u8);
        assert(final(s)@ =~= old(s)@ + spec_hex_string(n as int));
    }
}

/// The eight 16-bit groups of an IPv6 address value, most significant first.
pub open spec fn spec_v6_groups(a: u128) -> Seq<u16> {
    seq![
        (a as int / 0x1_0000_0000_0000_0000_0000_0000_0000 % 0x10000) as u16,
        (a as int / 0x1_0000_0000_0000_0000_0000_0000 % 0x10000) as u16,
        (a as int / 0x1_0000_0000_0000_0000_0000 % 0x10000) as u16,
        (a as int / 0x1_0000_0000_0000_0000 % 0x10000) as u16,
        (a as int / 0x1_0000_0000_0000 % 0x10000) as u16,
        (a as int / 0x1_0000_0000 % 0x10000) as u16,
        (a as int / 0x1_0000 % 0x10000) as u16,
        (a as int % 0x10000) as u16,
    ]
}

/// The length of the run of zero groups that starts at `i`.
pub open spec fn spec_zero_run_len(g: Seq<u16>, i: int) -> int
    recommends
        g.len() == 8,
        0 <= i <= 8,
    decreases 8 - i,
{
    if i < 0 || i >= 8 || i >= g.len() || g[i] != 0 {
        0
    } else {
        1 + spec_zero_run_len(g, i + 1)
    }
}

/// The start of the leftmost longest run of zero groups at or after `i`;
/// 8 when every group from `i` on is nonzero.
pub open spec fn spec_best_zero_run(g: Seq<u16>, i: int) -> int
    recommends
        g.len() == 8,
        0 <= i <= 8,
    decreases 8 - i,
{
    if i < 0 || i >= 8 {
        8
    } else {
        let rest = spec_best_zero_run(g, i + 1);
        if spec_zero_run_len(g, i) >= spec_zero_run_len(g, rest) {
            i
        } else {
            rest
        }
    }
}

/// The hexadecimal groups `g[i..]` joined by colons, each preceded by one,
/// as the tail of a group list.
pub open spec fn spec_join_tail(g: Seq<u16>, i: int) -> Seq<char>
    decreases g.len() - i,
{
    if i < 0 || i >= g.len() {
        Seq::<char>::empty()
    } else {
        seq![':'] + spec_hex_string(g[i] as int) + spec_join_tail(g, i + 1)
    }
}

/// The hexadecimal groups of `g` joined by colons.
pub open spec fn spec_join_groups(g: Seq<u16>) -> Seq<char> {
    if g.len() == 0 {
        Seq::<char>::empty()
    } else {
        spec_hex_string(g[0] as int) + spec_join_tail(g, 1)
    }
}

/// Whether the groups are those of an IPv4-mapped address
/// (`::ffff:a.b.c.d`).
pub open spec fn spec_v4_mapped(g: Seq<u16>) -> bool
    recommends
        g.len() == 8,
{
    g[0] == 0 && g[1] == 0 && g[2] == 0 && g[3] == 0 && g[4] == 0 && g[5] == 0xffff
}

/// The canonical textual rendering of an IPv6 address value: the longest
/// run of at least two zero groups (leftmost on a tie) is elided as `::`,
/// groups are lowercase hexadecimal, and an IPv4-mapped address ends in
/// dotted-decimal form.
pub open spec fn spec_v6_string(a: u128) -> Seq<char> {
    let g = spec_v6_groups(a);
    if spec_v4_mapped(g) {
        seq![':', ':', 'f', 'f', 'f', 'f', ':'] + spec_v4_string((a as int % 0x1_0000_0000) as u32)
    } else {
        let bs = spec_best_zero_run(g, 0);
        let bl = spec_zero_run_len(g, bs);
        if bl > 1 {
            spec_join_groups(g.subrange(0, bs)) + seq![':', ':']
                + spec_join_groups(g.subrange(bs + bl, 8))
        } else {
            spec_join_groups(g)
        }
    }
}

/// The eight groups of an IPv6 address value.
fn v6_groups(a: u128) -> (g: [u16; 8])
    ensures
        g@ == spec_v6_groups(a),
{
    let g: [u16; 8] = [
        (a / 0x1_0000_0000_0000_0000_0000_0000_0000 % 0x10000) as u16,
        (a / 0x1_0000_0000_0000_0000_0000_0000 % 0x10000) as u16,
        (a / 0x1_0000_0000_0000_0000_0000 % 0x10000) as u16,
        (a / 0x1_0000_0000_0000_0000 % 0x10000) as u16,
        (a / 0x1_0000_0000_0000 % 0x10000) as u16,
        (a / 0x1_0000_0000 % 0x10000) as u16,
        (a / 0x1_0000 % 0x10000) as u16,
        (a % 0x10000) as u16,
    ];
    assert(g@ =~= spec_v6_groups(a));
    g
}

/// The length of the zero run starting at `i`.
fn zero_run_len(g: &[u16; 8], i: usize) -> (r: usize)
    requires
        i <= 8,
    ensures
        r == spec_zero_run_len(g@, i as int),
        r <= 8 - i,
    decreases 8 - i,
{
    if i >= 8 || g[i] != 0 {
        0
    } else {
        1 + zero_run_len(g, i + 1)
    }
}

/// The start of the leftmost longest zero run at or after `i`.
fn best_zero_run(g: &[u16; 8], i: usize) -> (r: usize)
    requires
        i <= 8,
    ensures
        r == spec_best_zero_run(g@, i as int),
        r <= 8,
    decreases 8 - i,
{
    if i >= 8 {
        8
    } else {
        let rest = best_zero_run(g, i + 1);
        if zero_run_len(g, i) >= zero_run_len(g, rest) {
            i
        } else {
            rest
        }
    }
}

/// Appends the groups `g[i..hi]` to `s`, each preceded by a colon.
fn append_join_tail(s: &mut String, g: &[u16; 8], i: usize, hi: usize)
    requires
        i <= hi <= 8,
    ensures
        final(s)@ == old(s)@ + spec_join_tail(g@.subrange(0, hi as int), i as int),
    decreases hi - i,
{
    proof {
        reveal_strlit(":");
    }
    if i < hi {
        s.append(":");
        append_hex16(s, g[i]);
        append_join_tail(s, g, i + 1, hi);
    }
    assert(final(s)@ =~= old(s)@ + spec_join_tail(g@.subrange(0, hi as int), i as int));
}

/// Appends the groups `g[lo..hi]` joined by colons to `s`.
fn append_join_groups(s: &mut String, g: &[u16; 8], lo: usize, hi: usize)
    requires
        lo <= hi <= 8,
    ensures
        final(s)@ == old(s)@ + spec_join_groups(g@.subrange(lo as int, hi as int)),
{
    if lo < hi {
        append_hex16(s, g[lo]);
        append_join_tail(s, g, lo + 1, hi);
        proof {
            lemma_join_tail_shift(g@, lo as int, lo + 1, hi as int);
        }
    }
    assert(final(s)@ =~= old(s)@ + spec_join_groups(g@.subrange(lo as int, hi as int)));
}

/// Joining a tail over `g[0..hi]` from `i` says the same as joining the
/// tail of the window `g[lo..hi]` from its position `i - lo`.
proof fn lemma_join_tail_shift(g: Seq<u16>, lo: int, i: int, hi: int)
    requires
        g.len() == 8,
        0 <= lo <= i <= hi <= 8,
    ensures
        spec_join_tail(g.subrange(0, hi), i) == spec_join_tail(
            g.subrange(lo, hi),
            i - lo,
        ),
    decreases hi - i,
{
    if i < hi {
        lemma_join_tail_shift(g, lo, i + 1, hi);
        assert(spec_join_tail(g.subrange(0, hi), i) =~= spec_join_tail(
            g.subrange(lo, hi),
            i - lo,
        ));
    } else {
        assert(spec_join_tail(g.subrange(0, hi), i) =~= spec_join_tail(
            g.subrange(lo, hi),
            i - lo,
        ));
    }
}

/// Appends the canonical textual rendering of an IPv6 address to `s`.
pub fn append_v6(s: &mut String, a: u128)
    ensures
        final(s)@ == old(s)@ + spec_v6_string(a),
{
    let g = v6_groups(a);
    if g[0] == 0 && g[1] == 0 && g[2] == 0 && g[3] == 0 && g[4] == 0 && g[5] == 0xffff {
        proof {
            reveal_strlit("::ffff:");
        }
        s.append("::ffff:");
        append_v4(s, (a % 0x1_0000_0000) as u32);
        assert(final(s)@ =~= old(s)@ + spec_v6_string(a));
    } else {
        let bs = best_zero_run(&g, 0);
        let bl = zero_run_len(&g, bs);
        if bl > 1 {
            proof {
                reveal_strlit("::");
            }
            append_join_groups(s, &g, 0, bs);
            s.append("::");
            append_join_groups(s, &g, bs + bl, 8);
            assert(g@.subrange(0, bs as int) =~= spec_v6_groups(a).subrange(
                0,
                spec_best_zero_run(spec_v6_groups(a), 0),
            ));
            assert(final(s)@ =~= old(s)@ + spec_v6_string(a));
        } else {
            append_join_groups(s, &g, 0, 8);
            assert(g@.subrange(0, 8) =~= g@);
            assert(final(s)@ =~= old(s)@ + spec_v6_string(a));
        }
    }
}

/// The textual rendering of an address: dotted decimal for IPv4, canonical
/// hexadecimal form for IPv6.
pub open spec fn spec_ip_string(addr: IpAddress) -> Seq<char> {
    match addr {
        IpAddress::V4(a) => spec_v4_string(a),
        IpAddress::V6(a) => spec_v6_string(a),
    }
}

impl IpAddress {
    /// Renders the address as its textual form.
    pub fn to_text(&self) -> (r: String)
        ensures
            r@ == spec_ip_string(*self),
    {
        let mut s = String::new();
        match self {
            IpAddress::V4(a) => append_v4(&mut s, *a),
            IpAddress::V6(a) => append_v6(&mut s, *a),
        }
        s
    }
}

impl Network {
    /// A network from an address and a prefix length; a prefix beyond
    /// the family's bits is refused.
    pub fn new(addr: IpAddress, prefix: u8) -> (r: Option<Network>)
        ensures
            match r {
                Some(n) => prefix <= spec_max_prefix(addr) && n == (Network { addr, prefix })
                    && n.wf(),
                None => prefix > spec_max_prefix(addr),
            },
    {
        let max: u8 = match addr {
            IpAddress::V4(_) => 32,
            IpAddress::V6(_) => 128,
        };
        if prefix > max {
            None
        } else {
            Some(Network { addr, prefix })
        }
    }

    /// Membership test: the address shares the network's leading bits.
    pub fn contains(&self, addr: &IpAddress) -> (r: bool)
        requires
            self.wf(),
        ensures
            r == spec_contains(*self, *addr),
    {
        match (&self.addr, addr) {
            (IpAddress::V4(n), IpAddress::V4(a)) => {
                if self.prefix == 0 {
                    true
                } else {
                    let shift: u32 = (32 - self.prefix) as u32;
                    (*n >> shift) == (*a >> shift)
                }
            },
            (IpAddress::V6(n), IpAddress::V6(a)) => {
                if self.prefix == 0 {
                    true
                } else {
                    let shift: u128 = (128 - self.prefix) as u128;
                    (*n >> shift) == (*a >> shift)
                }
            },
            _ => false,
        }
    }
}

} // verus!
