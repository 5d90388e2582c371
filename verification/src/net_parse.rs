//! Reading addresses and networks from their text form.
//!
//! A network range is an address, optionally followed by one slash and
//! a prefix length; an IPv4 range also takes a dotted-decimal netmask
//! of contiguous leading ones in the prefix's place. An IPv4 address
//! is four octets of one to three decimal digits without a leading
//! zero; an IPv6 address is up to eight hexadecimal groups separated
//! by colons, with at most one elision of a run of zero groups and an
//! optional dotted-decimal tail standing for the last two groups.

use vstd::prelude::*;

use crate::net::{IpAddress, Network};
use crate::text::{spec_all_digits, spec_digit_val, spec_digits_val, spec_split_byte, split_byte};

verus! {

/// A network text's failure to read.
#[derive(Clone, Copy, PartialEq, Eq, Structural, Debug)]
pub enum NetworkParseError {
    /// The address part is not a well-formed address.
    InvalidAddr,
    /// The prefix part is not a prefix length in range, nor a
    /// contiguous netmask.
    InvalidPrefix,
    /// The text has more than one slash.
    InvalidCidrFormat,
}

/// The value of one dotted-decimal octet: one to three decimal digits,
/// no leading zero, at most 255.
pub open spec fn spec_parse_octet(s: Seq<u8>) -> Option<u8> {
    if 1 <= s.len() <= 3 && spec_all_digits(s, 10) && (s.len() == 1 || s[0] != 48)
        && spec_digits_val(s, 10) <= 255 {
        Option::Some(spec_digits_val(s, 10) as u8)
    } else {
        Option::None
    }
}

/// The value of an IPv4 address in dotted-decimal form: exactly four
/// octets separated by dots.
pub open spec fn spec_parse_v4_addr(s: Seq<u8>) -> Option<u32> {
    let parts = spec_split_byte(s, 46);
    if parts.len() != 4 {
        Option::None
    } else {
        match (spec_parse_octet(parts[0]), spec_parse_octet(parts[1]), spec_parse_octet(parts[2]),
        spec_parse_octet(parts[3])) {
            (Option::Some(a), Option::Some(b), Option::Some(c), Option::Some(d)) => Option::Some(
                (a * 0x1000000 + b * 0x10000 + c * 0x100 + d) as u32,
            ),
            _ => Option::None,
        }
    }
}

/// Reads one octet.
fn parse_octet(s: &Vec<u8>) -> (r: Option<u8>)
    ensures
        r == spec_parse_octet(s@),
{
    if s.len() < 1 || s.len() > 3 {
        return None;
    }
    if s.len() > 1 && s[0] == 48 {
        return None;
    }
    let mut val: u32 = 0;
    let mut i: usize = 0;
    while i < s.len()
        invariant
            i <= s@.len(),
            s@.len() <= 3,
            forall|j: int| 0 <= j < i ==> spec_digit_val(#[trigger] s@[j]) < 10,
            spec_all_digits(s@.subrange(0, i as int), 10),
            val == spec_digits_val(s@.subrange(0, i as int), 10),
            i == 0 ==> val == 0,
            i == 1 ==> val <= 9,
            i == 2 ==> val <= 99,
            i == 3 ==> val <= 999,
        decreases s@.len() - i,
    {
        let b = s[i];
        if b < 48 || b > 57 {
            proof {
                assert(spec_digit_val(s@[i as int]) >= 10);
                assert(!spec_all_digits(s@, 10));
            }
            return None;
        }
        proof {
            assert(s@.subrange(0, i + 1).drop_last() =~= s@.subrange(0, i as int));
        }
        val = val * 10 + (b - 48) as u32;
        i += 1;
    }
    proof {
        assert(s@.subrange(0, s@.len() as int) =~= s@);
    }
    if val > 255 {
        None
    } else {
        Some(val as u8)
    }
}

/// Reads an IPv4 address in dotted-decimal form.
pub fn parse_v4_addr(s: &Vec<u8>) -> (r: Option<u32>)
    ensures
        r == spec_parse_v4_addr(s@),
{
    let parts = split_byte(s, 46);
    if parts.len() != 4 {
        return None;
    }
    proof {
        assert(parts@[0]@ =~= parts.deep_view()[0]);
        assert(parts@[1]@ =~= parts.deep_view()[1]);
        assert(parts@[2]@ =~= parts.deep_view()[2]);
        assert(parts@[3]@ =~= parts.deep_view()[3]);
    }
    let a = parse_octet(&parts[0]);
    let b = parse_octet(&parts[1]);
    let c = parse_octet(&parts[2]);
    let d = parse_octet(&parts[3]);
    match (a, b, c, d) {
        (Some(a), Some(b), Some(c), Some(d)) => Some(
            (a as u32) * 0x1000000 + (b as u32) * 0x10000 + (c as u32) * 0x100 + (d as u32),
        ),
        _ => None,
    }
}

/// The netmask of a prefix length: that many leading one bits.
pub open spec fn spec_v4_mask(p: int) -> u32
    recommends
        0 <= p <= 32,
{
    (0xffff_ffffu64 - (0xffff_ffffu64 >> p as u64)) as u32
}

/// The prefix length whose netmask is `mask`, looked for from `p` up.
pub open spec fn spec_mask_prefix_from(mask: u32, p: int) -> Option<u8>
    decreases 33 - p,
{
    if p < 0 || p > 32 {
        Option::None
    } else if mask == spec_v4_mask(p) {
        Option::Some(p as u8)
    } else {
        spec_mask_prefix_from(mask, p + 1)
    }
}

/// The prefix length of a contiguous netmask, if `mask` is one.
pub open spec fn spec_mask_prefix(mask: u32) -> Option<u8> {
    spec_mask_prefix_from(mask, 0)
}

/// The prefix length of a contiguous netmask.
fn mask_to_prefix(mask: u32) -> (r: Option<u8>)
    ensures
        r == spec_mask_prefix(mask),
{
    let mut p: u64 = 0;
    while p <= 32
        invariant
            p <= 33,
            spec_mask_prefix(mask) == spec_mask_prefix_from(mask, p as int),
        decreases 33 - p,
    {
        proof {
            assert(0xffff_ffffu64 >> p <= 0xffff_ffffu64) by (bit_vector);
        }
        let m = (0xffff_ffffu64 - (0xffff_ffffu64 >> p)) as u32;
        if mask == m {
            return Some(p as u8);
        }
        p += 1;
    }
    None
}

/// The value of a prefix-length numeral: an optional plus sign, then
/// one or more decimal digits, valuing at most 255.
pub open spec fn spec_parse_prefix_num(s: Seq<u8>) -> Option<u8> {
    let ds = if s.len() > 0 && s[0] == 43 {
        s.drop_first()
    } else {
        s
    };
    if ds.len() > 0 && spec_all_digits(ds, 10) && spec_digits_val(ds, 10) <= 255 {
        Option::Some(spec_digits_val(ds, 10) as u8)
    } else {
        Option::None
    }
}

/// Reads a prefix-length numeral.
fn parse_prefix_num(s: &Vec<u8>) -> (r: Option<u8>)
    ensures
        r == spec_parse_prefix_num(s@),
{
    let ghost ds = if s@.len() > 0 && s@[0] == 43 {
        s@.drop_first()
    } else {
        s@
    };
    let mut start: usize = 0;
    if s.len() > 0 && s[0] == 43 {
        start = 1;
    }
    if start >= s.len() {
        proof {
            assert(ds.len() == 0);
        }
        return None;
    }
    proof {
        assert(ds =~= s@.skip(start as int));
        assert(ds.subrange(0, 0) =~= Seq::<u8>::empty());
    }
    let mut val: u64 = 0;
    let mut i: usize = start;
    while i < s.len()
        invariant
            start <= i <= s@.len(),
            ds == s@.skip(start as int),
            ds == (if s@.len() > 0 && s@[0] == 43 {
                s@.drop_first()
            } else {
                s@
            }),
            ds.len() == s@.len() - start,
            forall|j: int| 0 <= j < i - start ==> spec_digit_val(#[trigger] ds[j]) < 10,
            spec_all_digits(ds.subrange(0, i - start), 10),
            val == spec_digits_val(ds.subrange(0, i - start), 10),
            val <= 255,
        decreases s@.len() - i,
    {
        let b = s[i];
        proof {
            assert(ds[i - start] == s@[i as int]);
        }
        if b < 48 || b > 57 {
            proof {
                assert(spec_digit_val(ds[i - start]) >= 10);
                assert(!spec_all_digits(ds, 10));
            }
            return None;
        }
        proof {
            assert(ds.subrange(0, i - start + 1).drop_last() =~= ds.subrange(0, i - start));
        }
        val = val * 10 + (b - 48) as u64;
        if val > 255 {
            // Further digits only grow the value, so the numeral is out
            // of range whatever follows.
            proof {
                if crate::text::spec_all_digits(ds, 10) {
                    crate::text::lemma_digits_val_monotone(ds, 10, i - start + 1);
                }
            }
            return None;
        }
        i += 1;
    }
    proof {
        assert(ds.subrange(0, ds.len() as int) =~= ds);
    }
    Some(val as u8)
}

/// The value of one hexadecimal group of an IPv6 address: one to four
/// hexadecimal digits of either case.
pub open spec fn spec_parse_group(s: Seq<u8>) -> Option<u16> {
    if 1 <= s.len() <= 4 && spec_all_digits(s, 16) {
        Option::Some(spec_digits_val(s, 16) as u16)
    } else {
        Option::None
    }
}

/// Reads one hexadecimal group.
fn parse_group(s: &Vec<u8>) -> (r: Option<u16>)
    ensures
        r == spec_parse_group(s@),
{
    if s.len() < 1 || s.len() > 4 {
        return None;
    }
    let mut val: u32 = 0;
    let mut i: usize = 0;
    while i < s.len()
        invariant
            i <= s@.len(),
            s@.len() <= 4,
            spec_all_digits(s@.subrange(0, i as int), 16),
            val == spec_digits_val(s@.subrange(0, i as int), 16),
            i == 0 ==> val == 0,
            i == 1 ==> val <= 0xf,
            i == 2 ==> val <= 0xff,
            i == 3 ==> val <= 0xfff,
            i == 4 ==> val <= 0xffff,
        decreases s@.len() - i,
    {
        let d = crate::text::digit_val(s[i]);
        if d >= 16 {
            proof {
                assert(spec_digit_val(s@[i as int]) >= 16);
                assert(!spec_all_digits(s@, 16));
            }
            return None;
        }
        proof {
            assert(s@.subrange(0, i + 1).drop_last() =~= s@.subrange(0, i as int));
        }
        val = val * 16 + d as u32;
        i += 1;
    }
    proof {
        assert(s@.subrange(0, s@.len() as int) =~= s@);
    }
    Some(val as u16)
}

/// The position of the first two adjacent colons at or after `i`, or
/// -1 when there is none.
pub open spec fn spec_first_dcolon(s: Seq<u8>, i: int) -> int
    decreases s.len() - i,
{
    if i < 0 || i + 1 >= s.len() {
        -1
    } else if s[i] == 58 && s[i + 1] == 58 {
        i
    } else {
        spec_first_dcolon(s, i + 1)
    }
}

/// A found pair of colons lies two bytes inside the text.
proof fn lemma_first_dcolon_range(s: Seq<u8>, i: int)
    requires
        0 <= i,
    ensures
        spec_first_dcolon(s, i) == -1 || (i <= spec_first_dcolon(s, i) && spec_first_dcolon(s, i)
            + 2 <= s.len() && s[spec_first_dcolon(s, i)] == 58 && s[spec_first_dcolon(s, i) + 1]
            == 58),
    decreases s.len() - i,
{
    if i + 1 < s.len() && !(s[i] == 58 && s[i + 1] == 58) {
        lemma_first_dcolon_range(s, i + 1);
    }
}

/// Finds the first two adjacent colons; the length means none.
fn first_dcolon(s: &Vec<u8>) -> (r: usize)
    ensures
        spec_first_dcolon(s@, 0) >= 0 ==> r == spec_first_dcolon(s@, 0),
        spec_first_dcolon(s@, 0) < 0 ==> r == s@.len(),
        r <= s@.len(),
    decreases s@.len(),
{
    let mut i: usize = 0;
    while i < s.len() && i + 1 < s.len()
        invariant
            i <= s@.len(),
            spec_first_dcolon(s@, 0) == spec_first_dcolon(s@, i as int),
        decreases s@.len() - i,
    {
        if s[i] == 58 && s[i + 1] == 58 {
            return i;
        }
        i += 1;
    }
    s.len()
}

/// The values of a run of hexadecimal groups, or nothing when one of
/// them fails to read.
pub open spec fn spec_group_vals(items: Seq<Seq<u8>>) -> Option<Seq<u16>>
    decreases items.len(),
{
    if items.len() == 0 {
        Option::Some(Seq::<u16>::empty())
    } else {
        match (spec_group_vals(items.drop_last()), spec_parse_group(items.last())) {
            (Option::Some(p), Option::Some(g)) => Option::Some(p.push(g)),
            _ => Option::None,
        }
    }
}

/// A failed group anywhere fails the whole run.
proof fn lemma_group_vals_extend_none(items: Seq<Seq<u8>>, k: int)
    requires
        0 <= k <= items.len(),
        spec_group_vals(items.subrange(0, k)) is None,
    ensures
        spec_group_vals(items) is None,
    decreases items.len() - k,
{
    if k == items.len() {
        assert(items.subrange(0, k) =~= items);
    } else {
        assert(items.subrange(0, k + 1).drop_last() =~= items.subrange(0, k));
        lemma_group_vals_extend_none(items, k + 1);
    }
}

/// Reads the first `hi` items as hexadecimal groups.
fn parse_groups(items: &Vec<Vec<u8>>, hi: usize) -> (r: Option<Vec<u16>>)
    requires
        hi <= items@.len(),
    ensures
        match r {
            Some(v) => spec_group_vals(items.deep_view().subrange(0, hi as int)) == Option::Some(
                v@,
            ),
            None => spec_group_vals(items.deep_view().subrange(0, hi as int)) is None,
        },
{
    let ghost its = items.deep_view();
    let mut out: Vec<u16> = Vec::new();
    let mut i: usize = 0;
    proof {
        assert(its.subrange(0, 0) =~= Seq::<Seq<u8>>::empty());
        assert(out@ =~= Seq::<u16>::empty());
    }
    while i < hi
        invariant
            i <= hi <= items@.len(),
            its == items.deep_view(),
            its.len() == items@.len(),
            forall|j: int| 0 <= j < items@.len() ==> (#[trigger] its[j]) == items@[j]@,
            spec_group_vals(its.subrange(0, i as int)) == Option::Some(out@),
        decreases hi - i,
    {
        match parse_group(&items[i]) {
            Some(g) => {
                out.push(g);
                proof {
                    assert(its.subrange(0, i + 1).drop_last() =~= its.subrange(0, i as int));
                    assert(its.subrange(0, i + 1).last() == its[i as int]);
                }
            },
            None => {
                proof {
                    assert(its.subrange(0, i + 1).drop_last() =~= its.subrange(0, i as int));
                    assert(its.subrange(0, i + 1).last() == its[i as int]);
                    assert(spec_group_vals(its.subrange(0, i + 1)) is None);
                    lemma_group_vals_extend_none(its.subrange(0, hi as int), i + 1);
                    assert(its.subrange(0, hi as int).subrange(0, i + 1) =~= its.subrange(
                        0,
                        i + 1,
                    ));
                }
                return None;
            },
        }
        i += 1;
    }
    Some(out)
}

/// The group values of the tail of an address: a run of hexadecimal
/// groups, or such a run closed by one dotted-decimal IPv4 address
/// standing for the last two groups.
pub open spec fn spec_back_vals(items: Seq<Seq<u8>>) -> Option<Seq<u16>> {
    match spec_group_vals(items) {
        Option::Some(v) => Option::Some(v),
        Option::None => if items.len() >= 1 {
            match (spec_group_vals(items.drop_last()), spec_parse_v4_addr(items.last())) {
                (Option::Some(p), Option::Some(a)) => Option::Some(
                    p.push((a as int / 0x10000) as u16).push((a as int % 0x10000) as u16),
                ),
                _ => Option::None,
            }
        } else {
            Option::None
        },
    }
}

/// Reads the tail items of an address.
fn parse_back_vals(items: &Vec<Vec<u8>>) -> (r: Option<Vec<u16>>)
    ensures
        match r {
            Some(v) => spec_back_vals(items.deep_view()) == Option::Some(v@),
            None => spec_back_vals(items.deep_view()) is None,
        },
{
    let ghost its = items.deep_view();
    match parse_groups(items, items.len()) {
        Some(v) => {
            proof {
                assert(its.subrange(0, its.len() as int) =~= its);
            }
            Some(v)
        },
        None => {
            proof {
                assert(its.subrange(0, its.len() as int) =~= its);
            }
            if items.len() == 0 {
                return None;
            }
            let mut v = match parse_groups(items, items.len() - 1) {
                Some(v) => v,
                None => {
                    proof {
                        assert(its.subrange(0, its.len() - 1) =~= its.drop_last());
                    }
                    return None;
                },
            };
            proof {
                assert(its.subrange(0, its.len() - 1) =~= its.drop_last());
                assert(its[its.len() - 1] == items@[items@.len() - 1]@);
            }
            match parse_v4_addr(&items[items.len() - 1]) {
                Some(a) => {
                    v.push((a / 0x10000) as u16);
                    v.push((a % 0x10000) as u16);
                    Some(v)
                },
                None => None,
            }
        },
    }
}

/// An IPv6 address value from its eight groups.
pub open spec fn spec_combine_groups(g: Seq<u16>) -> u128
    recommends
        g.len() == 8,
{
    (g[0] * 0x10000000000000000000000000000 + g[1] * 0x1000000000000000000000000
        + g[2] * 0x100000000000000000000 + g[3] * 0x10000000000000000
        + g[4] * 0x1000000000000 + g[5] * 0x100000000 + g[6] * 0x10000 + g[7]) as u128
}

/// The reading of an IPv6 address: hexadecimal groups separated by
/// colons, at most one elision of a run of zero groups, and an
/// optional dotted-decimal tail standing for the last two groups.
pub open spec fn spec_parse_v6_addr(s: Seq<u8>) -> Option<u128> {
    let di = spec_first_dcolon(s, 0);
    if di < 0 {
        match spec_back_vals(spec_split_byte(s, 58)) {
            Option::Some(g) => if g.len() == 8 {
                Option::Some(spec_combine_groups(g))
            } else {
                Option::None
            },
            Option::None => Option::None,
        }
    } else {
        let front = s.take(di);
        let back = s.skip(di + 2);
        if spec_first_dcolon(back, 0) >= 0 {
            Option::None
        } else {
            spec_parse_v6_elided(front, back)
        }
    }
}

/// The reading of an address with one elision: the groups before it,
/// then zero groups, then the groups after it, eight in all, with at
/// least one group elided.
pub open spec fn spec_parse_v6_elided(front: Seq<u8>, back: Seq<u8>) -> Option<u128> {
    let fv = if front.len() == 0 {
        Option::Some(Seq::<u16>::empty())
    } else {
        spec_group_vals(spec_split_byte(front, 58))
    };
    let bv = if back.len() == 0 {
        Option::Some(Seq::<u16>::empty())
    } else {
        spec_back_vals(spec_split_byte(back, 58))
    };
    match (fv, bv) {
        (Option::Some(f), Option::Some(b)) => if f.len() + b.len() <= 7 {
            Option::Some(
                spec_combine_groups(
                    f + Seq::new((8 - f.len() - b.len()) as nat, |i: int| 0u16) + b,
                ),
            )
        } else {
            Option::None
        },
        _ => Option::None,
    }
}

/// Combines eight group values.
fn combine_groups(g: &Vec<u16>) -> (r: u128)
    requires
        g@.len() == 8,
    ensures
        r == spec_combine_groups(g@),
{
    (g[0] as u128) * 0x10000000000000000000000000000 + (g[1] as u128)
        * 0x1000000000000000000000000 + (g[2] as u128) * 0x100000000000000000000 + (
    g[3] as u128) * 0x10000000000000000 + (g[4] as u128) * 0x1000000000000 + (g[5] as u128)
        * 0x100000000 + (g[6] as u128) * 0x10000 + (g[7] as u128)
}

/// Reads an IPv6 address from its text form.
pub fn parse_v6_addr(s: &Vec<u8>) -> (r: Option<u128>)
    ensures
        r == spec_parse_v6_addr(s@),
{
    let di = first_dcolon(s);
    proof {
        lemma_first_dcolon_range(s@, 0);
    }
    if di == s.len() {
        let items = split_byte(s, 58);
        let g = match parse_back_vals(&items) {
            Some(g) => g,
            None => {
                return None;
            },
        };
        if g.len() == 8 {
            Some(combine_groups(&g))
        } else {
            None
        }
    } else {
        let front = crate::text::sub_bytes(s, 0, di);
        let back = crate::text::sub_bytes(s, di + 2, s.len());
        proof {
            assert(front@ =~= s@.take(di as int));
            assert(back@ =~= s@.skip(di + 2));
        }
        proof {
            lemma_first_dcolon_range(back@, 0);
        }
        if first_dcolon(&back) < back.len() {
            return None;
        }
        parse_v6_elided(&front, &back)
    }
}

/// Reads an address around one elision.
fn parse_v6_elided(front: &Vec<u8>, back: &Vec<u8>) -> (r: Option<u128>)
    ensures
        r == spec_parse_v6_elided(front@, back@),
{
    {
        let f: Vec<u16> = if front.len() == 0 {
            Vec::new()
        } else {
            let items = split_byte(&front, 58);
            match parse_groups(&items, items.len()) {
                Some(v) => {
                    proof {
                        assert(items.deep_view().subrange(0, items.deep_view().len() as int)
                            =~= items.deep_view());
                    }
                    v
                },
                None => {
                    proof {
                        assert(items.deep_view().subrange(0, items.deep_view().len() as int)
                            =~= items.deep_view());
                    }
                    return None;
                },
            }
        };
        let b: Vec<u16> = if back.len() == 0 {
            Vec::new()
        } else {
            match parse_back_vals(&split_byte(&back, 58)) {
                Some(v) => v,
                None => {
                    return None;
                },
            }
        };
        if f.len() > 7 || b.len() > 7 - f.len() {
            return None;
        }
        let mut g: Vec<u16> = Vec::new();
        let mut i: usize = 0;
        while i < f.len()
            invariant
                i <= f@.len(),
                g@ == f@.subrange(0, i as int),
            decreases f@.len() - i,
        {
            g.push(f[i]);
            proof {
                assert(g@ =~= f@.subrange(0, i + 1));
            }
            i += 1;
        }
        proof {
            assert(g@ =~= f@);
        }
        let zeros = 8 - f.len() - b.len();
        let mut z: usize = 0;
        while z < zeros
            invariant
                z <= zeros,
                zeros == 8 - f@.len() - b@.len(),
                f@.len() + b@.len() <= 7,
                g@ == f@ + Seq::new(z as nat, |k: int| 0u16),
            decreases zeros - z,
        {
            g.push(0);
            proof {
                assert(g@ =~= f@ + Seq::new((z + 1) as nat, |k: int| 0u16));
            }
            z += 1;
        }
        let mut j: usize = 0;
        while j < b.len()
            invariant
                j <= b@.len(),
                zeros == 8 - f@.len() - b@.len(),
                f@.len() + b@.len() <= 7,
                g@ == f@ + Seq::new(zeros as nat, |k: int| 0u16) + b@.subrange(0, j as int),
            decreases b@.len() - j,
        {
            g.push(b[j]);
            proof {
                assert(g@ =~= f@ + Seq::new(zeros as nat, |k: int| 0u16) + b@.subrange(0, j + 1));
            }
            j += 1;
        }
        proof {
            assert(g@ =~= f@ + Seq::new(zeros as nat, |k: int| 0u16) + b@);
        }
        Some(combine_groups(&g))
    }
}

/// The reading of one IPv4 network range: an address, optionally
/// followed by one slash and a prefix length or a contiguous netmask;
/// a bare address spans its whole family's bits.
pub open spec fn spec_parse_v4_network(s: Seq<u8>) -> Result<Network, NetworkParseError> {
    let parts = spec_split_byte(s, 47);
    if parts.len() > 2 {
        Result::Err(NetworkParseError::InvalidCidrFormat)
    } else {
        match spec_parse_v4_addr(parts[0]) {
            Option::None => Result::Err(NetworkParseError::InvalidAddr),
            Option::Some(addr) => {
                if parts.len() == 1 {
                    Result::Ok(Network { addr: IpAddress::V4(addr), prefix: 32 })
                } else {
                    match spec_parse_v4_addr(parts[1]) {
                        Option::Some(mask) => match spec_mask_prefix(mask) {
                            Option::Some(p) => Result::Ok(
                                Network { addr: IpAddress::V4(addr), prefix: p },
                            ),
                            Option::None => Result::Err(NetworkParseError::InvalidPrefix),
                        },
                        Option::None => match spec_parse_prefix_num(parts[1]) {
                            Option::Some(p) => if p <= 32 {
                                Result::Ok(Network { addr: IpAddress::V4(addr), prefix: p })
                            } else {
                                Result::Err(NetworkParseError::InvalidPrefix)
                            },
                            Option::None => Result::Err(NetworkParseError::InvalidPrefix),
                        },
                    }
                }
            },
        }
    }
}

/// Reads one IPv4 network range from its text form.
pub fn parse_v4_network(s: &Vec<u8>) -> (r: Result<Network, NetworkParseError>)
    ensures
        r == spec_parse_v4_network(s@),
        r matches Ok(n) ==> n.wf() && n.addr is V4,
{
    let parts = split_byte(s, 47);
    if parts.len() > 2 {
        return Err(NetworkParseError::InvalidCidrFormat);
    }
    proof {
        crate::text::lemma_parts_acc_nonempty(s@, 47, Seq::<u8>::empty());
        assert(parts@[0]@ =~= parts.deep_view()[0]);
        if parts@.len() == 2 {
            assert(parts@[1]@ =~= parts.deep_view()[1]);
        }
    }
    let addr = match parse_v4_addr(&parts[0]) {
        Some(a) => a,
        None => {
            return Err(NetworkParseError::InvalidAddr);
        },
    };
    if parts.len() == 1 {
        return Ok(Network { addr: IpAddress::V4(addr), prefix: 32 });
    }
    match parse_v4_addr(&parts[1]) {
        Some(mask) => match mask_to_prefix(mask) {
            Some(p) => {
                proof {
                    lemma_mask_prefix_range(mask, 0);
                }
                Ok(Network { addr: IpAddress::V4(addr), prefix: p })
            },
            None => Err(NetworkParseError::InvalidPrefix),
        },
        None => match parse_prefix_num(&parts[1]) {
            Some(p) => if p <= 32 {
                Ok(Network { addr: IpAddress::V4(addr), prefix: p })
            } else {
                Err(NetworkParseError::InvalidPrefix)
            },
            None => Err(NetworkParseError::InvalidPrefix),
        },
    }
}

/// The reading of one IPv6 network range: an address, optionally
/// followed by one slash and a prefix length; a bare address spans its
/// whole family's bits.
pub open spec fn spec_parse_v6_network(s: Seq<u8>) -> Result<Network, NetworkParseError> {
    let parts = spec_split_byte(s, 47);
    if parts.len() > 2 {
        Result::Err(NetworkParseError::InvalidCidrFormat)
    } else {
        match spec_parse_v6_addr(parts[0]) {
            Option::None => Result::Err(NetworkParseError::InvalidAddr),
            Option::Some(addr) => {
                if parts.len() == 1 {
                    Result::Ok(Network { addr: IpAddress::V6(addr), prefix: 128 })
                } else {
                    match spec_parse_prefix_num(parts[1]) {
                        Option::Some(p) => if p <= 128 {
                            Result::Ok(Network { addr: IpAddress::V6(addr), prefix: p })
                        } else {
                            Result::Err(NetworkParseError::InvalidPrefix)
                        },
                        Option::None => Result::Err(NetworkParseError::InvalidPrefix),
                    }
                }
            },
        }
    }
}

/// Reads one IPv6 network range from its text form.
pub fn parse_v6_network(s: &Vec<u8>) -> (r: Result<Network, NetworkParseError>)
    ensures
        r == spec_parse_v6_network(s@),
        r matches Ok(n) ==> n.wf() && n.addr is V6,
{
    let parts = split_byte(s, 47);
    if parts.len() > 2 {
        return Err(NetworkParseError::InvalidCidrFormat);
    }
    proof {
        crate::text::lemma_parts_acc_nonempty(s@, 47, Seq::<u8>::empty());
        assert(parts@[0]@ =~= parts.deep_view()[0]);
        if parts@.len() == 2 {
            assert(parts@[1]@ =~= parts.deep_view()[1]);
        }
    }
    let addr = match parse_v6_addr(&parts[0]) {
        Some(a) => a,
        None => {
            return Err(NetworkParseError::InvalidAddr);
        },
    };
    if parts.len() == 1 {
        return Ok(Network { addr: IpAddress::V6(addr), prefix: 128 });
    }
    match parse_prefix_num(&parts[1]) {
        Some(p) => if p <= 128 {
            Ok(Network { addr: IpAddress::V6(addr), prefix: p })
        } else {
            Err(NetworkParseError::InvalidPrefix)
        },
        None => Err(NetworkParseError::InvalidPrefix),
    }
}

/// The reading of one network range of either family: what reads as an
/// IPv4 range is one; otherwise what reads as an IPv6 range is one;
/// a text that is neither names no address.
pub open spec fn spec_parse_network(s: Seq<u8>) -> Result<Network, NetworkParseError> {
    match spec_parse_v4_network(s) {
        Result::Ok(n) => Result::Ok(n),
        Result::Err(_) => match spec_parse_v6_network(s) {
            Result::Ok(n) => Result::Ok(n),
            Result::Err(_) => Result::Err(NetworkParseError::InvalidAddr),
        },
    }
}

/// Reads one network range of either family.
pub fn parse_network(s: &Vec<u8>) -> (r: Result<Network, NetworkParseError>)
    ensures
        r == spec_parse_network(s@),
        r matches Ok(n) ==> n.wf(),
{
    match parse_v4_network(s) {
        Ok(n) => Ok(n),
        Err(_) => match parse_v6_network(s) {
            Ok(n) => Ok(n),
            Err(_) => Err(NetworkParseError::InvalidAddr),
        },
    }
}

/// A prefix found for a mask lies within the address's bits.
proof fn lemma_mask_prefix_range(mask: u32, p: int)
    requires
        0 <= p,
    ensures
        match spec_mask_prefix_from(mask, p) {
            Option::Some(q) => p <= q <= 32,
            Option::None => true,
        },
    decreases 33 - p,
{
    if p <= 32 && mask != spec_v4_mask(p) {
        lemma_mask_prefix_range(mask, p + 1);
    }
}

} // verus!
