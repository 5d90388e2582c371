//! Parsing the neighbor table's text form.
//!
//! Each data line of the table holds six whitespace-separated fields:
//! IP address, hardware type, flags, hardware address, mask and device.
//! Lines with any other shape, and entries whose hardware address is all
//! zeros (incomplete entries), are skipped. The flags field, a
//! hexadecimal word usually written with a `0x` prefix, is read by
//! stripping every leading `0x`, appending a trailing `f`, and reading
//! the result as hexadecimal; a flags field that still fails to read
//! counts as -1.

use vstd::prelude::*;

use crate::text::{
    parse_i64_hex, spec_parse_i64, spec_split_ws, split_ws,
};

verus! {

/// One usable neighbor-table entry.
pub struct ArpRecord {
    pub ip: Vec<u8>,
    pub hw: Vec<u8>,
    pub flags: i64,
    pub device: Vec<u8>,
}

impl View for ArpRecord {
    type V = (Seq<u8>, Seq<u8>, i64, Seq<u8>);

    open spec fn view(&self) -> (Seq<u8>, Seq<u8>, i64, Seq<u8>) {
        (self.ip@, self.hw@, self.flags, self.device@)
    }
}

/// An all-zero hardware address: `00:00:00:00:00:00`.
pub open spec fn spec_is_zero_hw(s: Seq<u8>) -> bool {
    s.len() == 17 && forall|i: int|
        0 <= i < 17 ==> #[trigger] s[i] == if i % 3 == 2 {
            58u8
        } else {
            48u8
        }
}

/// The flags field with every leading `0x` removed.
pub open spec fn spec_strip_0x(s: Seq<u8>) -> Seq<u8>
    decreases s.len(),
{
    if s.len() >= 2 && s[0] == 48 && s[1] == 120 {
        spec_strip_0x(s.skip(2))
    } else {
        s
    }
}

/// The numeric reading of the flags field: leading `0x` markers are
/// stripped, a trailing `f` appended, the result read as hexadecimal,
/// and -1 stands for a field that still fails to read.
pub open spec fn spec_arp_flags(s: Seq<u8>) -> i64 {
    match spec_parse_i64(spec_strip_0x(s).push(102), 16) {
        Option::Some(v) => v,
        Option::None => -1i64,
    }
}

/// The reading of one neighbor-table line: its IP address, hardware
/// address, flags value and device, or nothing for a line that does not
/// have six fields or whose entry is incomplete.
pub open spec fn spec_parse_arp_line(line: Seq<u8>) -> Option<(Seq<u8>, Seq<u8>, i64, Seq<u8>)> {
    let fields = spec_split_ws(line);
    if fields.len() != 6 {
        Option::None
    } else if spec_is_zero_hw(fields[3]) {
        Option::None
    } else {
        Option::Some((fields[0], fields[3], spec_arp_flags(fields[2]), fields[5]))
    }
}

/// Whether `s` is the all-zero hardware address.
fn is_zero_hw(s: &Vec<u8>) -> (r: bool)
    ensures
        r == spec_is_zero_hw(s@),
{
    if s.len() != 17 {
        return false;
    }
    let mut i: usize = 0;
    while i < 17
        invariant
            i <= 17,
            s@.len() == 17,
            forall|j: int| 0 <= j < i ==> #[trigger] s@[j] == if j % 3 == 2 {
                58u8
            } else {
                48u8
            },
        decreases 17 - i,
    {
        let expected: u8 = if i % 3 == 2 {
            58
        } else {
            48
        };
        if s[i] != expected {
            return false;
        }
        i += 1;
    }
    true
}

/// Reads the flags field.
fn arp_flags(s: &Vec<u8>) -> (r: i64)
    ensures
        r == spec_arp_flags(s@),
{
    let mut k: usize = 0;
    proof {
        assert(s@.skip(0) =~= s@);
    }
    while k < s.len() && k + 1 < s.len() && s[k] == 48 && s[k + 1] == 120
        invariant
            k <= s@.len(),
            spec_strip_0x(s@) == spec_strip_0x(s@.skip(k as int)),
        decreases s@.len() - k,
    {
        proof {
            assert(s@.skip(k as int).skip(2) =~= s@.skip(k + 2));
        }
        k += 2;
    }
    let mut digits: Vec<u8> = Vec::new();
    let mut j: usize = k;
    while j < s.len()
        invariant
            k <= j <= s@.len(),
            digits@ == s@.subrange(k as int, j as int),
        decreases s@.len() - j,
    {
        digits.push(s[j]);
        proof {
            assert(digits@ =~= s@.subrange(k as int, j + 1));
        }
        j += 1;
    }
    digits.push(102);
    proof {
        assert(s@.subrange(k as int, s@.len() as int) =~= s@.skip(k as int));
        assert(digits@ =~= spec_strip_0x(s@).push(102));
    }
    match parse_i64_hex(&digits) {
        Some(v) => v,
        None => -1,
    }
}

/// Reads one neighbor-table line into a usable entry, or nothing for a
/// line without six fields or with an all-zero hardware address.
pub fn parse_arp_line(line: &Vec<u8>) -> (r: Option<ArpRecord>)
    ensures
        match r {
            Some(rec) => spec_parse_arp_line(line@) == Option::Some(rec@),
            None => spec_parse_arp_line(line@) is None,
        },
{
    let fields = split_ws(line);
    if fields.len() != 6 {
        return None;
    }
    if is_zero_hw(&fields[3]) {
        proof {
            assert(fields.deep_view()[3] == fields@[3]@);
        }
        return None;
    }
    let flags = arp_flags(&fields[2]);
    let rec = ArpRecord {
        ip: clone_bytes(&fields[0]),
        hw: clone_bytes(&fields[3]),
        flags,
        device: clone_bytes(&fields[5]),
    };
    proof {
        assert(fields@[0]@ =~= fields.deep_view()[0]);
        assert(fields@[2]@ =~= fields.deep_view()[2]);
        assert(fields@[3]@ =~= fields.deep_view()[3]);
        assert(fields@[5]@ =~= fields.deep_view()[5]);
    }
    Some(rec)
}

/// The host name with one trailing copy of `suffix` removed, when it
/// carries one.
pub open spec fn spec_strip_suffix(host: Seq<u8>, suffix: Seq<u8>) -> Seq<u8> {
    if host.len() >= suffix.len() && host.skip(host.len() - suffix.len()) == suffix {
        host.take(host.len() - suffix.len())
    } else {
        host
    }
}

/// Removes one trailing copy of `suffix` from a looked-up host name;
/// a name without the suffix is kept whole.
pub fn strip_suffix_bytes(host: &Vec<u8>, suffix: &Vec<u8>) -> (r: Vec<u8>)
    ensures
        r@ == spec_strip_suffix(host@, suffix@),
{
    if host.len() < suffix.len() {
        proof {
            assert(host@.len() < suffix@.len());
        }
        return clone_bytes(host);
    }
    let cut = host.len() - suffix.len();
    let mut matches = true;
    let mut i: usize = 0;
    while i < suffix.len()
        invariant
            i <= suffix@.len(),
            cut == host@.len() - suffix@.len(),
            host@.len() >= suffix@.len(),
            host@.len() <= usize::MAX,
            matches == (forall|j: int| 0 <= j < i ==> host@[cut + j] == suffix@[j]),
        decreases suffix@.len() - i,
    {
        if host[cut + i] != suffix[i] {
            matches = false;
        }
        i += 1;
    }
    proof {
        if matches {
            assert(host@.skip(cut as int) =~= suffix@);
        } else {
            assert(host@.skip(cut as int) != suffix@) by {
                let j = choose|j: int| 0 <= j < suffix@.len() && host@[cut + j] != suffix@[j];
                assert(host@.skip(cut as int)[j] != suffix@[j]);
            }
        }
    }
    if matches {
        let mut r: Vec<u8> = Vec::new();
        let mut i: usize = 0;
        while i < cut
            invariant
                i <= cut <= host@.len(),
                r@ == host@.subrange(0, i as int),
            decreases cut - i,
        {
            r.push(host[i]);
            proof {
                assert(r@ =~= host@.subrange(0, i + 1));
            }
            i += 1;
        }
        proof {
            assert(host@.subrange(0, cut as int) =~= host@.take(host@.len() - suffix@.len()));
        }
        r
    } else {
        clone_bytes(host)
    }
}

/// A copy of a byte vector.
fn clone_bytes(v: &Vec<u8>) -> (r: Vec<u8>)
    ensures
        r@ == v@,
{
    let mut r: Vec<u8> = Vec::new();
    let mut i: usize = 0;
    while i < v.len()
        invariant
            i <= v@.len(),
            r@ == v@.subrange(0, i as int),
        decreases v@.len() - i,
    {
        r.push(v[i]);
        proof {
            assert(r@ =~= v@.subrange(0, i + 1));
        }
        i += 1;
    }
    proof {
        assert(v@.subrange(0, v@.len() as int) =~= v@);
    }
    r
}

} // verus!
