//! Parsing the DHCP lease file.
//!
//! Each lease line holds at least four space-separated fields: the
//! expiry time as a decimal integer, the client's hardware address, its
//! IP address and its device name. A line with fewer fields, or whose
//! expiry does not read as a 64-bit integer, fails the whole refresh.

use vstd::prelude::*;

use crate::text::{parse_i64_dec, spec_parse_i64, spec_split_byte, split_byte};

verus! {

/// The lease collector's configuration: where the lease file lives.
pub struct DnsMasq {
    pub leases_path: String,
}

impl DnsMasq {
    /// A collector reading the given lease file.
    pub fn new(leases_path: String) -> (r: DnsMasq)
        ensures
            r.leases_path@ == leases_path@,
    {
        DnsMasq { leases_path }
    }
}

/// A lease record's failure to read.
#[derive(Clone, Copy, PartialEq, Eq, Structural, Debug)]
pub enum LeaseParseError {
    /// The record has fewer than four fields.
    FieldCount,
    /// The expiry field is not a 64-bit decimal integer.
    Expiry,
}

/// One DHCP lease.
pub struct Lease {
    pub expiry: i64,
    pub mac: Vec<u8>,
    pub ip: Vec<u8>,
    pub devicename: Vec<u8>,
}

impl View for Lease {
    type V = (i64, Seq<u8>, Seq<u8>, Seq<u8>);

    open spec fn view(&self) -> (i64, Seq<u8>, Seq<u8>, Seq<u8>) {
        (self.expiry, self.mac@, self.ip@, self.devicename@)
    }
}

impl DeepView for Lease {
    type V = (i64, Seq<u8>, Seq<u8>, Seq<u8>);

    open spec fn deep_view(&self) -> (i64, Seq<u8>, Seq<u8>, Seq<u8>) {
        self.view()
    }
}

/// The reading of one lease line: its first four space-separated
/// fields, with the first read as a decimal expiry time.
pub open spec fn spec_parse_lease(line: Seq<u8>) -> Result<
    (i64, Seq<u8>, Seq<u8>, Seq<u8>),
    LeaseParseError,
> {
    let fields = spec_split_byte(line, 32);
    if fields.len() < 4 {
        Result::Err(LeaseParseError::FieldCount)
    } else {
        match spec_parse_i64(fields[0], 10) {
            Option::Some(expiry) => Result::Ok((expiry, fields[1], fields[2], fields[3])),
            Option::None => Result::Err(LeaseParseError::Expiry),
        }
    }
}

/// Reads one lease line.
pub fn parse_lease_line(line: &Vec<u8>) -> (r: Result<Lease, LeaseParseError>)
    ensures
        match r {
            Ok(lease) => spec_parse_lease(line@) == Result::<
                (i64, Seq<u8>, Seq<u8>, Seq<u8>),
                LeaseParseError,
            >::Ok(lease@),
            Err(e) => spec_parse_lease(line@) == Result::<
                (i64, Seq<u8>, Seq<u8>, Seq<u8>),
                LeaseParseError,
            >::Err(e),
        },
{
    let fields = split_byte(line, 32);
    if fields.len() < 4 {
        return Err(LeaseParseError::FieldCount);
    }
    proof {
        assert(fields@[0]@ =~= fields.deep_view()[0]);
        assert(fields@[1]@ =~= fields.deep_view()[1]);
        assert(fields@[2]@ =~= fields.deep_view()[2]);
        assert(fields@[3]@ =~= fields.deep_view()[3]);
    }
    let expiry = match parse_i64_dec(&fields[0]) {
        Some(v) => v,
        None => {
            return Err(LeaseParseError::Expiry);
        },
    };
    let mut it = fields;
    let devicename = it.remove(3);
    let ip = it.remove(2);
    let mac = it.remove(1);
    Ok(Lease { expiry, mac, ip, devicename })
}

/// The readings of a whole lease file: every line, in order, or the
/// first line's failure.
pub open spec fn spec_parse_leases(lines: Seq<Seq<u8>>) -> Result<
    Seq<(i64, Seq<u8>, Seq<u8>, Seq<u8>)>,
    LeaseParseError,
>
    decreases lines.len(),
{
    if lines.len() == 0 {
        Result::Ok(Seq::<(i64, Seq<u8>, Seq<u8>, Seq<u8>)>::empty())
    } else {
        match spec_parse_leases(lines.drop_last()) {
            Result::Ok(prefix) => match spec_parse_lease(lines.last()) {
                Result::Ok(lease) => Result::Ok(prefix.push(lease)),
                Result::Err(e) => Result::Err(e),
            },
            Result::Err(e) => Result::Err(e),
        }
    }
}

/// Reads a whole lease file: every line in order. The number of leases
/// handed out is the number of lines; a single bad line fails the whole
/// refresh, as the lease metrics update does.
pub fn parse_leases(lines: &Vec<Vec<u8>>) -> (r: Result<Vec<Lease>, LeaseParseError>)
    ensures
        match r {
            Ok(leases) => spec_parse_leases(lines.deep_view()) == Result::<
                Seq<(i64, Seq<u8>, Seq<u8>, Seq<u8>)>,
                LeaseParseError,
            >::Ok(leases.deep_view()) && leases@.len() == lines@.len(),
            Err(e) => spec_parse_leases(lines.deep_view()) == Result::<
                Seq<(i64, Seq<u8>, Seq<u8>, Seq<u8>)>,
                LeaseParseError,
            >::Err(e),
        },
{
    let ghost ls = lines.deep_view();
    let mut out: Vec<Lease> = Vec::new();
    let mut i: usize = 0;
    proof {
        assert(ls.subrange(0, 0) =~= Seq::<Seq<u8>>::empty());
        assert(out.deep_view() =~~= Seq::<(i64, Seq<u8>, Seq<u8>, Seq<u8>)>::empty());
    }
    while i < lines.len()
        invariant
            i <= lines@.len(),
            ls == lines.deep_view(),
            ls.len() == lines@.len(),
            forall|j: int| 0 <= j < lines@.len() ==> (#[trigger] ls[j]) == lines@[j]@,
            out@.len() == i,
            spec_parse_leases(ls.subrange(0, i as int)) == Result::<
                Seq<(i64, Seq<u8>, Seq<u8>, Seq<u8>)>,
                LeaseParseError,
            >::Ok(out.deep_view()),
        decreases lines@.len() - i,
    {
        let ghost pre = out.deep_view();
        match parse_lease_line(&lines[i]) {
            Ok(lease) => {
                let ghost lv = lease@;
                out.push(lease);
                proof {
                    assert(ls.subrange(0, i + 1).drop_last() =~= ls.subrange(0, i as int));
                    assert(ls.subrange(0, i + 1).last() == ls[i as int]);
                    assert(out.deep_view() =~~= pre.push(lv));
                }
            },
            Err(e) => {
                proof {
                    lemma_parse_leases_error(ls, i as int, e);
                }
                return Err(e);
            },
        }
        i += 1;
    }
    proof {
        assert(ls.subrange(0, ls.len() as int) =~= ls);
    }
    Ok(out)
}

/// When every line before `i` reads and line `i` fails, the whole file
/// fails with line `i`'s error.
proof fn lemma_parse_leases_error(ls: Seq<Seq<u8>>, i: int, e: LeaseParseError)
    requires
        0 <= i < ls.len(),
        spec_parse_leases(ls.subrange(0, i)) is Ok,
        spec_parse_lease(ls[i]) == Result::<(i64, Seq<u8>, Seq<u8>, Seq<u8>), LeaseParseError>::Err(
            e,
        ),
    ensures
        spec_parse_leases(ls) == Result::<
            Seq<(i64, Seq<u8>, Seq<u8>, Seq<u8>)>,
            LeaseParseError,
        >::Err(e),
    decreases ls.len() - i,
{
    if i == ls.len() - 1 {
        assert(ls.subrange(0, i) =~= ls.drop_last());
        assert(ls.last() == ls[i]);
    } else {
        assert(ls.subrange(0, i + 1).drop_last() =~= ls.subrange(0, i));
        assert(ls.subrange(0, i + 1).last() == ls[i]);
        lemma_parse_leases_prefix_error(ls, i + 1, e);
    }
}

/// An error in a prefix propagates to the whole file.
proof fn lemma_parse_leases_prefix_error(ls: Seq<Seq<u8>>, k: int, e: LeaseParseError)
    requires
        0 <= k <= ls.len(),
        spec_parse_leases(ls.subrange(0, k)) == Result::<
            Seq<(i64, Seq<u8>, Seq<u8>, Seq<u8>)>,
            LeaseParseError,
        >::Err(e),
    ensures
        spec_parse_leases(ls) == Result::<
            Seq<(i64, Seq<u8>, Seq<u8>, Seq<u8>)>,
            LeaseParseError,
        >::Err(e),
    decreases ls.len() - k,
{
    if k == ls.len() {
        assert(ls.subrange(0, k) =~= ls);
    } else {
        assert(ls.subrange(0, k + 1).drop_last() =~= ls.subrange(0, k));
        lemma_parse_leases_prefix_error(ls, k + 1, e);
    }
}

} // verus!
