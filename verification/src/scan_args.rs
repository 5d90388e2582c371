//! Options for an address-resolution scan: output and profile choices,
//! timing, and the requested network ranges.
//!
//! The command-line reading itself lives outside the library; what is
//! computed from the read values — the scan timing and the requested
//! network ranges — is here.

use vstd::prelude::*;

use crate::net::Network;
use crate::net_parse::{NetworkParseError, parse_network, spec_parse_network};
use crate::text::{spec_split_byte, split_byte};

verus! {

/// The interval between requests, in milliseconds, when neither a
/// bandwidth nor an interval is asked for.
pub const REQUEST_MS_INTERVAL: u64 = 10;

/// How scan results are rendered.
#[derive(Clone, Copy, PartialEq, Eq, Structural, Debug)]
pub enum OutputFormat {
    Plain,
    Json,
    Yaml,
    Csv,
}

/// A named bundle of scan settings.
#[derive(Clone, Copy, PartialEq, Eq, Structural, Debug)]
pub enum ProfileType {
    Default,
    Fast,
    Stealth,
    Chaos,
}

/// The scan's pacing: a fixed interval between requests, in
/// milliseconds, or a bandwidth bound in bits per second.
#[derive(Clone, Copy, PartialEq, Eq, Structural, Debug)]
pub enum ScanTiming {
    Interval(u64),
    Bandwidth(u64),
}

/// A hardware address, as six plain octets.
#[derive(Clone, Copy, PartialEq, Eq, Structural, Debug)]
pub struct MacAddress {
    pub a: u8,
    pub b: u8,
    pub c: u8,
    pub d: u8,
    pub e: u8,
    pub f: u8,
}

/// Every option of one scan.
pub struct ScanOptions {
    pub profile: ProfileType,
    pub interface_name: Option<String>,
    pub network_range: Option<Vec<Network>>,
    pub timeout_ms: u64,
    pub resolve_hostname: bool,
    pub source_mac: Option<MacAddress>,
    pub destination_mac: Option<MacAddress>,
    pub vlan_id: Option<u16>,
    pub retry_count: usize,
    pub scan_timing: ScanTiming,
    pub randomize_targets: bool,
    pub output: OutputFormat,
    pub oui_file: String,
    pub hw_type: Option<u16>,
    pub hw_addr: Option<u8>,
    pub proto_type: Option<u16>,
    pub proto_addr: Option<u8>,
    pub arp_operation: Option<u16>,
    pub packet_help: bool,
}

/// The timing that a scan runs with: an asked-for bandwidth wins, then
/// an asked-for interval, and otherwise the profile's own pace — twice
/// the base interval for a stealth scan, none at all for a fast one.
pub open spec fn spec_scan_timing(
    bandwidth: Option<u64>,
    interval_ms: Option<u64>,
    profile: ProfileType,
) -> ScanTiming {
    match (bandwidth, interval_ms) {
        (Option::Some(bits_second), Option::None) => ScanTiming::Bandwidth(bits_second),
        (Option::None, Option::Some(ms)) => ScanTiming::Interval(ms),
        _ => match profile {
            ProfileType::Stealth => ScanTiming::Interval((REQUEST_MS_INTERVAL * 2) as u64),
            ProfileType::Fast => ScanTiming::Interval(0),
            _ => ScanTiming::Interval(REQUEST_MS_INTERVAL),
        },
    }
}

impl ScanOptions {
    /// Computes the scan's pacing from the asked-for bandwidth and
    /// interval and from the profile.
    pub fn compute_scan_timing(
        bandwidth: Option<u64>,
        interval_ms: Option<u64>,
        profile: &ProfileType,
    ) -> (r: ScanTiming)
        ensures
            r == spec_scan_timing(bandwidth, interval_ms, *profile),
    {
        match (bandwidth, interval_ms) {
            (Some(bits_second), None) => ScanTiming::Bandwidth(bits_second),
            (None, Some(ms)) => ScanTiming::Interval(ms),
            _ => match profile {
                ProfileType::Stealth => ScanTiming::Interval(REQUEST_MS_INTERVAL * 2),
                ProfileType::Fast => ScanTiming::Interval(0),
                _ => ScanTiming::Interval(REQUEST_MS_INTERVAL),
            },
        }
    }

    /// Whether results are rendered as plain text.
    pub fn is_plain_output(&self) -> (r: bool)
        ensures
            r == (self.output is Plain),
    {
        matches!(&self.output, OutputFormat::Plain)
    }

    /// Whether the scan runs on a virtual LAN.
    pub fn has_vlan(&self) -> (r: bool)
        ensures
            r == (self.vlan_id is Some),
    {
        matches!(&self.vlan_id, Some(_))
    }

    /// Whether a protocol walkthrough is asked for.
    pub fn request_protocol_print(&self) -> (r: bool)
        ensures
            r == self.packet_help,
    {
        self.packet_help
    }
}

/// One part with a single trailing carriage return removed.
pub open spec fn spec_trim_cr(s: Seq<u8>) -> Seq<u8> {
    if s.len() > 0 && s.last() == 13 {
        s.drop_last()
    } else {
        s
    }
}

/// The lines of a text: its parts between newline bytes, without a
/// final empty part, each with one trailing carriage return removed.
pub open spec fn spec_lines(s: Seq<u8>) -> Seq<Seq<u8>> {
    let parts = spec_split_byte(s, 10);
    let kept = if parts.len() > 0 && parts.last().len() == 0 {
        parts.drop_last()
    } else {
        parts
    };
    kept.map_values(|p: Seq<u8>| spec_trim_cr(p))
}

/// Removes one trailing carriage return.
fn trim_cr(s: Vec<u8>) -> (r: Vec<u8>)
    ensures
        r@ == spec_trim_cr(s@),
{
    let mut s = s;
    if s.len() > 0 && s[s.len() - 1] == 13 {
        s.pop();
    }
    s
}

/// Splits a text into its lines.
pub fn lines_of(s: &Vec<u8>) -> (r: Vec<Vec<u8>>)
    ensures
        r.deep_view() == spec_lines(s@),
{
    let mut parts = split_byte(s, 10);
    let ghost all = parts.deep_view();
    if parts.len() > 0 && parts[parts.len() - 1].len() == 0 {
        parts.pop();
        proof {
            assert(parts.deep_view() =~~= all.drop_last());
        }
    }
    let ghost kept = parts.deep_view();
    let mut out: Vec<Vec<u8>> = Vec::new();
    let mut i: usize = 0;
    while i < parts.len()
        invariant
            i <= parts@.len(),
            kept == parts.deep_view(),
            kept.len() == parts@.len(),
            out.deep_view() =~~= kept.map_values(|p: Seq<u8>| spec_trim_cr(p)).subrange(
                0,
                i as int,
            ),
        decreases parts@.len() - i,
    {
        let ghost pre = out.deep_view();
        let mut p: Vec<u8> = Vec::new();
        let mut j: usize = 0;
        while j < parts[i].len()
            invariant
                0 <= i < parts@.len(),
                j <= parts@[i as int]@.len(),
                p@ == parts@[i as int]@.subrange(0, j as int),
            decreases parts@[i as int]@.len() - j,
        {
            p.push(parts[i][j]);
            proof {
                assert(p@ =~= parts@[i as int]@.subrange(0, j + 1));
            }
            j += 1;
        }
        proof {
            assert(p@ =~= parts@[i as int]@);
            assert(kept[i as int] == parts@[i as int]@);
        }
        let t = trim_cr(p);
        out.push(t);
        proof {
            assert(out.deep_view() =~~= pre.push(spec_trim_cr(kept[i as int])));
            assert(out.deep_view() =~~= kept.map_values(|q: Seq<u8>| spec_trim_cr(q)).subrange(
                0,
                i + 1,
            ));
        }
        i += 1;
    }
    proof {
        assert(kept.map_values(|p: Seq<u8>| spec_trim_cr(p)).subrange(0, kept.len() as int)
            =~~= spec_lines(s@));
    }
    out
}

/// The raw network ranges asked for: the lines of the given ranges
/// file, or the comma-separated parts of the given ranges text, or
/// nothing when neither is given — the file wins when both are.
pub open spec fn spec_required_networks(
    file_content: Option<Seq<u8>>,
    network_value: Option<Seq<u8>>,
) -> Option<Seq<Seq<u8>>> {
    match (file_content, network_value) {
        (Option::Some(content), Option::None) => Option::Some(spec_lines(content)),
        (Option::None, Option::Some(raw)) => Option::Some(spec_split_byte(raw, 44)),
        _ => Option::None,
    }
}

/// Lists the raw network ranges asked for, from a ranges file's
/// content or from a comma-separated ranges text.
pub fn list_required_networks(
    file_content: Option<&Vec<u8>>,
    network_value: Option<&Vec<u8>>,
) -> (r: Option<Vec<Vec<u8>>>)
    ensures
        match r {
            Some(v) => spec_required_networks(
                match file_content {
                    Some(c) => Option::Some(c@),
                    None => Option::None,
                },
                match network_value {
                    Some(n) => Option::Some(n@),
                    None => Option::None,
                },
            ) == Option::Some(v.deep_view()),
            None => spec_required_networks(
                match file_content {
                    Some(c) => Option::Some(c@),
                    None => Option::None,
                },
                match network_value {
                    Some(n) => Option::Some(n@),
                    None => Option::None,
                },
            ) is None,
        },
{
    match (file_content, network_value) {
        (Some(content), None) => Some(lines_of(content)),
        (None, Some(raw)) => Some(split_byte(raw, 44)),
        _ => None,
    }
}

/// The parsed network ranges, every line in order, or the first
/// line's failure.
pub open spec fn spec_parse_networks(lines: Seq<Seq<u8>>) -> Result<Seq<Network>, NetworkParseError>
    decreases lines.len(),
{
    if lines.len() == 0 {
        Result::Ok(Seq::<Network>::empty())
    } else {
        match spec_parse_networks(lines.drop_last()) {
            Result::Ok(prefix) => match spec_parse_network(lines.last()) {
                Result::Ok(n) => Result::Ok(prefix.push(n)),
                Result::Err(e) => Result::Err(e),
            },
            Result::Err(e) => Result::Err(e),
        }
    }
}

impl ScanOptions {
    /// Computes the whole network range asked for: every range given
    /// in the file or text, read as a network of either family, or
    /// nothing when no range is asked for; a single bad range fails
    /// the whole computation.
    pub fn compute_networks(
        file_content: Option<&Vec<u8>>,
        network_value: Option<&Vec<u8>>,
    ) -> (r: Result<Option<Vec<Network>>, NetworkParseError>)
        ensures
            match spec_required_networks(
                match file_content {
                    Some(c) => Option::Some(c@),
                    None => Option::None,
                },
                match network_value {
                    Some(n) => Option::Some(n@),
                    None => Option::None,
                },
            ) {
                Option::None => r matches Ok(opt) && opt is None,
                Option::Some(raw) => match spec_parse_networks(raw) {
                    Result::Ok(nets) => r matches Ok(opt) && opt matches Some(v) && v@ == nets,
                    Result::Err(e) => r == Result::<
                        Option<Vec<Network>>,
                        NetworkParseError,
                    >::Err(e),
                },
            },
    {
        let required = match list_required_networks(file_content, network_value) {
            Some(v) => v,
            None => {
                return Ok(None);
            },
        };
        let ghost raw = required.deep_view();
        let mut networks: Vec<Network> = Vec::new();
        let mut i: usize = 0;
        proof {
            assert(raw.subrange(0, 0) =~= Seq::<Seq<u8>>::empty());
            assert(networks@ =~= Seq::<Network>::empty());
        }
        while i < required.len()
            invariant
                i <= required@.len(),
                raw == required.deep_view(),
                spec_required_networks(
                    match file_content {
                        Some(c) => Option::Some(c@),
                        None => Option::None,
                    },
                    match network_value {
                        Some(n) => Option::Some(n@),
                        None => Option::None,
                    },
                ) == Option::Some(raw),
                raw.len() == required@.len(),
                forall|j: int| 0 <= j < required@.len() ==> (#[trigger] raw[j]) == required@[j]@,
                spec_parse_networks(raw.subrange(0, i as int)) == Result::<
                    Seq<Network>,
                    NetworkParseError,
                >::Ok(networks@),
            decreases required@.len() - i,
        {
            match parse_network(&required[i]) {
                Ok(n) => {
                    networks.push(n);
                    proof {
                        assert(raw.subrange(0, i + 1).drop_last() =~= raw.subrange(0, i as int));
                        assert(raw.subrange(0, i + 1).last() == raw[i as int]);
                    }
                },
                Err(e) => {
                    proof {
                        lemma_parse_networks_error(raw, i as int, e);
                    }
                    return Err(e);
                },
            }
            i += 1;
        }
        proof {
            assert(raw.subrange(0, raw.len() as int) =~= raw);
        }
        Ok(Some(networks))
    }
}

/// When every range before `i` reads and range `i` fails, the whole
/// listing fails with range `i`'s error.
proof fn lemma_parse_networks_error(raw: Seq<Seq<u8>>, i: int, e: NetworkParseError)
    requires
        0 <= i < raw.len(),
        spec_parse_networks(raw.subrange(0, i)) is Ok,
        spec_parse_network(raw[i]) == Result::<Network, NetworkParseError>::Err(e),
    ensures
        spec_parse_networks(raw) == Result::<Seq<Network>, NetworkParseError>::Err(e),
    decreases raw.len() - i,
{
    if i == raw.len() - 1 {
        assert(raw.subrange(0, i) =~= raw.drop_last());
        assert(raw.last() == raw[i]);
    } else {
        assert(raw.subrange(0, i + 1).drop_last() =~= raw.subrange(0, i));
        assert(raw.subrange(0, i + 1).last() == raw[i]);
        lemma_parse_networks_prefix_error(raw, i + 1, e);
    }
}

/// An error in a prefix of the listing propagates to the whole.
proof fn lemma_parse_networks_prefix_error(raw: Seq<Seq<u8>>, k: int, e: NetworkParseError)
    requires
        0 <= k <= raw.len(),
        spec_parse_networks(raw.subrange(0, k)) == Result::<Seq<Network>, NetworkParseError>::Err(e),
    ensures
        spec_parse_networks(raw) == Result::<Seq<Network>, NetworkParseError>::Err(e),
    decreases raw.len() - k,
{
    if k == raw.len() {
        assert(raw.subrange(0, k) =~= raw);
    } else {
        assert(raw.subrange(0, k + 1).drop_last() =~= raw.subrange(0, k));
        lemma_parse_networks_prefix_error(raw, k + 1, e);
    }
}

} // verus!
