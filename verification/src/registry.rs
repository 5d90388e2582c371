//! The metric registry's verified surface: name registration and the
//! exposition text form of the flow counters.
//!
//! The registry's structural map is written only during startup
//! registration; a name can be registered once. Encoding renders each
//! flow counter family as a help line, a type line, and one sample per
//! flow label, in the table's creation order.

use vstd::prelude::*;

use crate::net::spec_dec_string;
use crate::net::append_u64_dec;
use crate::table::FlowEntry;

verus! {

/// A registration failure.
#[derive(Clone, Copy, PartialEq, Eq, Structural, Debug)]
pub enum RegistryError {
    /// The name is already registered.
    DuplicateName,
}

/// One registered metric: its name and its help text.
pub struct RegisteredMetric {
    pub name: String,
    pub help: String,
}

impl View for RegisteredMetric {
    type V = (Seq<char>, Seq<char>);

    open spec fn view(&self) -> (Seq<char>, Seq<char>) {
        (self.name@, self.help@)
    }
}

/// The process-wide mapping from metric name to metric, structurally
/// fixed after startup registration.
pub struct MetricRegistry {
    metrics: Vec<RegisteredMetric>,
}

impl View for MetricRegistry {
    type V = Seq<(Seq<char>, Seq<char>)>;

    closed spec fn view(&self) -> Seq<(Seq<char>, Seq<char>)> {
        Seq::new(self.metrics@.len(), |i: int| self.metrics@[i]@)
    }
}

/// Whether a name is already registered.
pub open spec fn spec_registered(s: Seq<(Seq<char>, Seq<char>)>, name: Seq<char>) -> bool {
    exists|i: int| 0 <= i < s.len() && (#[trigger] s[i]).0 == name
}

impl MetricRegistry {
    /// An empty registry.
    pub fn new() -> (r: MetricRegistry)
        ensures
            r@ == Seq::<(Seq<char>, Seq<char>)>::empty(),
    {
        let r = MetricRegistry { metrics: Vec::new() };
        proof {
            assert(r@ =~= Seq::<(Seq<char>, Seq<char>)>::empty());
        }
        r
    }

    /// Whether `name` is already registered.
    pub fn is_registered(&self, name: &String) -> (r: bool)
        ensures
            r == spec_registered(self@, name@),
    {
        let mut i: usize = 0;
        while i < self.metrics.len()
            invariant
                i <= self.metrics@.len(),
                forall|j: int| 0 <= j < i ==> (#[trigger] self@[j]).0 != name@,
            decreases self.metrics@.len() - i,
        {
            if self.metrics[i].name.eq(name) {
                proof {
                    assert((self@[i as int]).0 == name@);
                }
                return true;
            }
            i += 1;
        }
        false
    }

    /// Registers a metric name with its help text; a name can be
    /// registered only once.
    pub fn register(&mut self, name: String, help: String) -> (r: Result<(), RegistryError>)
        ensures
            match r {
                Ok(()) => !spec_registered(old(self)@, name@) && final(self)@ == old(self)@.push(
                    (name@, help@),
                ),
                Err(e) => e == RegistryError::DuplicateName && spec_registered(old(self)@, name@)
                    && final(self)@ == old(self)@,
            },
    {
        if self.is_registered(&name) {
            Err(RegistryError::DuplicateName)
        } else {
            self.metrics.push(RegisteredMetric { name, help });
            proof {
                assert(self@ =~= old(self)@.push((self.metrics@.last().name@, self.metrics@.last().help@)));
            }
            Ok(())
        }
    }

    /// The number of registered metrics.
    pub fn len(&self) -> (r: usize)
        ensures
            r == self@.len(),
    {
        self.metrics.len()
    }
}

/// The flow-entry views of a snapshot.
pub open spec fn entry_views(s: Seq<FlowEntry>) -> Seq<((Seq<char>, Seq<char>), (u64, u64))> {
    Seq::new(s.len(), |i: int| s[i]@)
}

/// The packet-count samples from entry `i` on, one line each.
pub open spec fn spec_packet_samples(
    s: Seq<((Seq<char>, Seq<char>), (u64, u64))>,
    i: int,
) -> Seq<char>
    decreases s.len() - i,
{
    if i < 0 || i >= s.len() {
        Seq::<char>::empty()
    } else {
        "router_monitor_packets_total{src=\""@ + s[i].0.0 + "\",dst=\""@ + s[i].0.1 + "\"} "@
            + spec_dec_string(s[i].1.0 as int) + "\n"@ + spec_packet_samples(s, i + 1)
    }
}

/// The byte-count samples from entry `i` on, one line each.
pub open spec fn spec_byte_samples(
    s: Seq<((Seq<char>, Seq<char>), (u64, u64))>,
    i: int,
) -> Seq<char>
    decreases s.len() - i,
{
    if i < 0 || i >= s.len() {
        Seq::<char>::empty()
    } else {
        "router_monitor_bytes_total{src=\""@ + s[i].0.0 + "\",dst=\""@ + s[i].0.1 + "\"} "@
            + spec_dec_string(s[i].1.1 as int) + "\n"@ + spec_byte_samples(s, i + 1)
    }
}

/// The exposition text of the two flow counter families.
pub open spec fn spec_encode_flow(s: Seq<((Seq<char>, Seq<char>), (u64, u64))>) -> Seq<char> {
    "# HELP router_monitor_packets Packets transferred\n# TYPE router_monitor_packets counter\n"@
        + spec_packet_samples(s, 0)
        + "# HELP router_monitor_bytes Bytes transferred\n# TYPE router_monitor_bytes counter\n"@
        + spec_byte_samples(s, 0)
}

/// Appends one sample line.
fn append_sample(out: &mut String, prefix: &str, e: &FlowEntry, value: u64)
    ensures
        final(out)@ == old(out)@ + prefix@ + e@.0.0 + "\",dst=\""@ + e@.0.1 + "\"} "@
            + spec_dec_string(value as int) + "\n"@,
{
    proof {
        reveal_strlit("\",dst=\"");
        reveal_strlit("\"} ");
        reveal_strlit("\n");
    }
    out.append(prefix);
    out.append(e.label.src.as_str());
    out.append("\",dst=\"");
    out.append(e.label.dst.as_str());
    out.append("\"} ");
    append_u64_dec(out, value);
    out.append("\n");
    assert(final(out)@ =~= old(out)@ + prefix@ + e@.0.0 + "\",dst=\""@ + e@.0.1 + "\"} "@
        + spec_dec_string(value as int) + "\n"@);
}

/// Renders a point-in-time snapshot of the flow counter table as the
/// exposition text of its two counter families.
pub fn encode_flow_metrics(snapshot: &Vec<FlowEntry>) -> (r: String)
    ensures
        r@ == spec_encode_flow(entry_views(snapshot@)),
{
    let ghost v = entry_views(snapshot@);
    let mut out = String::new();
    out.append("# HELP router_monitor_packets Packets transferred\n# TYPE router_monitor_packets counter\n");
    let mut i: usize = 0;
    while i < snapshot.len()
        invariant
            i <= snapshot@.len(),
            v == entry_views(snapshot@),
            v.len() == snapshot@.len(),
            out@ + spec_packet_samples(v, i as int) == "# HELP router_monitor_packets Packets transferred\n# TYPE router_monitor_packets counter\n"@
                + spec_packet_samples(v, 0),
        decreases snapshot@.len() - i,
    {
        append_sample(&mut out, "router_monitor_packets_total{src=\"", &snapshot[i], snapshot[i].packets);
        proof {
            assert(out@ + spec_packet_samples(v, i + 1) =~= "# HELP router_monitor_packets Packets transferred\n# TYPE router_monitor_packets counter\n"@
                + spec_packet_samples(v, 0));
        }
        i += 1;
    }
    out.append("# HELP router_monitor_bytes Bytes transferred\n# TYPE router_monitor_bytes counter\n");
    let ghost mid = out@;
    let mut j: usize = 0;
    while j < snapshot.len()
        invariant
            j <= snapshot@.len(),
            v == entry_views(snapshot@),
            v.len() == snapshot@.len(),
            out@ + spec_byte_samples(v, j as int) == mid + spec_byte_samples(v, 0),
        decreases snapshot@.len() - j,
    {
        append_sample(&mut out, "router_monitor_bytes_total{src=\"", &snapshot[j], snapshot[j].bytes);
        proof {
            assert(out@ + spec_byte_samples(v, j + 1) =~= mid + spec_byte_samples(v, 0));
        }
        j += 1;
    }
    proof {
        assert(out@ =~= spec_encode_flow(v));
    }
    out
}

} // verus!
