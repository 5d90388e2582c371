//! Traffic classification: attributing each endpoint of a packet to a
//! local address or to the remote internet.
//!
//! An endpoint whose address lies in one of the networks bound to the
//! monitored interface is attributed by the address's own textual form;
//! any other endpoint is attributed by the sentinel `internet`.

use vstd::prelude::*;

use crate::net::{IpAddress, Network, spec_contains, spec_ip_string};

verus! {

/// The ordered pair of attributions that buckets one packet's counters.
pub struct FlowLabel {
    pub src: String,
    pub dst: String,
}

impl View for FlowLabel {
    type V = (Seq<char>, Seq<char>);

    open spec fn view(&self) -> (Seq<char>, Seq<char>) {
        (self.src@, self.dst@)
    }
}

impl FlowLabel {
    /// Value equality of two labels.
    pub fn label_eq(&self, other: &FlowLabel) -> (r: bool)
        ensures
            r == (self@ == other@),
    {
        let r = self.src == other.src && self.dst == other.dst;
        proof {
            if self@ == other@ {
                assert(self.src@ == other.src@ && self.dst@ == other.dst@);
            }
        }
        r
    }

    /// A copy of the label with the same text.
    pub fn duplicate(&self) -> (r: FlowLabel)
        ensures
            r@ == self@,
    {
        FlowLabel { src: self.src.clone(), dst: self.dst.clone() }
    }
}

/// Whether `addr` lies in one of the given networks.
pub open spec fn spec_is_local(addr: IpAddress, nets: Seq<Network>) -> bool {
    exists|i: int| 0 <= i < nets.len() && spec_contains(nets[i], addr)
}

/// The attribution of one endpoint: its own textual form when local, the
/// sentinel `internet` otherwise.
pub open spec fn spec_attribution(addr: IpAddress, nets: Seq<Network>) -> Seq<char> {
    if spec_is_local(addr, nets) {
        spec_ip_string(addr)
    } else {
        "internet"@
    }
}

/// Attributes one endpoint against the interface's bound networks.
pub fn attribution(addr: &IpAddress, nets: &Vec<Network>) -> (r: String)
    requires
        forall|i: int| 0 <= i < nets@.len() ==> (#[trigger] nets@[i]).wf(),
    ensures
        r@ == spec_attribution(*addr, nets@),
{
    let mut local = false;
    let mut i: usize = 0;
    while i < nets.len()
        invariant
            i <= nets@.len(),
            forall|j: int| 0 <= j < nets@.len() ==> (#[trigger] nets@[j]).wf(),
            local == exists|j: int| 0 <= j < i && spec_contains(#[trigger] nets@[j], *addr),
        decreases nets@.len() - i,
    {
        if nets[i].contains(addr) {
            local = true;
        }
        i += 1;
    }
    if local {
        addr.to_text()
    } else {
        let mut s = String::new();
        s.append("internet");
        s
    }
}

/// Classifies one packet's endpoints into a flow label.
pub fn classify(src: &IpAddress, dst: &IpAddress, nets: &Vec<Network>) -> (r: FlowLabel)
    requires
        forall|i: int| 0 <= i < nets@.len() ==> (#[trigger] nets@[i]).wf(),
    ensures
        r@.0 == spec_attribution(*src, nets@),
        r@.1 == spec_attribution(*dst, nets@),
{
    FlowLabel { src: attribution(src, nets), dst: attribution(dst, nets) }
}

} // verus!
