//! The capture loop's verified core: binding to an interface, processing
//! captured frames, and the loop's state machine.
//!
//! The blocking receive itself lives outside the library; everything the
//! loop decides — which interface to bind, how a frame is decoded,
//! classified and counted, and how the loop reacts to faults — is here.

use vstd::prelude::*;

use crate::classify::{classify, spec_attribution};
use crate::net::Network;
use crate::packet::{DecodedFrame, decode_frame, spec_decode};
use crate::registry::{MetricRegistry, RegistryError, spec_registered};
use crate::table::{
    FlowCounterTable, labels_unique, lemma_record_sums, lemma_record_unique, spec_record,
    sum_bytes, sum_packets,
};

verus! {

/// A network interface as the capture loop sees it: its name and the
/// networks bound to it.
pub struct InterfaceInfo {
    pub name: String,
    pub ips: Vec<Network>,
}

impl InterfaceInfo {
    /// Every bound network is well formed.
    pub open spec fn wf(&self) -> bool {
        forall|i: int| 0 <= i < self.ips@.len() ==> (#[trigger] self.ips@[i]).wf()
    }
}

/// A fault of the capture subsystem.
#[derive(Clone, Copy, PartialEq, Eq, Structural, Debug)]
pub enum CaptureError {
    /// The named interface does not exist: a configuration error,
    /// reported once and not retried.
    NoSuchInterface,
    /// The capture primitive could not be opened on the interface.
    ChannelOpenFailed,
    /// The receive primitive itself failed; the loop terminates.
    TapFailure,
}

/// Looks up the named interface, as binding does at capture start:
/// the first interface with that name, or a configuration error.
pub fn find_interface(interfaces: &Vec<InterfaceInfo>, name: &String) -> (r: Result<
    usize,
    CaptureError,
>)
    ensures
        match r {
            Ok(i) => 0 <= i < interfaces@.len() && interfaces@[i as int].name@ == name@
                && forall|j: int| 0 <= j < i ==> (#[trigger] interfaces@[j]).name@ != name@,
            Err(e) => e == CaptureError::NoSuchInterface && forall|j: int|
                0 <= j < interfaces@.len() ==> (#[trigger] interfaces@[j]).name@ != name@,
        },
{
    let mut i: usize = 0;
    while i < interfaces.len()
        invariant
            i <= interfaces@.len(),
            forall|j: int| 0 <= j < i ==> (#[trigger] interfaces@[j]).name@ != name@,
        decreases interfaces@.len() - i,
    {
        if interfaces[i].name.eq(name) {
            return Ok(i);
        }
        i += 1;
    }
    Err(CaptureError::NoSuchInterface)
}

/// The table after one frame: a decoded packet is classified against the
/// interface's networks and recorded with the frame's byte length; an
/// unsupported or malformed frame changes nothing.
pub open spec fn spec_process(
    t: Seq<((Seq<char>, Seq<char>), (u64, u64))>,
    nets: Seq<Network>,
    b: Seq<u8>,
) -> Seq<((Seq<char>, Seq<char>), (u64, u64))> {
    match spec_decode(b) {
        DecodedFrame::Ip { src, dst, size } => spec_record(
            t,
            (spec_attribution(src, nets), spec_attribution(dst, nets)),
            size,
        ),
        _ => t,
    }
}

/// The table after a sequence of frames, processed in capture order.
pub open spec fn spec_process_seq(
    t: Seq<((Seq<char>, Seq<char>), (u64, u64))>,
    nets: Seq<Network>,
    frames: Seq<Seq<u8>>,
) -> Seq<((Seq<char>, Seq<char>), (u64, u64))>
    decreases frames.len(),
{
    if frames.len() == 0 {
        t
    } else {
        spec_process(spec_process_seq(t, nets, frames.drop_last()), nets, frames.last())
    }
}

/// The number of frames that decode to a supported network header.
pub open spec fn count_decoded(frames: Seq<Seq<u8>>) -> int
    decreases frames.len(),
{
    if frames.len() == 0 {
        0
    } else {
        count_decoded(frames.drop_last()) + if spec_decode(frames.last()) is Ip {
            1int
        } else {
            0int
        }
    }
}

/// The sum of the byte lengths of the frames that decode.
pub open spec fn sum_decoded_sizes(frames: Seq<Seq<u8>>) -> int
    decreases frames.len(),
{
    if frames.len() == 0 {
        0
    } else {
        sum_decoded_sizes(frames.drop_last()) + match spec_decode(frames.last()) {
            DecodedFrame::Ip { src, dst, size } => size as int,
            _ => 0int,
        }
    }
}

/// The monitor: the flow counter table fed by the capture loop.
pub struct PacketMonitor {
    table: FlowCounterTable,
}

impl View for PacketMonitor {
    type V = Seq<((Seq<char>, Seq<char>), (u64, u64))>;

    closed spec fn view(&self) -> Seq<((Seq<char>, Seq<char>), (u64, u64))> {
        self.table@
    }
}

impl PacketMonitor {
    /// The monitor's invariant: its table's labels are unique.
    pub open spec fn wf(&self) -> bool {
        labels_unique(self@)
    }

    /// A monitor with no observations yet.
    pub fn new() -> (r: PacketMonitor)
        ensures
            r@ == Seq::<((Seq<char>, Seq<char>), (u64, u64))>::empty(),
            r.wf(),
    {
        PacketMonitor { table: FlowCounterTable::new() }
    }

    /// Decodes, classifies and counts one captured frame; the returned
    /// outcome tells the caller whether the frame was counted, ignored
    /// as unsupported, or dropped as malformed.
    pub fn process_frame(&mut self, nets: &Vec<Network>, frame: &Vec<u8>) -> (r: DecodedFrame)
        requires
            old(self).wf(),
            forall|i: int| 0 <= i < nets@.len() ==> (#[trigger] nets@[i]).wf(),
        ensures
            r == spec_decode(frame@),
            final(self)@ == spec_process(old(self)@, nets@, frame@),
            final(self).wf(),
    {
        let d = decode_frame(frame);
        match d {
            DecodedFrame::Ip { src, dst, size } => {
                let label = classify(&src, &dst, nets);
                self.table.record(&label, size);
            },
            _ => {},
        }
        d
    }

    /// Feeds a whole sequence of frames to the monitor, in order.
    pub fn process_frames(&mut self, nets: &Vec<Network>, frames: &Vec<Vec<u8>>)
        requires
            old(self).wf(),
            forall|i: int| 0 <= i < nets@.len() ==> (#[trigger] nets@[i]).wf(),
        ensures
            final(self)@ == spec_process_seq(old(self)@, nets@, frames.deep_view()),
            final(self).wf(),
    {
        let ghost fs = frames.deep_view();
        let mut i: usize = 0;
        while i < frames.len()
            invariant
                i <= frames@.len(),
                fs == frames.deep_view(),
                fs.len() == frames@.len(),
                forall|j: int| 0 <= j < frames@.len() ==> (#[trigger] fs[j]) == frames@[j]@,
                forall|j: int| 0 <= j < nets@.len() ==> (#[trigger] nets@[j]).wf(),
                self.wf(),
                self@ == spec_process_seq(old(self)@, nets@, fs.subrange(0, i as int)),
            decreases frames@.len() - i,
        {
            self.process_frame(nets, &frames[i]);
            proof {
                assert(fs.subrange(0, i + 1).drop_last() =~= fs.subrange(0, i as int));
            }
            i += 1;
        }
        proof {
            assert(fs.subrange(0, frames@.len() as int) =~= fs);
        }
    }

    /// Registers the monitor's two counter families, packets and bytes,
    /// under their fixed names. Fails, changing nothing, when either
    /// name is already taken.
    pub fn register(&self, registry: &mut MetricRegistry) -> (r: Result<(), RegistryError>)
        ensures
            match r {
                Ok(()) => !spec_registered(old(registry)@, "router_monitor_packets"@)
                    && !spec_registered(old(registry)@, "router_monitor_bytes"@)
                    && final(registry)@ == old(registry)@.push(
                    ("router_monitor_packets"@, "Packets transferred"@),
                ).push(("router_monitor_bytes"@, "Bytes transferred"@)),
                Err(e) => e == RegistryError::DuplicateName && (spec_registered(
                    old(registry)@,
                    "router_monitor_packets"@,
                ) || spec_registered(old(registry)@, "router_monitor_bytes"@)) && final(registry)@
                    == old(registry)@,
            },
    {
        proof {
            reveal_strlit("router_monitor_packets");
            reveal_strlit("router_monitor_bytes");
        }
        let packets_name = String::from_str("router_monitor_packets");
        let bytes_name = String::from_str("router_monitor_bytes");
        if registry.is_registered(&packets_name) || registry.is_registered(&bytes_name) {
            return Err(RegistryError::DuplicateName);
        }
        let r1 = registry.register(packets_name, String::from_str("Packets transferred"));
        match r1 {
            Ok(()) => {},
            Err(_) => {
                proof {
                    assert(false);
                }
            },
        }
        proof {
            let s0 = old(registry)@;
            let s1 = registry@;
            assert("router_monitor_packets"@.len() != "router_monitor_bytes"@.len());
            assert forall|i: int| 0 <= i < s1.len() implies (#[trigger] s1[i]).0
                != "router_monitor_bytes"@ by {
                if i < s0.len() {
                    assert(s1[i] == s0[i]);
                }
            }
        }
        let r2 = registry.register(bytes_name, String::from_str("Bytes transferred"));
        match r2 {
            Ok(()) => {},
            Err(_) => {
                proof {
                    assert(false);
                }
            },
        }
        Ok(())
    }

    /// A point-in-time copy of every flow entry, in creation order.
    pub fn snapshot(&self) -> (r: Vec<crate::table::FlowEntry>)
        ensures
            r@.len() == self@.len(),
            forall|i: int| 0 <= i < r@.len() ==> (#[trigger] r@[i])@ == self@[i],
    {
        self.table.snapshot()
    }
}

/// The capture loop's lifecycle.
#[derive(Clone, Copy, PartialEq, Eq, Structural, Debug)]
pub enum CaptureState {
    /// Resolving the named interface and opening the capture primitive.
    Binding,
    /// Pulling, decoding and counting frames.
    Running,
    /// A fatal fault: a configuration error at binding, or the tap
    /// itself failing. Terminal.
    Faulted,
    /// The process is shutting down. Terminal.
    Stopped,
}

/// What the capture loop observes.
#[derive(Clone, Copy, PartialEq, Eq, Structural, Debug)]
pub enum CaptureEvent {
    /// The named interface was resolved and the tap opened.
    BoundOk,
    /// The interface is absent or the tap could not be opened.
    ConfigError,
    /// One frame arrived (well-formed or not: per-frame decode errors
    /// keep the loop running).
    FrameSeen,
    /// The receive primitive itself failed.
    TapFailure,
    /// The process is exiting.
    ProcessExit,
}

/// The loop's transition relation. Faults at binding and tap failures
/// are terminal; per-frame errors are not. Events that a state cannot
/// observe leave it unchanged.
pub open spec fn spec_step(s: CaptureState, e: CaptureEvent) -> CaptureState {
    match s {
        CaptureState::Binding => match e {
            CaptureEvent::BoundOk => CaptureState::Running,
            CaptureEvent::ConfigError => CaptureState::Faulted,
            CaptureEvent::ProcessExit => CaptureState::Stopped,
            _ => CaptureState::Binding,
        },
        CaptureState::Running => match e {
            CaptureEvent::TapFailure => CaptureState::Faulted,
            CaptureEvent::ProcessExit => CaptureState::Stopped,
            _ => CaptureState::Running,
        },
        CaptureState::Faulted => CaptureState::Faulted,
        CaptureState::Stopped => CaptureState::Stopped,
    }
}

/// Advances the capture loop's state by one observed event.
pub fn step(s: CaptureState, e: CaptureEvent) -> (r: CaptureState)
    ensures
        r == spec_step(s, e),
{
    match s {
        CaptureState::Binding => match e {
            CaptureEvent::BoundOk => CaptureState::Running,
            CaptureEvent::ConfigError => CaptureState::Faulted,
            CaptureEvent::ProcessExit => CaptureState::Stopped,
            _ => CaptureState::Binding,
        },
        CaptureState::Running => match e {
            CaptureEvent::TapFailure => CaptureState::Faulted,
            CaptureEvent::ProcessExit => CaptureState::Stopped,
            _ => CaptureState::Running,
        },
        CaptureState::Faulted => CaptureState::Faulted,
        CaptureState::Stopped => CaptureState::Stopped,
    }
}

/// The state after a whole sequence of events, observed in order.
pub open spec fn spec_run_events(s: CaptureState, es: Seq<CaptureEvent>) -> CaptureState
    decreases es.len(),
{
    if es.len() == 0 {
        s
    } else {
        spec_step(spec_run_events(s, es.drop_last()), es.last())
    }
}

/// A faulted loop stays faulted, whatever else is observed.
pub proof fn lemma_faulted_terminal(es: Seq<CaptureEvent>)
    ensures
        spec_run_events(CaptureState::Faulted, es) == CaptureState::Faulted,
    decreases es.len(),
{
    if es.len() > 0 {
        lemma_faulted_terminal(es.drop_last());
    }
}

/// A loop whose binding fails with a configuration error never reaches
/// the running state, whatever is observed afterwards.
pub proof fn lemma_config_error_never_runs(es: Seq<CaptureEvent>)
    ensures
        spec_run_events(spec_step(CaptureState::Binding, CaptureEvent::ConfigError), es)
            != CaptureState::Running,
{
    lemma_faulted_terminal(es);
}

/// Processing one frame keeps the table's labels unique.
proof fn lemma_process_unique(
    t: Seq<((Seq<char>, Seq<char>), (u64, u64))>,
    nets: Seq<Network>,
    b: Seq<u8>,
)
    requires
        labels_unique(t),
    ensures
        labels_unique(spec_process(t, nets, b)),
{
    match spec_decode(b) {
        DecodedFrame::Ip { src, dst, size } => {
            lemma_record_unique(
                t,
                (spec_attribution(src, nets), spec_attribution(dst, nets)),
                size,
            );
        },
        _ => {},
    }
}

/// Conservation of the capture loop: over any frame sequence, the total
/// packet count grows by exactly the number of frames that decoded to a
/// supported header, and the total byte count by the sum of their byte
/// lengths — as long as neither total saturates.
pub proof fn lemma_process_seq_sums(
    t: Seq<((Seq<char>, Seq<char>), (u64, u64))>,
    nets: Seq<Network>,
    frames: Seq<Seq<u8>>,
)
    requires
        labels_unique(t),
        sum_packets(t) + count_decoded(frames) <= u64::MAX,
        sum_bytes(t) + sum_decoded_sizes(frames) <= u64::MAX,
    ensures
        labels_unique(spec_process_seq(t, nets, frames)),
        sum_packets(spec_process_seq(t, nets, frames)) == sum_packets(t) + count_decoded(frames),
        sum_bytes(spec_process_seq(t, nets, frames)) == sum_bytes(t) + sum_decoded_sizes(frames),
    decreases frames.len(),
{
    lemma_count_decoded_nonneg(frames);
    lemma_sum_decoded_sizes_nonneg(frames);
    if frames.len() > 0 {
        lemma_count_decoded_nonneg(frames.drop_last());
        lemma_sum_decoded_sizes_nonneg(frames.drop_last());
        lemma_process_seq_sums(t, nets, frames.drop_last());
        let u = spec_process_seq(t, nets, frames.drop_last());
        match spec_decode(frames.last()) {
            DecodedFrame::Ip { src, dst, size } => {
                lemma_record_sums(
                    u,
                    (spec_attribution(src, nets), spec_attribution(dst, nets)),
                    size,
                );
            },
            _ => {},
        }
        lemma_process_unique(u, nets, frames.last());
    }
}

/// Monotonicity of the capture loop: between any two snapshots, however
/// many frames were processed in between, every entry keeps its place
/// and label and its counters never decrease.
pub proof fn lemma_process_seq_monotonic(
    t: Seq<((Seq<char>, Seq<char>), (u64, u64))>,
    nets: Seq<Network>,
    frames: Seq<Seq<u8>>,
)
    ensures
        spec_process_seq(t, nets, frames).len() >= t.len(),
        forall|j: int|
            0 <= j < t.len() ==> (#[trigger] spec_process_seq(t, nets, frames)[j]).0 == t[j].0,
        forall|j: int|
            0 <= j < t.len() ==> (#[trigger] spec_process_seq(t, nets, frames)[j]).1.0 >= t[j].1.0
                && spec_process_seq(t, nets, frames)[j].1.1 >= t[j].1.1,
    decreases frames.len(),
{
    if frames.len() > 0 {
        lemma_process_seq_monotonic(t, nets, frames.drop_last());
        let u = spec_process_seq(t, nets, frames.drop_last());
        match spec_decode(frames.last()) {
            DecodedFrame::Ip { src, dst, size } => {
                crate::table::lemma_record_monotonic(
                    u,
                    (spec_attribution(src, nets), spec_attribution(dst, nets)),
                    size,
                );
            },
            _ => {},
        }
    }
}

/// Per-label monotonicity: a label present at one snapshot is present
/// at every later one, and its packet and byte counters never decrease,
/// however many frames were processed in between.
pub proof fn lemma_process_seq_label_monotonic(
    t: Seq<((Seq<char>, Seq<char>), (u64, u64))>,
    nets: Seq<Network>,
    frames: Seq<Seq<u8>>,
    label: (Seq<char>, Seq<char>),
)
    requires
        crate::table::spec_find(t, label) >= 0,
    ensures
        crate::table::spec_find(spec_process_seq(t, nets, frames), label) == crate::table::spec_find(
            t,
            label,
        ),
        crate::table::packets_of(spec_process_seq(t, nets, frames), label) >= crate::table::packets_of(
            t,
            label,
        ),
        crate::table::bytes_of(spec_process_seq(t, nets, frames), label) >= crate::table::bytes_of(
            t,
            label,
        ),
{
    lemma_process_seq_monotonic(t, nets, frames);
    crate::table::lemma_find_stable(t, spec_process_seq(t, nets, frames), label);
    let r = spec_process_seq(t, nets, frames);
    let i = crate::table::spec_find(t, label);
    crate::table::lemma_find_range(t, label);
    assert(r[i].1.0 >= t[i].1.0 && r[i].1.1 >= t[i].1.1);
}

/// The decoded-frame count is never negative.
proof fn lemma_count_decoded_nonneg(frames: Seq<Seq<u8>>)
    ensures
        count_decoded(frames) >= 0,
    decreases frames.len(),
{
    if frames.len() > 0 {
        lemma_count_decoded_nonneg(frames.drop_last());
    }
}

/// The decoded-size sum is never negative.
proof fn lemma_sum_decoded_sizes_nonneg(frames: Seq<Seq<u8>>)
    ensures
        sum_decoded_sizes(frames) >= 0,
    decreases frames.len(),
{
    if frames.len() > 0 {
        lemma_sum_decoded_sizes_nonneg(frames.drop_last());
    }
}

} // verus!
