//! The flow counter table: per-flow monotonic packet and byte counters.
//!
//! Each entry pairs a flow label with two non-decreasing 64-bit counters.
//! Entries are created lazily on the first observation of a label, labels
//! are unique, and counters saturate at the largest 64-bit value instead
//! of rolling over, so they never decrease.

use vstd::prelude::*;

use crate::classify::FlowLabel;

verus! {

/// One table entry: a flow label with its packet and byte counters.
pub struct FlowEntry {
    pub label: FlowLabel,
    pub packets: u64,
    pub bytes: u64,
}

impl View for FlowEntry {
    type V = ((Seq<char>, Seq<char>), (u64, u64));

    open spec fn view(&self) -> ((Seq<char>, Seq<char>), (u64, u64)) {
        (self.label@, (self.packets, self.bytes))
    }
}

/// Addition that stops at the largest 64-bit value.
pub open spec fn sat_add(a: u64, b: u64) -> u64 {
    if a + b > u64::MAX {
        u64::MAX
    } else {
        (a + b) as u64
    }
}

/// The index of the entry carrying `label`, or -1 when absent.
pub open spec fn spec_find(s: Seq<((Seq<char>, Seq<char>), (u64, u64))>, label: (Seq<char>, Seq<char>)) -> int
    decreases s.len(),
{
    if s.len() == 0 {
        -1
    } else if s[0].0 == label {
        0
    } else {
        let r = spec_find(s.drop_first(), label);
        if r < 0 {
            -1
        } else {
            r + 1
        }
    }
}

/// The table after one observation of `label` with `size` bytes: the
/// label's entry gains one packet and `size` bytes, and is created as
/// `(1, size)` when absent, at the end.
pub open spec fn spec_record(
    s: Seq<((Seq<char>, Seq<char>), (u64, u64))>,
    label: (Seq<char>, Seq<char>),
    size: u64,
) -> Seq<((Seq<char>, Seq<char>), (u64, u64))> {
    let i = spec_find(s, label);
    if i < 0 {
        s.push((label, (1u64, size)))
    } else {
        s.update(i, (label, (sat_add(s[i].1.0, 1), sat_add(s[i].1.1, size))))
    }
}

/// Label uniqueness: no two entries carry the same label.
pub open spec fn labels_unique(s: Seq<((Seq<char>, Seq<char>), (u64, u64))>) -> bool {
    forall|i: int, j: int| 0 <= i < j < s.len() ==> (#[trigger] s[i]).0 != (#[trigger] s[j]).0
}

/// The mapping from flow labels to monotonic counter pairs.
///
/// Exactly one writer observes packets through `record`; `snapshot` hands
/// out a point-in-time copy of every entry in creation order.
pub struct FlowCounterTable {
    entries: Vec<FlowEntry>,
}

impl View for FlowCounterTable {
    type V = Seq<((Seq<char>, Seq<char>), (u64, u64))>;

    closed spec fn view(&self) -> Seq<((Seq<char>, Seq<char>), (u64, u64))> {
        Seq::new(self.entries@.len(), |i: int| self.entries@[i]@)
    }
}

impl FlowCounterTable {
    /// The table's invariant: labels are unique.
    pub open spec fn wf(&self) -> bool {
        labels_unique(self@)
    }

    /// An empty table.
    pub fn new() -> (r: FlowCounterTable)
        ensures
            r@ == Seq::<((Seq<char>, Seq<char>), (u64, u64))>::empty(),
            r.wf(),
    {
        let r = FlowCounterTable { entries: Vec::new() };
        proof {
            assert(r@ =~= Seq::<((Seq<char>, Seq<char>), (u64, u64))>::empty());
        }
        r
    }

    /// The index of `label`'s entry, or the length when absent.
    fn find(&self, label: &FlowLabel) -> (r: usize)
        ensures
            spec_find(self@, label@) >= 0 ==> r == spec_find(self@, label@),
            spec_find(self@, label@) < 0 ==> r == self@.len(),
    {
        let mut i: usize = 0;
        while i < self.entries.len()
            invariant
                i <= self.entries@.len(),
                forall|j: int| 0 <= j < i ==> (#[trigger] self@[j]).0 != label@,
            decreases self.entries@.len() - i,
        {
            if self.entries[i].label.label_eq(label) {
                proof {
                    lemma_find_present(self@, label@, i as int);
                }
                return i;
            }
            i += 1;
        }
        proof {
            lemma_find_absent(self@, label@);
        }
        i
    }

    /// Records one packet of `size` bytes against `label`, creating the
    /// entry when absent. Counters only grow, saturating at the largest
    /// 64-bit value.
    pub fn record(&mut self, label: &FlowLabel, size: u64)
        requires
            old(self).wf(),
        ensures
            final(self)@ == spec_record(old(self)@, label@, size),
            final(self).wf(),
    {
        let i = self.find(label);
        if i < self.entries.len() {
            let p = self.entries[i].packets;
            let b = self.entries[i].bytes;
            let e = &mut self.entries[i];
            e.packets = if p < u64::MAX { p + 1 } else { u64::MAX };
            e.bytes = if b <= u64::MAX - size { b + size } else { u64::MAX };
            proof {
                lemma_find_range(old(self)@, label@);
                assert(self@ =~= spec_record(old(self)@, label@, size));
                lemma_record_unique(old(self)@, label@, size);
            }
        } else {
            self.entries.push(FlowEntry { label: label.duplicate(), packets: 1, bytes: size });
            proof {
                lemma_find_range(old(self)@, label@);
                assert(self@ =~= spec_record(old(self)@, label@, size));
                lemma_record_unique(old(self)@, label@, size);
            }
        }
    }

    /// A point-in-time copy of every entry, in creation order.
    pub fn snapshot(&self) -> (r: Vec<FlowEntry>)
        ensures
            r@.len() == self@.len(),
            forall|i: int| 0 <= i < r@.len() ==> (#[trigger] r@[i])@ == self@[i],
    {
        let mut r: Vec<FlowEntry> = Vec::new();
        let mut i: usize = 0;
        while i < self.entries.len()
            invariant
                i <= self.entries@.len(),
                r@.len() == i,
                forall|j: int| 0 <= j < i ==> (#[trigger] r@[j])@ == self@[j],
            decreases self.entries@.len() - i,
        {
            let e = &self.entries[i];
            r.push(FlowEntry { label: e.label.duplicate(), packets: e.packets, bytes: e.bytes });
            i += 1;
        }
        r
    }

    /// The number of entries.
    pub fn len(&self) -> (r: usize)
        ensures
            r == self@.len(),
    {
        self.entries.len()
    }
}

/// When the label stands at `i` and nowhere earlier, `spec_find` says `i`.
proof fn lemma_find_present(s: Seq<((Seq<char>, Seq<char>), (u64, u64))>, label: (Seq<char>, Seq<char>), i: int)
    requires
        0 <= i < s.len(),
        s[i].0 == label,
        forall|j: int| 0 <= j < i ==> (#[trigger] s[j]).0 != label,
    ensures
        spec_find(s, label) == i,
    decreases i,
{
    if i > 0 {
        lemma_find_present(s.drop_first(), label, i - 1);
    }
}

/// When no entry carries the label, `spec_find` says -1.
proof fn lemma_find_absent(s: Seq<((Seq<char>, Seq<char>), (u64, u64))>, label: (Seq<char>, Seq<char>))
    requires
        forall|j: int| 0 <= j < s.len() ==> (#[trigger] s[j]).0 != label,
    ensures
        spec_find(s, label) == -1,
    decreases s.len(),
{
    if s.len() > 0 {
        lemma_find_absent(s.drop_first(), label);
    }
}

/// `spec_find` lands on the label it looked for, within bounds.
pub proof fn lemma_find_range(s: Seq<((Seq<char>, Seq<char>), (u64, u64))>, label: (Seq<char>, Seq<char>))
    ensures
        -1 <= spec_find(s, label) < s.len(),
        spec_find(s, label) >= 0 ==> s[spec_find(s, label)].0 == label,
        spec_find(s, label) >= 0 ==> forall|j: int|
            0 <= j < spec_find(s, label) ==> (#[trigger] s[j]).0 != label,
        spec_find(s, label) < 0 ==> forall|j: int| 0 <= j < s.len() ==> (#[trigger] s[j]).0 != label,
    decreases s.len(),
{
    if s.len() > 0 && s[0].0 != label {
        lemma_find_range(s.drop_first(), label);
        assert(forall|j: int|
            1 <= j < s.len() ==> (#[trigger] s[j]).0 == s.drop_first()[j - 1].0);
    }
}

/// Recording keeps labels unique.
pub proof fn lemma_record_unique(s: Seq<((Seq<char>, Seq<char>), (u64, u64))>, label: (Seq<char>, Seq<char>), size: u64)
    requires
        labels_unique(s),
    ensures
        labels_unique(spec_record(s, label, size)),
{
    lemma_find_range(s, label);
}

/// The total packet count over every entry.
pub open spec fn sum_packets(s: Seq<((Seq<char>, Seq<char>), (u64, u64))>) -> int
    decreases s.len(),
{
    if s.len() == 0 {
        0
    } else {
        sum_packets(s.drop_last()) + s.last().1.0
    }
}

/// The total byte count over every entry.
pub open spec fn sum_bytes(s: Seq<((Seq<char>, Seq<char>), (u64, u64))>) -> int
    decreases s.len(),
{
    if s.len() == 0 {
        0
    } else {
        sum_bytes(s.drop_last()) + s.last().1.1
    }
}

/// Totals are never negative.
proof fn lemma_sums_nonneg(s: Seq<((Seq<char>, Seq<char>), (u64, u64))>)
    ensures
        sum_packets(s) >= 0,
        sum_bytes(s) >= 0,
    decreases s.len(),
{
    if s.len() > 0 {
        lemma_sums_nonneg(s.drop_last());
    }
}

/// Each entry's counters are bounded by the totals.
proof fn lemma_sum_ge_entry(s: Seq<((Seq<char>, Seq<char>), (u64, u64))>, i: int)
    requires
        0 <= i < s.len(),
    ensures
        sum_packets(s) >= s[i].1.0,
        sum_bytes(s) >= s[i].1.1,
    decreases s.len(),
{
    lemma_sums_nonneg(s.drop_last());
    if i < s.len() - 1 {
        lemma_sum_ge_entry(s.drop_last(), i);
    }
}

/// Replacing one entry shifts the totals by the difference at that entry.
proof fn lemma_sum_update(
    s: Seq<((Seq<char>, Seq<char>), (u64, u64))>,
    i: int,
    e: ((Seq<char>, Seq<char>), (u64, u64)),
)
    requires
        0 <= i < s.len(),
    ensures
        sum_packets(s.update(i, e)) == sum_packets(s) - s[i].1.0 + e.1.0,
        sum_bytes(s.update(i, e)) == sum_bytes(s) - s[i].1.1 + e.1.1,
    decreases s.len(),
{
    if i == s.len() - 1 {
        assert(s.update(i, e).drop_last() =~= s.drop_last());
    } else {
        assert(s.update(i, e).drop_last() =~= s.drop_last().update(i, e));
        lemma_sum_update(s.drop_last(), i, e);
    }
}

/// One observation raises the total packet count by one and the total
/// byte count by the observed size, as long as neither total saturates.
pub proof fn lemma_record_sums(
    s: Seq<((Seq<char>, Seq<char>), (u64, u64))>,
    label: (Seq<char>, Seq<char>),
    size: u64,
)
    requires
        sum_packets(s) + 1 <= u64::MAX,
        sum_bytes(s) + size <= u64::MAX,
    ensures
        sum_packets(spec_record(s, label, size)) == sum_packets(s) + 1,
        sum_bytes(spec_record(s, label, size)) == sum_bytes(s) + size,
{
    lemma_find_range(s, label);
    let i = spec_find(s, label);
    if i < 0 {
        let r = s.push((label, (1u64, size)));
        assert(r.drop_last() =~= s);
    } else {
        lemma_sum_ge_entry(s, i);
        lemma_sums_nonneg(s);
        lemma_sum_update(s, i, (label, (sat_add(s[i].1.0, 1), sat_add(s[i].1.1, size))));
    }
}

/// One observation never lowers any entry's counters: every label present
/// before keeps its place with counters at least as large.
pub proof fn lemma_record_monotonic(
    s: Seq<((Seq<char>, Seq<char>), (u64, u64))>,
    label: (Seq<char>, Seq<char>),
    size: u64,
)
    ensures
        spec_record(s, label, size).len() >= s.len(),
        forall|j: int| 0 <= j < s.len() ==> (#[trigger] spec_record(s, label, size)[j]).0 == s[j].0,
        forall|j: int|
            0 <= j < s.len() ==> (#[trigger] spec_record(s, label, size)[j]).1.0 >= s[j].1.0
                && spec_record(s, label, size)[j].1.1 >= s[j].1.1,
{
    lemma_find_range(s, label);
}

/// The table after `n` observations of the same label and size.
pub open spec fn spec_record_n(
    s: Seq<((Seq<char>, Seq<char>), (u64, u64))>,
    label: (Seq<char>, Seq<char>),
    size: u64,
    n: nat,
) -> Seq<((Seq<char>, Seq<char>), (u64, u64))>
    decreases n,
{
    if n == 0 {
        s
    } else {
        spec_record(spec_record_n(s, label, size, (n - 1) as nat), label, size)
    }
}

/// The packet count of `label`'s entry, or zero when absent.
pub open spec fn packets_of(
    s: Seq<((Seq<char>, Seq<char>), (u64, u64))>,
    label: (Seq<char>, Seq<char>),
) -> int {
    if spec_find(s, label) >= 0 {
        s[spec_find(s, label)].1.0 as int
    } else {
        0
    }
}

/// `n` observations of one label raise its packet count by exactly `n`:
/// no observation is lost, as long as the count does not saturate.
pub proof fn lemma_record_n_packets(
    s: Seq<((Seq<char>, Seq<char>), (u64, u64))>,
    label: (Seq<char>, Seq<char>),
    size: u64,
    n: nat,
)
    requires
        labels_unique(s),
        packets_of(s, label) + n <= u64::MAX,
    ensures
        labels_unique(spec_record_n(s, label, size, n)),
        packets_of(spec_record_n(s, label, size, n), label) == packets_of(s, label) + n,
    decreases n,
{
    if n > 0 {
        lemma_record_n_packets(s, label, size, (n - 1) as nat);
        let t = spec_record_n(s, label, size, (n - 1) as nat);
        lemma_find_range(t, label);
        lemma_record_unique(t, label, size);
        let i = spec_find(t, label);
        let r = spec_record(t, label, size);
        if i < 0 {
            lemma_find_last(r, label);
        } else {
            lemma_find_update(t, i, (label, (sat_add(t[i].1.0, 1), sat_add(t[i].1.1, size))));
        }
    }
}

/// The byte count of `label`'s entry, or zero when absent.
pub open spec fn bytes_of(
    s: Seq<((Seq<char>, Seq<char>), (u64, u64))>,
    label: (Seq<char>, Seq<char>),
) -> int {
    if spec_find(s, label) >= 0 {
        s[spec_find(s, label)].1.1 as int
    } else {
        0
    }
}

/// A table that keeps its first labels in place keeps where each of
/// them is found.
pub proof fn lemma_find_stable(
    s: Seq<((Seq<char>, Seq<char>), (u64, u64))>,
    t: Seq<((Seq<char>, Seq<char>), (u64, u64))>,
    label: (Seq<char>, Seq<char>),
)
    requires
        t.len() >= s.len(),
        forall|j: int| 0 <= j < s.len() ==> (#[trigger] t[j]).0 == s[j].0,
        spec_find(s, label) >= 0,
    ensures
        spec_find(t, label) == spec_find(s, label),
{
    lemma_find_range(s, label);
    let i = spec_find(s, label);
    lemma_find_present(t, label, i);
}

/// A label just pushed at the end of a table that lacked it is found there.
proof fn lemma_find_last(s: Seq<((Seq<char>, Seq<char>), (u64, u64))>, label: (Seq<char>, Seq<char>))
    requires
        s.len() > 0,
        s.last().0 == label,
        forall|j: int| 0 <= j < s.len() - 1 ==> (#[trigger] s[j]).0 != label,
    ensures
        spec_find(s, label) == s.len() - 1,
{
    lemma_find_present(s, label, s.len() - 1);
}

/// Replacing the entry at the found index, keeping its label, keeps the
/// found index.
proof fn lemma_find_update(
    s: Seq<((Seq<char>, Seq<char>), (u64, u64))>,
    i: int,
    e: ((Seq<char>, Seq<char>), (u64, u64)),
)
    requires
        labels_unique(s),
        0 <= i < s.len(),
        e.0 == s[i].0,
    ensures
        spec_find(s.update(i, e), s[i].0) == i,
{
    lemma_find_present(s.update(i, e), s[i].0, i);
}

} // verus!
