//! Walking a process's virtual address space, one region at a time.
//!
//! The scan starts at address zero and repeatedly queries the region
//! descriptor at the current probe address. A failed query is the normal end
//! of the address space; an uncommitted region is skipped; a committed one
//! is read into a fresh buffer that may come back shorter than the region
//! (a partial or empty read is not an error). The operating-system calls
//! themselves stay with the caller: [`ScanCursor::on_query`] takes each
//! query result and decides what to do next, so the walk is verified for
//! every possible answer the system gives. [`scan_space`] runs the same walk
//! over an in-memory description of an address space, which is how the
//! algorithm is exercised without a live process.

use vstd::prelude::*;

verus! {

use vstd::slice::slice_to_vec;

/// The mathematical value of one memory snapshot.
pub struct SnapshotModel {
    pub base_address: int,
    pub size: int,
    pub bytes: Seq<u8>,
}

/// One snapshot of a committed memory region: where it starts, how large the
/// region said it was, and the bytes actually read (at most `size` of them;
/// fewer when the read was partial).
pub struct MemoryRegion {
    pub base_address: usize,
    pub size: usize,
    pub bytes: Vec<u8>,
}

impl View for MemoryRegion {
    type V = SnapshotModel;

    open spec fn view(&self) -> SnapshotModel {
        SnapshotModel {
            base_address: self.base_address as int,
            size: self.size as int,
            bytes: self.bytes@,
        }
    }
}

/// `bytes` cut back to at most `size` bytes.
pub open spec fn truncated(bytes: Seq<u8>, size: int) -> Seq<u8> {
    if bytes.len() <= size {
        bytes
    } else {
        bytes.subrange(0, size)
    }
}

impl MemoryRegion {
    /// A region never holds more bytes than it declares; a partial read
    /// leaves a shorter buffer.
    pub open spec fn wf(&self) -> bool {
        self.bytes@.len() <= self.size
    }

    /// Build a snapshot from a raw read, cutting the buffer back to the
    /// region size when the read handed over more than the region declares.
    pub fn new(base_address: usize, size: usize, bytes: Vec<u8>) -> (r: MemoryRegion)
        ensures
            r.base_address == base_address,
            r.size == size,
            r.bytes@ == truncated(bytes@, size as int),
            r.wf(),
    {
        let mut buf = bytes;
        if buf.len() > size {
            buf.truncate(size);
        }
        MemoryRegion { base_address, size, bytes: buf }
    }
}

/// What one query of the address space reports: the region holding the
/// probed address, its size, and whether it is committed (backed by real
/// storage).
pub struct RegionInfo {
    pub base_address: usize,
    pub size: usize,
    pub committed: bool,
}

/// What the scan does after one query.
pub enum ScanStep {
    /// The region is committed: read up to `size` bytes at `base_address`
    /// and emit the (possibly truncated) snapshot.
    Read { base_address: usize, size: usize },
    /// The region is not committed: query again at the advanced probe
    /// address, emitting nothing.
    Skip,
    /// The address space is exhausted; the sequence of snapshots has ended.
    Finished,
}

/// The iteration state of one scan: single-pass and never restarted. The
/// probe address advances monotonically and no address is visited twice; a
/// fresh cursor is needed to scan again from the start.
pub struct ScanCursor {
    pub next_probe_address: usize,
    pub done: bool,
}

impl ScanCursor {
    /// A fresh cursor, probing from address zero.
    pub fn new() -> (c: ScanCursor)
        ensures
            c.next_probe_address == 0,
            !c.done,
    {
        ScanCursor { next_probe_address: 0, done: false }
    }

    /// One decision step of the walk. `info` is what the system reported for
    /// the current probe address, or `None` when the query failed — the
    /// normal end of the address space. A region of size zero, or one whose
    /// end does not fit in the address space, also ends the scan, so the
    /// probe address always strictly advances while the scan runs.
    pub fn on_query(&mut self, info: &Option<RegionInfo>) -> (step: ScanStep)
        requires
            !old(self).done,
        ensures
            match info {
                None => final(self).done && step is Finished && final(self).next_probe_address
                    == old(self).next_probe_address,
                Some(ri) => {
                    if ri.size == 0 || old(self).next_probe_address + ri.size > usize::MAX {
                        final(self).done && step is Finished
                    } else {
                        &&& !final(self).done
                        &&& final(self).next_probe_address == old(self).next_probe_address + ri.size
                        &&& step == (if ri.committed {
                            ScanStep::Read { base_address: ri.base_address, size: ri.size }
                        } else {
                            ScanStep::Skip
                        })
                    }
                },
            },
    {
        match info {
            None => {
                self.done = true;
                ScanStep::Finished
            },
            Some(ri) => {
                if ri.size == 0 {
                    self.done = true;
                    ScanStep::Finished
                } else {
                    match self.next_probe_address.checked_add(ri.size) {
                        None => {
                            self.done = true;
                            ScanStep::Finished
                        },
                        Some(next) => {
                            self.next_probe_address = next;
                            if ri.committed {
                                ScanStep::Read { base_address: ri.base_address, size: ri.size }
                            } else {
                                ScanStep::Skip
                            }
                        },
                    }
                }
            },
        }
    }
}

/// One region of a described address space: regions lie back to back from
/// address zero, and `bytes` is what a read of the region would hand back
/// (shorter than `size` for a region that is only partially readable).
pub struct SyntheticRegion {
    pub size: usize,
    pub committed: bool,
    pub bytes: Vec<u8>,
}

/// The summed sizes of the regions from index `i` on.
pub open spec fn size_sum_from(space: Seq<SyntheticRegion>, i: int) -> int
    decreases space.len() - i,
{
    if i < 0 || i >= space.len() {
        0
    } else {
        space[i].size + size_sum_from(space, i + 1)
    }
}

/// The snapshots a scan emits from index `i` on, when region `i` starts at
/// address `base`: committed regions yield their (truncated) bytes in
/// address order, uncommitted ones yield nothing.
pub open spec fn scan_from(space: Seq<SyntheticRegion>, i: int, base: int) -> Seq<SnapshotModel>
    decreases space.len() - i,
{
    if i < 0 || i >= space.len() {
        Seq::empty()
    } else {
        let head = space[i];
        let rest = scan_from(space, i + 1, base + head.size);
        if head.committed {
            seq![
                SnapshotModel {
                    base_address: base,
                    size: head.size as int,
                    bytes: truncated(head.bytes@, head.size as int),
                },
            ] + rest
        } else {
            rest
        }
    }
}

/// The full scan of a described address space, from address zero.
pub open spec fn scan_spec(space: Seq<SyntheticRegion>) -> Seq<SnapshotModel> {
    scan_from(space, 0, 0)
}

proof fn lemma_size_sum_from_nonneg(space: Seq<SyntheticRegion>, i: int)
    ensures
        size_sum_from(space, i) >= 0,
    decreases space.len() - i,
{
    if 0 <= i < space.len() {
        lemma_size_sum_from_nonneg(space, i + 1);
    }
}

/// Walk a described address space and collect one snapshot per committed
/// region, exactly as a scan of a live process would emit them.
pub fn scan_space(space: &Vec<SyntheticRegion>) -> (r: Vec<MemoryRegion>)
    requires
        size_sum_from(space@, 0) <= usize::MAX,
    ensures
        r@.map_values(|m: MemoryRegion| m@) == scan_spec(space@),
        forall|i: int| 0 <= i < r@.len() ==> (#[trigger] r@[i]).wf(),
{
    let mut out: Vec<MemoryRegion> = Vec::new();
    let mut base: usize = 0;
    let mut i: usize = 0;
    while i < space.len()
        invariant
            i <= space@.len(),
            base + size_sum_from(space@, i as int) == size_sum_from(space@, 0),
            size_sum_from(space@, 0) <= usize::MAX,
            scan_spec(space@) =~= out@.map_values(|m: MemoryRegion| m@) + scan_from(
                space@,
                i as int,
                base as int,
            ),
            forall|j: int| 0 <= j < out@.len() ==> (#[trigger] out@[j]).wf(),
        decreases space@.len() - i,
    {
        proof {
            lemma_size_sum_from_nonneg(space@, i as int + 1);
        }
        let region = &space[i];
        if region.committed {
            let snapshot = MemoryRegion::new(base, region.size, slice_to_vec(region.bytes.as_slice()));
            out.push(snapshot);
        }
        base = base + region.size;
        i += 1;
        proof {
            assert(scan_spec(space@) =~= out@.map_values(|m: MemoryRegion| m@) + scan_from(
                space@,
                i as int,
                base as int,
            ));
        }
    }
    proof {
        assert(out@.map_values(|m: MemoryRegion| m@) =~= scan_spec(space@));
    }
    out
}

/// Law: a marker search over a truncated buffer finds the marker only where
/// the untruncated bytes hold it, entirely inside the truncated part. A
/// partial read can therefore only lose records, never invent one, and a
/// marker that falls beyond the truncated length is simply not found.
pub proof fn lemma_truncated_search(bytes: Seq<u8>, size: int, needle: Seq<u8>, i: int)
    requires
        0 <= size,
        crate::search::match_at(truncated(bytes, size), needle, i),
    ensures
        crate::search::match_at(bytes, needle, i),
        i + needle.len() <= truncated(bytes, size).len(),
{
    let cut = truncated(bytes, size);
    if bytes.len() > size {
        assert(cut.subrange(i, i + needle.len()) =~= bytes.subrange(i, i + needle.len()));
    }
}

/// Law: an address space with no committed region yields no snapshot at
/// all — exhaustion is a clean, empty end, not an error.
pub proof fn lemma_scan_nothing_committed(space: Seq<SyntheticRegion>)
    requires
        forall|i: int| 0 <= i < space.len() ==> !(#[trigger] space[i]).committed,
    ensures
        scan_spec(space).len() == 0,
{
    lemma_scan_from_nothing_committed(space, 0, 0);
}

proof fn lemma_scan_from_nothing_committed(space: Seq<SyntheticRegion>, i: int, base: int)
    requires
        forall|j: int| 0 <= j < space.len() ==> !(#[trigger] space[j]).committed,
    ensures
        scan_from(space, i, base).len() == 0,
    decreases space.len() - i,
{
    if 0 <= i < space.len() {
        lemma_scan_from_nothing_committed(space, i + 1, base + space[i].size);
    }
}

} // verus!
