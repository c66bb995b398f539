use vstd::prelude::*;

use vstd::arithmetic::div_mod::{lemma_div_is_ordered, lemma_div_by_multiple};

use crate::models::Subnet;
use crate::scan_stream::Emitted;
use crate::subnet_helpers::host_count;

verus! {

/// The progress of the scan of one subnet.
#[derive(Clone, Copy, Debug, PartialEq, Eq, Structural)]
pub struct SubnetProgress {
    pub subnet: Subnet,
    /// Results received so far.
    pub completed: u64,
    /// Results expected: host count times port count.
    pub total: u64,
    /// Whether the subnet's closed marker has arrived.
    pub finished: bool,
}

/// The most results a subnet scan can expect: every address of the IPv4
/// space times every port.
pub const MAX_TOTAL: u64 = 0x1_0000_0000 * 0xffff;

/// The position of a progress bar of length `size` after `completed` of
/// `total` results: the share done, scaled to the bar and rounded down, and
/// a full bar when nothing was expected.
pub open spec fn bar_position(completed: u64, total: u64, size: u64) -> int {
    if total == 0 {
        size as int
    } else {
        let done = if completed <= total {
            completed
        } else {
            total
        };
        done * size / (total as int)
    }
}

/// The counter after one more result; it stops at the largest `u64`.
pub open spec fn counted(completed: u64) -> u64 {
    if completed < u64::MAX {
        (completed + 1) as u64
    } else {
        completed
    }
}

/// The bar never moves back as results come in, never passes its end,
/// and is full once every expected result has come.
pub proof fn lemma_bar_position_monotone(c1: u64, c2: u64, total: u64, size: u64)
    requires
        c1 <= c2,
    ensures
        bar_position(c1, total, size) <= bar_position(c2, total, size) <= size,
        c2 >= total ==> bar_position(c2, total, size) == size,
{
    if total > 0 {
        let d1: int = if c1 <= total { c1 as int } else { total as int };
        let d2: int = if c2 <= total { c2 as int } else { total as int };
        assert(d1 * size <= d2 * size) by (nonlinear_arith)
            requires
                d1 <= d2,
                size >= 0,
        ;
        assert(d2 * size <= total * size) by (nonlinear_arith)
            requires
                d2 <= total,
                size >= 0,
        ;
        lemma_div_is_ordered(d1 * size, d2 * size, total as int);
        lemma_div_is_ordered(d2 * size, total * size, total as int);
        lemma_div_by_multiple(size as int, total as int);
        assert((size as int) * (total as int) == (total as int) * (size as int)) by (nonlinear_arith);
    }
}

/// Whether `i` is the position of `subnet`'s entry in `entries`.
pub open spec fn entry_at(entries: Seq<SubnetProgress>, subnet: Subnet, i: int) -> bool {
    0 <= i < entries.len() && entries[i].subnet == subnet
}

/// Whether `entries` has an entry for `subnet`.
pub open spec fn has_entry(entries: Seq<SubnetProgress>, subnet: Subnet) -> bool {
    exists|i: int| entry_at(entries, subnet, i)
}

/// What the progress display does after an event of the fan-in.
#[derive(Clone, Copy, Debug, PartialEq, Eq, Structural)]
pub enum ProgressUpdate {
    /// Move the bar of the entry at `index` to `position`.
    Position { index: usize, position: u64 },
    /// Finish the bar of the entry at `index`.
    Finished { index: usize },
    /// The event was of a subnet that was never registered; it is ignored
    /// and should be logged.
    Unregistered { subnet: Subnet },
}

/// No two entries are of one subnet.
pub open spec fn subnets_distinct(entries: Seq<SubnetProgress>) -> bool {
    forall|i: int, j: int|
        0 <= i < j < entries.len() ==> #[trigger] entries[i].subnet != #[trigger] entries[j].subnet
}

/// The per-subnet counters that drive the progress display; the single
/// consumer of the fan-in's stream.
pub struct ScanProgressTracker {
    entries: Vec<SubnetProgress>,
    progress_bar_size: u64,
}

impl ScanProgressTracker {
    /// The entries, one per registered subnet, in the order of registration.
    pub closed spec fn entries(&self) -> Seq<SubnetProgress> {
        self.entries@
    }

    /// The length of each progress bar.
    pub closed spec fn bar_size(&self) -> u64 {
        self.progress_bar_size
    }

    /// One entry per subnet, each expecting at most `MAX_TOTAL` results.
    pub closed spec fn wf(&self) -> bool {
        &&& subnets_distinct(self.entries@)
        &&& forall|i: int| 0 <= i < self.entries@.len() ==> #[trigger] self.entries@[i].total <= MAX_TOTAL
    }

    /// A well-formed tracker holds each subnet once.
    pub proof fn lemma_entries_distinct(&self)
        requires
            self.wf(),
        ensures
            subnets_distinct(self.entries()),
    {
    }

    /// A tracker with no subnet, whose bars have length `progress_bar_size`.
    pub fn new(progress_bar_size: u64) -> (r: Self)
        ensures
            r.wf(),
            r.entries() == Seq::<SubnetProgress>::empty(),
            r.bar_size() == progress_bar_size,
    {
        ScanProgressTracker { entries: Vec::new(), progress_bar_size }
    }

    /// The number of registered subnets.
    pub fn subnet_count(&self) -> (r: usize)
        ensures
            r == self.entries().len(),
    {
        self.entries.len()
    }

    /// The length of each progress bar.
    pub fn progress_bar_size(&self) -> (r: u64)
        ensures
            r == self.bar_size(),
    {
        self.progress_bar_size
    }

    fn find(&self, subnet: Subnet) -> (r: Option<usize>)
        ensures
            match r {
                Some(i) => entry_at(self.entries@, subnet, i as int),
                None => !has_entry(self.entries@, subnet),
            },
    {
        let mut i: usize = 0;
        while i < self.entries.len()
            invariant
                i <= self.entries.len(),
                forall|j: int| 0 <= j < i ==> self.entries@[j].subnet != subnet,
            decreases self.entries.len() - i,
        {
            if self.entries[i].subnet == subnet {
                return Some(i);
            }
            i = i + 1;
        }
        None
    }

    /// Starts counting for `subnet`, expecting its host count times
    /// `num_ports` results; a subnet seen before starts again from zero.
    /// Returns the position of its entry.
    pub fn initate_subnet_progress(&mut self, subnet: Subnet, num_ports: u64) -> (r: usize)
        requires
            old(self).wf(),
            subnet.wf(),
            num_ports <= 0xffff,
        ensures
            final(self).wf(),
            final(self).bar_size() == old(self).bar_size(),
            ({
                let fresh = SubnetProgress {
                    subnet,
                    completed: 0,
                    total: (host_count(subnet) * num_ports) as u64,
                    finished: false,
                };
                if has_entry(old(self).entries(), subnet) {
                    &&& entry_at(old(self).entries(), subnet, r as int)
                    &&& final(self).entries() == old(self).entries().update(r as int, fresh)
                } else {
                    &&& r == old(self).entries().len()
                    &&& final(self).entries() == old(self).entries().push(fresh)
                }
            }),
    {
        let hosts = subnet.host_count();
        assert(hosts * num_ports <= MAX_TOTAL) by (nonlinear_arith)
            requires
                hosts <= 0x1_0000_0000,
                num_ports <= 0xffff,
        ;
        let fresh = SubnetProgress { subnet, completed: 0, total: hosts * num_ports, finished: false };
        match self.find(subnet) {
            Some(i) => {
                self.entries.set(i, fresh);
                i
            },
            None => {
                assert forall|j: int| 0 <= j < self.entries@.len() implies self.entries@[j].subnet
                    != subnet by {
                    if self.entries@[j].subnet == subnet {
                        assert(entry_at(self.entries@, subnet, j));
                    }
                }
                self.entries.push(fresh);
                self.entries.len() - 1
            },
        }
    }

    /// Counts one more result of `subnet` and gives the position of its
    /// entry with the new position of its bar; `None`, and no change, for
    /// a subnet that was never registered.
    pub fn update_progress(&mut self, subnet: Subnet) -> (r: Option<(usize, u64)>)
        requires
            old(self).wf(),
        ensures
            final(self).wf(),
            final(self).bar_size() == old(self).bar_size(),
            match r {
                Some((i, position)) => {
                    let e = old(self).entries()[i as int];
                    let e2 = SubnetProgress { completed: counted(e.completed), ..e };
                    &&& entry_at(old(self).entries(), subnet, i as int)
                    &&& final(self).entries() == old(self).entries().update(i as int, e2)
                    &&& position == bar_position(e2.completed, e2.total, old(self).bar_size())
                },
                None => {
                    &&& !has_entry(old(self).entries(), subnet)
                    &&& final(self).entries() == old(self).entries()
                },
            },
    {
        match self.find(subnet) {
            Some(i) => {
                let mut e = self.entries[i];
                if e.completed < u64::MAX {
                    e.completed = e.completed + 1;
                }
                let size = self.progress_bar_size;
                let position: u64 = if e.total == 0 {
                    size
                } else {
                    let done = if e.completed <= e.total {
                        e.completed
                    } else {
                        e.total
                    };
                    assert((done as int) * (size as int) <= (e.total as int) * (size as int))
                        by (nonlinear_arith)
                        requires
                            done <= e.total,
                    ;
                    assert(e.total * size <= MAX_TOTAL * u64::MAX) by (nonlinear_arith)
                        requires
                            e.total <= MAX_TOTAL,
                    ;
                    let p = (done as u128) * (size as u128) / (e.total as u128);
                    assert(p <= size) by (nonlinear_arith)
                        requires
                            p == (done * size) / (e.total as int),
                            done * size <= e.total * size,
                            e.total > 0,
                    ;
                    p as u64
                };
                self.entries.set(i, e);
                Some((i, position))
            },
            None => None,
        }
    }

    /// Marks `subnet` finished, whether or not all its results came, and
    /// gives the position of its entry; `None`, and no change, for a subnet
    /// that was never registered.
    pub fn complete_progress(&mut self, subnet: Subnet) -> (r: Option<usize>)
        requires
            old(self).wf(),
        ensures
            final(self).wf(),
            final(self).bar_size() == old(self).bar_size(),
            match r {
                Some(i) => {
                    let e = old(self).entries()[i as int];
                    &&& entry_at(old(self).entries(), subnet, i as int)
                    &&& final(self).entries() == old(self).entries().update(
                        i as int,
                        SubnetProgress { finished: true, ..e },
                    )
                },
                None => {
                    &&& !has_entry(old(self).entries(), subnet)
                    &&& final(self).entries() == old(self).entries()
                },
            },
    {
        match self.find(subnet) {
            Some(i) => {
                let mut e = self.entries[i];
                e.finished = true;
                self.entries.set(i, e);
                Some(i)
            },
            None => None,
        }
    }

    /// Takes in what the fan-in handed on: a result counts for its subnet,
    /// a closed marker finishes its subnet, and an event of a subnet that
    /// was never registered changes nothing and is reported.
    pub fn on_event(&mut self, event: Emitted) -> (r: ProgressUpdate)
        requires
            old(self).wf(),
        ensures
            final(self).wf(),
            final(self).bar_size() == old(self).bar_size(),
            match r {
                ProgressUpdate::Position { index, position } => {
                    let e = old(self).entries()[index as int];
                    let e2 = SubnetProgress { completed: counted(e.completed), ..e };
                    &&& event.1 is Some
                    &&& entry_at(old(self).entries(), event.0, index as int)
                    &&& final(self).entries() == old(self).entries().update(index as int, e2)
                    &&& position == bar_position(e2.completed, e2.total, old(self).bar_size())
                },
                ProgressUpdate::Finished { index } => {
                    let e = old(self).entries()[index as int];
                    &&& event.1 is None
                    &&& entry_at(old(self).entries(), event.0, index as int)
                    &&& final(self).entries() == old(self).entries().update(
                        index as int,
                        SubnetProgress { finished: true, ..e },
                    )
                },
                ProgressUpdate::Unregistered { subnet } => {
                    &&& subnet == event.0
                    &&& !has_entry(old(self).entries(), event.0)
                    &&& final(self).entries() == old(self).entries()
                },
            },
    {
        let (subnet, result) = event;
        match result {
            Some(_) => match self.update_progress(subnet) {
                Some((index, position)) => ProgressUpdate::Position { index, position },
                None => ProgressUpdate::Unregistered { subnet },
            },
            None => match self.complete_progress(subnet) {
                Some(index) => ProgressUpdate::Finished { index },
                None => ProgressUpdate::Unregistered { subnet },
            },
        }
    }

    /// The entry of `subnet`, if it was registered.
    pub fn progress_of(&self, subnet: Subnet) -> (r: Option<SubnetProgress>)
        ensures
            match r {
                Some(e) => exists|i: int| entry_at(self.entries(), subnet, i) && self.entries()[i] == e,
                None => !has_entry(self.entries(), subnet),
            },
    {
        match self.find(subnet) {
            Some(i) => {
                assert(entry_at(self.entries(), subnet, i as int) && self.entries()[i as int]
                    == self.entries@[i as int]);
                Some(self.entries[i])
            },
            None => None,
        }
    }
}

} // verus!
