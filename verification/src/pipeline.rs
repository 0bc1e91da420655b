//! Bookkeeping for encoding the frames of an animation in parallel.
//!
//! Frames are decoded in order and each is encoded by a job of its own. The
//! pipeline hands out the indices of the jobs, never more than
//! [`MAX_IN_FLIGHT`] at a time, and files each finished frame under the index
//! of its job: however the jobs overtake each other, the frames end up in the
//! order in which they were decoded. It starts no thread itself.

use vstd::prelude::*;
use crate::gif::EncodedFrame;

verus! {

/// The largest number of jobs that are out at the same time.
pub const MAX_IN_FLIGHT: usize = 16;

/// The state of a parallel encode.
pub struct FramePipeline {
    slots: Vec<EncodedFrame>,
    dispatched: usize,
    outstanding: Vec<usize>,
}

fn position_of(list: &Vec<usize>, index: usize) -> (at: Option<usize>)
    ensures
        at matches Some(p) ==> p < list@.len() && list@[p as int] == index,
        at is None ==> !list@.contains(index),
{
    let n: usize = list.len();
    let mut p: usize = 0;
    while p < n
        invariant
            0 <= p <= n == list@.len(),
            forall|q: int| 0 <= q < p ==> list@[q] != index,
        decreases n - p,
    {
        if list[p] == index {
            return Some(p);
        }
        p += 1;
    }
    None
}

impl FramePipeline {
    /// What every pipeline satisfies: no more jobs are out than allowed, each
    /// of them was handed out, and none is listed twice.
    pub closed spec fn wf(self) -> bool {
        &&& self.dispatched <= self.slots@.len()
        &&& self.outstanding@.len() <= MAX_IN_FLIGHT
        &&& forall|p: int|
            0 <= p < self.outstanding@.len() ==> (#[trigger] self.outstanding@[p]) < self.dispatched
        &&& self.outstanding@.no_duplicates()
    }

    /// The number of frames to encode.
    pub open spec fn total(self) -> int {
        self.results().len() as int
    }

    /// The number of jobs handed out so far: the jobs `0` up to, not
    /// including, this number.
    pub closed spec fn dispatched(self) -> int {
        self.dispatched as int
    }

    /// The indices of the jobs that are out.
    pub closed spec fn in_flight(self) -> Seq<usize> {
        self.outstanding@
    }

    /// The results array: under each index the frame that the job of that
    /// index brought, once it has.
    pub closed spec fn results(self) -> Seq<EncodedFrame> {
        self.slots@
    }

    /// Whether the job `index` has brought its frame.
    pub open spec fn is_done(self, index: int) -> bool {
        0 <= index < self.dispatched() && !self.in_flight().contains(index as usize)
    }

    /// Whether every job was handed out and has brought its frame.
    pub open spec fn drained(self) -> bool {
        self.dispatched() == self.total() && self.in_flight().len() == 0
    }

    /// A pipeline for `total` frames; no job is out yet.
    pub fn new(total: usize) -> (pipeline: FramePipeline)
        ensures
            pipeline.wf(),
            pipeline.total() == total,
            pipeline.dispatched() == 0,
            pipeline.in_flight() == Seq::<usize>::empty(),
    {
        let mut slots: Vec<EncodedFrame> = Vec::new();
        let mut i: usize = 0;
        while i < total
            invariant
                0 <= i <= total,
                slots@.len() == i,
            decreases total - i,
        {
            slots.push(EncodedFrame { bytes: Vec::new(), logical_len: 0 });
            i += 1;
        }
        FramePipeline { slots, dispatched: 0, outstanding: Vec::new() }
    }

    /// The number of jobs that are out.
    pub fn jobs_in_flight(&self) -> (n: usize)
        requires
            self.wf(),
        ensures
            n == self.in_flight().len(),
            n <= MAX_IN_FLIGHT,
    {
        self.outstanding.len()
    }

    /// Hands out the next job, if one is left and fewer than
    /// [`MAX_IN_FLIGHT`] are out. Jobs are handed out in the order of the
    /// frames. Where jobs are left but none is handed out, the caller waits
    /// for one to finish.
    pub fn next_job(&mut self) -> (job: Option<usize>)
        requires
            old(self).wf(),
        ensures
            final(self).wf(),
            final(self).total() == old(self).total(),
            final(self).results() == old(self).results(),
            job is Some <==> old(self).dispatched() < old(self).total() && old(self).in_flight().len() < MAX_IN_FLIGHT,
            job matches Some(index) ==> index == old(self).dispatched() && final(self).dispatched()
                == index + 1 && final(self).in_flight() == old(self).in_flight().push(index),
            job is None ==> final(self).dispatched() == old(self).dispatched() && final(self).in_flight() == old(self).in_flight(),
    {
        if self.dispatched < self.slots.len() && self.outstanding.len() < MAX_IN_FLIGHT {
            let index: usize = self.dispatched;
            self.outstanding.push(index);
            self.dispatched = index + 1;
            assert(self.outstanding@.no_duplicates()) by {
                let before = old(self).outstanding@;
                assert forall|p: int, q: int|
                    0 <= p < self.outstanding@.len() && 0 <= q < self.outstanding@.len() && p
                        != q implies self.outstanding@[p] != self.outstanding@[q] by {
                    if p < before.len() {
                        assert(before[p] < index);
                    }
                    if q < before.len() {
                        assert(before[q] < index);
                    }
                }
            }
            Some(index)
        } else {
            None
        }
    }

    /// Files the frame that the job `index` brought. A frame for a job that
    /// is not out is refused and changes nothing.
    pub fn complete(&mut self, index: usize, frame: EncodedFrame) -> (accepted: bool)
        requires
            old(self).wf(),
        ensures
            final(self).wf(),
            final(self).total() == old(self).total(),
            final(self).dispatched() == old(self).dispatched(),
            accepted == old(self).in_flight().contains(index),
            final(self).in_flight() == old(self).in_flight().remove_value(index),
            accepted ==> final(self).results() == old(self).results().update(index as int, frame)
                && final(self).is_done(index as int) && final(self).in_flight().len() + 1 == old(self).in_flight().len(),
            !accepted ==> final(self).results() == old(self).results() && final(self).in_flight()
                == old(self).in_flight(),
            forall|other: int|
                other != index ==> (#[trigger] final(self).is_done(other) <==> old(self).is_done(
                    other,
                )),
    {
        proof {
            self.outstanding@.index_of_first_ensures(index);
        }
        match position_of(&self.outstanding, index) {
            None => false,
            Some(p) => {
                let ghost before = self.outstanding@;
                assert(before.contains(index));
                assert(before.index_of_first(index) == Some(p as int));
                self.outstanding.remove(p);
                self.slots[index] = frame;
                proof {
                    let after = self.outstanding@;
                    assert(after =~= before.remove(p as int));
                    assert(after.no_duplicates()) by {
                        assert forall|a: int, b: int|
                            0 <= a < after.len() && 0 <= b < after.len() && a != b implies after[a]
                            != after[b] by {
                            let a0 = if a < p {
                                a
                            } else {
                                a + 1
                            };
                            let b0 = if b < p {
                                b
                            } else {
                                b + 1
                            };
                            assert(after[a] == before[a0] && after[b] == before[b0]);
                        }
                    }
                    assert(!after.contains(index)) by {
                        if after.contains(index) {
                            let a = choose|a: int| 0 <= a < after.len() && after[a] == index;
                            let a0 = if a < p {
                                a
                            } else {
                                a + 1
                            };
                            assert(before[a0] == index && a0 != p);
                        }
                    }
                    assert forall|other: int| other != index implies (self.is_done(other)
                        <==> old(self).is_done(other)) by {
                        if 0 <= other < self.dispatched {
                            let o = other as usize;
                            if before.contains(o) {
                                let a0 = choose|a0: int| 0 <= a0 < before.len() && before[a0] == o;
                                let a = if a0 < p {
                                    a0
                                } else {
                                    a0 - 1
                                };
                                assert(after[a] == o);
                            }
                            if after.contains(o) {
                                let a = choose|a: int| 0 <= a < after.len() && after[a] == o;
                                let a0 = if a < p {
                                    a
                                } else {
                                    a + 1
                                };
                                assert(before[a0] == o);
                            }
                        }
                    }
                }
                true
            },
        }
    }

    /// Whether every job was handed out and has brought its frame.
    pub fn is_drained(&self) -> (b: bool)
        requires
            self.wf(),
        ensures
            b == self.drained(),
    {
        self.dispatched == self.slots.len() && self.outstanding.len() == 0
    }

    /// The frames in the order of their jobs, once every job has brought
    /// its frame; nothing before that.
    pub fn into_frames(self) -> (frames: Option<Vec<EncodedFrame>>)
        requires
            self.wf(),
        ensures
            frames is Some <==> self.drained(),
            frames matches Some(list) ==> list@ == self.results() && forall|i: int|
                0 <= i < list@.len() ==> self.is_done(i),
    {
        if self.dispatched == self.slots.len() && self.outstanding.len() == 0 {
            Some(self.slots)
        } else {
            None
        }
    }
}

/// The results array after the jobs of `completions` have brought their
/// frames, one after the other: each frame is filed under the index of its
/// job.
pub open spec fn filed(slots: Seq<EncodedFrame>, completions: Seq<(int, EncodedFrame)>) -> Seq<
    EncodedFrame,
>
    decreases completions.len(),
{
    if completions.len() == 0 {
        slots
    } else {
        filed(slots, completions.drop_last()).update(
            completions.last().0,
            completions.last().1,
        )
    }
}

/// The order in which jobs finish does not show in the results. Where every
/// job finishes at most once, the results array keeps its length, and under
/// the index of each finished job stands the frame that this job brought,
/// whichever jobs finished before or after it.
pub proof fn lemma_results_follow_job_order(
    slots: Seq<EncodedFrame>,
    completions: Seq<(int, EncodedFrame)>,
    k: int,
)
    requires
        0 <= k < completions.len(),
        forall|a: int| 0 <= a < completions.len() ==> 0 <= (#[trigger] completions[a]).0 < slots.len(),
        forall|a: int, b: int|
            0 <= a < b < completions.len() ==> (#[trigger] completions[a]).0 != (
            #[trigger] completions[b]).0,
    ensures
        filed(slots, completions).len() == slots.len(),
        filed(slots, completions)[completions[k].0] == completions[k].1,
    decreases completions.len(),
{
    let rest = completions.drop_last();
    assert forall|a: int| 0 <= a < rest.len() implies 0 <= (#[trigger] rest[a]).0
        < slots.len() by {
        assert(rest[a] == completions[a]);
    }
    lemma_filed_keeps_length(slots, rest);
    assert(0 <= completions[completions.len() - 1].0 < slots.len());
    if k < rest.len() {
        assert(rest[k] == completions[k]);
        assert forall|a: int, b: int| 0 <= a < b < rest.len() implies (#[trigger] rest[a]).0 != (
        #[trigger] rest[b]).0 by {
            assert(rest[a] == completions[a]);
            assert(rest[b] == completions[b]);
        }
        lemma_results_follow_job_order(slots, rest, k);
        assert(completions[k].0 != completions[completions.len() - 1].0);
    }
}

proof fn lemma_filed_keeps_length(slots: Seq<EncodedFrame>, completions: Seq<(int, EncodedFrame)>)
    requires
        forall|a: int| 0 <= a < completions.len() ==> 0 <= (#[trigger] completions[a]).0 < slots.len(),
    ensures
        filed(slots, completions).len() == slots.len(),
    decreases completions.len(),
{
    if completions.len() > 0 {
        let rest = completions.drop_last();
        assert forall|a: int| 0 <= a < rest.len() implies 0 <= (#[trigger] rest[a]).0
            < slots.len() by {
            assert(rest[a] == completions[a]);
        }
        lemma_filed_keeps_length(slots, rest);
        assert(0 <= completions[completions.len() - 1].0 < slots.len());
    }
}

} // verus!
