//! A topic: a fixed set of partitions and the rule that picks the target of
//! each publish — a key's hash modulo the partition count, a round-robin
//! counter, or an id the caller names. The hash itself comes from the
//! caller's hasher; the routing arithmetic and the append are verified.
use vstd::prelude::*;
use crate::error::Error;
use crate::message::{Message, message_wf};
use crate::partition::{
    Partition, part_wf, msgs_models, msgs_of, assigned_models, assign_ts,
};

verus! {

/// How a publish picks its partition.
pub enum PartitionSelector {
    /// The hash of the message key; the partition is the hash modulo the
    /// partition count.
    KeyHash(u64),
    /// The next partition in turn.
    RoundRobin,
    /// A partition the caller names.
    PartitionId(u32),
}

/// A topic owning its partitions; the partition count is fixed at creation.
pub struct Topic {
    pub topic_id: u32,
    pub partitions: Vec<Partition>,
    pub round_robin_counter: u32,
}

/// Every partition is well-formed and there is at least one.
pub open spec fn topic_wf(t: Topic) -> bool {
    &&& t.partitions@.len() >= 1
    &&& t.partitions@.len() <= u32::MAX
    &&& forall|i: int| 0 <= i < t.partitions@.len() ==> part_wf(#[trigger] t.partitions@[i])
}

/// One step of the round-robin counter, wrapping at the top.
pub open spec fn wrap_inc(c: u32) -> u32 {
    if c == u32::MAX {
        0u32
    } else {
        (c + 1) as u32
    }
}

/// The partition a selector picks, as an index; the caller-named id is
/// taken as given and checked separately.
pub open spec fn spec_select(sel: PartitionSelector, counter: u32, count: int) -> int {
    match sel {
        PartitionSelector::KeyHash(h) => (h as int) % count,
        PartitionSelector::RoundRobin => (counter as int) % count,
        PartitionSelector::PartitionId(id) => id as int,
    }
}

impl Topic {
    /// A topic with `partition_count` empty partitions.
    pub fn new(topic_id: u32, partition_count: u32, max_segment_size: u64) -> (r: Topic)
        requires
            partition_count >= 1,
        ensures
            topic_wf(r),
            r.topic_id == topic_id,
            r.partitions@.len() == partition_count,
            forall|i: int|
                0 <= i < partition_count ==> (#[trigger] r.partitions@[i]).next_offset == 0,
    {
        let mut partitions: Vec<Partition> = Vec::new();
        let mut i: u32 = 0;
        while i < partition_count
            invariant
                i <= partition_count,
                partitions@.len() == i,
                forall|j: int| 0 <= j < i ==> part_wf(#[trigger] partitions@[j]),
                forall|j: int| 0 <= j < i ==> (#[trigger] partitions@[j]).next_offset == 0,
            decreases partition_count - i,
        {
            partitions.push(Partition::new(i, 0, max_segment_size));
            i = i + 1;
        }
        Topic { topic_id, partitions, round_robin_counter: 0 }
    }

    /// Publish one batch: pick the partition the selector names, append
    /// there, and report the partition and the first assigned offset. Only
    /// the picked partition changes, and the round-robin counter advances
    /// exactly on a round-robin publish.
    pub fn publish(&mut self, sel: PartitionSelector, now: u64, messages: Vec<Message>) -> (r:
        Result<(u32, u64), Error>)
        requires
            topic_wf(*old(self)),
            messages@.len() > 0,
            forall|i: int| 0 <= i < messages@.len() ==> message_wf(#[trigger] messages@[i]),
            0 <= spec_select(
                sel,
                old(self).round_robin_counter,
                old(self).partitions@.len() as int,
            ) < old(self).partitions@.len() ==> old(self).partitions@[spec_select(
                sel,
                old(self).round_robin_counter,
                old(self).partitions@.len() as int,
            )].next_offset + messages@.len() <= u64::MAX,
        ensures
            topic_wf(*final(self)),
            final(self).topic_id == old(self).topic_id,
            final(self).partitions@.len() == old(self).partitions@.len(),
            match r {
                Ok((pid, first)) => {
                    let idx = pid as int;
                    let pre = old(self).partitions@[idx];
                    let post = final(self).partitions@[idx];
                    &&& idx == spec_select(
                        sel,
                        old(self).round_robin_counter,
                        old(self).partitions@.len() as int,
                    )
                    &&& 0 <= idx < old(self).partitions@.len()
                    &&& first == pre.next_offset
                    &&& post.next_offset == pre.next_offset + messages@.len()
                    &&& post.first_offset == pre.first_offset
                    &&& msgs_models(msgs_of(post.segments@)) == msgs_models(
                        msgs_of(pre.segments@),
                    ) + assigned_models(
                        messages@,
                        pre.next_offset,
                        assign_ts(pre.last_timestamp, now),
                    )
                    &&& forall|j: int|
                        0 <= j < old(self).partitions@.len() && j != idx ==> final(self).partitions@[j] == old(self).partitions@[j]
                    &&& final(self).round_robin_counter == (
                    if (sel matches PartitionSelector::RoundRobin) {
                        wrap_inc(old(self).round_robin_counter)
                    } else {
                        old(self).round_robin_counter
                    })
                },
                Err(e) => {
                    &&& e == Error::NotFound
                    &&& sel matches PartitionSelector::PartitionId(id) && id
                        >= old(self).partitions@.len()
                    &&& final(self).partitions@ == old(self).partitions@
                    &&& final(self).round_robin_counter == old(self).round_robin_counter
                },
            },
    {
        let count = self.partitions.len();
        let idx: usize = match sel {
            PartitionSelector::KeyHash(h) => (h % (count as u64)) as usize,
            PartitionSelector::RoundRobin => {
                let idx = (self.round_robin_counter as usize) % count;
                self.round_robin_counter = if self.round_robin_counter == u32::MAX {
                    0
                } else {
                    self.round_robin_counter + 1
                };
                idx
            },
            PartitionSelector::PartitionId(id) => {
                if (id as usize) >= count {
                    return Err(Error::NotFound);
                }
                id as usize
            },
        };
        let ghost before = self.partitions@;
        let mut part = self.partitions.remove(idx);
        let first = match part.append_messages(now, messages) {
            Ok(first) => first,
            Err(_) => {
                proof {
                    assert(false);
                }
                return Err(Error::NotFound);
            },
        };
        self.partitions.insert(idx, part);
        proof {
            assert forall|j: int|
                0 <= j < before.len() && j != idx implies self.partitions@[j] == before[j] by {}
            assert forall|j: int| 0 <= j < self.partitions@.len() implies part_wf(
                #[trigger] self.partitions@[j],
            ) by {
                if j != idx {
                    assert(self.partitions@[j] == before[j]);
                }
            }
        }
        Ok((idx as u32, first))
    }
}

} // verus!
