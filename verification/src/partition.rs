//! A partition: the unit of ordering and storage. An ordered run of
//! segments, each owning a contiguous offset range; appends assign monotonic
//! offsets and broker timestamps, roll the active segment on size, and reads
//! return a window of the stored messages by offset. Retention removes
//! fully-elapsed closed segments from the front.
use vstd::prelude::*;
use crate::error::Error;
use crate::message::{Message, message_model, message_size, message_wf};

verus! {

/// One segment: a contiguous offset range of messages starting at
/// `base_offset`. Closed segments take no further appends.
pub struct Segment {
    pub base_offset: u64,
    pub messages: Vec<Message>,
    pub size_bytes: u64,
    pub end_timestamp: u64,
    pub closed: bool,
}

impl Segment {
    /// Seal the segment: no further appends land here. Idempotent; nothing
    /// but the flag changes.
    pub fn close(&mut self)
        ensures
            final(self).closed,
            final(self).base_offset == old(self).base_offset,
            final(self).messages == old(self).messages,
            final(self).size_bytes == old(self).size_bytes,
            final(self).end_timestamp == old(self).end_timestamp,
    {
        self.closed = true;
    }
}

/// The plain-value content of a run of messages.
pub open spec fn msgs_models(ms: Seq<Message>) -> Seq<(u64, u8, u64, u128, u32, Seq<u8>, Seq<u8>)> {
    ms.map_values(|m: Message| message_model(m))
}

/// u64 addition saturating at the top.
pub open spec fn sat_add(a: u64, b: u64) -> u64 {
    if a + b > u64::MAX {
        u64::MAX
    } else {
        (a + b) as u64
    }
}

/// u64 addition saturating at the top.
pub fn sat_add_u64(a: u64, b: u64) -> (r: u64)
    ensures
        r == sat_add(a, b),
{
    if a > u64::MAX - b {
        u64::MAX
    } else {
        a + b
    }
}

/// The accounted size of a run of messages, in bytes, saturating.
pub open spec fn seg_size_of(ms: Seq<Message>) -> u64
    decreases ms.len(),
{
    if ms.len() == 0 {
        0u64
    } else {
        sat_add(seg_size_of(ms.drop_last()), message_size(ms.last()) as u64)
    }
}

/// All messages of a run of segments, in storage order.
pub open spec fn msgs_of(segs: Seq<Segment>) -> Seq<Message>
    decreases segs.len(),
{
    if segs.len() == 0 {
        Seq::<Message>::empty()
    } else {
        msgs_of(segs.drop_last()) + segs.last().messages@
    }
}

/// Segment offset ranges chain: each segment starts where the previous ends.
pub open spec fn segs_chained(segs: Seq<Segment>) -> bool {
    forall|i: int|
        1 <= i < segs.len() ==> (#[trigger] segs[i]).base_offset == segs[i - 1].base_offset
            + segs[i - 1].messages@.len()
}

/// A well-formed partition: at least one segment, only the last one open,
/// closed segments non-empty, ranges chained from `first_offset` to
/// `next_offset`, every stored message at the offset its position dictates,
/// and per-segment size and timestamp bookkeeping accurate.
pub open spec fn part_wf(p: Partition) -> bool {
    let segs = p.segments@;
    &&& segs.len() >= 1
    &&& !segs.last().closed
    &&& forall|i: int| 0 <= i < segs.len() - 1 ==> (#[trigger] segs[i]).closed
    &&& forall|i: int| 0 <= i < segs.len() - 1 ==> (#[trigger] segs[i]).messages@.len() > 0
    &&& segs[0].base_offset == p.first_offset
    &&& segs_chained(segs)
    &&& p.next_offset == segs.last().base_offset + segs.last().messages@.len()
    &&& forall|i: int, j: int|
        0 <= i < segs.len() && 0 <= j < (#[trigger] segs[i]).messages@.len()
            ==> (#[trigger] segs[i].messages@[j]).offset == segs[i].base_offset + j
    &&& forall|i: int|
        0 <= i < segs.len() ==> (#[trigger] segs[i]).size_bytes == seg_size_of(segs[i].messages@)
    &&& forall|i: int|
        0 <= i < segs.len() && segs[i].messages@.len() > 0 ==> (#[trigger] segs[i]).end_timestamp
            == segs[i].messages@.last().timestamp
}

/// The ordered store of one partition.
pub struct Partition {
    pub partition_id: u32,
    pub segments: Vec<Segment>,
    pub first_offset: u64,
    pub next_offset: u64,
    pub last_timestamp: u64,
    pub max_segment_size: u64,
    pub consumer_offsets: Vec<(u32, u64)>,
}

/// Where a poll for this consumer starts: its stored offset, or the
/// partition's first offset when none is stored.
pub open spec fn poll_from(p: Partition, consumer_id: u32) -> u64 {
    match consumer_offset_of(p.consumer_offsets@, consumer_id) {
        Option::Some(off) => off,
        Option::None => p.first_offset,
    }
}

/// The timestamp an append stamps: the broker clock, unless it regressed,
/// in which case the last emitted value is reused.
pub open spec fn assign_ts(last: u64, now: u64) -> u64 {
    if now > last {
        now
    } else {
        last
    }
}

/// The content an append adds: the given messages, re-stamped with
/// consecutive offsets from `base` and the timestamp `ts`.
pub open spec fn assigned_models(ms: Seq<Message>, base: u64, ts: u64) -> Seq<
    (u64, u8, u64, u128, u32, Seq<u8>, Seq<u8>),
> {
    Seq::new(
        ms.len(),
        |i: int| ((base + i) as u64, ms[i].state, ts, ms[i].id, ms[i].checksum, ms[i].headers@, ms[i].payload@),
    )
}

/// The size test an append applies before writing: the active segment is
/// non-empty and its accounted size plus the incoming batch's would pass
/// the partition's cap; the active segment is then sealed and a fresh one
/// opened at `next_offset`.
pub open spec fn spec_rolls(p: Partition, ms: Seq<Message>) -> bool {
    &&& p.segments@.last().messages@.len() > 0
    &&& sat_add(p.segments@.last().size_bytes, seg_size_of(ms)) > p.max_segment_size
}

/// Appending a segment to a run appends its messages to the run's.
pub proof fn lemma_msgs_of_push(segs: Seq<Segment>, s: Segment)
    ensures
        msgs_of(segs.push(s)) == msgs_of(segs) + s.messages@,
{
    assert(segs.push(s).drop_last() =~= segs);
    assert(segs.push(s).last() == s);
}

/// The model map distributes over push.
pub proof fn lemma_models_push(ms: Seq<Message>, m: Message)
    ensures
        msgs_models(ms.push(m)) == msgs_models(ms).push(message_model(m)),
{
    assert(msgs_models(ms.push(m)) =~= msgs_models(ms).push(message_model(m)));
}

/// The model map distributes over concatenation.
pub proof fn lemma_models_concat(a: Seq<Message>, b: Seq<Message>)
    ensures
        msgs_models(a + b) == msgs_models(a) + msgs_models(b),
{
    assert(msgs_models(a + b) =~= msgs_models(a) + msgs_models(b));
}

/// A chained run holds exactly the offsets between its first segment's base
/// and the end of its last.
pub proof fn lemma_chain_len(segs: Seq<Segment>)
    requires
        segs.len() >= 1,
        segs_chained(segs),
    ensures
        msgs_of(segs).len() == segs.last().base_offset + segs.last().messages@.len()
            - segs[0].base_offset,
    decreases segs.len(),
{
    if segs.len() > 1 {
        assert(segs_chained(segs.drop_last()));
        lemma_chain_len(segs.drop_last());
        assert(segs.drop_last().last() == segs[segs.len() - 2]);
    } else {
        assert(segs.drop_last().len() == 0);
        assert(msgs_of(segs.drop_last()).len() == 0);
        assert(msgs_of(segs).len() == segs.last().messages@.len());
    }
}

/// In a chained, offset-correct run, the message at position `t` carries
/// offset `base of the first segment + t`.
pub proof fn lemma_offset_at(segs: Seq<Segment>, t: int)
    requires
        segs.len() >= 1,
        segs_chained(segs),
        forall|i: int, j: int|
            0 <= i < segs.len() && 0 <= j < (#[trigger] segs[i]).messages@.len()
                ==> (#[trigger] segs[i].messages@[j]).offset == segs[i].base_offset + j,
        0 <= t < msgs_of(segs).len(),
    ensures
        msgs_of(segs)[t].offset == segs[0].base_offset + t,
    decreases segs.len(),
{
    if segs.len() == 1 {
        assert(segs.drop_last().len() == 0);
        assert(msgs_of(segs.drop_last()).len() == 0);
        assert(msgs_of(segs) =~= segs[0].messages@);
    } else {
        let pre = segs.drop_last();
        assert(segs_chained(pre));
        lemma_chain_len(pre);
        assert(pre.last() == segs[segs.len() - 2]);
        if t < msgs_of(pre).len() {
            lemma_offset_at(pre, t);
        } else {
            assert(msgs_of(segs)[t] == segs.last().messages@[t - msgs_of(pre).len()]);
        }
    }
}

/// Earlier segments end no later than later ones begin.
pub proof fn lemma_base_le(segs: Seq<Segment>, i: int, j: int)
    requires
        segs_chained(segs),
        0 <= i < j < segs.len(),
    ensures
        segs[i].base_offset + segs[i].messages@.len() <= segs[j].base_offset,
    decreases j - i,
{
    if j > i + 1 {
        lemma_base_le(segs, i, j - 1);
    }
}

/// Where closed segments are non-empty, bases strictly increase.
pub proof fn lemma_base_lt(segs: Seq<Segment>, i: int, j: int)
    requires
        segs_chained(segs),
        forall|k: int| 0 <= k < segs.len() - 1 ==> (#[trigger] segs[k]).messages@.len() > 0,
        0 <= i < j < segs.len(),
    ensures
        segs[i].base_offset < segs[j].base_offset,
    decreases j - i,
{
    if j > i + 1 {
        lemma_base_lt(segs, i, j - 1);
    }
}


/// Stamp each message with consecutive offsets from `first` and the
/// timestamp `ts`, and append the run to the open segment.
fn fill_segment(seg: &mut Segment, msgs: Vec<Message>, first: u64, ts: u64)
    requires
        first == old(seg).base_offset + old(seg).messages@.len(),
        first + msgs@.len() <= u64::MAX,
        forall|i: int| 0 <= i < msgs@.len() ==> message_wf(#[trigger] msgs@[i]),
        forall|j: int|
            0 <= j < old(seg).messages@.len() ==> (#[trigger] old(seg).messages@[j]).offset == old(seg).base_offset + j,
        old(seg).size_bytes == seg_size_of(old(seg).messages@),
        old(seg).messages@.len() > 0 ==> old(seg).end_timestamp == old(seg).messages@.last().timestamp,
    ensures
        final(seg).base_offset == old(seg).base_offset,
        final(seg).closed == old(seg).closed,
        final(seg).messages@.len() == old(seg).messages@.len() + msgs@.len(),
        msgs_models(final(seg).messages@) == msgs_models(old(seg).messages@) + assigned_models(
            msgs@,
            first,
            ts,
        ),
        forall|j: int|
            0 <= j < final(seg).messages@.len() ==> (#[trigger] final(seg).messages@[j]).offset
                == final(seg).base_offset + j,
        final(seg).size_bytes == seg_size_of(final(seg).messages@),
        final(seg).messages@.len() > 0 ==> final(seg).end_timestamp == final(seg).messages@.last().timestamp,
        old(seg).messages@.len() + msgs@.len() > 0 ==> final(seg).end_timestamp == final(seg).messages@.last().timestamp,
{
    let ghost seg_in = *seg;
    let ghost orig = msgs@;
    let total = msgs.len();
    let mut msgs = msgs;
    let mut k: usize = 0;
    while msgs.len() > 0
        invariant
            k + msgs@.len() == total,
            total == orig.len(),
            msgs@ =~= orig.skip(k as int),
            first == seg_in.base_offset + seg_in.messages@.len(),
            first + orig.len() <= u64::MAX,
            forall|i: int| 0 <= i < orig.len() ==> message_wf(#[trigger] orig[i]),
            seg.base_offset == seg_in.base_offset,
            seg.closed == seg_in.closed,
            seg.messages@.len() == seg_in.messages@.len() + k,
            msgs_models(seg.messages@) =~= msgs_models(seg_in.messages@) + assigned_models(
                orig,
                first,
                ts,
            ).take(k as int),
            forall|j: int|
                0 <= j < seg.messages@.len() ==> (#[trigger] seg.messages@[j]).offset
                    == seg.base_offset + j,
            seg.size_bytes == seg_size_of(seg.messages@),
            seg.messages@.len() > 0 ==> seg.end_timestamp == seg.messages@.last().timestamp,
            seg_in.messages@.len() > 0 ==> seg.end_timestamp == seg.messages@.last().timestamp,
        decreases msgs@.len(),
    {
        let ghost seg_prev = *seg;
        let mut m = msgs.remove(0);
        proof {
            assert(m == orig[k as int]);
            assert(message_wf(m));
        }
        m.offset = first + k as u64;
        m.timestamp = ts;
        proof {
            assert(message_wf(m));
        }
        seg.size_bytes = sat_add_u64(seg.size_bytes, (&m).size_bytes() as u64);
        seg.end_timestamp = m.timestamp;
        let ghost m_final = m;
        seg.messages.push(m);
        k = k + 1;
        proof {
            assert(seg.messages@ == seg_prev.messages@.push(m_final));
            assert(seg.messages@.drop_last() =~= seg_prev.messages@);
            assert(msgs_models(seg.messages@) =~= msgs_models(seg_prev.messages@).push(
                message_model(m_final),
            ));
            assert(assigned_models(orig, first, ts).take(k as int) =~= assigned_models(
                orig,
                first,
                ts,
            ).take(k as int - 1).push(assigned_models(orig, first, ts)[k as int - 1]));
            assert(msgs_models(seg.messages@) =~= msgs_models(seg_in.messages@)
                + assigned_models(orig, first, ts).take(k as int));
        }
    }
    proof {
        assert(assigned_models(orig, first, ts).take(total as int) =~= assigned_models(
            orig,
            first,
            ts,
        ));
    }
}

impl Partition {
    /// An empty partition starting at `start_offset`, with one open segment.
    pub fn new(partition_id: u32, start_offset: u64, max_segment_size: u64) -> (r: Partition)
        ensures
            part_wf(r),
            r.partition_id == partition_id,
            r.first_offset == start_offset,
            r.next_offset == start_offset,
            r.max_segment_size == max_segment_size,
            r.last_timestamp == 0,
            r.consumer_offsets@.len() == 0,
            msgs_of(r.segments@).len() == 0,
    {
        let seg = Segment {
            base_offset: start_offset,
            messages: Vec::new(),
            size_bytes: 0,
            end_timestamp: 0,
            closed: false,
        };
        let mut segments: Vec<Segment> = Vec::new();
        segments.push(seg);
        let r = Partition {
            partition_id,
            segments,
            first_offset: start_offset,
            next_offset: start_offset,
            last_timestamp: 0,
            max_segment_size,
            consumer_offsets: Vec::new(),
        };
        proof {
            assert(r.segments@.drop_last().len() == 0);
            assert(msgs_of(r.segments@.drop_last()).len() == 0);
            assert(msgs_of(r.segments@) =~= r.segments@[0].messages@);
        }
        r
    }

    /// Append a run of messages as one batch: offsets
    /// `[next_offset, next_offset + N)` and the broker timestamp are
    /// assigned, the active segment is rolled first if the batch would
    /// overflow it, and `next_offset` advances by N. An empty run is
    /// rejected and changes nothing.
    #[verifier::loop_isolation(false)]
    #[verifier::rlimit(100)]
    pub fn append_messages(&mut self, now: u64, messages: Vec<Message>) -> (r: Result<u64, Error>)
        requires
            part_wf(*old(self)),
            old(self).next_offset + messages@.len() <= u64::MAX,
            forall|i: int| 0 <= i < messages@.len() ==> message_wf(#[trigger] messages@[i]),
        ensures
            match r {
                Ok(first) => {
                    &&& first == old(self).next_offset
                    &&& part_wf(*final(self))
                    &&& final(self).partition_id == old(self).partition_id
                    &&& final(self).max_segment_size == old(self).max_segment_size
                    &&& final(self).first_offset == old(self).first_offset
                    &&& final(self).next_offset == old(self).next_offset + messages@.len()
                    &&& final(self).last_timestamp == assign_ts(old(self).last_timestamp, now)
                    &&& msgs_models(msgs_of(final(self).segments@)) == msgs_models(
                        msgs_of(old(self).segments@),
                    ) + assigned_models(
                        messages@,
                        old(self).next_offset,
                        assign_ts(old(self).last_timestamp, now),
                    )
                    &&& final(self).segments@.len() == old(self).segments@.len() + (
                    if spec_rolls(*old(self), messages@) {
                        1int
                    } else {
                        0int
                    })
                    &&& forall|j: int|
                        0 <= j < old(self).segments@.len() - 1 ==> final(self).segments@[j] == old(
                            self,
                        ).segments@[j]
                    &&& spec_rolls(*old(self), messages@) ==> {
                        &&& final(self).segments@[old(self).segments@.len() - 1].closed
                        &&& final(self).segments@[old(self).segments@.len() - 1].messages == old(
                            self,
                        ).segments@.last().messages
                        &&& final(self).segments@.last().base_offset == old(self).next_offset
                        &&& final(self).segments@.last().messages@.len() == messages@.len()
                    }
                    &&& !spec_rolls(*old(self), messages@)
                        ==> final(self).segments@.last().messages@.len() == old(
                        self,
                    ).segments@.last().messages@.len() + messages@.len()
                },
                Err(e) => {
                    &&& e == Error::InvalidArgument
                    &&& messages@.len() == 0
                    &&& *final(self) == *old(self)
                },
            },
    {
        if messages.len() == 0 {
            return Err(Error::InvalidArgument);
        }
        let ts = if now > self.last_timestamp {
            now
        } else {
            self.last_timestamp
        };
        self.last_timestamp = ts;

        let mut batch_size: u64 = 0;
        let mut i: usize = 0;
        while i < messages.len()
            invariant
                i <= messages@.len(),
                batch_size == seg_size_of(messages@.take(i as int)),
            decreases messages@.len() - i,
        {
            batch_size = sat_add_u64(batch_size, (&messages[i]).size_bytes() as u64);
            i = i + 1;
            proof {
                assert(messages@.take(i as int).drop_last() =~= messages@.take(i as int - 1));
                assert(messages@.take(i as int).last() == messages@[i as int - 1]);
            }
        }
        proof {
            assert(messages@.take(messages@.len() as int) =~= messages@);
            assert(batch_size == seg_size_of(messages@));
        }

        let n = self.segments.len();
        let need_roll = {
            let active = &self.segments[n - 1];
            active.messages.len() > 0 && sat_add_u64(active.size_bytes, batch_size)
                > self.max_segment_size
        };
        if need_roll {
            let mut active = self.segments.pop().unwrap();
            active.close();
            let ghost closed_seg = active;
            self.segments.push(active);
            let fresh = Segment {
                base_offset: self.next_offset,
                messages: Vec::new(),
                size_bytes: 0,
                end_timestamp: ts,
                closed: false,
            };
            self.segments.push(fresh);
            proof {
                let segs0 = old(self).segments@;
                let rolled = segs0.drop_last().push(closed_seg).push(fresh);
                assert(self.segments@ =~= rolled);
                lemma_msgs_of_push(segs0.drop_last().push(closed_seg), fresh);
                lemma_msgs_of_push(segs0.drop_last(), closed_seg);
                assert(msgs_of(self.segments@) =~= msgs_of(segs0));
                assert(segs_chained(self.segments@));
                assert(self.segments@.len() == segs0.len() + 1);
                assert(forall|j: int| 0 <= j < segs0.len() - 1 ==> self.segments@[j] == segs0[j]);
                assert(self.segments@[segs0.len() - 1].closed);
                assert(self.segments@[segs0.len() - 1].messages == segs0.last().messages);
                assert(self.segments@.last().base_offset == old(self).next_offset);
                assert(self.segments@.last().messages@.len() == 0);
            }
        }
        let ghost rolls = spec_rolls(*old(self), messages@);
        proof {
            assert(need_roll == rolls);
        }
        let ghost segs_r = self.segments@;
        proof {
            assert(msgs_of(segs_r) =~= msgs_of(old(self).segments@));
            assert(!segs_r.last().closed);
            assert(segs_r.last().messages@.len() == 0 || need_roll == false);
            assert(self.next_offset == segs_r.last().base_offset + segs_r.last().messages@.len());
        }

        let first = self.next_offset;
        let total = messages.len();
        let mut seg = self.segments.pop().unwrap();
        let ghost pref = self.segments@;
        let ghost seg_in = seg;
        let ghost orig = messages@;
        fill_segment(&mut seg, messages, first, ts);
        self.segments.push(seg);
        self.next_offset = first + total as u64;
        let ghost seg_out = seg;
        proof {
            assert(self.segments@ =~= pref.push(seg_out));
            lemma_msgs_of_push(pref, seg_out);
            lemma_msgs_of_push(pref, seg_in);
            assert(segs_r =~= pref.push(seg_in));
            assert(msgs_of(segs_r) =~= msgs_of(pref) + seg_in.messages@);
            assert(msgs_models(msgs_of(pref) + seg_in.messages@) =~= msgs_models(msgs_of(pref))
                + msgs_models(seg_in.messages@));
            assert(msgs_models(msgs_of(self.segments@)) =~= msgs_models(msgs_of(pref))
                + msgs_models(seg_out.messages@));
            assert(msgs_models(msgs_of(old(self).segments@)) =~= msgs_models(msgs_of(pref))
                + msgs_models(seg_in.messages@));
            assert(msgs_models(msgs_of(self.segments@)) =~= msgs_models(
                msgs_of(old(self).segments@),
            ) + assigned_models(orig, first, ts));
            assert(part_wf(*self));
            assert(pref =~= segs_r.drop_last());
            assert(seg_in == segs_r.last());
            assert(self.segments@.len() == segs_r.len());
            if !rolls {
                assert(segs_r == old(self).segments@);
            }
            assert forall|j: int|
                0 <= j < old(self).segments@.len() - 1 implies self.segments@[j] == old(
                self,
            ).segments@[j] by {
                assert(self.segments@[j] == pref[j]);
                assert(pref[j] == segs_r[j]);
            }
            assert(seg_out.messages@.len() == seg_in.messages@.len() + orig.len());
            if rolls {
                assert(self.segments@[old(self).segments@.len() - 1] == segs_r[old(
                    self,
                ).segments@.len() - 1]);
            }
        }
        Ok(first)
    }
}


/// The window a read returns: the stored content from `from` on, clamped to
/// the stored range, at most `count` messages.
pub open spec fn read_window(p: Partition, from: u64, count: u64) -> Seq<
    (u64, u8, u64, u128, u32, Seq<u8>, Seq<u8>),
> {
    let all = msgs_models(msgs_of(p.segments@));
    let lo = if from - p.first_offset > all.len() {
        all.len() as int
    } else {
        from - p.first_offset
    };
    let hi = if lo + count > all.len() {
        all.len() as int
    } else {
        lo + count
    };
    all.subrange(lo, hi)
}

/// The head segment is eligible for retention: closed, fully elapsed, and
/// not the active segment.
pub open spec fn spec_head_expirable(p: Partition, now: u64, retention: u64) -> bool {
    &&& p.segments@.len() > 1
    &&& p.segments@[0].closed
    &&& p.segments@[0].end_timestamp + retention < now
}

impl Partition {
    /// Every stored message, in offset order.
    #[verifier::loop_isolation(false)]
    pub fn all_messages(&self) -> (r: Vec<Message>)
        ensures
            msgs_models(r@) == msgs_models(msgs_of(self.segments@)),
    {
        let mut all: Vec<Message> = Vec::new();
        let mut i: usize = 0;
        while i < self.segments.len()
            invariant
                i <= self.segments@.len(),
                msgs_models(all@) =~= msgs_models(msgs_of(self.segments@.take(i as int))),
            decreases self.segments@.len() - i,
        {
            let mut j: usize = 0;
            while j < self.segments[i].messages.len()
                invariant
                    i < self.segments@.len(),
                    j <= self.segments@[i as int].messages@.len(),
                    msgs_models(all@) =~= msgs_models(
                        msgs_of(self.segments@.take(i as int)) + self.segments@[i as int].messages@.take(
                            j as int,
                        ),
                    ),
                decreases self.segments@[i as int].messages@.len() - j,
            {
                let ghost prev_all = all@;
                let m = self.segments[i].messages[j].duplicate();
                let ghost mg = m;
                all.push(m);
                j = j + 1;
                proof {
                    let segmsgs = self.segments@[i as int].messages@;
                    lemma_models_push(prev_all, mg);
                    assert(message_model(mg) == message_model(segmsgs[j as int - 1]));
                    assert(segmsgs.take(j as int) =~= segmsgs.take(j as int - 1).push(
                        segmsgs[j as int - 1],
                    ));
                    let x = msgs_of(self.segments@.take(i as int));
                    lemma_models_concat(x, segmsgs.take(j as int - 1));
                    lemma_models_concat(x, segmsgs.take(j as int));
                    lemma_models_push(segmsgs.take(j as int - 1), segmsgs[j as int - 1]);
                    assert(msgs_models(segmsgs.take(j as int)) =~= msgs_models(
                        segmsgs.take(j as int - 1),
                    ).push(message_model(segmsgs[j as int - 1])));
                    assert(msgs_models(all@) =~= msgs_models(
                        msgs_of(self.segments@.take(i as int)) + segmsgs.take(j as int),
                    ));
                }
            }
            i = i + 1;
            proof {
                assert(self.segments@.take(i as int) =~= self.segments@.take(i as int - 1).push(
                    self.segments@[i as int - 1],
                ));
                lemma_msgs_of_push(self.segments@.take(i as int - 1), self.segments@[i as int - 1]);
                assert(self.segments@[i as int - 1].messages@.take(
                    self.segments@[i as int - 1].messages@.len() as int,
                ) =~= self.segments@[i as int - 1].messages@);
                assert(msgs_models(all@) =~= msgs_models(msgs_of(self.segments@.take(i as int))));
            }
        }
        proof {
            assert(self.segments@.take(self.segments@.len() as int) =~= self.segments@);
        }
        all
    }

    /// Read up to `count` messages starting at `from_offset`. An offset
    /// before the partition's first is gone (retention removed it) and is
    /// out of range; from any other offset the read returns the stored
    /// window, empty when `from_offset` is at or past the end.
    #[verifier::loop_isolation(false)]
    pub fn read(&self, from_offset: u64, count: u64) -> (r: Result<Vec<Message>, Error>)
        requires
            part_wf(*self),
        ensures
            match r {
                Ok(v) => from_offset >= self.first_offset && msgs_models(v@) == read_window(
                    *self,
                    from_offset,
                    count,
                ),
                Err(e) => e == Error::OffsetOutOfRange && from_offset < self.first_offset,
            },
    {
        if from_offset < self.first_offset {
            return Err(Error::OffsetOutOfRange);
        }
        let all = self.all_messages();
        let len = all.len();
        let lo64 = from_offset - self.first_offset;
        let lo: usize = if lo64 > len as u64 {
            len
        } else {
            lo64 as usize
        };
        let remaining = len - lo;
        let cnt: usize = if count > remaining as u64 {
            remaining
        } else {
            count as usize
        };
        let hi = lo + cnt;
        let mut out: Vec<Message> = Vec::new();
        let mut t: usize = lo;
        while t < hi
            invariant
                lo <= t <= hi <= all@.len(),
                msgs_models(out@) =~= msgs_models(all@).subrange(lo as int, t as int),
            decreases hi - t,
        {
            let m = all[t].duplicate();
            out.push(m);
            t = t + 1;
            proof {
                assert(msgs_models(out@) =~= msgs_models(all@).subrange(lo as int, t as int));
            }
        }
        proof {
            let allm = msgs_models(msgs_of(self.segments@));
            assert(msgs_models(all@) == allm);
            assert(allm.len() == all@.len());
            assert(msgs_models(out@) =~= read_window(*self, from_offset, count));
        }
        Ok(out)
    }

    /// Whether the head segment should be removed by retention now.
    pub fn should_expire_head(&self, now: u64, retention: u64) -> (r: bool)
        ensures
            r == spec_head_expirable(*self, now, retention),
    {
        if self.segments.len() <= 1 {
            return false;
        }
        let s0 = &self.segments[0];
        s0.closed && now > retention && s0.end_timestamp < now - retention
    }

    /// Remove the head segment; the partition then starts at the second
    /// segment's base.
    #[verifier::rlimit(60)]
    fn drop_head(&mut self)
        requires
            part_wf(*old(self)),
            old(self).segments@.len() >= 2,
        ensures
            part_wf(*final(self)),
            final(self).partition_id == old(self).partition_id,
            final(self).max_segment_size == old(self).max_segment_size,
            final(self).last_timestamp == old(self).last_timestamp,
            final(self).next_offset == old(self).next_offset,
            final(self).segments@ == old(self).segments@.skip(1),
            final(self).first_offset == final(self).segments@[0].base_offset,
    {
        let ghost cur = *self;
        let removed = self.segments.remove(0);
        proof {
            assert(cur.segments@[1].base_offset == cur.segments@[0].base_offset
                + cur.segments@[0].messages@.len());
        }
        self.first_offset = self.first_offset + removed.messages.len() as u64;
        proof {
            assert(self.segments@ =~= cur.segments@.skip(1));
            assert(segs_chained(self.segments@));
            assert(part_wf(*self));
        }
    }

    /// Remove fully-elapsed closed segments from the front, oldest first,
    /// until none is eligible: at exit the head segment is not expirable.
    /// The active segment is never removed, surviving segments are
    /// untouched, `next_offset` keeps its value, and `first_offset` moves to
    /// the first surviving segment's base.
    #[verifier::loop_isolation(false)]
    pub fn expire_segments(&mut self, now: u64, retention: u64)
        requires
            part_wf(*old(self)),
        ensures
            part_wf(*final(self)),
            final(self).partition_id == old(self).partition_id,
            final(self).max_segment_size == old(self).max_segment_size,
            final(self).last_timestamp == old(self).last_timestamp,
            final(self).next_offset == old(self).next_offset,
            final(self).segments@.len() >= 1,
            final(self).segments@.len() <= old(self).segments@.len(),
            !spec_head_expirable(*final(self), now, retention),
            final(self).segments@ == old(self).segments@.skip(
                old(self).segments@.len() - final(self).segments@.len(),
            ),
            final(self).first_offset == final(self).segments@[0].base_offset,
            forall|i: int|
                0 <= i < old(self).segments@.len() - final(self).segments@.len()
                    ==> (#[trigger] old(self).segments@[i]).closed && old(self).segments@[i].end_timestamp
                    + retention < now,
    {
        while self.should_expire_head(now, retention)
            invariant
                part_wf(*self),
                self.partition_id == old(self).partition_id,
                self.max_segment_size == old(self).max_segment_size,
                self.last_timestamp == old(self).last_timestamp,
                self.next_offset == old(self).next_offset,
                self.segments@.len() >= 1,
                self.segments@.len() <= old(self).segments@.len(),
                self.segments@ =~= old(self).segments@.skip(
                    old(self).segments@.len() - self.segments@.len(),
                ),
                self.first_offset == self.segments@[0].base_offset,
                forall|i: int|
                    0 <= i < old(self).segments@.len() - self.segments@.len()
                        ==> (#[trigger] old(self).segments@[i]).closed && old(
                        self,
                    ).segments@[i].end_timestamp + retention < now,
            decreases self.segments@.len(),
        {
            let ghost cur = *self;
            let ghost orig = old(self).segments@;
            let ghost k: int = orig.len() - cur.segments@.len();
            self.drop_head();
            proof {
                assert(cur.segments@.len() >= 2);
                assert(orig.len() == k + cur.segments@.len());
                assert(self.segments@ == cur.segments@.skip(1));
                assert forall|t: int| 0 <= t < self.segments@.len() implies self.segments@[t]
                    == orig.skip(k + 1)[t] by {
                    assert(cur.segments@.skip(1)[t] == cur.segments@[t + 1]);
                    assert(cur.segments@[t + 1] == orig.skip(k)[t + 1]);
                    assert(orig.skip(k)[t + 1] == orig[t + 1 + k]);
                    assert(orig.skip(k + 1)[t] == orig[t + k + 1]);
                }
                assert(self.segments@.len() == orig.skip(k + 1).len());
                assert(self.segments@ =~= orig.skip(k + 1));
                assert(cur.segments@[0] == orig[k]);
                assert(orig[k].closed && orig[k].end_timestamp + retention < now);
            }
        }
    }
}

/// Retention monotonicity: every segment removed by expiry began strictly
/// before every surviving segment of the same partition.
pub proof fn lemma_retention_monotonic(pre: Partition, post: Partition)
    requires
        part_wf(pre),
        post.segments@.len() >= 1,
        post.segments@.len() <= pre.segments@.len(),
        post.segments@ == pre.segments@.skip(pre.segments@.len() - post.segments@.len()),
    ensures
        forall|i: int, j: int|
            0 <= i < pre.segments@.len() - post.segments@.len() && 0 <= j < post.segments@.len()
                ==> (#[trigger] pre.segments@[i]).base_offset < (#[trigger] post.segments@[j]).base_offset,
{
    let k = pre.segments@.len() - post.segments@.len();
    assert forall|i: int, j: int|
        0 <= i < k && 0 <= j < post.segments@.len() implies (#[trigger] pre.segments@[i]).base_offset
        < (#[trigger] post.segments@[j]).base_offset by {
        assert(post.segments@[j] == pre.segments@[j + k]);
        lemma_base_lt(pre.segments@, i, j + k);
    }
}

/// The segment's range covers the offset.
pub open spec fn seg_covers(s: Segment, off: int) -> bool {
    s.base_offset <= off < s.base_offset + s.messages@.len()
}

/// The offset lies in the partition's stored range.
pub open spec fn in_stored_range(p: Partition, off: int) -> bool {
    p.first_offset <= off < p.next_offset
}

/// Some segment's range covers each stored offset.
pub proof fn lemma_find_cover(segs: Seq<Segment>, off: int)
    requires
        segs.len() >= 1,
        segs_chained(segs),
        segs[0].base_offset <= off < segs.last().base_offset + segs.last().messages@.len(),
    ensures
        exists|i: int| 0 <= i < segs.len() && #[trigger] seg_covers(segs[i], off),
    decreases segs.len(),
{
    if off >= segs.last().base_offset {
        assert(segs.last() == segs[segs.len() - 1]);
        assert(seg_covers(segs[segs.len() - 1], off));
    } else {
        let pre = segs.drop_last();
        assert(segs.len() > 1);
        assert(segs_chained(pre));
        assert(pre.last() == segs[segs.len() - 2]);
        assert(pre.last().base_offset + pre.last().messages@.len() == segs.last().base_offset);
        lemma_find_cover(pre, off);
        let i = choose|i: int| 0 <= i < pre.len() && #[trigger] seg_covers(pre[i], off);
        assert(segs[i] == pre[i]);
        assert(seg_covers(segs[i], off));
    }
}

/// The union of the segments' offset ranges is exactly
/// `[first_offset, next_offset)`, with no gaps and no overlaps.
pub proof fn lemma_offset_ranges_partition(p: Partition)
    requires
        part_wf(p),
    ensures
        forall|off: int|
            #[trigger] in_stored_range(p, off) <==> exists|i: int|
                0 <= i < p.segments@.len() && #[trigger] seg_covers(p.segments@[i], off),
        forall|i: int, j: int, off: int|
            0 <= i < j < p.segments@.len() && #[trigger] seg_covers(p.segments@[i], off)
                ==> !(#[trigger] seg_covers(p.segments@[j], off)),
{
    let segs = p.segments@;
    assert forall|off: int| #[trigger] in_stored_range(p, off) implies exists|i: int|
        0 <= i < segs.len() && #[trigger] seg_covers(segs[i], off) by {
        lemma_find_cover(segs, off);
    }
    assert forall|off: int, i: int|
        0 <= i < segs.len() && #[trigger] seg_covers(segs[i], off) implies in_stored_range(
        p,
        off,
    ) by {
        if i > 0 {
            lemma_base_le(segs, 0, i);
        }
        if i < segs.len() - 1 {
            lemma_base_le(segs, i, segs.len() - 1);
        }
    }
    assert forall|i: int, j: int, off: int|
        0 <= i < j < segs.len() && #[trigger] seg_covers(segs[i], off) implies !(#[trigger] seg_covers(
        segs[j],
        off,
    )) by {
        lemma_base_le(segs, i, j);
    }
}

/// After a successful append of a run, the read window at the first
/// assigned offset with the run's count is exactly the appended run, in
/// order, with the assigned offsets and timestamp.
pub proof fn lemma_append_then_read(pre: Partition, post: Partition, ms: Seq<Message>, now: u64)
    requires
        part_wf(pre),
        part_wf(post),
        post.first_offset == pre.first_offset,
        post.next_offset == pre.next_offset + ms.len(),
        msgs_models(msgs_of(post.segments@)) == msgs_models(msgs_of(pre.segments@))
            + assigned_models(ms, pre.next_offset, assign_ts(pre.last_timestamp, now)),
    ensures
        read_window(post, pre.next_offset, ms.len() as u64) == assigned_models(
            ms,
            pre.next_offset,
            assign_ts(pre.last_timestamp, now),
        ),
{
    lemma_chain_len(pre.segments@);
    let a = msgs_models(msgs_of(pre.segments@));
    let b = assigned_models(ms, pre.next_offset, assign_ts(pre.last_timestamp, now));
    let all = msgs_models(msgs_of(post.segments@));
    assert(a.len() == pre.next_offset - pre.first_offset);
    assert(all.len() == a.len() + ms.len());
    assert(all.subrange(a.len() as int, all.len() as int) =~= b);
    assert(read_window(post, pre.next_offset, ms.len() as u64) == all.subrange(
        a.len() as int,
        all.len() as int,
    ));
}


/// The offset stored for a consumer, if any: the last entry wins.
pub open spec fn consumer_offset_of(tbl: Seq<(u32, u64)>, consumer_id: u32) -> Option<u64>
    decreases tbl.len(),
{
    if tbl.len() == 0 {
        Option::None
    } else if tbl.last().0 == consumer_id {
        Option::Some(tbl.last().1)
    } else {
        consumer_offset_of(tbl.drop_last(), consumer_id)
    }
}

impl Partition {
    /// Store a consumer's offset; it must not run ahead of `next_offset`.
    /// Offsets are advisory: storing one delivers nothing.
    pub fn store_consumer_offset(&mut self, consumer_id: u32, offset: u64) -> (r: Result<(), Error>)
        ensures
            match r {
                Ok(()) => {
                    &&& offset <= old(self).next_offset
                    &&& consumer_offset_of(final(self).consumer_offsets@, consumer_id)
                        == Option::Some(offset)
                    &&& forall|c: u32|
                        c != consumer_id ==> #[trigger] consumer_offset_of(
                            final(self).consumer_offsets@,
                            c,
                        ) == consumer_offset_of(old(self).consumer_offsets@, c)
                    &&& final(self).segments == old(self).segments
                    &&& final(self).first_offset == old(self).first_offset
                    &&& final(self).next_offset == old(self).next_offset
                    &&& final(self).partition_id == old(self).partition_id
                    &&& final(self).last_timestamp == old(self).last_timestamp
                    &&& final(self).max_segment_size == old(self).max_segment_size
                },
                Err(e) => {
                    &&& e == Error::InvalidArgument
                    &&& offset > old(self).next_offset
                    &&& *final(self) == *old(self)
                },
            },
    {
        if offset > self.next_offset {
            return Err(Error::InvalidArgument);
        }
        let ghost before = self.consumer_offsets@;
        self.consumer_offsets.push((consumer_id, offset));
        proof {
            assert(self.consumer_offsets@.last() == (consumer_id, offset));
            assert forall|c: u32|
                c != consumer_id implies #[trigger] consumer_offset_of(
                self.consumer_offsets@,
                c,
            ) == consumer_offset_of(before, c) by {
                assert(self.consumer_offsets@.drop_last() =~= before);
            }
        }
        Ok(())
    }

    /// The offset stored for a consumer, if any.
    pub fn get_consumer_offset(&self, consumer_id: u32) -> (r: Option<u64>)
        ensures
            r == consumer_offset_of(self.consumer_offsets@, consumer_id),
    {
        let mut i: usize = self.consumer_offsets.len();
        proof {
            assert(self.consumer_offsets@.take(self.consumer_offsets@.len() as int)
                =~= self.consumer_offsets@);
        }
        while i > 0
            invariant
                i <= self.consumer_offsets@.len(),
                consumer_offset_of(self.consumer_offsets@, consumer_id) == consumer_offset_of(
                    self.consumer_offsets@.take(i as int),
                    consumer_id,
                ),
            decreases i,
        {
            let (c, off) = self.consumer_offsets[i - 1];
            proof {
                assert(self.consumer_offsets@.take(i as int).last() == self.consumer_offsets@[i
                    as int - 1]);
                assert(self.consumer_offsets@.take(i as int).drop_last()
                    =~= self.consumer_offsets@.take(i as int - 1));
            }
            if c == consumer_id {
                return Some(off);
            }
            i = i - 1;
        }
        None
    }

    /// Poll for a consumer from its stored offset (or the partition's first
    /// when none is stored); with `auto_commit` the offset advances past what
    /// was returned, without it a later poll repeats the same window.
    pub fn poll_next(&mut self, consumer_id: u32, count: u64, auto_commit: bool) -> (r: Result<
        Vec<Message>,
        Error,
    >)
        requires
            part_wf(*old(self)),
        ensures
            part_wf(*final(self)),
            final(self).segments == old(self).segments,
            final(self).first_offset == old(self).first_offset,
            final(self).next_offset == old(self).next_offset,
            final(self).partition_id == old(self).partition_id,
            final(self).last_timestamp == old(self).last_timestamp,
            final(self).max_segment_size == old(self).max_segment_size,
            match r {
                Ok(v) => {
                    &&& msgs_models(v@) == read_window(
                        *old(self),
                        poll_from(*old(self), consumer_id),
                        count,
                    )
                    &&& (auto_commit && v@.len() > 0) ==> consumer_offset_of(
                        final(self).consumer_offsets@,
                        consumer_id,
                    ) == Option::Some(
                        (poll_from(*old(self), consumer_id) + v@.len()) as u64,
                    )
                    &&& !(auto_commit && v@.len() > 0) ==> final(self).consumer_offsets == old(
                        self,
                    ).consumer_offsets
                },
                Err(e) => e == Error::OffsetOutOfRange && poll_from(*old(self), consumer_id)
                    < old(self).first_offset,
            },
    {
        let from = match self.get_consumer_offset(consumer_id) {
            Some(off) => off,
            None => self.first_offset,
        };
        let out = match self.read(from, count) {
            Ok(v) => v,
            Err(e) => {
                return Err(e);
            },
        };
        if auto_commit && out.len() > 0 {
            proof {
                lemma_chain_len(self.segments@);
                let all = msgs_models(msgs_of(self.segments@));
                assert(all.len() == self.next_offset - self.first_offset);
                assert(out@.len() == read_window(*self, from, count).len());
                assert(from - self.first_offset < all.len());
                assert(from + out@.len() <= self.next_offset);
            }
            let next = from + out.len() as u64;
            let res = self.store_consumer_offset(consumer_id, next);
            proof {
                assert(res is Ok);
            }
        }
        Ok(out)
    }
}

} // verus!
