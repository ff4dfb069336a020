//! Segment-log recovery. A log file is a run of length-prefixed batch
//! frames; after a crash the file may end in a torn frame. `recover_log`
//! finds the end of the valid prefix: the log is truncated there, and the
//! partition resumes with only the complete frames, so an interrupted
//! append never commits.
use vstd::prelude::*;
use vstd::bytes::*;
use crate::batch::{MessagesBatch, batch_bytes, batch_wf, lemma_batch_round_trip};

verus! {

/// Where scanning frames from `pos` stops: the start of the first position
/// whose frame is missing, short, or torn.
pub open spec fn scan_end(data: Seq<u8>, pos: int) -> int
    decreases data.len() - pos when 0 <= pos <= data.len()
{
    if pos + 17 > data.len() {
        pos
    } else {
        let l = spec_u32_from_le_bytes(data.subrange(pos + 8, pos + 12)) as int;
        if l < 17 || pos + l > data.len() {
            pos
        } else {
            scan_end(data, pos + l)
        }
    }
}

/// The concatenated encodings of a run of batches: a clean segment log.
pub open spec fn frames_bytes(bs: Seq<MessagesBatch>) -> Seq<u8>
    decreases bs.len(),
{
    if bs.len() == 0 {
        Seq::<u8>::empty()
    } else {
        batch_bytes(bs[0]) + frames_bytes(bs.skip(1))
    }
}

/// A byte run that does not begin with one complete frame: too short for a
/// header and one payload byte, a length field below the minimum, or a
/// length field pointing past the end.
pub open spec fn torn(t: Seq<u8>) -> bool {
    ||| t.len() < 17
    ||| (spec_u32_from_le_bytes(t.subrange(8, 12)) as int) < 17
    ||| (spec_u32_from_le_bytes(t.subrange(8, 12)) as int) > t.len()
}

/// Scanning a concatenation from inside the right half is scanning the
/// right half, shifted.
pub proof fn lemma_scan_shift(x: Seq<u8>, rest: Seq<u8>, p: int)
    requires
        0 <= p <= rest.len(),
    ensures
        scan_end(x + rest, x.len() + p) == x.len() + scan_end(rest, p),
    decreases rest.len() - p,
{
    let d = x + rest;
    let dp = x.len() + p;
    if p + 17 > rest.len() {
    } else {
        assert(d.subrange(dp + 8, dp + 12) =~= rest.subrange(p + 8, p + 12));
        let l = spec_u32_from_le_bytes(rest.subrange(p + 8, p + 12)) as int;
        if l < 17 || p + l > rest.len() {
        } else {
            lemma_scan_shift(x, rest, p + l);
        }
    }
}

/// A cleanly written log — a run of complete, well-formed frames — scans
/// fully: recovery keeps every byte, so reloading reproduces the log
/// byte-identically.
pub proof fn lemma_clean_log_scans_fully(bs: Seq<MessagesBatch>)
    requires
        forall|i: int| 0 <= i < bs.len() ==> batch_wf(#[trigger] bs[i]),
    ensures
        scan_end(frames_bytes(bs), 0) == frames_bytes(bs).len(),
    decreases bs.len(),
{
    if bs.len() > 0 {
        let b0 = bs[0];
        let x = batch_bytes(b0);
        let rest = frames_bytes(bs.skip(1));
        let d = frames_bytes(bs);
        lemma_batch_round_trip(b0);
        assert(d == x + rest);
        assert(d.subrange(8, 12) =~= x.subrange(8, 12));
        assert(spec_u32_from_le_bytes(d.subrange(8, 12)) == b0.length);
        assert(x.len() == b0.length);
        lemma_scan_shift(x, rest, 0);
        assert(scan_end(d, b0.length as int) == x.len() + scan_end(rest, 0));
        lemma_clean_log_scans_fully(bs.skip(1));
    }
}

/// A log whose tail is a torn frame scans to exactly the end of its
/// complete frames: recovery truncates the torn tail and nothing else, so
/// the offsets of an interrupted append never surface.
pub proof fn lemma_torn_tail_is_dropped(bs: Seq<MessagesBatch>, t: Seq<u8>)
    requires
        forall|i: int| 0 <= i < bs.len() ==> batch_wf(#[trigger] bs[i]),
        torn(t),
    ensures
        scan_end(frames_bytes(bs) + t, 0) == frames_bytes(bs).len(),
    decreases bs.len(),
{
    if bs.len() == 0 {
        assert(frames_bytes(bs) + t =~= t);
        assert(scan_end(t, 0) == 0);
    } else {
        let b0 = bs[0];
        let x = batch_bytes(b0);
        let rest = frames_bytes(bs.skip(1)) + t;
        let d = frames_bytes(bs) + t;
        lemma_batch_round_trip(b0);
        assert(d =~= x + rest);
        assert(d.subrange(8, 12) =~= x.subrange(8, 12));
        assert(spec_u32_from_le_bytes(d.subrange(8, 12)) == b0.length);
        assert(x.len() == b0.length);
        lemma_scan_shift(x, rest, 0);
        lemma_torn_tail_is_dropped(bs.skip(1), t);
        assert(frames_bytes(bs) =~= x + frames_bytes(bs.skip(1)));
    }
}

/// The end of the valid prefix of a segment log: every byte before it
/// belongs to a complete frame, and what follows is missing or torn. The
/// caller truncates the log file there before reopening the segment.
pub fn recover_log(data: &[u8]) -> (r: usize)
    ensures
        r == scan_end(data@, 0),
        r <= data@.len(),
{
    let len = data.len();
    let mut pos: usize = 0;
    let mut done = false;
    while !done
        invariant
            0 <= pos <= data@.len(),
            len == data@.len(),
            scan_end(data@, 0) == scan_end(data@, pos as int),
            done ==> scan_end(data@, pos as int) == pos,
        decreases data@.len() - pos, (if done { 0int } else { 1int }),
    {
        if len - pos < 17 {
            done = true;
        } else {
            let l = u32_from_le_bytes(vstd::slice::slice_subrange(data, pos + 8, pos + 12));
            let l = l as usize;
            if l < 17 || l > len - pos {
                done = true;
            } else {
                pos = pos + l;
            }
        }
    }
    pos
}


/// A log cut at any byte position scans to a frame boundary: exactly the
/// frames wholly before the cut survive recovery, and the first frame the
/// cut wounds is dropped whole. With `lemma_clean_log_scans_fully` this
/// settles recovery for every truncation point of a clean log.
pub proof fn lemma_cut_log_scans_to_boundary(bs: Seq<MessagesBatch>, c: int)
    requires
        forall|i: int| 0 <= i < bs.len() ==> batch_wf(#[trigger] bs[i]),
        0 <= c <= frames_bytes(bs).len(),
    ensures
        exists|j: int|
            {
                &&& 0 <= j <= bs.len()
                &&& frames_bytes(#[trigger] bs.take(j)).len() <= c
                &&& scan_end(frames_bytes(bs).take(c), 0) == frames_bytes(bs.take(j)).len()
                &&& (j < bs.len() ==> c < frames_bytes(bs.take(j + 1)).len())
            },
    decreases bs.len(),
{
    if bs.len() == 0 {
        assert(frames_bytes(bs).len() == 0);
        assert(frames_bytes(bs).take(0) =~= frames_bytes(bs));
        assert(bs.take(0) =~= bs);
        assert(scan_end(frames_bytes(bs).take(c), 0) == 0);
        assert(0 <= 0 <= bs.len() && frames_bytes(bs.take(0)).len() <= c && scan_end(
            frames_bytes(bs).take(c),
            0,
        ) == frames_bytes(bs.take(0)).len() && (0 < bs.len() ==> c < frames_bytes(
            bs.take(1int),
        ).len()));
    } else {
        let b0 = bs[0];
        let x = batch_bytes(b0);
        let rest = frames_bytes(bs.skip(1));
        let d = frames_bytes(bs);
        let l0 = b0.length as int;
        lemma_batch_round_trip(b0);
        assert(x.len() == l0);
        assert(l0 >= 17);
        assert(d == x + rest);
        let t = d.take(c);
        assert(bs.take(1).skip(1) =~= bs.skip(1).take(0));
        assert(frames_bytes(bs.skip(1).take(0)).len() == 0);
        assert(frames_bytes(bs.take(1)) =~= x);
        assert(bs.take(0) =~= Seq::<MessagesBatch>::empty());
        assert(frames_bytes(bs.take(0)).len() == 0);
        if c < l0 {
            if c < 17 {
                assert(scan_end(t, 0) == 0);
            } else {
                assert(t.subrange(8, 12) =~= x.subrange(8, 12));
                assert(spec_u32_from_le_bytes(t.subrange(8, 12)) == b0.length);
                assert(scan_end(t, 0) == 0);
            }
            assert(0 <= 0 <= bs.len() && frames_bytes(bs.take(0)).len() <= c && scan_end(
                frames_bytes(bs).take(c),
                0,
            ) == frames_bytes(bs.take(0)).len() && (0 < bs.len() ==> c < frames_bytes(
                bs.take(1int),
            ).len()));
        } else {
            let rt = rest.take(c - l0);
            assert(t =~= x + rt);
            assert(t.subrange(8, 12) =~= x.subrange(8, 12));
            assert(spec_u32_from_le_bytes(t.subrange(8, 12)) == b0.length);
            assert(scan_end(t, 0) == scan_end(t, l0));
            lemma_scan_shift(x, rt, 0);
            assert(scan_end(t, l0) == l0 + scan_end(rt, 0));
            lemma_cut_log_scans_to_boundary(bs.skip(1), c - l0);
            let j1 = choose|j: int|
                {
                    &&& 0 <= j <= bs.skip(1).len()
                    &&& frames_bytes(#[trigger] bs.skip(1).take(j)).len() <= c - l0
                    &&& scan_end(frames_bytes(bs.skip(1)).take(c - l0), 0) == frames_bytes(
                        bs.skip(1).take(j),
                    ).len()
                    &&& (j < bs.skip(1).len() ==> c - l0 < frames_bytes(
                        bs.skip(1).take(j + 1),
                    ).len())
                };
            assert(bs.take(j1 + 1).skip(1) =~= bs.skip(1).take(j1));
            assert(bs.take(j1 + 1)[0] == b0);
            assert(frames_bytes(bs.take(j1 + 1)) == batch_bytes(bs.take(j1 + 1)[0])
                + frames_bytes(bs.take(j1 + 1).skip(1)));
            assert(frames_bytes(bs.take(j1 + 1)).len() == l0 + frames_bytes(
                bs.skip(1).take(j1),
            ).len());
            if j1 + 1 < bs.len() {
                assert(bs.take(j1 + 2).skip(1) =~= bs.skip(1).take(j1 + 1));
                assert(bs.take(j1 + 2)[0] == b0);
                assert(frames_bytes(bs.take(j1 + 2)) == batch_bytes(bs.take(j1 + 2)[0])
                    + frames_bytes(bs.take(j1 + 2).skip(1)));
                assert(frames_bytes(bs.take(j1 + 2)).len() == l0 + frames_bytes(
                    bs.skip(1).take(j1 + 1),
                ).len());
            }
            assert(0 <= j1 + 1 <= bs.len() && frames_bytes(bs.take(j1 + 1)).len() <= c
                && scan_end(frames_bytes(bs).take(c), 0) == frames_bytes(bs.take(j1 + 1)).len()
                && (j1 + 1 < bs.len() ==> c < frames_bytes(bs.take(j1 + 1 + 1)).len()));
        }
    }
}

} // verus!
