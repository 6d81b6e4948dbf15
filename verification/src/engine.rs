//! The decisions of the segmented download engine: which segment a worker
//! takes next, where its bytes go, how progress is counted, when a segment
//! is split, and how retries, quotas and connection targets move.
use vstd::prelude::*;

use rand::Rng;

use crate::config::{AuthConfig, DownloadConfig, ProxyConfig, ProxyKind};
use crate::error::LokiDmError;
use crate::text::{
    chars_of, contains_chars, contains_seq, decimal, decimal_string, eq_ignore_case,
    eq_ignore_case_chars, parse_u64, parse_u64_chars, rsplit_once, rsplit_once_chars,
};
use crate::metadata::{
    downloaded_sum, sat_sub, span_sum, spans_fit, DownloadMetadata, SegmentMetadata, SegmentState,
};

verus! {

/// What the user asked of a running download.
#[derive(Debug, Clone, Copy, PartialEq, Eq, Structural)]
pub enum ControlState {
    Running,
    Paused,
    Cancelled,
}

/// `u64::saturating_add`.
pub open spec fn sat_add(a: u64, b: u64) -> u64 {
    if a + b > u64::MAX {
        u64::MAX
    } else {
        (a + b) as u64
    }
}

/// Offset of the next byte a segment needs: its start plus what it has.
pub open spec fn cursor(s: SegmentMetadata) -> u64 {
    sat_add(s.start, s.downloaded)
}

/// Bytes from the cursor to the segment's end, inclusive.
pub open spec fn bytes_left(s: SegmentMetadata) -> int {
    s.end - cursor(s) + 1
}

/// A segment a worker may take: waiting, and not yet complete.
pub open spec fn claimable(segs: Seq<SegmentMetadata>, id: usize) -> bool {
    &&& id < segs.len()
    &&& segs[id as int].state == SegmentState::Pending
    &&& !segs[id as int].finished()
}

/// `k` is the position of the first claimable id in `queue`.
pub open spec fn first_claimable(segs: Seq<SegmentMetadata>, queue: Seq<usize>, k: int) -> bool {
    &&& 0 <= k < queue.len()
    &&& claimable(segs, queue[k])
    &&& forall|j: int| 0 <= j < k ==> !claimable(segs, #[trigger] queue[j])
}

/// Takes ids off the front of `queue` until one names a claimable segment,
/// marks that segment in progress and returns its id; ids of segments that
/// cannot be taken are dropped. `None` once the queue is exhausted.
pub fn claim_segment(meta: &mut DownloadMetadata, queue: &mut std::collections::VecDeque<usize>) -> (r: Option<usize>)
    requires
        spans_fit(old(meta).segments@),
    ensures
        match r {
            Some(id) => exists|k: int|
                first_claimable(old(meta).segments@, old(queue)@, k) && id == old(queue)@[k]
                    && final(queue)@ == old(queue)@.skip(k + 1) && final(meta).segments@ == old(
                    meta,
                ).segments@.update(
                    id as int,
                    SegmentMetadata { state: SegmentState::InProgress, ..old(meta).segments@[id as int] },
                ),
            None => {
                &&& forall|j: int|
                    0 <= j < old(queue)@.len() ==> !claimable(old(meta).segments@, #[trigger] old(queue)@[j])
                &&& final(queue)@.len() == 0
                &&& final(meta).segments@ == old(meta).segments@
            },
        },
        *final(meta) == (DownloadMetadata { segments: final(meta).segments, ..*old(meta) }),
        final(meta).url == old(meta).url,
        final(meta).total_size == old(meta).total_size,
        final(meta).bytes_downloaded == old(meta).bytes_downloaded,
{
    let ghost q0 = queue@;
    let n = queue.len();
    let mut k: usize = 0;
    assert(q0.skip(0) =~= q0);
    loop
        invariant
            q0.len() == n,
            spans_fit(meta.segments@),
            meta.segments@ == old(meta).segments@,
            *meta == (DownloadMetadata { segments: meta.segments, ..*old(meta) }),
            meta.url == old(meta).url,
            meta.total_size == old(meta).total_size,
            meta.bytes_downloaded == old(meta).bytes_downloaded,
            q0 == old(queue)@,
            k <= q0.len(),
            queue@ == q0.skip(k as int),
            forall|j: int| 0 <= j < k ==> !claimable(meta.segments@, #[trigger] q0[j]),
        decreases queue@.len(),
    {
        let next = queue.pop_front();
        match next {
            None => {
                return None;
            },
            Some(id) => {
                assert(q0[k as int] == id);
                assert(queue@ =~= q0.skip(k as int + 1));
                if id < meta.segments.len() {
                    let seg = meta.segments[id];
                    if seg.state == SegmentState::Pending && !seg.is_complete() {
                        assert(first_claimable(old(meta).segments@, q0, k as int));
                        meta.segments.set(id, SegmentMetadata { state: SegmentState::InProgress, ..seg });
                        return Some(id);
                    }
                }
                k = k + 1;
            },
        }
    }
}

/// Puts an unfinished segment back to pending; a finished one, or an id
/// out of range, is left alone.
pub fn set_segment_pending(meta: &mut DownloadMetadata, segment_id: usize)
    requires
        spans_fit(old(meta).segments@),
    ensures
        final(meta).segments@ == if segment_id < old(meta).segments@.len()
            && !old(meta).segments@[segment_id as int].finished() {
            old(meta).segments@.update(
                segment_id as int,
                SegmentMetadata { state: SegmentState::Pending, ..old(meta).segments@[segment_id as int] },
            )
        } else {
            old(meta).segments@
        },
        *final(meta) == (DownloadMetadata { segments: final(meta).segments, ..*old(meta) }),
        final(meta).url == old(meta).url,
        final(meta).total_size == old(meta).total_size,
        final(meta).bytes_downloaded == old(meta).bytes_downloaded,
{
    if segment_id < meta.segments.len() {
        let seg = meta.segments[segment_id];
        assert(seg.span_fits());
        if !seg.is_complete() {
            meta.segments.set(segment_id, SegmentMetadata { state: SegmentState::Pending, ..seg });
        }
    }
}

/// The segment as `mark_segment_done` leaves it: done, its counter capped
/// at its length.
pub open spec fn done_segment(s: SegmentMetadata) -> SegmentMetadata {
    SegmentMetadata {
        downloaded: if s.downloaded > s.span() {
            s.span() as u64
        } else {
            s.downloaded
        },
        state: SegmentState::Done,
        ..s
    }
}

/// Marks a segment done, capping its counter at its length; an id out of
/// range changes nothing.
pub fn mark_segment_done(meta: &mut DownloadMetadata, segment_id: usize)
    requires
        spans_fit(old(meta).segments@),
    ensures
        final(meta).segments@ == if segment_id < old(meta).segments@.len() {
            old(meta).segments@.update(segment_id as int, done_segment(old(meta).segments@[segment_id as int]))
        } else {
            old(meta).segments@
        },
        *final(meta) == (DownloadMetadata { segments: final(meta).segments, ..*old(meta) }),
        final(meta).url == old(meta).url,
        final(meta).total_size == old(meta).total_size,
        final(meta).bytes_downloaded == old(meta).bytes_downloaded,
{
    if segment_id < meta.segments.len() {
        let seg = meta.segments[segment_id];
        assert(seg.span_fits());
        let l = seg.len();
        let d = if seg.downloaded < l {
            seg.downloaded
        } else {
            l
        };
        meta.segments.set(segment_id, SegmentMetadata { downloaded: d, state: SegmentState::Done, ..seg });
    }
}

/// Where the next bytes of a segment go and how many of at most `max_len`
/// fit: from the cursor up to the segment's end. `None` for an unknown or
/// complete segment, or one whose cursor is past its end.
pub fn next_write_window(meta: &DownloadMetadata, segment_id: usize, max_len: usize) -> (r: Option<(u64, usize)>)
    requires
        spans_fit(meta.segments@),
    ensures
        match r {
            Some((offset, len)) => {
                let s = meta.segments@[segment_id as int];
                &&& segment_id < meta.segments@.len()
                &&& !s.finished()
                &&& offset == cursor(s)
                &&& offset <= s.end
                &&& len == if bytes_left(s) < max_len {
                    bytes_left(s)
                } else {
                    max_len as int
                }
            },
            None => segment_id >= meta.segments@.len() || meta.segments@[segment_id as int].finished()
                || cursor(meta.segments@[segment_id as int]) > meta.segments@[segment_id as int].end,
        },
{
    if segment_id >= meta.segments.len() {
        return None;
    }
    let seg = meta.segments[segment_id];
    assert(seg.span_fits());
    if seg.is_complete() {
        return None;
    }
    let offset = seg.start.saturating_add(seg.downloaded);
    if offset > seg.end {
        return None;
    }
    let left = (seg.end - offset) + 1;
    let allowed: usize = if left < max_len as u64 {
        left as usize
    } else {
        max_len
    };
    Some((offset, allowed))
}

/// The segment once `written` more bytes have landed: the counter grows,
/// capped at the segment's length, and a full segment is done.
pub open spec fn written_segment(s: SegmentMetadata, written: u64) -> SegmentMetadata {
    let after: u64 = if sat_add(s.downloaded, written) > s.span() {
        s.span() as u64
    } else {
        sat_add(s.downloaded, written)
    };
    SegmentMetadata {
        downloaded: after,
        state: if after >= s.span() {
            SegmentState::Done
        } else {
            s.state
        },
        ..s
    }
}

/// The segments once `written` bytes of segment `id` have landed.
pub open spec fn segments_after_write(segs: Seq<SegmentMetadata>, id: usize, written: u64) -> Seq<SegmentMetadata> {
    if id < segs.len() {
        segs.update(id as int, written_segment(segs[id as int], written))
    } else {
        segs
    }
}

/// Counts `written` bytes for a segment, capping its counter at its length
/// and marking it done when full, recomputes the total downloaded, and
/// returns by how much the segment's counter grew.
pub fn apply_written(meta: &mut DownloadMetadata, segment_id: usize, written: u64) -> (delta: u64)
    requires
        spans_fit(old(meta).segments@),
        downloaded_sum(segments_after_write(old(meta).segments@, segment_id, written)) <= u64::MAX,
    ensures
        final(meta).segments@ == segments_after_write(old(meta).segments@, segment_id, written),
        final(meta).bytes_downloaded == downloaded_sum(final(meta).segments@),
        delta == if segment_id < old(meta).segments@.len() {
            sat_sub(
                final(meta).segments@[segment_id as int].downloaded,
                old(meta).segments@[segment_id as int].downloaded,
            )
        } else {
            0
        },
        *final(meta) == (DownloadMetadata {
            segments: final(meta).segments,
            bytes_downloaded: final(meta).bytes_downloaded,
            ..*old(meta)
        }),
        final(meta).url == old(meta).url,
        final(meta).total_size == old(meta).total_size,
{
    let mut delta: u64 = 0;
    if segment_id < meta.segments.len() {
        let seg = meta.segments[segment_id];
        assert(seg.span_fits());
        let before = seg.downloaded;
        let l = seg.len();
        let grown = before.saturating_add(written);
        let after = if grown < l {
            grown
        } else {
            l
        };
        let state = if after >= l {
            SegmentState::Done
        } else {
            seg.state
        };
        meta.segments.set(segment_id, SegmentMetadata { downloaded: after, state, ..seg });
        delta = after.saturating_sub(before);
    }
    assert(meta.segments@ =~= segments_after_write(old(meta).segments@, segment_id, written));
    meta.bytes_downloaded = crate::metadata::sum_downloaded(&meta.segments);
    delta
}

/// Whether `apply_written` may count `written` bytes for `segment_id`: every
/// segment's length is representable and the counters, once those bytes are
/// counted, still sum within a `u64`.
pub fn write_fits(meta: &DownloadMetadata, segment_id: usize, written: u64) -> (b: bool)
    ensures
        b == (spans_fit(meta.segments@) && downloaded_sum(
            segments_after_write(meta.segments@, segment_id, written),
        ) <= u64::MAX),
{
    if !crate::metadata::segments_fit(&meta.segments) {
        return false;
    }
    let ghost segs = meta.segments@;
    let mut after: Vec<SegmentMetadata> = Vec::new();
    let mut j: usize = 0;
    while j < meta.segments.len()
        invariant
            j <= segs.len(),
            segs == meta.segments@,
            spans_fit(segs),
            after@ == segments_after_write(segs, segment_id, written).take(j as int),
        decreases meta.segments.len() - j,
    {
        let seg = meta.segments[j];
        if j == segment_id {
            assert(seg.span_fits());
            let l = seg.len();
            let grown = seg.downloaded.saturating_add(written);
            let d = if grown < l {
                grown
            } else {
                l
            };
            let state = if d >= l {
                SegmentState::Done
            } else {
                seg.state
            };
            after.push(SegmentMetadata { downloaded: d, state, ..seg });
        } else {
            after.push(seg);
        }
        assert(after@ =~= segments_after_write(segs, segment_id, written).take(j as int + 1));
        j = j + 1;
    }
    assert(segments_after_write(segs, segment_id, written).take(segs.len() as int) =~= segments_after_write(
        segs,
        segment_id,
        written,
    ));
    crate::metadata::downloaded_sum_fits(&after)
}

/// Whether segment `id` exists and is complete.
pub fn is_segment_complete(meta: &DownloadMetadata, segment_id: usize) -> (b: bool)
    requires
        spans_fit(meta.segments@),
    ensures
        b == (segment_id < meta.segments@.len() && meta.segments@[segment_id as int].finished()),
{
    if segment_id < meta.segments.len() {
        let seg = meta.segments[segment_id];
        assert(seg.span_fits());
        seg.is_complete()
    } else {
        false
    }
}

/// `2 * m`, saturating at `u64::MAX`.
pub open spec fn sat_double(m: u64) -> u64 {
    if 2 * m > u64::MAX {
        u64::MAX
    } else {
        (2 * m) as u64
    }
}

/// A segment worth splitting: not done, its cursor inside it, and at least
/// twice `min` bytes left.
pub open spec fn splittable(s: SegmentMetadata, min: u64) -> bool {
    &&& s.state != SegmentState::Done
    &&& cursor(s) <= s.end
    &&& bytes_left(s) >= sat_double(min)
}

/// Among the first `n` segments, `i` is the splittable one with the most
/// bytes left, the first of those that tie.
pub open spec fn largest_upto(segs: Seq<SegmentMetadata>, min: u64, i: int, n: int) -> bool {
    &&& 0 <= i < n <= segs.len()
    &&& splittable(segs[i], min)
    &&& forall|j: int|
        0 <= j < n && splittable(#[trigger] segs[j], min) ==> bytes_left(segs[j]) <= bytes_left(
            segs[i],
        )
    &&& forall|j: int|
        0 <= j < i && splittable(#[trigger] segs[j], min) ==> bytes_left(segs[j]) < bytes_left(
            segs[i],
        )
}

/// `i` is the splittable segment with the most bytes left, the first of
/// those that tie.
pub open spec fn largest_splittable(segs: Seq<SegmentMetadata>, min: u64, i: int) -> bool {
    largest_upto(segs, min, i, segs.len() as int)
}

/// Where segment `s` is cut: halfway through what it has left.
pub open spec fn split_point(s: SegmentMetadata) -> int {
    cursor(s) + bytes_left(s) / 2
}

/// The segments once the one at index `i` is cut at its split point: the
/// segment its id names now ends just before the cut, and a new pending
/// segment, numbered after the last, covers the cut to the old end.
pub open spec fn split_segments(segs: Seq<SegmentMetadata>, i: int) -> Seq<SegmentMetadata> {
    let s = segs[i];
    let id = s.id as int;
    segs.update(id, SegmentMetadata { end: (split_point(s) - 1) as u64, ..segs[id] }).push(
        SegmentMetadata {
            id: segs.len() as usize,
            start: split_point(s) as u64,
            end: s.end,
            downloaded: 0,
            state: SegmentState::Pending,
        },
    )
}

/// The splittable segment with the most bytes left (the first of those
/// that tie), if any.
pub fn largest_splittable_index(segs: &Vec<SegmentMetadata>, min_segment_size: u64) -> (r: Option<usize>)
    requires
        spans_fit(segs@),
    ensures
        match r {
            Some(i) => largest_splittable(segs@, min_segment_size, i as int),
            None => forall|j: int| !largest_splittable(segs@, min_segment_size, j),
        },
{
    let min2: u64 = if min_segment_size > u64::MAX / 2 {
        u64::MAX
    } else {
        min_segment_size * 2
    };
    let mut best: Option<(usize, u64)> = None;
    let mut i: usize = 0;
    while i < segs.len()
        invariant
            spans_fit(segs@),
            i <= segs@.len(),
            min2 == sat_double(min_segment_size),
            best is None ==> forall|j: int| 0 <= j < i ==> !splittable(#[trigger] segs@[j], min_segment_size),
            best matches Some(b) ==> {
                &&& largest_upto(segs@, min_segment_size, b.0 as int, i as int)
                &&& b.1 == bytes_left(segs@[b.0 as int])
            },
        decreases segs.len() - i,
    {
        let seg = segs[i];
        assert(seg.span_fits());
        if seg.state != SegmentState::Done {
            let c = seg.start.saturating_add(seg.downloaded);
            if c <= seg.end {
                let remaining = (seg.end - c) + 1;
                if remaining >= min2 {
                    let replace = match best {
                        Some(b) => b.1 < remaining,
                        None => true,
                    };
                    if replace {
                        best = Some((i, remaining));
                    }
                }
            }
        }
        i = i + 1;
    }
    match best {
        None => None,
        Some(b) => Some(b.0),
    }
}

/// Whether `split_largest_remaining_segment` may run: every segment's
/// length is representable, another segment can be numbered, and the
/// segment it would cut names an index in range.
pub fn split_allowed(meta: &DownloadMetadata, min_segment_size: u64) -> (b: bool)
    ensures
        b == (spans_fit(meta.segments@) && meta.segments@.len() < usize::MAX && forall|i: int|
            largest_splittable(meta.segments@, min_segment_size, i) ==> (
            #[trigger] meta.segments@[i]).id < meta.segments@.len()),
{
    if !crate::metadata::segments_fit(&meta.segments) {
        return false;
    }
    if meta.segments.len() == usize::MAX {
        return false;
    }
    let ghost segs = meta.segments@;
    match largest_splittable_index(&meta.segments, min_segment_size) {
        None => true,
        Some(bi) => {
            assert forall|j: int| largest_splittable(segs, min_segment_size, j) implies j == bi by {
                if j < bi {
                } else if j > bi {
                }
            }
            meta.segments[bi].id < meta.segments.len()
        },
    }
}

/// Cuts the splittable segment with the most bytes left in two, halfway
/// through what it has left; the second half becomes a new pending segment
/// at the end, and its id joins the back of the work queue. Nothing happens,
/// and `false` comes back, when no segment has at least twice
/// `min_segment_size` bytes left, or the largest has a single byte left.
pub fn split_largest_remaining_segment(
    meta: &mut DownloadMetadata,
    queue: &mut std::collections::VecDeque<usize>,
    min_segment_size: u64,
) -> (split: bool)
    requires
        spans_fit(old(meta).segments@),
        old(meta).segments@.len() < usize::MAX,
        forall|i: int|
            largest_splittable(old(meta).segments@, min_segment_size, i) ==> (
            #[trigger] old(meta).segments@[i]).id < old(meta).segments@.len(),
    ensures
        split <==> exists|i: int|
            largest_splittable(old(meta).segments@, min_segment_size, i) && bytes_left(
                old(meta).segments@[i],
            ) >= 2,
        split ==> exists|i: int|
            largest_splittable(old(meta).segments@, min_segment_size, i) && final(meta).segments@
                == split_segments(old(meta).segments@, i),
        !split ==> final(meta).segments@ == old(meta).segments@,
        final(queue)@ == if split {
            old(queue)@.push(old(meta).segments@.len() as usize)
        } else {
            old(queue)@
        },
        *final(meta) == (DownloadMetadata { segments: final(meta).segments, ..*old(meta) }),
        final(meta).url == old(meta).url,
        final(meta).total_size == old(meta).total_size,
        final(meta).bytes_downloaded == old(meta).bytes_downloaded,
{
    let ghost segs = meta.segments@;
    let found = largest_splittable_index(&meta.segments, min_segment_size);
    match found {
        None => false,
        Some(bi) => {
            assert forall|j: int| largest_splittable(segs, min_segment_size, j) implies j == bi by {
                if j < bi {
                } else if j > bi {
                }
            }
            let best = meta.segments[bi];
            assert(best.span_fits());
            let segment_id = best.id;
            let c = best.start.saturating_add(best.downloaded);
            let old_end = best.end;
            let remaining = (old_end - c) + 1;
            let split_at = c.saturating_add(remaining / 2);
            if split_at <= c || split_at > old_end {
                return false;
            }
            assert(segment_id < meta.segments@.len());
            let seg = meta.segments[segment_id];
            let new_id = meta.segments.len();
            meta.segments.set(segment_id, SegmentMetadata { end: split_at - 1, ..seg });
            meta.segments.push(
                SegmentMetadata {
                    id: new_id,
                    start: split_at,
                    end: old_end,
                    downloaded: 0,
                    state: SegmentState::Pending,
                },
            );
            assert(meta.segments@ =~= split_segments(segs, bi as int));
            queue.push_back(new_id);
            true
        },
    }
}

proof fn lemma_sums_update(segs: Seq<SegmentMetadata>, i: int, s: SegmentMetadata)
    requires
        0 <= i < segs.len(),
    ensures
        span_sum(segs.update(i, s)) == span_sum(segs) - segs[i].span() + s.span(),
        downloaded_sum(segs.update(i, s)) == downloaded_sum(segs) - segs[i].downloaded
            + s.downloaded,
    decreases segs.len(),
{
    let u = segs.update(i, s);
    if i == segs.len() - 1 {
        assert(u.drop_last() =~= segs.drop_last());
    } else {
        lemma_sums_update(segs.drop_last(), i, s);
        assert(u.drop_last() =~= segs.drop_last().update(i, s));
    }
}

/// What a split does, spelled out: with each segment at its own index and a
/// minimum size of at least one byte, the largest splittable segment always
/// has two bytes left, so a split happens exactly when some segment is
/// splittable; it ends just before the halfway point of what it has left,
/// a pending segment numbered after the last covers the rest up to the old
/// end, and every other segment stays as it was.
pub proof fn lemma_split_shape(segs: Seq<SegmentMetadata>, min: u64, i: int)
    requires
        crate::metadata::ids_match(segs),
        min >= 1,
        largest_splittable(segs, min, i),
    ensures
        bytes_left(segs[i]) >= 2,
        split_segments(segs, i).len() == segs.len() + 1,
        split_segments(segs, i)[i] == (SegmentMetadata { end: (cursor(segs[i]) + bytes_left(segs[i]) / 2 - 1) as u64, ..segs[i] }),
        split_segments(segs, i)[segs.len() as int] == (SegmentMetadata {
            id: segs.len() as usize,
            start: (cursor(segs[i]) + bytes_left(segs[i]) / 2) as u64,
            end: segs[i].end,
            downloaded: 0,
            state: SegmentState::Pending,
        }),
        forall|j: int| 0 <= j < segs.len() && j != i ==> #[trigger] split_segments(segs, i)[j] == segs[j],
{
    assert(segs[i].id == i);
}

/// Splitting keeps the file covered and the progress counted: when the
/// segment cut sits at its own index, the two pieces span exactly what it
/// spanned (the second starts right after the first ends and reaches the
/// old end), the total of the counters is unchanged, and the first piece
/// still has bytes to fetch.
pub proof fn lemma_split_keeps_coverage(segs: Seq<SegmentMetadata>, min: u64, i: int)
    requires
        spans_fit(segs),
        largest_splittable(segs, min, i),
        bytes_left(segs[i]) >= 2,
        segs[i].id == i,
    ensures
        span_sum(split_segments(segs, i)) == span_sum(segs),
        downloaded_sum(split_segments(segs, i)) == downloaded_sum(segs),
        split_segments(segs, i)[i].start == segs[i].start,
        split_segments(segs, i).last().start == split_segments(segs, i)[i].end + 1,
        split_segments(segs, i).last().end == segs[i].end,
        split_segments(segs, i)[i].downloaded < split_segments(segs, i)[i].span(),
{
    let s = segs[i];
    let first = SegmentMetadata { end: (split_point(s) - 1) as u64, ..s };
    let u = segs.update(i, first);
    lemma_sums_update(segs, i, first);
    let n = split_segments(segs, i);
    assert(n == u.push(n.last()));
    assert(n.drop_last() =~= u);
}

/// The total size a `Content-Range` value announces: the number after its
/// last `/`.
pub open spec fn content_range_total(value: Seq<char>) -> Option<u64> {
    match rsplit_once(value, '/') {
        Some((_, total)) => parse_u64(total),
        None => None,
    }
}

/// Reads the total size out of a `Content-Range` value such as
/// `bytes 0-0/42`.
pub fn parse_total_from_content_range(value: &str) -> (total: Option<u64>)
    ensures
        total == content_range_total(value@),
{
    let cs = chars_of(value);
    match rsplit_once_chars(cs.as_slice(), '/') {
        Some((_, t)) => parse_u64_chars(t.as_slice()),
        None => None,
    }
}

/// A header value read as a decimal size (`Content-Length`).
pub fn parse_content_length(value: &str) -> (n: Option<u64>)
    ensures
        n == parse_u64(value@),
{
    let cs = chars_of(value);
    parse_u64_chars(cs.as_slice())
}

/// An `Accept-Ranges` value that offers byte ranges: `bytes` in any ASCII
/// case, or any value containing `bytes`.
pub open spec fn offers_byte_ranges(value: Seq<char>) -> bool {
    eq_ignore_case(value, "bytes"@) || contains_seq(value, "bytes"@)
}

/// Whether an `Accept-Ranges` value offers byte ranges.
pub fn accepts_byte_ranges(value: &str) -> (b: bool)
    ensures
        b == offers_byte_ranges(value@),
{
    let cs = chars_of(value);
    let bytes = chars_of("bytes");
    eq_ignore_case_chars(cs.as_slice(), bytes.as_slice()) || contains_chars(
        cs.as_slice(),
        bytes.as_slice(),
    )
}

/// Pause before retry number `attempt`, without the random part:
/// 125 ms doubled per attempt, up to the eighth.
pub open spec fn backoff_base(attempt: u8) -> u64 {
    let a: nat = if attempt > 8 {
        8
    } else {
        attempt as nat
    };
    (125 * vstd::arithmetic::power2::pow2(a)) as u64
}

/// `rand::rng().random_range(0..=100)`: a random number from 0 to 100.
#[verifier::external_body]
fn random_jitter() -> (j: u64)
    ensures
        j <= 100,
{
    rand::rng().random_range(0..=100_u64)
}

/// The pause before retry number `attempt`, given the random part `jitter`.
pub fn backoff_from_jitter(attempt: u8, jitter: u64) -> (ms: u64)
    ensures
        ms == sat_add(backoff_base(attempt), jitter),
{
    let a: u8 = if attempt > 8 {
        8
    } else {
        attempt
    };
    let mut base: u64 = 125;
    let mut k: u8 = 0;
    proof {
        vstd::arithmetic::power2::lemma2_to64();
    }
    while k < a
        invariant
            k <= a <= 8,
            base == 125 * vstd::arithmetic::power2::pow2(k as nat),
            a == (if attempt > 8 {
                8
            } else {
                attempt
            }),
        decreases a - k,
    {
        proof {
            vstd::arithmetic::power2::lemma2_to64();
        }
        base = base * 2;
        k = k + 1;
        proof {
            vstd::arithmetic::power2::lemma_pow2_adds((k - 1) as nat, 1);
            vstd::arithmetic::power2::lemma2_to64();
        }
    }
    base.saturating_add(jitter)
}

/// The pause before retry number `attempt`: 125 ms doubled per attempt up
/// to the eighth, plus up to 100 ms at random.
pub fn backoff_with_jitter(attempt: u8) -> (ms: u64)
    ensures
        backoff_base(attempt) <= ms <= backoff_base(attempt) + 100,
{
    let jitter = random_jitter();
    backoff_from_jitter(attempt, jitter)
}

/// The URLs a download may come from: the primary URL, then each mirror not
/// already listed, in order.
pub open spec fn source_list(url: Seq<char>, mirrors: Seq<Seq<char>>) -> Seq<Seq<char>>
    decreases mirrors.len(),
{
    if mirrors.len() == 0 {
        seq![url]
    } else {
        let prev = source_list(url, mirrors.drop_last());
        if prev.contains(mirrors.last()) {
            prev
        } else {
            prev.push(mirrors.last())
        }
    }
}

/// Whether `list` holds a string equal to `s`.
fn contains_string(list: &Vec<String>, s: &String) -> (b: bool)
    ensures
        b == crate::config::strs_view(list@).contains(s@),
{
    let ghost v = crate::config::strs_view(list@);
    let mut i: usize = 0;
    while i < list.len()
        invariant
            i <= list@.len(),
            v == crate::config::strs_view(list@),
            forall|j: int| 0 <= j < i ==> v[j] != s@,
        decreases list.len() - i,
    {
        if list[i] == *s {
            assert(v[i as int] == s@);
            return true;
        }
        i = i + 1;
    }
    false
}

/// The URLs a download may come from, the primary one first and each
/// mirror once.
pub fn source_urls(config: &DownloadConfig) -> (urls: Vec<String>)
    ensures
        crate::config::strs_view(urls@) == source_list(
            config.url@,
            crate::config::strs_view(config.mirror_urls@),
        ),
{
    let ghost ms = crate::config::strs_view(config.mirror_urls@);
    let mut urls: Vec<String> = Vec::new();
    urls.push(config.url.clone());
    let mut i: usize = 0;
    assert(crate::config::strs_view(urls@) =~= source_list(config.url@, ms.take(0)));
    while i < config.mirror_urls.len()
        invariant
            i <= config.mirror_urls@.len(),
            ms == crate::config::strs_view(config.mirror_urls@),
            crate::config::strs_view(urls@) == source_list(config.url@, ms.take(i as int)),
        decreases config.mirror_urls.len() - i,
    {
        assert(ms.take(i as int + 1).drop_last() =~= ms.take(i as int));
        assert(ms.take(i as int + 1).last() == config.mirror_urls@[i as int]@);
        if !contains_string(&urls, &config.mirror_urls[i]) {
            urls.push(config.mirror_urls[i].clone());
            assert(crate::config::strs_view(urls@) =~= source_list(
                config.url@,
                ms.take(i as int + 1),
            ));
        }
        i = i + 1;
    }
    assert(ms.take(ms.len() as int) =~= ms);
    urls
}

/// What probing one source found: the size it reports, whether it serves
/// byte ranges, and how long the probe took.
#[derive(Debug, Clone, Copy, PartialEq, Eq, Structural)]
pub struct SourceProbe {
    pub total_size: u64,
    pub range_supported: bool,
    pub latency_nanos: u128,
}

/// Probe `a` beats probe `b`: it serves ranges where `b` does not, or both
/// agree on ranges and `a` answered faster.
pub open spec fn probe_beats(a: SourceProbe, b: SourceProbe) -> bool {
    (a.range_supported && !b.range_supported) || (a.range_supported == b.range_supported
        && a.latency_nanos < b.latency_nanos)
}

/// `i` is the first source that answered.
pub open spec fn first_answer(probes: Seq<Option<SourceProbe>>, i: int) -> bool {
    &&& 0 <= i < probes.len()
    &&& probes[i] is Some
    &&& forall|j: int| 0 <= j < i ==> probes[j] is None
}

/// Source `j` answered with the size the first answer gave.
pub open spec fn eligible_source(probes: Seq<Option<SourceProbe>>, f: int, j: int) -> bool {
    &&& 0 <= j < probes.len()
    &&& probes[j] matches Some(p) && p.total_size == probes[f]->0.total_size
}

/// `i` is the best source: among those that agree with the first answer
/// on the size, none beats it, and it beats every earlier one.
pub open spec fn best_source(probes: Seq<Option<SourceProbe>>, i: int) -> bool {
    exists|f: int|
        first_answer(probes, f) && eligible_source(probes, f, i) && (forall|j: int|
            eligible_source(probes, f, j) ==> !probe_beats(probes[j]->0, probes[i]->0)) && (
        forall|j: int| 0 <= j < i && eligible_source(probes, f, j) ==> probe_beats(
            probes[i]->0,
            probes[j]->0,
        ))
}

/// Picks the source to download from, given what probing each source
/// found (`None` for a probe that failed): sources whose size differs from
/// the first answer are ignored; a source serving ranges beats one that does
/// not, then the faster wins, then the earlier. `None` when no probe
/// answered.
pub fn pick_best_source(probes: &Vec<Option<SourceProbe>>) -> (best: Option<usize>)
    ensures
        match best {
            Some(i) => best_source(probes@, i as int),
            None => forall|j: int| 0 <= j < probes@.len() ==> probes@[j] is None,
        },
{
    let mut expected: Option<u64> = None;
    let mut best: Option<usize> = None;
    let ghost mut f: int = 0;
    let mut i: usize = 0;
    while i < probes.len()
        invariant
            i <= probes@.len(),
            expected is None ==> best is None && forall|j: int| 0 <= j < i ==> probes@[j] is None,
            expected matches Some(e) ==> {
                &&& first_answer(probes@, f)
                &&& f < i
                &&& probes@[f]->0.total_size == e
                &&& best matches Some(b) && b < i && eligible_source(probes@, f, b as int) && (
                forall|j: int|
                    0 <= j < i && eligible_source(probes@, f, j) ==> !probe_beats(
                        probes@[j]->0,
                        probes@[b as int]->0,
                    )) && (forall|j: int|
                    0 <= j < b && eligible_source(probes@, f, j) ==> probe_beats(
                        probes@[b as int]->0,
                        probes@[j]->0,
                    ))
            },
        decreases probes.len() - i,
    {
        match probes[i] {
            None => {},
            Some(p) => {
                let take = match expected {
                    Some(e) => {
                        if e != p.total_size {
                            false
                        } else {
                            match best {
                                Some(b) => {
                                    let cur = probes[b].unwrap();
                                    (p.range_supported && !cur.range_supported) || (
                                    p.range_supported == cur.range_supported && p.latency_nanos
                                        < cur.latency_nanos)
                                },
                                None => true,
                            }
                        }
                    },
                    None => {
                        proof {
                            f = i as int;
                        }
                        expected = Some(p.total_size);
                        true
                    },
                };
                if take {
                    best = Some(i);
                }
            },
        }
        i = i + 1;
    }
    match best {
        Some(b) => {
            assert(best_source(probes@, b as int));
        },
        None => {},
    }
    best
}

/// Whether the engine can authenticate as `auth` asks: none, basic and
/// bearer authentication are supported, NTLM and Kerberos are refused with a
/// message.
pub fn check_auth(auth: &Option<AuthConfig>) -> (r: Result<(), LokiDmError>)
    ensures
        match auth {
            Some(AuthConfig::Ntlm) => r matches Err(LokiDmError::Message(m)) && m@
                == "NTLM authentication is not implemented in this build"@,
            Some(AuthConfig::Kerberos) => r matches Err(LokiDmError::Message(m)) && m@
                == "Kerberos authentication is not implemented in this build"@,
            _ => r is Ok,
        },
{
    match auth {
        Some(AuthConfig::Ntlm) => Err(
            LokiDmError::Message("NTLM authentication is not implemented in this build".to_owned()),
        ),
        Some(AuthConfig::Kerberos) => Err(
            LokiDmError::Message(
                "Kerberos authentication is not implemented in this build".to_owned(),
            ),
        ),
        _ => Ok(()),
    }
}

/// The URL scheme a proxy kind is reached with (`socks5h` resolves names on
/// the proxy).
pub open spec fn proxy_scheme(kind: ProxyKind) -> Seq<char> {
    match kind {
        ProxyKind::Http => "http"@,
        ProxyKind::Https => "https"@,
        ProxyKind::Socks5 => "socks5h"@,
    }
}

/// The proxy's URI: `scheme://host:port`.
pub open spec fn proxy_uri_text(p: ProxyConfig) -> Seq<char> {
    proxy_scheme(p.kind) + "://"@ + p.host@ + ":"@ + decimal(p.port as nat)
}

/// The URI the engine hands to the HTTP client for a proxy.
pub fn proxy_uri(proxy: &ProxyConfig) -> (uri: String)
    ensures
        uri@ == proxy_uri_text(*proxy),
{
    let scheme = match proxy.kind {
        ProxyKind::Http => "http",
        ProxyKind::Https => "https",
        ProxyKind::Socks5 => "socks5h",
    };
    let mut uri = scheme.to_owned();
    uri.append("://");
    uri.append(proxy.host.as_str());
    uri.append(":");
    let port = decimal_string(proxy.port as u64);
    uri.append(port.as_str());
    uri
}

/// The `Range` header value for bytes `start..=end`: `bytes=start-end`.
pub fn range_header_value(start: u64, end: u64) -> (v: String)
    ensures
        v@ == "bytes="@ + decimal(start as nat) + "-"@ + decimal(end as nat),
{
    let mut v = "bytes=".to_owned();
    let a = decimal_string(start);
    v.append(a.as_str());
    v.append("-");
    let b = decimal_string(end);
    v.append(b.as_str());
    v
}

/// The `If-Range` validator: the entity tag when there is one, else the
/// last-modified date.
pub fn if_range_value(etag: &Option<String>, last_modified: &Option<String>) -> (v: Option<String>)
    ensures
        v == match etag {
            Some(e) => Some(*e),
            None => *last_modified,
        },
{
    match etag {
        Some(e) => Some(e.clone()),
        None => crate::config::clone_opt_string(last_modified),
    }
}

/// Whether an HTTP status is a success (`200..=299`).
pub open spec fn status_ok(status: u16) -> bool {
    200 <= status <= 299
}

/// Judges the answer to a segment request: a failure status is an error;
/// when ranges are in use and the segment does not start at 0, anything
/// but `206 Partial Content` means the range was ignored.
pub fn check_segment_status(can_multi: bool, range_start: u64, status: u16) -> (r: Result<(), LokiDmError>)
    ensures
        !status_ok(status) ==> r == Err::<(), LokiDmError>(LokiDmError::HttpStatus(status)),
        status_ok(status) && can_multi && range_start > 0 && status != 206 ==> r == Err::<
            (),
            LokiDmError,
        >(LokiDmError::RangeNotHonored),
        status_ok(status) && !(can_multi && range_start > 0 && status != 206) ==> r is Ok,
{
    if !(200 <= status && status <= 299) {
        return Err(LokiDmError::HttpStatus(status));
    }
    if can_multi && range_start > 0 && status != 206 {
        return Err(LokiDmError::RangeNotHonored);
    }
    Ok(())
}

/// After a failed attempt: the attempt count grows by one (saturating),
/// and the segment is given up once it exceeds `max_retries`.
pub fn next_retry(attempt: u8, max_retries: u8) -> (r: (u8, bool))
    ensures
        r.0 == if attempt == u8::MAX {
            u8::MAX
        } else {
            (attempt + 1) as u8
        },
        r.1 == (r.0 > max_retries),
{
    let a = attempt.saturating_add(1);
    (a, a > max_retries)
}

/// How the transfer speed moved since the last look.
#[derive(Debug, Clone, Copy, PartialEq, Eq, Structural)]
pub enum SpeedTrend {
    /// More than 15% faster.
    Faster,
    /// Less than 65% of the previous speed.
    Slower,
    /// Neither, or no previous speed to compare with.
    Steady,
}

/// The connection target after one look at the speed: one more when faster
/// and below `max`, one fewer when slower and above `min`, and one fewer
/// again (not below `min`) when errors were seen.
pub open spec fn adjusted_target(current: u16, trend: SpeedTrend, had_errors: bool, min: u16, max: u16) -> u16 {
    let step: u16 = if trend == SpeedTrend::Faster && current < max {
        if current as int + 1 > max {
            max
        } else {
            (current + 1) as u16
        }
    } else if trend == SpeedTrend::Slower && current > min {
        if current as int - 1 < min {
            min
        } else {
            (current - 1) as u16
        }
    } else {
        current
    };
    if had_errors && step > min {
        if step as int - 1 < min {
            min
        } else {
            (step - 1) as u16
        }
    } else {
        step
    }
}

/// Moves the connection target by the speed trend and the errors seen.
pub fn adjust_connection_target(current: u16, trend: SpeedTrend, had_errors: bool, min_connections: u16, max_connections: u16) -> (next: u16)
    ensures
        next == adjusted_target(current, trend, had_errors, min_connections, max_connections),
{
    let mut next = current;
    if trend == SpeedTrend::Faster && current < max_connections {
        let up = next.saturating_add(1);
        next = if up > max_connections {
            max_connections
        } else {
            up
        };
    } else if trend == SpeedTrend::Slower && current > min_connections {
        let down = next.saturating_sub(1);
        next = if down < min_connections {
            min_connections
        } else {
            down
        };
    }
    if had_errors && next > min_connections {
        let down = next.saturating_sub(1);
        next = if down < min_connections {
            min_connections
        } else {
            down
        };
    }
    next
}

/// A step of the connection target never leaves `[min, max]`.
pub proof fn lemma_target_stays_in_bounds(current: u16, trend: SpeedTrend, had_errors: bool, min: u16, max: u16)
    requires
        min <= current <= max,
    ensures
        min <= adjusted_target(current, trend, had_errors, min, max) <= max,
{
}

/// How a download will be fetched once its source is known.
#[derive(Debug, Clone, Copy, PartialEq, Eq, Structural)]
pub struct ConnectionPlan {
    /// Several ranged connections can be used.
    pub can_multi: bool,
    /// Segments to cut a fresh download into.
    pub initial_segments: u16,
    pub min_connections: u16,
    pub max_connections: u16,
    /// Connections to start with.
    pub initial_target: u16,
    /// The hourly quota in bytes, if any.
    pub hourly_quota_bytes: Option<u64>,
}

/// `mb` mebibytes in bytes, saturating.
pub open spec fn mebibytes(mb: u64) -> u64 {
    if mb * 1048576 > u64::MAX {
        u64::MAX
    } else {
        (mb * 1048576) as u64
    }
}

/// Plans the connections for a download of `total_size` bytes from a
/// source that does or does not serve ranges: several connections only
/// when it does and the file is larger than one minimum segment; then the
/// configured bounds, the minimum capped by the maximum and the initial
/// count clamped between them; otherwise a single connection.
pub fn plan_connections(config: &DownloadConfig, range_supported: bool, total_size: u64) -> (plan: ConnectionPlan)
    ensures
        plan.can_multi == (range_supported && total_size > config.min_segment_size),
        plan.can_multi ==> {
            &&& plan.initial_segments == config.initial_connections
            &&& plan.max_connections == config.max_connections
            &&& plan.min_connections == if config.min_connections < config.max_connections {
                config.min_connections
            } else {
                config.max_connections
            }
            &&& plan.initial_target == if config.initial_connections < plan.min_connections {
                plan.min_connections
            } else if config.initial_connections > plan.max_connections {
                plan.max_connections
            } else {
                config.initial_connections
            }
        },
        !plan.can_multi ==> plan.initial_segments == 1 && plan.max_connections == 1
            && plan.min_connections == 1 && plan.initial_target == 1,
        plan.hourly_quota_bytes == match config.hour_quota_mb {
            Some(mb) => Some(mebibytes(mb)),
            None => None,
        },
        plan.min_connections <= plan.initial_target <= plan.max_connections,
{
    let can_multi = range_supported && total_size > config.min_segment_size;
    let quota = match config.hour_quota_mb {
        Some(mb) => Some(
            if mb > u64::MAX / 1048576 {
                u64::MAX
            } else {
                mb * 1048576
            },
        ),
        None => None,
    };
    if can_multi {
        let max = config.max_connections;
        let min = if config.min_connections < max {
            config.min_connections
        } else {
            max
        };
        let target = if config.initial_connections < min {
            min
        } else if config.initial_connections > max {
            max
        } else {
            config.initial_connections
        };
        ConnectionPlan {
            can_multi,
            initial_segments: config.initial_connections,
            min_connections: min,
            max_connections: max,
            initial_target: target,
            hourly_quota_bytes: quota,
        }
    } else {
        ConnectionPlan {
            can_multi,
            initial_segments: 1,
            min_connections: 1,
            max_connections: 1,
            initial_target: 1,
            hourly_quota_bytes: quota,
        }
    }
}

/// Adopts metadata loaded from disk for a resumed download: it must name
/// one of the download's sources and the size the source reports now;
/// then it takes the selected URL and the source's current validators.
pub fn prepare_resume(
    loaded: DownloadMetadata,
    sources: &Vec<String>,
    selected_url: String,
    remote_total: u64,
    etag: Option<String>,
    last_modified: Option<String>,
) -> (r: Result<DownloadMetadata, LokiDmError>)
    ensures
        match r {
            Ok(m) => {
                &&& crate::config::strs_view(sources@).contains(loaded.url@)
                &&& loaded.total_size == remote_total
                &&& m == DownloadMetadata { url: selected_url, etag, last_modified, ..loaded }
            },
            Err(e) => {
                &&& !(crate::config::strs_view(sources@).contains(loaded.url@) && loaded.total_size
                    == remote_total)
                &&& e matches LokiDmError::Message(msg) && msg@
                    == "resume metadata does not match source URL or remote size"@
            },
        },
{
    if !contains_string(sources, &loaded.url) || loaded.total_size != remote_total {
        return Err(
            LokiDmError::Message("resume metadata does not match source URL or remote size".to_owned()),
        );
    }
    let mut m = loaded;
    m.url = selected_url;
    m.etag = etag;
    m.last_modified = last_modified;
    Ok(m)
}

/// The ids of the segments not yet complete, in order.
pub open spec fn open_segment_ids(segs: Seq<SegmentMetadata>) -> Seq<usize>
    decreases segs.len(),
{
    if segs.len() == 0 {
        Seq::empty()
    } else {
        let rest = open_segment_ids(segs.drop_last());
        if segs.last().finished() {
            rest
        } else {
            rest.push(segs.last().id)
        }
    }
}

/// `id` is the id of some incomplete segment.
pub open spec fn is_open_id(segs: Seq<SegmentMetadata>, id: usize) -> bool {
    exists|i: int| 0 <= i < segs.len() && !segs[i].finished() && segs[i].id == id
}

/// Every incomplete segment is queued, however much of it is already
/// downloaded, and only incomplete segments are: each queued id is that of
/// an incomplete segment, each incomplete segment's id is queued, and, with
/// each segment at its own index, the ids come in increasing order.
pub proof fn lemma_open_segments_queued(segs: Seq<SegmentMetadata>)
    ensures
        forall|i: int| 0 <= i < segs.len() && !(#[trigger] segs[i]).finished() ==> open_segment_ids(segs).contains(
            segs[i].id,
        ),
        forall|k: int|
            0 <= k < open_segment_ids(segs).len() ==> exists|i: int|
                0 <= i < segs.len() && !segs[i].finished() && #[trigger] open_segment_ids(segs)[k] == segs[i].id,
        crate::metadata::ids_match(segs) ==> forall|a: int, b: int|
            0 <= a < b < open_segment_ids(segs).len() ==> #[trigger] open_segment_ids(segs)[a]
                < #[trigger] open_segment_ids(segs)[b],
        crate::metadata::ids_match(segs) ==> forall|k: int|
            0 <= k < open_segment_ids(segs).len() ==> #[trigger] open_segment_ids(segs)[k] < segs.len(),
    decreases segs.len(),
{
    if segs.len() > 0 {
        let ds = segs.drop_last();
        let last = segs.len() - 1;
        lemma_open_segments_queued(ds);
        let rest = open_segment_ids(ds);
        let all = open_segment_ids(segs);
        assert forall|i: int| 0 <= i < segs.len() && !(#[trigger] segs[i]).finished() implies all.contains(
            segs[i].id,
        ) by {
            if i < last {
                assert(ds[i] == segs[i]);
                assert(rest.contains(ds[i].id));
                let k = choose|k: int| 0 <= k < rest.len() && rest[k] == ds[i].id;
                assert(all[k] == rest[k]);
            } else {
                assert(all[all.len() - 1] == segs[i].id);
            }
        }
        assert forall|k: int| 0 <= k < all.len() implies exists|i: int|
            0 <= i < segs.len() && !segs[i].finished() && #[trigger] all[k] == segs[i].id by {
            if k < rest.len() {
                assert(all[k] == rest[k]);
                let i = choose|i: int| 0 <= i < ds.len() && !ds[i].finished() && rest[k] == ds[i].id;
                assert(ds[i] == segs[i]);
            } else {
                assert(all[k] == segs[last].id);
            }
        }
        if crate::metadata::ids_match(segs) {
            assert(crate::metadata::ids_match(ds)) by {
                assert forall|i: int| 0 <= i < ds.len() implies (#[trigger] ds[i]).id == i by {
                    assert(ds[i] == segs[i]);
                }
            }
            assert forall|k: int| 0 <= k < all.len() implies #[trigger] all[k] < segs.len() by {
                if k < rest.len() {
                    assert(all[k] == rest[k]);
                } else {
                    assert(segs[last].id == last);
                }
            }
            assert forall|a: int, b: int| 0 <= a < b < all.len() implies #[trigger] all[a] < #[trigger] all[b] by {
                if b < rest.len() {
                    assert(all[a] == rest[a]);
                    assert(all[b] == rest[b]);
                } else {
                    assert(all[a] == rest[a]);
                    assert(rest[a] < ds.len());
                    assert(segs[last].id == last);
                }
            }
        }
    }
}

/// The work queue a download starts with: the ids of its incomplete
/// segments, in order.
pub fn initial_work_queue(meta: &DownloadMetadata) -> (queue: std::collections::VecDeque<usize>)
    requires
        spans_fit(meta.segments@),
    ensures
        queue@ == open_segment_ids(meta.segments@),
        forall|i: int|
            0 <= i < meta.segments@.len() && !(#[trigger] meta.segments@[i]).finished() ==> queue@.contains(
                meta.segments@[i].id,
            ),
        forall|k: int| 0 <= k < queue@.len() ==> is_open_id(meta.segments@, #[trigger] queue@[k]),
{
    let mut queue: std::collections::VecDeque<usize> = std::collections::VecDeque::new();
    let ghost segs = meta.segments@;
    let mut i: usize = 0;
    while i < meta.segments.len()
        invariant
            segs == meta.segments@,
            spans_fit(segs),
            i <= segs.len(),
            queue@ == open_segment_ids(segs.take(i as int)),
        decreases segs.len() - i,
    {
        assert(segs.take(i as int + 1).drop_last() =~= segs.take(i as int));
        let seg = meta.segments[i];
        assert(seg.span_fits());
        if !seg.is_complete() {
            queue.push_back(seg.id);
        }
        i = i + 1;
    }
    assert(segs.take(segs.len() as int) =~= segs);
    proof {
        lemma_open_segments_queued(segs);
        assert forall|k: int| 0 <= k < queue@.len() implies is_open_id(meta.segments@, #[trigger] queue@[k]) by {
            assert(queue@[k] == open_segment_ids(segs)[k]);
        }
    }
    queue
}

/// Length of the quota window: one hour, in milliseconds.
pub const QUOTA_WINDOW_MS: u64 = 3600000;

/// What to do with `incoming` bytes under an hourly quota.
#[derive(Debug, Clone, Copy, PartialEq, Eq, Structural)]
pub struct QuotaStep {
    /// The window started over (its start is now).
    pub reset_window: bool,
    /// Bytes counted in the window afterwards.
    pub bytes_used: u64,
    /// Milliseconds to wait before asking again, when the bytes do not fit.
    pub wait_ms: Option<u64>,
}

/// One look at the hourly quota: a window older than an hour starts over
/// with nothing used; bytes that fit under `limit` are counted and may go;
/// otherwise the caller waits for the rest of the hour, as measured when it
/// asked.
pub fn quota_step(bytes_used: u64, elapsed_ms: u64, incoming: u64, limit: u64) -> (r: QuotaStep)
    ensures
        r.reset_window == (elapsed_ms >= QUOTA_WINDOW_MS),
        ({
            let used: u64 = if r.reset_window {
                0
            } else {
                bytes_used
            };
            if sat_add(used, incoming) <= limit {
                r.bytes_used == sat_add(used, incoming) && r.wait_ms is None
            } else {
                r.bytes_used == used && r.wait_ms == Some(sat_sub(QUOTA_WINDOW_MS, elapsed_ms))
            }
        }),
{
    let reset = elapsed_ms >= QUOTA_WINDOW_MS;
    let used = if reset {
        0
    } else {
        bytes_used
    };
    let total = used.saturating_add(incoming);
    if total <= limit {
        QuotaStep { reset_window: reset, bytes_used: total, wait_ms: None }
    } else {
        QuotaStep {
            reset_window: reset,
            bytes_used: used,
            wait_ms: Some(QUOTA_WINDOW_MS.saturating_sub(elapsed_ms)),
        }
    }
}

} // verus!
