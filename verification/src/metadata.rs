//! Resume metadata: the byte ranges ("segments") of a download and how far
//! each one has been fetched.
use vstd::prelude::*;

verus! {

/// `u64::saturating_sub`.
pub open spec fn sat_sub(a: u64, b: u64) -> u64 {
    if a >= b {
        (a - b) as u64
    } else {
        0
    }
}

/// Progress state of one segment.
#[derive(Debug, Clone, Copy, PartialEq, Eq, Structural)]
pub enum SegmentState {
    Pending,
    InProgress,
    Done,
}

/// One inclusive byte range `start..=end` of the remote file.
#[derive(Debug, Clone, Copy)]
pub struct SegmentMetadata {
    pub id: usize,
    pub start: u64,
    pub end: u64,
    pub downloaded: u64,
    pub state: SegmentState,
}

impl SegmentMetadata {
    /// Number of bytes the segment covers (`len()`).
    pub open spec fn span(&self) -> int {
        sat_sub(self.end, self.start) + 1
    }

    /// `len()` does not overflow.
    pub open spec fn span_fits(&self) -> bool {
        sat_sub(self.end, self.start) < u64::MAX
    }

    /// All bytes of the segment are in (`is_complete()`).
    pub open spec fn finished(&self) -> bool {
        self.downloaded >= self.span()
    }

    /// Number of bytes the segment covers: `end - start + 1`, or 1 when
    /// `end < start`.
    pub fn len(&self) -> (n: u64)
        requires
            self.span_fits(),
        ensures
            n == self.span(),
    {
        let d = if self.end >= self.start {
            self.end - self.start
        } else {
            0
        };
        d + 1
    }

    /// Whether the range is inverted (`end < start`).
    pub fn is_empty(&self) -> (b: bool)
        ensures
            b == (self.end < self.start),
    {
        self.end < self.start
    }

    /// Bytes still missing: `len() - downloaded`, at least 0.
    pub fn remaining(&self) -> (n: u64)
        requires
            self.span_fits(),
        ensures
            n == if self.downloaded >= self.span() {
                0
            } else {
                self.span() - self.downloaded
            },
    {
        let l = self.len();
        if l >= self.downloaded {
            l - self.downloaded
        } else {
            0
        }
    }

    /// Whether every byte of the segment has been fetched.
    pub fn is_complete(&self) -> (b: bool)
        requires
            self.span_fits(),
        ensures
            b == self.finished(),
    {
        self.downloaded >= self.len()
    }
}

/// Every segment's `len()` is representable.
pub open spec fn spans_fit(segs: Seq<SegmentMetadata>) -> bool {
    forall|i: int| 0 <= i < segs.len() ==> (#[trigger] segs[i]).span_fits()
}

/// Segment `i` sits at index `i`.
pub open spec fn ids_match(segs: Seq<SegmentMetadata>) -> bool {
    forall|i: int| 0 <= i < segs.len() ==> (#[trigger] segs[i]).id == i
}

/// Sum of the `downloaded` counters.
pub open spec fn downloaded_sum(segs: Seq<SegmentMetadata>) -> int
    decreases segs.len(),
{
    if segs.len() == 0 {
        0
    } else {
        downloaded_sum(segs.drop_last()) + segs.last().downloaded
    }
}

/// Sum of the segment lengths.
pub open spec fn span_sum(segs: Seq<SegmentMetadata>) -> int
    decreases segs.len(),
{
    if segs.len() == 0 {
        0
    } else {
        span_sum(segs.drop_last()) + segs.last().span()
    }
}

/// A segment as `normalize_for_resume` leaves it: not in progress, and
/// never counted past its end.
pub open spec fn resumed_segment(s: SegmentMetadata) -> SegmentMetadata {
    SegmentMetadata {
        state: if s.state == SegmentState::InProgress {
            SegmentState::Pending
        } else {
            s.state
        },
        downloaded: if s.downloaded > s.span() {
            s.span() as u64
        } else {
            s.downloaded
        },
        ..s
    }
}

/// Everything persisted about a download in progress.
#[derive(Debug, Clone)]
pub struct DownloadMetadata {
    pub version: u16,
    pub url: String,
    pub total_size: u64,
    pub bytes_downloaded: u64,
    pub output_path: String,
    pub part_path: String,
    pub etag: Option<String>,
    pub last_modified: Option<String>,
    pub created_at_unix_ms: u128,
    pub updated_at_unix_ms: u128,
    pub segments: Vec<SegmentMetadata>,
}

/// Milliseconds since the Unix epoch by the system clock (`SystemTime::now`),
/// or 0 when the clock reads earlier than the epoch. Nothing is promised of
/// the value: it is whatever the clock says.
#[verifier::external_body]
pub fn now_unix_ms() -> (ms: u128) {
    match std::time::SystemTime::now().duration_since(std::time::UNIX_EPOCH) {
        Ok(v) => v.as_millis(),
        Err(_) => 0,
    }
}

impl DownloadMetadata {
    /// Fresh metadata (format version 1, nothing downloaded yet), stamped
    /// with the current time as both creation and update time.
    pub fn for_new(
        url: String,
        output_path: String,
        part_path: String,
        total_size: u64,
        etag: Option<String>,
        last_modified: Option<String>,
        segments: Vec<SegmentMetadata>,
    ) -> (m: Self)
        ensures
            m.version == 1,
            m.url == url,
            m.total_size == total_size,
            m.bytes_downloaded == 0,
            m.output_path == output_path,
            m.part_path == part_path,
            m.etag == etag,
            m.last_modified == last_modified,
            m.created_at_unix_ms == m.updated_at_unix_ms,
            m.segments@ == segments@,
    {
        let now = now_unix_ms();
        DownloadMetadata {
            version: 1,
            url,
            total_size,
            bytes_downloaded: 0,
            output_path,
            part_path,
            etag,
            last_modified,
            created_at_unix_ms: now,
            updated_at_unix_ms: now,
            segments,
        }
    }

    /// Whether every segment is complete.
    pub fn is_complete(&self) -> (b: bool)
        requires
            spans_fit(self.segments@),
        ensures
            b == forall|i: int| 0 <= i < self.segments@.len() ==> (#[trigger] self.segments@[i]).finished(),
    {
        let mut i: usize = 0;
        while i < self.segments.len()
            invariant
                i <= self.segments@.len(),
                spans_fit(self.segments@),
                forall|j: int| 0 <= j < i ==> (#[trigger] self.segments@[j]).finished(),
            decreases self.segments.len() - i,
        {
            if !self.segments[i].is_complete() {
                return false;
            }
            i = i + 1;
        }
        true
    }

    /// Prepares loaded metadata for another run: segments that were in
    /// progress go back to pending, no counter exceeds its segment, the
    /// total downloaded is recomputed and the update time is refreshed.
    pub fn normalize_for_resume(&mut self)
        requires
            spans_fit(old(self).segments@),
            downloaded_sum(old(self).segments@.map_values(|s: SegmentMetadata| resumed_segment(s)))
                <= u64::MAX,
        ensures
            final(self).segments@ == old(self).segments@.map_values(
                |s: SegmentMetadata| resumed_segment(s),
            ),
            final(self).bytes_downloaded == downloaded_sum(final(self).segments@),
            final(self).version == old(self).version,
            final(self).url == old(self).url,
            final(self).total_size == old(self).total_size,
            final(self).output_path == old(self).output_path,
            final(self).part_path == old(self).part_path,
            final(self).etag == old(self).etag,
            final(self).last_modified == old(self).last_modified,
            final(self).created_at_unix_ms == old(self).created_at_unix_ms,
    {
        let ghost target = old(self).segments@.map_values(|s: SegmentMetadata| resumed_segment(s));
        let mut i: usize = 0;
        while i < self.segments.len()
            invariant
                i <= self.segments@.len(),
                self.segments@.len() == old(self).segments@.len(),
                spans_fit(old(self).segments@),
                target == old(self).segments@.map_values(|s: SegmentMetadata| resumed_segment(s)),
                forall|j: int| 0 <= j < i ==> self.segments@[j] == target[j],
                forall|j: int| i <= j < self.segments@.len() ==> self.segments@[j] == old(self).segments@[j],
                self.version == old(self).version,
                self.url == old(self).url,
                self.total_size == old(self).total_size,
                self.output_path == old(self).output_path,
                self.part_path == old(self).part_path,
                self.etag == old(self).etag,
                self.last_modified == old(self).last_modified,
                self.created_at_unix_ms == old(self).created_at_unix_ms,
            decreases self.segments.len() - i,
        {
            let mut seg = self.segments[i];
            assert(seg.span_fits());
            if seg.state == SegmentState::InProgress {
                seg.state = SegmentState::Pending;
            }
            let l = seg.len();
            if seg.downloaded > l {
                seg.downloaded = l;
            }
            self.segments.set(i, seg);
            i = i + 1;
        }
        assert(self.segments@ =~= target);
        self.bytes_downloaded = sum_downloaded(&self.segments);
        self.updated_at_unix_ms = now_unix_ms();
    }
}

/// Preparing for resume twice changes the segments no more than once: the
/// second pass finds every counter capped and nothing in progress, so only
/// the update time moves.
pub proof fn lemma_resume_settles(segs: Seq<SegmentMetadata>)
    ensures
        segs.map_values(|s: SegmentMetadata| resumed_segment(s)).map_values(
            |s: SegmentMetadata| resumed_segment(s),
        ) == segs.map_values(|s: SegmentMetadata| resumed_segment(s)),
{
    let once = segs.map_values(|s: SegmentMetadata| resumed_segment(s));
    let twice = once.map_values(|s: SegmentMetadata| resumed_segment(s));
    assert forall|i: int| 0 <= i < segs.len() implies twice[i] == once[i] by {
        let r = resumed_segment(segs[i]);
        assert(r.span() == segs[i].span());
    }
    assert(twice =~= once);
}

/// Sum of the `downloaded` counters of `segs`.
pub fn sum_downloaded(segs: &Vec<SegmentMetadata>) -> (total: u64)
    requires
        downloaded_sum(segs@) <= u64::MAX,
    ensures
        total == downloaded_sum(segs@),
{
    let mut total: u64 = 0;
    let mut i: usize = 0;
    while i < segs.len()
        invariant
            i <= segs@.len(),
            downloaded_sum(segs@) <= u64::MAX,
            total == downloaded_sum(segs@.take(i as int)),
        decreases segs.len() - i,
    {
        assert(segs@.take(i as int + 1).drop_last() =~= segs@.take(i as int));
        proof {
            lemma_downloaded_sum_prefix(segs@, i as int + 1);
        }
        total = total + segs[i].downloaded;
        i = i + 1;
    }
    assert(segs@.take(segs@.len() as int) =~= segs@);
    total
}

/// Prefix sums never exceed the whole sum.
pub proof fn lemma_downloaded_sum_prefix(segs: Seq<SegmentMetadata>, k: int)
    requires
        0 <= k <= segs.len(),
    ensures
        downloaded_sum(segs.take(k)) <= downloaded_sum(segs),
    decreases segs.len() - k,
{
    if k < segs.len() {
        lemma_downloaded_sum_prefix(segs, k + 1);
        assert(segs.take(k + 1).drop_last() =~= segs.take(k));
    } else {
        assert(segs.take(k) =~= segs);
    }
}

/// Number of segments `build_initial_segments` makes: `min(max(count, 1), total)`.
pub open spec fn initial_count(total: u64, count: u16) -> int {
    let c: int = if count == 0 {
        1
    } else {
        count as int
    };
    if total < c {
        total as int
    } else {
        c
    }
}

/// Width of every segment but the last: `max(total / max(count, 1), 1)`.
pub open spec fn initial_chunk(total: u64, count: u16) -> int {
    let c: int = if count == 0 {
        1
    } else {
        count as int
    };
    if (total as int) / c < 1 {
        1
    } else {
        (total as int) / c
    }
}

/// The `i`-th initial segment: equal chunks, the last one reaching the end
/// of the file.
pub open spec fn initial_segment(total: u64, count: u16, i: int) -> SegmentMetadata {
    let chunk = initial_chunk(total, count);
    SegmentMetadata {
        id: i as usize,
        start: (i * chunk) as u64,
        end: if i == initial_count(total, count) - 1 {
            (total - 1) as u64
        } else {
            ((i + 1) * chunk - 1) as u64
        },
        downloaded: 0,
        state: SegmentState::Pending,
    }
}

proof fn lemma_chunk_facts(total: u64, count: u16, i: int)
    requires
        total > 0,
        0 <= i < initial_count(total, count),
    ensures
        initial_chunk(total, count) >= 1,
        i * initial_chunk(total, count) < total,
        (i + 1) * initial_chunk(total, count) <= total,
        i < initial_count(total, count) - 1 ==> (i + 1) * initial_chunk(total, count) < total,
        i * initial_chunk(total, count) + initial_chunk(total, count) == (i + 1) * initial_chunk(
            total,
            count,
        ),
        (total as int) < (if count == 0 {
            1
        } else {
            count as int
        }) ==> initial_chunk(total, count) == 1,
{
    let c: int = if count == 0 {
        1
    } else {
        count as int
    };
    let chunk = initial_chunk(total, count);
    let n = initial_count(total, count);
    assert(i * chunk + chunk == (i + 1) * chunk) by (nonlinear_arith);
    if total < c {
        assert((total as int) / c == 0) by (nonlinear_arith)
            requires
                0 <= total < c,
        ;
        assert(chunk == 1);
    } else {
        assert(n == c);
        assert(c * ((total as int) / c) <= total) by (nonlinear_arith)
            requires
                c >= 1,
                total >= 0,
        ;
        assert((total as int) / c >= 1) by (nonlinear_arith)
            requires
                c >= 1,
                total >= c,
        ;
        assert(chunk == (total as int) / c);
        assert((i + 1) * chunk <= c * chunk) by (nonlinear_arith)
            requires
                i + 1 <= c,
                chunk >= 1,
        ;
        if i < n - 1 {
            assert((i + 1) * chunk + chunk <= c * chunk) by (nonlinear_arith)
                requires
                    i + 2 <= c,
                    chunk >= 1,
            ;
        }
    }
}

/// The initial segments tile the file: at least one, the first starts at 0,
/// the last ends at the final byte, each starts right after the previous
/// one ends, and none is empty.
pub proof fn lemma_initial_segments_tile(total: u64, count: u16)
    requires
        total > 0,
    ensures
        initial_count(total, count) >= 1,
        initial_segment(total, count, 0).start == 0,
        initial_segment(total, count, initial_count(total, count) - 1).end == total - 1,
        forall|i: int|
            0 <= i < initial_count(total, count) - 1 ==> #[trigger] initial_segment(total, count, i + 1).start
                == initial_segment(total, count, i).end + 1,
        forall|i: int|
            0 <= i < initial_count(total, count) ==> #[trigger] initial_segment(total, count, i).start
                <= initial_segment(total, count, i).end,
{
    let n = initial_count(total, count);
    lemma_chunk_facts(total, count, 0);
    assert(0 * initial_chunk(total, count) == 0);
    assert forall|i: int| 0 <= i < n - 1 implies #[trigger] initial_segment(total, count, i + 1).start
        == initial_segment(total, count, i).end + 1 by {
        lemma_chunk_facts(total, count, i);
        lemma_chunk_facts(total, count, i + 1);
    }
    assert forall|i: int| 0 <= i < n implies #[trigger] initial_segment(total, count, i).start
        <= initial_segment(total, count, i).end by {
        lemma_chunk_facts(total, count, i);
    }
}

/// Splits `0..total` into `min(max(count, 1), total)` pending segments of
/// equal width, the last one absorbing the remainder; no segments when
/// `total` is 0.
pub fn build_initial_segments(total_size: u64, count: u16) -> (segs: Vec<SegmentMetadata>)
    ensures
        total_size == 0 ==> segs@.len() == 0,
        total_size > 0 ==> segs@.len() == initial_count(total_size, count),
        forall|i: int| 0 <= i < segs@.len() ==> segs@[i] == initial_segment(total_size, count, i),
{
    let mut segments: Vec<SegmentMetadata> = Vec::new();
    if total_size == 0 {
        return segments;
    }
    let c: u64 = if count == 0 {
        1
    } else {
        count as u64
    };
    let chunk: u64 = if total_size / c < 1 {
        1
    } else {
        total_size / c
    };
    let ghost n = initial_count(total_size, count);
    assert(chunk == initial_chunk(total_size, count));
    let mut start: u64 = 0;
    let mut id: usize = 0;
    assert(n >= 1);
    while start < total_size
        invariant
            total_size > 0,
            chunk == initial_chunk(total_size, count),
            c == (if count == 0 {
                1
            } else {
                count as int
            }),
            n == initial_count(total_size, count),
            n >= 1,
            id <= n,
            segments@.len() == id,
            id < n ==> start == id * chunk && start < total_size,
            id == n ==> start == total_size,
            forall|j: int| 0 <= j < id ==> segments@[j] == initial_segment(total_size, count, j),
        decreases total_size - start,
    {
        assert(id < n) by {
            if id == n {
            }
        }
        proof {
            lemma_chunk_facts(total_size, count, id as int);
        }
        let mut end: u64 = start + chunk - 1;
        if id as u64 == c - 1 || end >= total_size {
            end = total_size - 1;
        }
        let ghost expected = initial_segment(total_size, count, id as int);
        assert(end == expected.end) by {
            assert(start + chunk - 1 == (id as int + 1) * chunk - 1);
            if id as int == n - 1 {
                if id as u64 != c - 1 {
                    assert((total_size as int) < c);
                    assert(chunk == 1);
                    assert(start == id);
                }
            } else {
                assert(id as int + 1 < n);
            }
        }
        segments.push(
            SegmentMetadata { id, start, end, downloaded: 0, state: SegmentState::Pending },
        );
        id = id + 1;
        start = end + 1;
        proof {
            lemma_chunk_facts(total_size, count, id as int - 1);
        }
    }
    segments
}

/// The file name the sidecar files are named after: the output's file name,
/// or `download` when it has none.
pub open spec fn sidecar_base(output_path: Seq<char>) -> Seq<char> {
    if crate::av::path_file_name(output_path).len() == 0 {
        "download"@
    } else {
        crate::av::path_file_name(output_path)
    }
}

/// The directory the sidecar files go to: the output's parent, or `.` when
/// it has none.
pub open spec fn sidecar_dir(output_path: Seq<char>) -> Seq<char> {
    match crate::paths::path_parent(output_path) {
        Some(p) => p,
        None => "."@,
    }
}

/// The partial file and the resume metadata file kept beside a download:
/// `<name>.part` and `<name>.lokidm` in the output's directory, named after
/// the output file (see `sidecar_base` and `sidecar_dir`).
pub fn sidecar_paths(output_path: &str) -> (r: (String, String))
    ensures
        r.0@ == crate::paths::path_joined(sidecar_dir(output_path@), sidecar_base(output_path@) + ".part"@),
        r.1@ == crate::paths::path_joined(sidecar_dir(output_path@), sidecar_base(output_path@) + ".lokidm"@),
{
    let name = crate::av::file_name_text(output_path);
    let base = if name.as_str().is_empty() {
        "download".to_owned()
    } else {
        name
    };
    let dir = match crate::paths::parent_text(output_path) {
        Some(p) => p,
        None => ".".to_owned(),
    };
    let mut part = base.clone();
    part.append(".part");
    let mut meta = base;
    meta.append(".lokidm");
    let a = crate::paths::join_path(dir.as_str(), part.as_str());
    let b = crate::paths::join_path(dir.as_str(), meta.as_str());
    (a, b)
}

/// Whether every segment's `len()` is representable (see `spans_fit`).
pub fn segments_fit(segs: &Vec<SegmentMetadata>) -> (b: bool)
    ensures
        b == spans_fit(segs@),
{
    let mut i: usize = 0;
    while i < segs.len()
        invariant
            i <= segs@.len(),
            forall|j: int| 0 <= j < i ==> (#[trigger] segs@[j]).span_fits(),
        decreases segs.len() - i,
    {
        let s = segs[i];
        let d = if s.end >= s.start {
            s.end - s.start
        } else {
            0
        };
        if d == u64::MAX {
            assert(!segs@[i as int].span_fits());
            return false;
        }
        i = i + 1;
    }
    true
}

/// Whether the `downloaded` counters sum to at most `u64::MAX`.
pub fn downloaded_sum_fits(segs: &Vec<SegmentMetadata>) -> (b: bool)
    ensures
        b == (downloaded_sum(segs@) <= u64::MAX),
{
    let mut total: u64 = 0;
    let mut i: usize = 0;
    while i < segs.len()
        invariant
            i <= segs@.len(),
            total == downloaded_sum(segs@.take(i as int)),
        decreases segs.len() - i,
    {
        assert(segs@.take(i as int + 1).drop_last() =~= segs@.take(i as int));
        let d = segs[i].downloaded;
        if total > u64::MAX - d {
            proof {
                lemma_downloaded_sum_prefix(segs@, i as int + 1);
            }
            return false;
        }
        total = total + d;
        i = i + 1;
    }
    assert(segs@.take(segs@.len() as int) =~= segs@);
    true
}

/// Whether loaded metadata can be made ready to resume: every segment's
/// length is representable and the capped counters sum within a `u64` (what
/// `normalize_for_resume` needs).
pub fn resume_fits(meta: &DownloadMetadata) -> (b: bool)
    ensures
        b == (spans_fit(meta.segments@) && downloaded_sum(
            meta.segments@.map_values(|s: SegmentMetadata| resumed_segment(s)),
        ) <= u64::MAX),
{
    if !segments_fit(&meta.segments) {
        return false;
    }
    let mut resumed: Vec<SegmentMetadata> = Vec::new();
    let mut i: usize = 0;
    while i < meta.segments.len()
        invariant
            i <= meta.segments@.len(),
            spans_fit(meta.segments@),
            resumed@ == meta.segments@.take(i as int).map_values(|s: SegmentMetadata| resumed_segment(s)),
        decreases meta.segments.len() - i,
    {
        let s = meta.segments[i];
        assert(s.span_fits());
        let l = s.len();
        let d = if s.downloaded > l {
            l
        } else {
            s.downloaded
        };
        let st = if s.state == SegmentState::InProgress {
            SegmentState::Pending
        } else {
            s.state
        };
        resumed.push(SegmentMetadata { state: st, downloaded: d, ..s });
        assert(resumed@ =~= meta.segments@.take(i as int + 1).map_values(|s: SegmentMetadata| resumed_segment(s)));
        i = i + 1;
    }
    assert(meta.segments@.take(meta.segments@.len() as int) =~= meta.segments@);
    downloaded_sum_fits(&resumed)
}

} // verus!
