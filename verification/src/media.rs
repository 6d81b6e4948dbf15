//! Streaming media: recognising HLS playlists, describing the formats a
//! playlist or `yt-dlp` offers, and choosing the stream to fetch.
use vstd::prelude::*;
use vstd::string::StringSliceAdditionalSpecFns;

use crate::error::LokiDmError;
use crate::text::{chars_of, contains_chars, contains_seq, decimal, decimal_string, lower_chars, lower_seq};

verus! {

/// Where a media description came from.
#[derive(Debug, Clone, Copy, PartialEq, Eq, Structural)]
pub enum MediaSourceKind {
    Hls,
    YtDlp,
}

/// One format a media source offers.
#[derive(Debug, Clone)]
pub struct MediaFormat {
    pub id: String,
    pub ext: Option<String>,
    pub quality: Option<String>,
    pub resolution: Option<String>,
    pub audio_only: bool,
    pub filesize: Option<u64>,
}

/// What probing a media URL found.
#[derive(Debug, Clone)]
pub struct MediaProbe {
    pub title: Option<String>,
    pub source: MediaSourceKind,
    pub extractor: Option<String>,
    pub formats: Vec<MediaFormat>,
}

/// A URL that names an HLS playlist: it contains `.m3u8`, ignoring ASCII
/// case.
pub open spec fn names_hls(url: Seq<char>) -> bool {
    contains_seq(lower_seq(url), ".m3u8"@)
}

/// Whether a URL names an HLS playlist.
pub fn is_hls_url(url: &str) -> (b: bool)
    ensures
        b == names_hls(url@),
{
    let l = lower_chars(chars_of(url).as_slice());
    contains_chars(l.as_slice(), chars_of(".m3u8").as_slice())
}

/// The fields of one `yt-dlp` format entry that matter, each absent when
/// missing or of another JSON type.
#[derive(Debug, Clone)]
pub struct YtFormatFields {
    pub format_id: Option<String>,
    pub vcodec: Option<String>,
    pub acodec: Option<String>,
    pub format_note: Option<String>,
    pub resolution: Option<String>,
    pub height: Option<u64>,
    pub ext: Option<String>,
    pub filesize: Option<u64>,
    pub filesize_approx: Option<u64>,
}

/// The fields of a `yt-dlp -J` answer that matter.
#[derive(Debug, Clone)]
pub struct YtProbeFields {
    pub title: Option<String>,
    pub extractor: Option<String>,
    pub formats: Vec<YtFormatFields>,
}

/// The text of an optional string, or the empty text.
pub open spec fn or_empty(o: Option<String>) -> Seq<char> {
    match o {
        Some(s) => s@,
        None => Seq::empty(),
    }
}

/// `f` describes the `yt-dlp` entry `y`: its id (or `unknown`), extension
/// and note; its resolution, else its height as `<h>p`; audio only when
/// there is no video codec but an audio one; its size, else the estimate.
pub open spec fn format_from(f: MediaFormat, y: YtFormatFields) -> bool {
    &&& f.id@ == match y.format_id {
        Some(i) => i@,
        None => "unknown"@,
    }
    &&& f.ext == y.ext
    &&& f.quality == y.format_note
    &&& match y.resolution {
        Some(r) => f.resolution == Some(r),
        None => match y.height {
            Some(h) => f.resolution matches Some(r) && r@ == decimal(h as nat) + "p"@,
            None => f.resolution is None,
        },
    }
    &&& f.audio_only == (or_empty(y.vcodec) == "none"@ && or_empty(y.acodec) != "none"@)
    &&& f.filesize == match y.filesize {
        Some(s) => Some(s),
        None => y.filesize_approx,
    }
}

/// Whether an optional string is exactly `none`.
fn is_none_text(o: &Option<String>) -> (b: bool)
    ensures
        b == (or_empty(*o) == "none"@),
{
    match o {
        Some(s) => crate::text::chars_eq(chars_of(s.as_str()).as_slice(), chars_of("none").as_slice()),
        None => {
            proof {
                reveal_strlit("none");
                assert("none"@.len() == 4);
                assert(or_empty(*o).len() == 0);
            }
            false
        },
    }
}

/// The format a `yt-dlp` entry describes (see `format_from`).
pub fn format_from_fields(y: YtFormatFields) -> (f: MediaFormat)
    ensures
        format_from(f, y),
{
    let audio_only = is_none_text(&y.vcodec) && !is_none_text(&y.acodec);
    let id = match y.format_id {
        Some(i) => i,
        None => "unknown".to_owned(),
    };
    let resolution = match y.resolution {
        Some(r) => Some(r),
        None => match y.height {
            Some(h) => {
                let mut r = decimal_string(h);
                r.append("p");
                Some(r)
            },
            None => None,
        },
    };
    let filesize = match y.filesize {
        Some(s) => Some(s),
        None => y.filesize_approx,
    };
    MediaFormat { id, ext: y.ext, quality: y.format_note, resolution, audio_only, filesize }
}

/// The media description of a `yt-dlp` answer: its title and extractor,
/// and one format per entry, in order.
pub fn probe_from_ytdlp(fields: YtProbeFields) -> (probe: MediaProbe)
    ensures
        probe.title == fields.title,
        probe.extractor == fields.extractor,
        probe.source == MediaSourceKind::YtDlp,
        probe.formats@.len() == fields.formats@.len(),
        forall|i: int| 0 <= i < probe.formats@.len() ==> format_from(#[trigger] probe.formats@[i], fields.formats@[i]),
{
    let YtProbeFields { title, extractor, formats: entries } = fields;
    let ghost all = entries@;
    let mut entries = entries;
    let mut formats: Vec<MediaFormat> = Vec::new();
    let n = entries.len();
    let mut i: usize = 0;
    while entries.len() > 0
        invariant
            n == all.len(),
            i + entries@.len() == n,
            entries@ == all.skip(i as int),
            formats@.len() == i,
            forall|j: int| 0 <= j < i ==> format_from(#[trigger] formats@[j], all[j]),
        decreases entries.len(),
    {
        let y = entries.remove(0);
        assert(all[i as int] == y);
        formats.push(format_from_fields(y));
        assert(entries@ =~= all.skip(i as int + 1));
        i = i + 1;
    }
    MediaProbe { title, source: MediaSourceKind::YtDlp, extractor, formats }
}

/// One stream of an HLS master playlist.
#[derive(Debug, Clone)]
pub struct HlsVariant {
    pub uri: String,
    pub bandwidth: u64,
    pub resolution: Option<(u64, u64)>,
}

/// An HLS playlist: a master playlist's streams, or a media playlist's
/// segment URIs.
#[derive(Debug, Clone)]
pub enum HlsPlaylist {
    Master(Vec<HlsVariant>),
    Media(Vec<String>),
}

/// A playlist as plain values: whether it is a master playlist, the
/// streams (URI, bandwidth, resolution), and the segment URIs.
pub open spec fn playlist_view(p: HlsPlaylist) -> (bool, Seq<(Seq<char>, u64, Option<(u64, u64)>)>, Seq<Seq<char>>) {
    match p {
        HlsPlaylist::Master(vs) => (
            true,
            vs@.map_values(|v: HlsVariant| (v.uri@, v.bandwidth, v.resolution)),
            Seq::empty(),
        ),
        HlsPlaylist::Media(ss) => (false, Seq::empty(), crate::config::strs_view(ss@)),
    }
}

/// What `m3u8_rs::parse_playlist_res` makes of some bytes: `None` when they
/// are not a playlist, else the playlist as plain values (see
/// `playlist_view`).
pub uninterp spec fn m3u8_playlist(bytes: Seq<u8>) -> Option<(bool, Seq<(Seq<char>, u64, Option<(u64, u64)>)>, Seq<Seq<char>>)>;

/// `m3u8_rs::parse_playlist_res`, with the streams' URI, bandwidth and
/// resolution, or the segments' URIs, copied out; named by `m3u8_playlist`.
#[verifier::external_body]
fn parse_hls_playlist(bytes: &[u8]) -> (p: Option<HlsPlaylist>)
    ensures
        match p {
            Some(q) => m3u8_playlist(bytes@) == Some(playlist_view(q)),
            None => m3u8_playlist(bytes@) is None,
        },
{
    match m3u8_rs::parse_playlist_res(bytes) {
        Ok(m3u8_rs::Playlist::MasterPlaylist(m)) => Some(HlsPlaylist::Master(m.variants.into_iter().map(|v| HlsVariant { uri: v.uri, bandwidth: v.bandwidth, resolution: v.resolution.map(|r| (r.width, r.height)) }).collect())),
        Ok(m3u8_rs::Playlist::MediaPlaylist(m)) => Some(HlsPlaylist::Media(m.segments.into_iter().map(|s| s.uri).collect())),
        Err(_) => None,
    }
}

/// Reads an HLS playlist's text; a text that is not a playlist is an
/// error, with the message `what` gives.
pub fn read_hls_playlist(text: &str, what: &str) -> (r: Result<HlsPlaylist, LokiDmError>)
    ensures
        match r {
            Ok(p) => m3u8_playlist(text.spec_bytes()) == Some(playlist_view(p)),
            Err(e) => m3u8_playlist(text.spec_bytes()) is None && (e matches LokiDmError::Message(m)
                && m@ == what@),
        },
{
    match parse_hls_playlist(text.as_bytes()) {
        Some(p) => Ok(p),
        None => Err(LokiDmError::Message(what.to_owned())),
    }
}

/// `f` describes the stream `v`: its URI as id, `ts`, its bandwidth as
/// `<bandwidth> bps`, and its resolution as `<width>x<height>`.
pub open spec fn variant_format(f: MediaFormat, v: HlsVariant) -> bool {
    &&& f.id == v.uri
    &&& f.ext matches Some(e) && e@ == "ts"@
    &&& f.quality matches Some(q) && q@ == decimal(v.bandwidth as nat) + " bps"@
    &&& match v.resolution {
        Some((w, h)) => f.resolution matches Some(r) && r@ == decimal(w as nat) + "x"@ + decimal(h as nat),
        None => f.resolution is None,
    }
    &&& !f.audio_only
    &&& f.filesize is None
}

/// The format of one stream (see `variant_format`).
fn variant_to_format(v: HlsVariant) -> (f: MediaFormat)
    ensures
        variant_format(f, v),
{
    let mut quality = decimal_string(v.bandwidth);
    quality.append(" bps");
    let resolution = match v.resolution {
        Some((w, h)) => {
            let mut r = decimal_string(w);
            r.append("x");
            let hs = decimal_string(h);
            r.append(hs.as_str());
            Some(r)
        },
        None => None,
    };
    MediaFormat { id: v.uri, ext: Some("ts".to_owned()), quality: Some(quality), resolution, audio_only: false, filesize: None }
}

/// The media description of an HLS playlist: one format per stream of a
/// master playlist; a single `default` format for a media playlist.
pub fn hls_probe(playlist: HlsPlaylist) -> (probe: MediaProbe)
    ensures
        probe.title is None,
        probe.source == MediaSourceKind::Hls,
        probe.extractor matches Some(x) && x@ == "hls"@,
        match playlist {
            HlsPlaylist::Master(vs) => probe.formats@.len() == vs@.len() && forall|i: int|
                0 <= i < vs@.len() ==> variant_format(#[trigger] probe.formats@[i], vs@[i]),
            HlsPlaylist::Media(_) => probe.formats@.len() == 1 && {
                let f = probe.formats@[0];
                &&& f.id@ == "default"@
                &&& f.ext matches Some(e) && e@ == "ts"@
                &&& f.quality matches Some(q) && q@ == "default"@
                &&& f.resolution is None
                &&& !f.audio_only
                &&& f.filesize is None
            },
        },
{
    let mut formats: Vec<MediaFormat> = Vec::new();
    match playlist {
        HlsPlaylist::Master(vs) => {
            let ghost all = vs@;
            let mut vs = vs;
            let n = vs.len();
            let mut i: usize = 0;
            while vs.len() > 0
                invariant
                    n == all.len(),
                    i + vs@.len() == n,
                    vs@ == all.skip(i as int),
                    formats@.len() == i,
                    forall|j: int| 0 <= j < i ==> variant_format(#[trigger] formats@[j], all[j]),
                decreases vs.len(),
            {
                let v = vs.remove(0);
                assert(all[i as int] == v);
                formats.push(variant_to_format(v));
                assert(vs@ =~= all.skip(i as int + 1));
                i = i + 1;
            }
        },
        HlsPlaylist::Media(_) => {
            formats.push(
                MediaFormat {
                    id: "default".to_owned(),
                    ext: Some("ts".to_owned()),
                    quality: Some("default".to_owned()),
                    resolution: None,
                    audio_only: false,
                    filesize: None,
                },
            );
        },
    }
    MediaProbe { title: None, source: MediaSourceKind::Hls, extractor: Some("hls".to_owned()), formats }
}

/// `i` is the stream with the highest bandwidth, the last of those that
/// tie (as `Iterator::max_by_key` picks).
pub open spec fn best_variant_at(vs: Seq<HlsVariant>, i: int) -> bool {
    &&& 0 <= i < vs.len()
    &&& forall|j: int| 0 <= j < vs.len() ==> vs[j].bandwidth <= vs[i].bandwidth
    &&& forall|j: int| i < j < vs.len() ==> vs[j].bandwidth < vs[i].bandwidth
}

/// The stream to fetch from a master playlist: the highest bandwidth, the
/// last of those that tie; `None` when there are no streams.
pub fn best_variant(vs: &Vec<HlsVariant>) -> (r: Option<usize>)
    ensures
        match r {
            Some(i) => best_variant_at(vs@, i as int),
            None => vs@.len() == 0,
        },
{
    if vs.len() == 0 {
        return None;
    }
    let mut best: usize = 0;
    let mut i: usize = 1;
    while i < vs.len()
        invariant
            1 <= i <= vs@.len(),
            best < i,
            forall|j: int| 0 <= j < i ==> vs@[j].bandwidth <= vs@[best as int].bandwidth,
            forall|j: int| best < j < i ==> vs@[j].bandwidth < vs@[best as int].bandwidth,
        decreases vs.len() - i,
    {
        if vs[i].bandwidth >= vs[best].bandwidth {
            best = i;
        }
        i = i + 1;
    }
    Some(best)
}

/// The segment URIs of a media playlist; a master playlist, or one without
/// segments, is an error.
pub fn media_segment_uris(playlist: HlsPlaylist) -> (r: Result<Vec<String>, LokiDmError>)
    ensures
        match playlist {
            HlsPlaylist::Master(_) => r matches Err(LokiDmError::Message(m)) && m@
                == "expected media playlist after master selection"@,
            HlsPlaylist::Media(segs) => if segs@.len() == 0 {
                r matches Err(LokiDmError::Message(m)) && m@ == "media playlist has no segments"@
            } else {
                r == Ok::<Vec<String>, LokiDmError>(segs)
            },
        },
{
    match playlist {
        HlsPlaylist::Master(_) => Err(
            LokiDmError::Message("expected media playlist after master selection".to_owned()),
        ),
        HlsPlaylist::Media(segs) => {
            if segs.len() == 0 {
                Err(LokiDmError::Message("media playlist has no segments".to_owned()))
            } else {
                Ok(segs)
            }
        },
    }
}

/// The media playlist to fetch for an HLS URL: the URL itself when it is a
/// media playlist; for a master playlist, its best stream (see
/// `best_variant`) resolved against the URL. A master playlist without
/// streams, or a stream URI that does not resolve, is an error.
pub fn choose_media_url(root: &str, playlist: &HlsPlaylist) -> (r: Result<String, LokiDmError>)
    ensures
        match playlist {
            HlsPlaylist::Media(_) => r matches Ok(u) && u@ == root@,
            HlsPlaylist::Master(vs) => if vs@.len() == 0 {
                r matches Err(LokiDmError::Message(m)) && m@ == "master playlist does not contain variants"@
            } else {
                exists|i: int|
                    best_variant_at(vs@, i) && match crate::urls::url_joined(root@, vs@[i].uri@) {
                        Ok(j) => r matches Ok(u) && u@ == j,
                        Err(t) => r matches Err(LokiDmError::Url(m)) && m@ == t,
                    }
            },
        },
{
    match playlist {
        HlsPlaylist::Media(_) => Ok(root.to_owned()),
        HlsPlaylist::Master(vs) => match best_variant(vs) {
            None => Err(LokiDmError::Message("master playlist does not contain variants".to_owned())),
            Some(i) => match crate::urls::join_url(root, vs[i].uri.as_str()) {
                Ok(u) => Ok(u),
                Err(t) => Err(LokiDmError::Url(t)),
            },
        },
    }
}

/// The arguments `yt-dlp` is run with to describe a URL.
pub fn ytdlp_probe_args(url: &str) -> (args: Vec<String>)
    ensures
        crate::config::strs_view(args@) == seq!["-J"@, "--no-playlist"@, "--skip-download"@, url@],
{
    let mut args: Vec<String> = Vec::new();
    args.push("-J".to_owned());
    args.push("--no-playlist".to_owned());
    args.push("--skip-download".to_owned());
    args.push(url.to_owned());
    assert(crate::config::strs_view(args@) =~= seq!["-J"@, "--no-playlist"@, "--skip-download"@, url@]);
    args
}

/// The arguments `yt-dlp` is run with to download a URL to `output`, in the
/// given format when one is named.
pub fn ytdlp_download_args(url: &str, format_id: Option<&str>, output: &str) -> (args: Vec<String>)
    ensures
        crate::config::strs_view(args@) == seq!["--no-playlist"@, "-o"@, output@] + match format_id {
            Some(f) => seq!["-f"@, f@],
            None => Seq::empty(),
        } + seq![url@],
{
    let mut args: Vec<String> = Vec::new();
    args.push("--no-playlist".to_owned());
    args.push("-o".to_owned());
    args.push(output.to_owned());
    if let Some(f) = format_id {
        args.push("-f".to_owned());
        args.push(f.to_owned());
    }
    args.push(url.to_owned());
    assert(crate::config::strs_view(args@) =~= seq!["--no-playlist"@, "-o"@, output@] + match format_id {
        Some(f) => seq!["-f"@, f@],
        None => Seq::empty(),
    } + seq![url@]);
    args
}

/// The message for a `yt-dlp` run that failed: `yt-dlp <what> failed with
/// status <code>: <stderr>`, the code shown as `Some(n)` or `None`.
pub open spec fn ytdlp_failure_text(what: Seq<char>, code: Option<i32>, stderr: Seq<char>) -> Seq<char> {
    "yt-dlp "@ + what + "failed with status "@ + match code {
        Some(c) => "Some("@ + crate::text::decimal_int(c as int) + ")"@,
        None => "None"@,
    } + ": "@ + stderr
}

/// The failure message of a `yt-dlp` run (`what` is empty for a download
/// and `probe ` for a probe).
pub fn ytdlp_failure(what: &str, code: Option<i32>, stderr: &str) -> (m: String)
    ensures
        m@ == ytdlp_failure_text(what@, code, stderr@),
{
    let mut m = "yt-dlp ".to_owned();
    m.append(what);
    m.append("failed with status ");
    match code {
        Some(c) => {
            m.append("Some(");
            let d = crate::text::decimal_i32(c);
            m.append(d.as_str());
            m.append(")");
        },
        None => {
            m.append("None");
        },
    }
    m.append(": ");
    m.append(stderr);
    m
}

} // verus!
