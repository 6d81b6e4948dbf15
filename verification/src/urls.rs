//! URLs as the download manager reads them: the parts that the `url` crate
//! parser yields, and the path segments, file names and extensions derived
//! from them.
use vstd::prelude::*;

use crate::text::{
    chars_of, first_index, lower_chars, lower_seq, rsplit_once, rsplit_once_chars,
    slice_chars, split_once, split_once_chars, string_of, trim, trim_chars,
};

verus! {

/// The parts of a parsed URL: serialization, scheme, host, path, and the
/// serialization with the fragment removed.
pub type UrlView = (Seq<char>, Seq<char>, Option<Seq<char>>, Seq<char>, Seq<char>);

/// What `url::Url::parse` makes of a text: `None` when it is rejected,
/// otherwise the parts of the parsed URL (`as_str`, `scheme`, `host_str`,
/// `path`, and `as_str` after `set_fragment(None)`).
pub uninterp spec fn url_parsed(s: Seq<char>) -> Option<UrlView>;

/// What `url::Url::parse(base)` and then `join(reference)` make of a
/// relative reference against a base URL: the serialization of the joined
/// URL, or the text of the `url::ParseError` that stopped it.
pub uninterp spec fn url_joined(base: Seq<char>, reference: Seq<char>) -> Result<Seq<char>, Seq<char>>;

/// A URL broken into the parts this crate reads.
#[derive(Debug)]
pub struct ParsedUrl {
    pub serialization: String,
    pub scheme: String,
    pub host: Option<String>,
    pub path: String,
    pub without_fragment: String,
}

/// The text of an optional string.
pub open spec fn opt_view(o: Option<String>) -> Option<Seq<char>> {
    match o {
        Some(s) => Some(s@),
        None => None,
    }
}

impl Clone for ParsedUrl {
    fn clone(&self) -> (r: Self)
        ensures
            r == *self,
    {
        ParsedUrl {
            serialization: self.serialization.clone(),
            scheme: self.scheme.clone(),
            host: crate::config::clone_opt_string(&self.host),
            path: self.path.clone(),
            without_fragment: self.without_fragment.clone(),
        }
    }
}

impl ParsedUrl {
    pub open spec fn parts(&self) -> UrlView {
        (
            self.serialization@,
            self.scheme@,
            match self.host {
                Some(h) => Some(h@),
                None => None,
            },
            self.path@,
            self.without_fragment@,
        )
    }
}

/// `url::Url::parse`, with the parts of the result copied out: `as_str`,
/// `scheme`, `host_str`, `path`, and `as_str` once `set_fragment(None)` has
/// removed the fragment. The parts are named by `url_parsed`, not spelled out.
/// On failure the text of the parse error is returned; nothing is stated of
/// that text.
#[verifier::external_body]
pub(crate) fn parse_url(s: &str) -> (r: Result<ParsedUrl, String>)
    ensures
        r is Ok <==> url_parsed(s@) is Some,
        r matches Ok(u) ==> u.parts() == url_parsed(s@)->0,
{
    let mut url = match url::Url::parse(s) {
        Ok(u) => u,
        Err(e) => return Err(e.to_string()),
    };
    let serialization = url.as_str().to_owned();
    let scheme = url.scheme().to_owned();
    let host = url.host_str().map(str::to_owned);
    let path = url.path().to_owned();
    url.set_fragment(None);
    Ok(ParsedUrl { serialization, scheme, host, path, without_fragment: url.as_str().to_owned() })
}

impl ParsedUrl {
    /// Parses an absolute URL (see `parse_url`).
    pub fn parse(s: &str) -> (r: Result<ParsedUrl, String>)
        ensures
            r is Ok <==> url_parsed(s@) is Some,
            r matches Ok(u) ==> u.parts() == url_parsed(s@)->0,
    {
        parse_url(s)
    }
}

/// `url::Url::parse(base)` followed by `join(reference)`, giving the
/// serialization of the result or the error's text; both are named by
/// `url_joined`.
#[verifier::external_body]
pub(crate) fn join_url(base: &str, reference: &str) -> (r: Result<String, String>)
    ensures
        match r {
            Ok(j) => url_joined(base@, reference@) == Ok::<Seq<char>, Seq<char>>(j@),
            Err(e) => url_joined(base@, reference@) == Err::<Seq<char>, Seq<char>>(e@),
        },
{
    match url::Url::parse(base).and_then(|parsed| parsed.join(reference)) {
        Ok(u) => Ok(u.as_str().to_owned()),
        Err(e) => Err(e.to_string()),
    }
}

/// The last `/`-separated piece of `s` (what `split('/').next_back()` yields).
pub open spec fn last_piece(s: Seq<char>) -> Seq<char> {
    match rsplit_once(s, '/') {
        Some((_, tail)) => tail,
        None => s,
    }
}

/// The last path segment (`path_segments()?.next_back()`): present when the
/// path starts with `/`, the text after its last `/`.
pub open spec fn last_segment_of_path(path: Seq<char>) -> Option<Seq<char>> {
    if path.len() > 0 && path[0] == '/' {
        Some(last_piece(path.drop_first()))
    } else {
        None
    }
}

/// Last path segment of a URL text, when it parses and has a hierarchical path.
pub open spec fn url_last_segment(url: Seq<char>) -> Option<Seq<char>> {
    match url_parsed(url) {
        Some(p) => last_segment_of_path(p.3),
        None => None,
    }
}

/// The file name a URL suggests: its last path segment, trimmed, or
/// `download.bin` when that is missing or blank.
pub open spec fn default_filename_of(url: Seq<char>) -> Seq<char> {
    match url_last_segment(url) {
        Some(seg) => if trim(seg).len() > 0 {
            trim(seg)
        } else {
            "download.bin"@
        },
        None => "download.bin"@,
    }
}

/// Lower-cased extension of the last path segment: the text after its last
/// `.`, when there is one.
pub open spec fn url_extension(url: Seq<char>) -> Option<Seq<char>> {
    match url_last_segment(url) {
        Some(seg) => match rsplit_once(seg, '.') {
            Some((_, ext)) => Some(lower_seq(ext)),
            None => None,
        },
        None => None,
    }
}

/// Host of a URL text, when it parses and has one.
pub open spec fn url_host(url: Seq<char>) -> Option<Seq<char>> {
    match url_parsed(url) {
        Some(p) => p.2,
        None => None,
    }
}

/// Scheme of a URL text, when it parses.
pub open spec fn url_scheme(url: Seq<char>) -> Option<Seq<char>> {
    match url_parsed(url) {
        Some(p) => Some(p.1),
        None => None,
    }
}

/// The text after the last `/` of `s`.
pub fn last_piece_chars(s: &[char]) -> (out: Vec<char>)
    ensures
        out@ == last_piece(s@),
{
    match rsplit_once_chars(s, '/') {
        Some((_, tail)) => tail,
        None => slice_chars(s, 0, s.len()),
    }
}

/// The last path segment of a parsed URL.
pub fn last_segment(url: &ParsedUrl) -> (seg: Option<Vec<char>>)
    ensures
        match seg {
            Some(s) => last_segment_of_path(url.path@) == Some(s@),
            None => last_segment_of_path(url.path@) is None,
        },
{
    let p = chars_of(url.path.as_str());
    if p.len() > 0 && p[0] == '/' {
        let rest = slice_chars(p.as_slice(), 1, p.len());
        assert(rest@ == p@.drop_first());
        Some(last_piece_chars(rest.as_slice()))
    } else {
        None
    }
}

/// The last path segment of a URL text.
pub fn url_last_segment_chars(url: &str) -> (seg: Option<Vec<char>>)
    ensures
        match seg {
            Some(s) => url_last_segment(url@) == Some(s@),
            None => url_last_segment(url@) is None,
        },
{
    match parse_url(url) {
        Ok(p) => last_segment(&p),
        Err(_) => None,
    }
}

/// The file name a URL suggests, or `download.bin`.
pub fn default_filename(url: &str) -> (name: String)
    ensures
        name@ == default_filename_of(url@),
{
    match url_last_segment_chars(url) {
        Some(seg) => {
            let t = trim_chars(seg.as_slice());
            if t.len() > 0 {
                string_of(t.as_slice())
            } else {
                "download.bin".to_owned()
            }
        },
        None => "download.bin".to_owned(),
    }
}

/// The lower-cased extension of a URL's last path segment.
pub fn extension_from_url(url: &str) -> (ext: Option<Vec<char>>)
    ensures
        match ext {
            Some(e) => url_extension(url@) == Some(e@),
            None => url_extension(url@) is None,
        },
{
    match url_last_segment_chars(url) {
        Some(seg) => match rsplit_once_chars(seg.as_slice(), '.') {
            Some((_, e)) => Some(lower_chars(e.as_slice())),
            None => None,
        },
        None => None,
    }
}

/// The host of a URL text.
pub fn host_of(url: &str) -> (host: Option<String>)
    ensures
        match host {
            Some(h) => url_host(url@) == Some(h@),
            None => url_host(url@) is None,
        },
{
    match parse_url(url) {
        Ok(p) => p.host,
        Err(_) => None,
    }
}

/// The scheme of a URL text.
pub fn scheme_of(url: &str) -> (scheme: Option<String>)
    ensures
        match scheme {
            Some(s) => url_scheme(url@) == Some(s@),
            None => url_scheme(url@) is None,
        },
{
    match parse_url(url) {
        Ok(p) => Some(p.scheme),
        Err(_) => None,
    }
}

} // verus!
