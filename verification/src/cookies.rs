//! Cookies: `name=value` pairs given inline or read from a cookie file
//! (Netscape format or plain pairs), merged and rendered as one `Cookie`
//! header.
use vstd::prelude::*;

use crate::error::LokiDmError;
use crate::strmap::StrMap;
use crate::text::{
    chars_of, parse_u64, parse_u64_chars, pieces_view, slice_chars, split_on, split_on_chars,
    split_once, split_once_chars, starts_with, starts_with_chars, string_of, strip_end_char,
    strip_end_char_chars, trim, trim_chars,
};

verus! {

/// A `name=value` pair: the text before the first `=`, trimmed and not
/// empty, and the text after it, trimmed, without trailing `;`, trimmed
/// again.
pub open spec fn cookie_pair(raw: Seq<char>) -> Option<(Seq<char>, Seq<char>)> {
    match split_once(raw, '=') {
        Some((n, v)) => if trim(n).len() == 0 {
            None
        } else {
            Some((trim(n), trim(strip_end_char(trim(v), ';'))))
        },
        None => None,
    }
}

/// Reads a `name=value` cookie; `None` without `=` or without a name.
pub fn parse_cookie_pair(raw: &str) -> (r: Option<(String, String)>)
    ensures
        match r {
            Some((n, v)) => cookie_pair(raw@) == Some((n@, v@)),
            None => cookie_pair(raw@) is None,
        },
{
    let cs = chars_of(raw);
    match split_once_chars(cs.as_slice(), '=') {
        Some((n, v)) => {
            let name = trim_chars(n.as_slice());
            if name.len() == 0 {
                return None;
            }
            let t = trim_chars(v.as_slice());
            let s = strip_end_char_chars(t.as_slice(), ';');
            let value = trim_chars(s.as_slice());
            Some((string_of(name.as_slice()), string_of(value.as_slice())))
        },
        None => None,
    }
}

/// A cookie-file line without its `#HttpOnly_` marker.
pub open spec fn without_http_only(line: Seq<char>) -> Seq<char> {
    if starts_with(line, "#HttpOnly_"@) {
        line.skip(10)
    } else {
        line
    }
}

/// A Netscape cookie-file line: tab-separated domain, subdomain flag, path,
/// secure flag, expiry, name and value (fields past the seventh are
/// ignored), optionally marked `#HttpOnly_`; other comments and lines with
/// fewer fields or an empty name are not cookies. An unreadable expiry
/// counts as 0.
pub open spec fn netscape_cookie(raw: Seq<char>) -> Option<(Seq<char>, Seq<char>, u64)> {
    let line = without_http_only(raw);
    let f = split_on(line, '\t');
    if line.len() > 0 && line[0] == '#' {
        None
    } else if f.len() < 7 {
        None
    } else if trim(f[5]).len() == 0 {
        None
    } else {
        Some(
            (
                trim(f[5]),
                trim(f[6]),
                match parse_u64(f[4]) {
                    Some(e) => e,
                    None => 0,
                },
            ),
        )
    }
}

/// Reads one line of a Netscape cookie file.
pub fn parse_netscape_cookie_line(raw: &str) -> (r: Option<(String, String, u64)>)
    ensures
        match r {
            Some((n, v, e)) => netscape_cookie(raw@) == Some((n@, v@, e)),
            None => netscape_cookie(raw@) is None,
        },
{
    let cs = chars_of(raw);
    let marker = chars_of("#HttpOnly_");
    proof {
        reveal_strlit("#HttpOnly_");
    }
    let line = if starts_with_chars(cs.as_slice(), marker.as_slice()) {
        slice_chars(cs.as_slice(), 10, cs.len())
    } else {
        slice_chars(cs.as_slice(), 0, cs.len())
    };
    assert(line@ == without_http_only(raw@)) by {
        if !starts_with(raw@, "#HttpOnly_"@) {
            assert(cs@.subrange(0, cs@.len() as int) =~= cs@);
        } else {
            assert(cs@.subrange(10, cs@.len() as int) =~= cs@.skip(10));
        }
    }
    if line.len() > 0 && line[0] == '#' {
        return None;
    }
    let fields = split_on_chars(line.as_slice(), '\t');
    assert(pieces_view(fields@)[4] == fields@[4]@ || fields@.len() < 7);
    if fields.len() < 7 {
        return None;
    }
    assert(pieces_view(fields@)[5] == fields@[5]@);
    assert(pieces_view(fields@)[6] == fields@[6]@);
    assert(pieces_view(fields@)[4] == fields@[4]@);
    let name = trim_chars(fields[5].as_slice());
    if name.len() == 0 {
        return None;
    }
    let value = trim_chars(fields[6].as_slice());
    let expires = match parse_u64_chars(fields[4].as_slice()) {
        Some(e) => e,
        None => 0,
    };
    Some((string_of(name.as_slice()), string_of(value.as_slice()), expires))
}

/// One line of a cookie file read into the cookies so far: the line is
/// trimmed and skipped when blank; a Netscape line sets its cookie unless
/// it expired at or before `now`; other comments are skipped; a
/// `name=value` line sets its cookie.
pub open spec fn cookie_line_step(m: Map<Seq<char>, Seq<char>>, raw_line: Seq<char>, now: u64) -> Map<Seq<char>, Seq<char>> {
    let line = trim(raw_line);
    if line.len() == 0 {
        m
    } else {
        match netscape_cookie(line) {
            Some((n, v, e)) => if e > 0 && e <= now {
                m
            } else {
                m.insert(n, v)
            },
            None => if line[0] == '#' {
                m
            } else {
                match cookie_pair(line) {
                    Some((n, v)) => m.insert(n, v),
                    None => m,
                }
            },
        }
    }
}

/// The cookies the lines of a file set, later lines winning.
pub open spec fn cookies_from_lines(lines: Seq<Seq<char>>, now: u64) -> Map<Seq<char>, Seq<char>>
    decreases lines.len(),
{
    if lines.len() == 0 {
        Map::empty()
    } else {
        cookie_line_step(cookies_from_lines(lines.drop_last(), now), lines.last(), now)
    }
}

/// The cookies a cookie file's text sets, read at time `now` (seconds since
/// the Unix epoch).
pub open spec fn cookie_file_map(text: Seq<char>, now: u64) -> Map<Seq<char>, Seq<char>> {
    cookies_from_lines(split_on(text, '\n'), now)
}

/// Cookie file lines by expiry: a Netscape cookie that never expires
/// (expiry 0, a session cookie) or expires after `now` is kept whatever the
/// time, and one whose positive expiry is at or before `now` is dropped;
/// this holds for a file of that one line and for such a line added after a
/// newline to any text.
pub proof fn lemma_cookie_lines_by_expiry(
    t: Seq<char>,
    l: Seq<char>,
    now: u64,
    n: Seq<char>,
    v: Seq<char>,
    e: u64,
)
    requires
        forall|i: int| 0 <= i < l.len() ==> l[i] != '\n',
        trim(l).len() > 0,
        netscape_cookie(trim(l)) == Some((n, v, e)),
    ensures
        e == 0 || e > now ==> cookie_file_map(l, now) == Map::<Seq<char>, Seq<char>>::empty().insert(n, v)
            && cookie_file_map(t + seq!['\n'] + l, now) == cookie_file_map(t, now).insert(n, v),
        0 < e <= now ==> cookie_file_map(l, now) == Map::<Seq<char>, Seq<char>>::empty() && cookie_file_map(
            t + seq!['\n'] + l,
            now,
        ) == cookie_file_map(t, now),
{
    crate::text::lemma_split_on_single(l, '\n');
    crate::text::lemma_split_on_append(t, l, '\n');
    assert(seq![l].drop_last() =~= Seq::<Seq<char>>::empty());
    assert(seq![l].last() == l);
    assert(split_on(t, '\n').push(l).drop_last() =~= split_on(t, '\n'));
    assert(split_on(t, '\n').push(l).last() == l);
    assert(cookies_from_lines(Seq::<Seq<char>>::empty(), now) == Map::<Seq<char>, Seq<char>>::empty());
    assert(cookie_file_map(l, now) == cookie_line_step(Map::<Seq<char>, Seq<char>>::empty(), l, now));
    assert(cookie_file_map(t + seq!['\n'] + l, now) == cookie_line_step(cookie_file_map(t, now), l, now));
}

/// Reads the cookies out of a cookie file's text, line by line: Netscape
/// lines (dropping cookies that expired at or before `now_unix`), plain
/// `name=value` lines, skipping blanks and comments; later lines win.
pub fn parse_cookie_text(text: &str, now_unix: u64) -> (cookies: StrMap)
    ensures
        cookies@ == cookie_file_map(text@, now_unix),
{
    let cs = chars_of(text);
    let lines = split_on_chars(cs.as_slice(), '\n');
    let ghost ls = pieces_view(lines@);
    let mut cookies = StrMap::new();
    let mut i: usize = 0;
    assert(ls.take(0) =~= Seq::<Seq<char>>::empty());
    while i < lines.len()
        invariant
            i <= lines@.len(),
            ls == pieces_view(lines@),
            ls == split_on(text@, '\n'),
            cookies@ == cookies_from_lines(ls.take(i as int), now_unix),
        decreases lines.len() - i,
    {
        assert(ls.take(i as int + 1).drop_last() =~= ls.take(i as int));
        assert(ls.take(i as int + 1).last() == lines@[i as int]@);
        let t = trim_chars(lines[i].as_slice());
        if t.len() > 0 {
            let line = string_of(t.as_slice());
            match parse_netscape_cookie_line(line.as_str()) {
                Some((n, v, e)) => {
                    if !(e > 0 && e <= now_unix) {
                        cookies.insert(n, v);
                    }
                },
                None => {
                    if t[0] != '#' {
                        match parse_cookie_pair(line.as_str()) {
                            Some((n, v)) => {
                                cookies.insert(n, v);
                            },
                            None => {},
                        }
                    }
                },
            }
        }
        i = i + 1;
    }
    assert(ls.take(ls.len() as int) =~= ls);
    cookies
}

/// The cookies once the inline `name=value` pairs are applied over `base`
/// in order; `None` when one of them is not a pair.
pub open spec fn with_inline_cookies(base: Map<Seq<char>, Seq<char>>, raws: Seq<Seq<char>>) -> Option<Map<Seq<char>, Seq<char>>>
    decreases raws.len(),
{
    if raws.len() == 0 {
        Some(base)
    } else {
        match with_inline_cookies(base, raws.drop_last()) {
            Some(m) => match cookie_pair(raws.last()) {
                Some((n, v)) => Some(m.insert(n, v)),
                None => None,
            },
            None => None,
        }
    }
}

/// The message for an inline cookie that is not a pair.
pub open spec fn invalid_cookie_text(raw: Seq<char>) -> Seq<char> {
    "invalid cookie format `"@ + raw + "`: expected `name=value`"@
}

/// The cookies read from a file, or none.
pub open spec fn file_cookie_map(file_cookies: Option<StrMap>) -> Map<Seq<char>, Seq<char>> {
    match file_cookies {
        Some(m) => m@,
        None => Map::empty(),
    }
}

proof fn lemma_inline_fails_after(base: Map<Seq<char>, Seq<char>>, raws: Seq<Seq<char>>, k: int)
    requires
        0 <= k <= raws.len(),
        with_inline_cookies(base, raws.take(k)) is None,
    ensures
        with_inline_cookies(base, raws) is None,
    decreases raws.len() - k,
{
    if k < raws.len() {
        assert(raws.take(k + 1).drop_last() =~= raws.take(k));
        lemma_inline_fails_after(base, raws, k + 1);
    } else {
        assert(raws.take(k) =~= raws);
    }
}

/// Merges the cookies of a cookie file (when one was read) with inline
/// `name=value` pairs, the inline ones winning; the first inline cookie
/// that is not a pair makes it fail.
pub fn merge_cookie_sources(inline_cookies: &[String], file_cookies: Option<StrMap>) -> (r: Result<StrMap, LokiDmError>)
    ensures
        ({
            let base = file_cookie_map(file_cookies);
            let raws = crate::config::strs_view(inline_cookies@);
            match r {
                Ok(m) => with_inline_cookies(base, raws) == Some(m@),
                Err(e) => with_inline_cookies(base, raws) is None && exists|k: int|
                    0 <= k < raws.len() && cookie_pair(raws[k]) is None && (forall|j: int|
                        0 <= j < k ==> cookie_pair(#[trigger] raws[j]) is Some) && (e matches LokiDmError::Message(
                        msg,
                    ) && msg@ == invalid_cookie_text(raws[k])),
            }
        }),
{
    let mut merged = match file_cookies {
        Some(m) => m,
        None => StrMap::new(),
    };
    let ghost base = merged@;
    assert(base == file_cookie_map(file_cookies));
    let ghost raws = crate::config::strs_view(inline_cookies@);
    let mut i: usize = 0;
    assert(raws.take(0) =~= Seq::<Seq<char>>::empty());
    while i < inline_cookies.len()
        invariant
            i <= inline_cookies@.len(),
            raws == crate::config::strs_view(inline_cookies@),
            base == file_cookie_map(file_cookies),
            with_inline_cookies(base, raws.take(i as int)) == Some(merged@),
            forall|j: int| 0 <= j < i ==> cookie_pair(#[trigger] raws[j]) is Some,
        decreases inline_cookies.len() - i,
    {
        assert(raws.take(i as int + 1).drop_last() =~= raws.take(i as int));
        assert(raws.take(i as int + 1).last() == inline_cookies@[i as int]@);
        match parse_cookie_pair(inline_cookies[i].as_str()) {
            Some((n, v)) => {
                merged.insert(n, v);
            },
            None => {
                let mut msg = "invalid cookie format `".to_owned();
                msg.append(inline_cookies[i].as_str());
                msg.append("`: expected `name=value`");
                assert(cookie_pair(raws[i as int]) is None);
                assert(with_inline_cookies(base, raws.take(i as int + 1)) is None);
                proof {
                    lemma_inline_fails_after(base, raws, i as int + 1);
                    assert(raws.take(raws.len() as int) =~= raws);
                }
                assert(msg@ == invalid_cookie_text(raws[i as int]));
                let e = LokiDmError::Message(msg);
                assert(0 <= i < raws.len() && cookie_pair(raws[i as int]) is None && (forall|j: int|
                    0 <= j < i ==> cookie_pair(#[trigger] raws[j]) is Some) && (e matches LokiDmError::Message(
                    m,
                ) && m@ == invalid_cookie_text(raws[i as int])));
                return Err(e);
            },
        }
        i = i + 1;
    }
    assert(raws.take(raws.len() as int) =~= raws);
    Ok(merged)
}

/// The name an inline pair sets.
pub open spec fn pair_name(raw: Seq<char>) -> Seq<char> {
    match cookie_pair(raw) {
        Some(p) => p.0,
        None => Seq::empty(),
    }
}

/// The value an inline pair sets.
pub open spec fn pair_value(raw: Seq<char>) -> Seq<char> {
    match cookie_pair(raw) {
        Some(p) => p.1,
        None => Seq::empty(),
    }
}

/// When merging fails and which names a merge holds: it fails exactly when
/// some inline cookie is not a pair; otherwise its names are the file's
/// names together with every inline name.
pub proof fn lemma_inline_cookie_outcome(base: Map<Seq<char>, Seq<char>>, raws: Seq<Seq<char>>)
    ensures
        with_inline_cookies(base, raws) is None <==> exists|k: int|
            0 <= k < raws.len() && (#[trigger] cookie_pair(raws[k])) is None,
        with_inline_cookies(base, raws) matches Some(m) ==> forall|n: Seq<char>|
            #[trigger] m.contains_key(n) <==> (base.contains_key(n) || exists|k: int|
                0 <= k < raws.len() && #[trigger] pair_name(raws[k]) == n),
    decreases raws.len(),
{
    if raws.len() > 0 {
        let prev = raws.drop_last();
        let last = raws.len() - 1;
        lemma_inline_cookie_outcome(base, prev);
        assert forall|k: int| 0 <= k < prev.len() implies prev[k] == raws[k] by {}
        if with_inline_cookies(base, prev) is None {
            let k = choose|k: int| 0 <= k < prev.len() && (#[trigger] cookie_pair(prev[k])) is None;
            assert(cookie_pair(raws[k]) is None);
        } else if cookie_pair(raws[last]) is None {
        } else {
            assert forall|k: int| 0 <= k < raws.len() implies (#[trigger] cookie_pair(raws[k])) is Some by {
                if k < last {
                    assert(cookie_pair(prev[k]) is Some);
                }
            }
            let m = with_inline_cookies(base, raws)->0;
            let pm = with_inline_cookies(base, prev)->0;
            assert(raws.last() == raws[last]);
            assert(m == pm.insert(pair_name(raws[last]), pair_value(raws[last])));
            assert forall|n: Seq<char>| #[trigger] m.contains_key(n) <==> (base.contains_key(n) || exists|k: int|
                0 <= k < raws.len() && #[trigger] pair_name(raws[k]) == n) by {
                assert(pm.contains_key(n) <==> (base.contains_key(n) || exists|k: int|
                    0 <= k < prev.len() && #[trigger] pair_name(prev[k]) == n));
                if exists|k: int| 0 <= k < raws.len() && #[trigger] pair_name(raws[k]) == n {
                    let k = choose|k: int| 0 <= k < raws.len() && #[trigger] pair_name(raws[k]) == n;
                    if k < last {
                        assert(pair_name(prev[k]) == n);
                    }
                }
                if pm.contains_key(n) && !base.contains_key(n) {
                    let k = choose|k: int| 0 <= k < prev.len() && #[trigger] pair_name(prev[k]) == n;
                    assert(pair_name(raws[k]) == n);
                }
            }
        }
    }
}

/// Inline cookies win over the file's: after a successful merge, each name
/// set inline has the value of its last inline pair, and every name only
/// the file sets keeps the file's value.
pub proof fn lemma_inline_cookies_win(base: Map<Seq<char>, Seq<char>>, raws: Seq<Seq<char>>, m: Map<Seq<char>, Seq<char>>)
    requires
        with_inline_cookies(base, raws) == Some(m),
    ensures
        forall|k: int|
            0 <= k < raws.len() && (forall|j: int|
                k < j < raws.len() ==> pair_name(#[trigger] raws[j]) != pair_name(raws[k])) ==> m.contains_key(
                pair_name(raws[k]),
            ) && m[pair_name(raws[k])] == pair_value(raws[k]),
        forall|n: Seq<char>|
            #![trigger m.contains_key(n)]
            base.contains_key(n) && (forall|j: int| 0 <= j < raws.len() ==> pair_name(#[trigger] raws[j]) != n)
                ==> m.contains_key(n) && m[n] == base[n],
    decreases raws.len(),
{
    if raws.len() > 0 {
        let prev = raws.drop_last();
        let pm = with_inline_cookies(base, prev)->0;
        lemma_inline_cookies_win(base, prev, pm);
        assert forall|k: int|
            0 <= k < raws.len() && (forall|j: int|
                k < j < raws.len() ==> pair_name(#[trigger] raws[j]) != pair_name(raws[k])) implies m.contains_key(
            pair_name(raws[k]),
        ) && m[pair_name(raws[k])] == pair_value(raws[k]) by {
            if k < raws.len() - 1 {
                assert(prev[k] == raws[k]);
                assert forall|j: int| k < j < prev.len() implies pair_name(#[trigger] prev[j]) != pair_name(
                    prev[k],
                ) by {
                    assert(prev[j] == raws[j]);
                }
                assert(pair_name(raws[raws.len() - 1]) != pair_name(raws[k]));
            }
        }
        assert forall|n: Seq<char>|
            #![trigger m.contains_key(n)]
            base.contains_key(n) && (forall|j: int| 0 <= j < raws.len() ==> pair_name(#[trigger] raws[j]) != n)
                implies m.contains_key(n) && m[n] == base[n] by {
            assert forall|j: int| 0 <= j < prev.len() implies pair_name(#[trigger] prev[j]) != n by {
                assert(prev[j] == raws[j]);
            }
            assert(pair_name(raws[raws.len() - 1]) != n);
            assert(pm.contains_key(n) && pm[n] == base[n]);
            assert(m == pm.insert(pair_name(raws.last()), pair_value(raws.last())));
        }
    }
}

/// The `Cookie` header for the entries, in order: `name=value` pairs
/// joined by `; `.
pub open spec fn cookie_header_text(es: Seq<(Seq<char>, Seq<char>)>) -> Seq<char>
    decreases es.len(),
{
    if es.len() == 0 {
        Seq::empty()
    } else if es.len() == 1 {
        es[0].0 + "="@ + es[0].1
    } else {
        cookie_header_text(es.drop_last()) + "; "@ + es.last().0 + "="@ + es.last().1
    }
}

/// The `Cookie` header for a set of cookies: `name=value` pairs in name
/// order, joined by `; `; `None` when there are none.
pub fn render_cookie_header(cookies: &StrMap) -> (header: Option<String>)
    ensures
        match header {
            Some(h) => cookies.entries_spec().len() > 0 && h@ == cookie_header_text(
                cookies.entries_spec(),
            ),
            None => cookies.entries_spec().len() == 0,
        },
{
    let n = cookies.len();
    if n == 0 {
        return None;
    }
    let ghost es = cookies.entries_spec();
    let mut out = String::new();
    let mut i: usize = 0;
    while i < n
        invariant
            n == es.len(),
            n > 0,
            es == cookies.entries_spec(),
            i <= n,
            out@ == cookie_header_text(es.take(i as int)),
        decreases n - i,
    {
        let (k, v) = cookies.entry(i);
        assert(es.take(i as int + 1).drop_last() =~= es.take(i as int));
        assert(es.take(i as int + 1).last() == es[i as int]);
        if i > 0 {
            out.append("; ");
        } else {
            assert(es.take(1)[0] == es[0]);
        }
        out.append(k.as_str());
        out.append("=");
        out.append(v.as_str());
        proof {
            if i == 0 {
                assert(out@ =~= cookie_header_text(es.take(1)));
            } else {
                assert(out@ =~= cookie_header_text(es.take(i as int + 1)));
            }
        }
        i = i + 1;
    }
    assert(es.take(n as int) =~= es);
    Some(out)
}

} // verus!
