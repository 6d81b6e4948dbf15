//! The site spider: robots.txt rules, the links a page holds, which links
//! are followed, and the bookkeeping of a breadth-first crawl.
use vstd::prelude::*;

use crate::urls::{join_url, url_joined, ParsedUrl, last_segment_of_path, last_segment};
use crate::text::{
    chars_eq, chars_of, eq_ignore_case, eq_ignore_case_chars, lower_chars, lower_seq, pieces_view,
    slice_chars, split_on, split_on_chars, starts_with, starts_with_chars, string_of, trim,
    trim_chars,
};

verus! {

/// Bytes `c` takes in UTF-8.
pub open spec fn utf8_len(c: char) -> nat {
    let u = c as u32;
    if u < 0x80 {
        1
    } else if u < 0x800 {
        2
    } else if u < 0x10000 {
        3
    } else {
        4
    }
}

/// Bytes `s` takes in UTF-8.
pub open spec fn byte_len(s: Seq<char>) -> nat
    decreases s.len(),
{
    if s.len() == 0 {
        0
    } else {
        byte_len(s.drop_last()) + utf8_len(s.last())
    }
}

/// Byte offset `b` of the UTF-8 text of `s` falls between two characters.
pub open spec fn char_boundary(s: Seq<char>, b: nat) -> bool {
    exists|k: int| 0 <= k <= s.len() && byte_len(s.take(k)) == b
}

/// The part of a robots.txt line that counts: before any `#`, trimmed.
pub open spec fn robots_line(raw: Seq<char>) -> Seq<char> {
    trim(split_on(raw, '#')[0])
}

/// A line that opens a `User-agent` group.
pub open spec fn is_agent_line(line: Seq<char>) -> bool {
    starts_with(lower_seq(line), "user-agent:"@)
}

/// A line that names a disallowed path prefix.
pub open spec fn is_disallow_line(line: Seq<char>) -> bool {
    line.len() >= 9 && eq_ignore_case(line.take(9), "disallow:"@) && trim(line.skip(9)).len() > 0
}

/// One line read into (rules so far, whether the current group applies to
/// every agent): a `User-agent` line starts a group, which applies when its
/// value is `*`; within such a group each `Disallow` line with a path adds
/// the path.
pub open spec fn robots_step(state: (Seq<Seq<char>>, bool), raw: Seq<char>) -> (Seq<Seq<char>>, bool) {
    let line = robots_line(raw);
    if line.len() == 0 {
        state
    } else if is_agent_line(line) {
        (state.0, trim(lower_seq(line).skip(11)) == "*"@)
    } else if !state.1 {
        state
    } else if is_disallow_line(line) {
        (state.0.push(trim(line.skip(9))), state.1)
    } else {
        state
    }
}

/// The state after reading `lines`.
pub open spec fn robots_scan(lines: Seq<Seq<char>>) -> (Seq<Seq<char>>, bool)
    decreases lines.len(),
{
    if lines.len() == 0 {
        (Seq::empty(), false)
    } else {
        robots_step(robots_scan(lines.drop_last()), lines.last())
    }
}

/// The disallowed path prefixes that apply to every agent, in order.
pub open spec fn robots_rules(content: Seq<char>) -> Seq<Seq<char>> {
    robots_scan(split_on(content, '\n')).0
}

/// Reading `raw` in `state` cuts a line's text at byte 9, which must fall
/// between characters.
pub open spec fn robots_cut_ok(state: (Seq<Seq<char>>, bool), raw: Seq<char>) -> bool {
    let line = robots_line(raw);
    line.len() == 0 || is_agent_line(line) || !state.1 || byte_len(line) < 9 || char_boundary(line, 9)
}

/// Every line that is cut at byte 9 is cut between characters.
pub open spec fn robots_lines_ok(lines: Seq<Seq<char>>) -> bool
    decreases lines.len(),
{
    lines.len() == 0 || (robots_lines_ok(lines.drop_last()) && robots_cut_ok(
        robots_scan(lines.drop_last()),
        lines.last(),
    ))
}

/// The text of a robots.txt file is read without cutting a character.
pub open spec fn robots_text_ok(content: Seq<char>) -> bool {
    robots_lines_ok(split_on(content, '\n'))
}

/// The trimmed text before the first `#`.
fn robots_line_chars(raw: &[char]) -> (line: Vec<char>)
    ensures
        line@ == robots_line(raw@),
{
    let pieces = split_on_chars(raw, '#');
    proof {
        crate::text::lemma_split_on_nonempty(raw@, '#');
    }
    assert(pieces_view(pieces@)[0] == pieces@[0]@);
    trim_chars(pieces[0].as_slice())
}

/// Whether a trimmed line opens a `User-agent` group, and if so whether
/// the group is for every agent.
fn agent_value(line: &[char]) -> (r: Option<bool>)
    ensures
        match r {
            Some(all) => is_agent_line(line@) && all == (trim(lower_seq(line@).skip(11)) == "*"@),
            None => !is_agent_line(line@),
        },
{
    let lo = lower_chars(line);
    let prefix = chars_of("user-agent:");
    proof {
        reveal_strlit("user-agent:");
    }
    if !starts_with_chars(lo.as_slice(), prefix.as_slice()) {
        return None;
    }
    let value = slice_chars(lo.as_slice(), 11, lo.len());
    assert(value@ =~= lower_seq(line@).skip(11));
    let t = trim_chars(value.as_slice());
    let star = chars_of("*");
    Some(chars_eq(t.as_slice(), star.as_slice()))
}

/// The path a `Disallow` line names, if it is one.
fn disallow_value(line: &[char]) -> (r: Option<Vec<char>>)
    ensures
        match r {
            Some(p) => is_disallow_line(line@) && p@ == trim(line@.skip(9)),
            None => !is_disallow_line(line@),
        },
{
    if line.len() < 9 {
        return None;
    }
    let head = slice_chars(line, 0, 9);
    let key = chars_of("disallow:");
    if !eq_ignore_case_chars(head.as_slice(), key.as_slice()) {
        assert(head@ =~= line@.take(9));
        return None;
    }
    assert(head@ =~= line@.take(9));
    let rest = slice_chars(line, 9, line.len());
    assert(rest@ =~= line@.skip(9));
    let p = trim_chars(rest.as_slice());
    if p.len() == 0 {
        return None;
    }
    Some(p)
}

/// The disallowed path prefixes of a robots.txt file that apply to every
/// agent (`User-agent: *`), in order; comments after `#` are ignored and
/// field names are matched ignoring ASCII case.
pub fn parse_robots_disallow(content: &str) -> (rules: Vec<String>)
    requires
        robots_text_ok(content@),
    ensures
        crate::config::strs_view(rules@) == robots_rules(content@),
{
    let cs = chars_of(content);
    let lines = split_on_chars(cs.as_slice(), '\n');
    let ghost ls = pieces_view(lines@);
    let mut rules: Vec<String> = Vec::new();
    let mut active = false;
    let mut i: usize = 0;
    assert(ls.take(0) =~= Seq::<Seq<char>>::empty());
    while i < lines.len()
        invariant
            i <= lines@.len(),
            ls == pieces_view(lines@),
            ls == split_on(content@, '\n'),
            (crate::config::strs_view(rules@), active) == robots_scan(ls.take(i as int)),
        decreases lines.len() - i,
    {
        assert(ls.take(i as int + 1).drop_last() =~= ls.take(i as int));
        assert(ls.take(i as int + 1).last() == lines@[i as int]@);
        let line = robots_line_chars(lines[i].as_slice());
        if line.len() > 0 {
            match agent_value(line.as_slice()) {
                Some(all) => {
                    active = all;
                },
                None => {
                    if active {
                        if let Some(p) = disallow_value(line.as_slice()) {
                            let ghost before = crate::config::strs_view(rules@);
                            rules.push(string_of(p.as_slice()));
                            assert(crate::config::strs_view(rules@) =~= before.push(p@));
                        }
                    }
                },
            }
        }
        i = i + 1;
    }
    assert(ls.take(ls.len() as int) =~= ls);
    rules
}

/// Longer prefixes take more bytes.
proof fn lemma_byte_len_grows(s: Seq<char>, j: int, k: int)
    requires
        0 <= j < k <= s.len(),
    ensures
        byte_len(s.take(j)) < byte_len(s.take(k)),
    decreases k - j,
{
    assert(s.take(k).drop_last() =~= s.take(k - 1));
    if j < k - 1 {
        lemma_byte_len_grows(s, j, k - 1);
    }
}

/// Bytes `c` takes in UTF-8.
fn utf8_width(c: char) -> (n: u64)
    ensures
        n == utf8_len(c),
{
    let u = c as u32;
    if u < 0x80 {
        1
    } else if u < 0x800 {
        2
    } else if u < 0x10000 {
        3
    } else {
        4
    }
}

/// Whether the text of `line` is shorter than 9 bytes or has a character
/// boundary at byte 9.
fn cut_at_nine_ok(line: &[char]) -> (b: bool)
    ensures
        b == (byte_len(line@) < 9 || char_boundary(line@, 9)),
{
    let mut k: usize = 0;
    let mut acc: u64 = 0;
    assert(line@.take(0) =~= Seq::<char>::empty());
    while k < line.len() && acc < 9
        invariant
            k <= line@.len(),
            acc == byte_len(line@.take(k as int)),
            acc < 13,
            forall|j: int| 0 <= j < k ==> byte_len(#[trigger] line@.take(j)) < 9,
        decreases line.len() - k,
    {
        assert(line@.take(k as int + 1).drop_last() =~= line@.take(k as int));
        proof {
            if k > 0 {
                lemma_byte_len_grows(line@, k as int - 1, k as int);
            }
        }
        acc = acc + utf8_width(line[k]);
        k = k + 1;
    }
    if acc == 9 {
        return true;
    }
    if acc < 9 {
        assert(line@.take(k as int) =~= line@);
        assert(!char_boundary(line@, 9)) by {
            if char_boundary(line@, 9) {
                let j = choose|j: int| 0 <= j <= line@.len() && byte_len(line@.take(j)) == 9;
                if j < k {
                } else {
                    assert(line@.take(j) =~= line@);
                }
            }
        }
        return true;
    }
    assert(!char_boundary(line@, 9)) by {
        if char_boundary(line@, 9) {
            let j = choose|j: int| 0 <= j <= line@.len() && byte_len(line@.take(j)) == 9;
            if j < k {
            } else if j > k {
                lemma_byte_len_grows(line@, k as int, j);
            }
        }
    }
    assert(byte_len(line@) >= 9) by {
        if k < line@.len() {
            lemma_byte_len_grows(line@, k as int, line@.len() as int);
        }
        assert(line@.take(line@.len() as int) =~= line@);
    }
    false
}

/// Whether reading a robots.txt text never cuts a character (see
/// `robots_text_ok`).
pub fn robots_text_is_safe(content: &str) -> (ok: bool)
    ensures
        ok == robots_text_ok(content@),
{
    let cs = chars_of(content);
    let lines = split_on_chars(cs.as_slice(), '\n');
    let ghost ls = pieces_view(lines@);
    let mut active = false;
    let mut i: usize = 0;
    assert(ls.take(0) =~= Seq::<Seq<char>>::empty());
    while i < lines.len()
        invariant
            i <= lines@.len(),
            ls == pieces_view(lines@),
            ls == split_on(content@, '\n'),
            active == robots_scan(ls.take(i as int)).1,
            robots_lines_ok(ls.take(i as int)),
        decreases lines.len() - i,
    {
        assert(ls.take(i as int + 1).drop_last() =~= ls.take(i as int));
        assert(ls.take(i as int + 1).last() == lines@[i as int]@);
        let line = robots_line_chars(lines[i].as_slice());
        if line.len() > 0 {
            match agent_value(line.as_slice()) {
                Some(all) => {
                    active = all;
                },
                None => {
                    if active && !cut_at_nine_ok(line.as_slice()) {
                        proof {
                            lemma_robots_bad_stays_bad(ls, i as int + 1);
                            assert(ls.take(ls.len() as int) =~= ls);
                        }
                        return false;
                    }
                },
            }
        }
        i = i + 1;
    }
    assert(ls.take(ls.len() as int) =~= ls);
    true
}

/// Once a prefix of the lines cuts a character, the whole text does.
proof fn lemma_robots_bad_stays_bad(ls: Seq<Seq<char>>, k: int)
    requires
        0 <= k <= ls.len(),
        !robots_lines_ok(ls.take(k)),
    ensures
        !robots_lines_ok(ls),
    decreases ls.len() - k,
{
    if k < ls.len() {
        assert(ls.take(k + 1).drop_last() =~= ls.take(k));
        lemma_robots_bad_stays_bad(ls, k + 1);
    } else {
        assert(ls.take(k) =~= ls);
    }
}

/// No rule is a prefix of `path`.
pub open spec fn robots_allow(path: Seq<char>, rules: Seq<Seq<char>>) -> bool {
    forall|i: int| 0 <= i < rules.len() ==> !starts_with(path, #[trigger] rules[i])
}

/// Whether robots.txt rules let the spider fetch `url`: no rule is a prefix
/// of its path.
pub fn is_allowed_by_robots(url: &ParsedUrl, disallow: &[String]) -> (ok: bool)
    ensures
        ok == robots_allow(url.path@, crate::config::strs_view(disallow@)),
{
    let path = chars_of(url.path.as_str());
    let mut i: usize = 0;
    while i < disallow.len()
        invariant
            i <= disallow@.len(),
            path@ == url.path@,
            forall|j: int| 0 <= j < i ==> !starts_with(path@, #[trigger] crate::config::strs_view(disallow@)[j]),
        decreases disallow.len() - i,
    {
        let rule = chars_of(disallow[i].as_str());
        assert(crate::config::strs_view(disallow@)[i as int] == disallow@[i as int]@);
        if starts_with_chars(path.as_slice(), rule.as_slice()) {
            return false;
        }
        i = i + 1;
    }
    true
}

/// The first position at or after `from` where `p` occurs in `s`.
pub open spec fn first_occurrence(s: Seq<char>, p: Seq<char>, from: int) -> Option<int> {
    if exists|i: int| from <= i && crate::text::occurs_at(s, p, i) {
        Some(
            choose|i: int|
                from <= i && crate::text::occurs_at(s, p, i) && forall|j: int|
                    from <= j < i ==> !crate::text::occurs_at(s, p, j),
        )
    } else {
        None
    }
}

/// The quoted `href=` values of `s` from position `start` on, trimmed, in
/// order: after each `href=` comes a `'` or `"` and the value runs to the
/// next such quote; any other character after `href=` is passed over, and
/// an unterminated value ends the scan.
#[verifier::opaque]
pub open spec fn href_values(s: Seq<char>, start: nat) -> Seq<Seq<char>>
    decreases s.len() - start,
{
    match first_occurrence(s, "href="@, start as int) {
        Some(off) => {
            let idx = off + 5;
            if off < start || idx >= s.len() {
                Seq::empty()
            } else {
                let q = s[idx];
                if q != '\'' && q != '"' {
                    href_values(s, (idx + 1) as nat)
                } else {
                    let rest = s.skip(idx + 1);
                    match crate::text::first_index(rest, q) {
                        Some(e) => if e < 0 {
                            Seq::empty()
                        } else {
                            seq![trim(rest.take(e))] + href_values(s, (idx + 1 + e + 1) as nat)
                        },
                        None => Seq::empty(),
                    }
                }
            }
        },
        None => Seq::empty(),
    }
}

/// Scanning from `start` never steps into the middle of a character: a
/// character after `href=` that is not a quote is a single byte.
#[verifier::opaque]
pub open spec fn href_scan_ok(s: Seq<char>, start: nat) -> bool
    decreases s.len() - start,
{
    match first_occurrence(s, "href="@, start as int) {
        Some(off) => {
            let idx = off + 5;
            if off < start || idx >= s.len() {
                true
            } else {
                let q = s[idx];
                if q != '\'' && q != '"' {
                    utf8_len(q) == 1 && href_scan_ok(s, (idx + 1) as nat)
                } else {
                    let rest = s.skip(idx + 1);
                    match crate::text::first_index(rest, q) {
                        Some(e) => if e < 0 {
                            true
                        } else {
                            href_scan_ok(s, (idx + 1 + e + 1) as nat)
                        },
                        None => true,
                    }
                }
            }
        },
        None => true,
    }
}

/// The links the `href=` values make against `base`, those that resolve.
pub open spec fn resolved_links(base: Seq<char>, raws: Seq<Seq<char>>) -> Seq<Seq<char>>
    decreases raws.len(),
{
    if raws.len() == 0 {
        Seq::empty()
    } else {
        let rest = resolved_links(base, raws.drop_last());
        match url_joined(base, raws.last()) {
            Ok(u) => rest.push(u),
            Err(_) => rest,
        }
    }
}

proof fn lemma_first_occurrence(s: Seq<char>, p: Seq<char>, from: int, i: int)
    requires
        from <= i,
        crate::text::occurs_at(s, p, i),
        forall|j: int| from <= j < i ==> !crate::text::occurs_at(s, p, j),
    ensures
        first_occurrence(s, p, from) == Some(i),
{
    let k = choose|k: int|
        from <= k && crate::text::occurs_at(s, p, k) && forall|j: int|
            from <= j < k ==> !crate::text::occurs_at(s, p, j);
    assert(k == i) by {
        if k < i {
        } else if k > i {
        }
    }
}

/// One step of the `href=` scan.
enum HrefStep {
    Done,
    Skip(usize),
    Value(Vec<char>, usize),
}

/// Scans from `start` to the next `href=` and reads what follows it.
fn href_step(cs: &Vec<char>, needle: &Vec<char>, start: usize) -> (r: HrefStep)
    requires
        needle@ == "href="@,
        start <= cs@.len(),
        href_scan_ok(cs@, start as nat),
    ensures
        match r {
            HrefStep::Done => href_values(cs@, start as nat) == Seq::<Seq<char>>::empty(),
            HrefStep::Skip(n) => start < n <= cs@.len() && href_values(cs@, start as nat) == href_values(
                cs@,
                n as nat,
            ) && href_scan_ok(cs@, n as nat),
            HrefStep::Value(v, n) => start < n <= cs@.len() && href_values(cs@, start as nat) == seq![v@]
                + href_values(cs@, n as nat) && href_scan_ok(cs@, n as nat),
        },
{
    proof {
        reveal_strlit("href=");
        reveal(href_values);
        reveal(href_scan_ok);
    }
    assert(needle@.len() == 5);
    let found = crate::text::find_seq_from(cs.as_slice(), needle.as_slice(), start);
    match found {
        None => {
            assert(first_occurrence(cs@, "href="@, start as int) is None);
            HrefStep::Done
        },
        Some(off) => {
            proof {
                lemma_first_occurrence(cs@, "href="@, start as int, off as int);
            }
            assert(crate::text::occurs_at(cs@, needle@, off as int));
            let n = cs.len();
            assert(off + 5 <= n);
            let idx = off + 5;
            if idx >= cs.len() {
                return HrefStep::Done;
            }
            let q = cs[idx];
            if q != '\'' && q != '"' {
                HrefStep::Skip(idx + 1)
            } else {
                let rest = slice_chars(cs.as_slice(), idx + 1, cs.len());
                assert(rest@ =~= cs@.skip(idx as int + 1));
                match crate::text::find_char(rest.as_slice(), q) {
                    Some(e) => {
                        let raw = slice_chars(rest.as_slice(), 0, e);
                        assert(raw@ =~= rest@.take(e as int));
                        let value = trim_chars(raw.as_slice());
                        HrefStep::Value(value, idx + 1 + e + 1)
                    },
                    None => HrefStep::Done,
                }
            }
        },
    }
}

/// The raw `href=` values of a page (see `href_values`).
pub fn href_values_of(html: &str) -> (raws: Vec<Vec<char>>)
    requires
        href_scan_ok(html@, 0),
    ensures
        pieces_view(raws@) == href_values(html@, 0),
{
    let cs = chars_of(html);
    let needle = chars_of("href=");
    let mut out: Vec<Vec<char>> = Vec::new();
    let mut start: usize = 0;
    assert(pieces_view(out@) + href_values(cs@, 0) =~= href_values(cs@, 0));
    loop
        invariant
            cs@ == html@,
            needle@ == "href="@,
            start <= cs@.len(),
            href_scan_ok(cs@, start as nat),
            href_values(cs@, 0) == pieces_view(out@) + href_values(cs@, start as nat),
        decreases cs@.len() - start,
    {
        match href_step(&cs, &needle, start) {
            HrefStep::Done => {
                assert(pieces_view(out@) + Seq::<Seq<char>>::empty() =~= pieces_view(out@));
                return out;
            },
            HrefStep::Skip(n) => {
                start = n;
            },
            HrefStep::Value(v, n) => {
                let ghost before = pieces_view(out@);
                let ghost vv = v@;
                out.push(v);
                assert(pieces_view(out@) =~= before.push(vv));
                assert(before + (seq![vv] + href_values(cs@, n as nat)) =~= before.push(vv)
                    + href_values(cs@, n as nat));
                start = n;
            },
        }
    }
}

/// The links of a page: each quoted `href=` value resolved against `base`,
/// in order, dropping those that do not resolve.
pub fn extract_links(base: &str, html: &str) -> (links: Vec<String>)
    requires
        href_scan_ok(html@, 0),
    ensures
        crate::config::strs_view(links@) == resolved_links(base@, href_values(html@, 0)),
{
    let raws = href_values_of(html);
    let ghost rs = pieces_view(raws@);
    let mut links: Vec<String> = Vec::new();
    let mut i: usize = 0;
    assert(rs.take(0) =~= Seq::<Seq<char>>::empty());
    while i < raws.len()
        invariant
            i <= raws@.len(),
            rs == pieces_view(raws@),
            crate::config::strs_view(links@) == resolved_links(base@, rs.take(i as int)),
        decreases raws.len() - i,
    {
        assert(rs.take(i as int + 1).drop_last() =~= rs.take(i as int));
        assert(rs.take(i as int + 1).last() == raws@[i as int]@);
        let raw = string_of(raws[i].as_slice());
        match join_url(base, raw.as_str()) {
            Ok(u) => {
                let ghost before = crate::config::strs_view(links@);
                links.push(u);
                assert(crate::config::strs_view(links@) =~= before.push(links@.last()@));
            },
            Err(_) => {},
        }
        i = i + 1;
    }
    assert(rs.take(rs.len() as int) =~= rs);
    links
}

/// One step of the safety scan.
enum ScanStep {
    Safe,
    Unsafe,
    Next(usize),
}

/// Checks the next `href=` from `start`.
#[verifier::spinoff_prover]
#[verifier::rlimit(30)]
fn scan_step(cs: &Vec<char>, needle: &Vec<char>, start: usize) -> (r: ScanStep)
    requires
        needle@ == "href="@,
        start <= cs@.len(),
    ensures
        match r {
            ScanStep::Safe => href_scan_ok(cs@, start as nat),
            ScanStep::Unsafe => !href_scan_ok(cs@, start as nat),
            ScanStep::Next(n) => start < n <= cs@.len() && href_scan_ok(cs@, start as nat) == href_scan_ok(
                cs@,
                n as nat,
            ),
        },
{
    proof {
        reveal_strlit("href=");
        reveal(href_scan_ok);
    }
    assert(needle@.len() == 5);
    let found = crate::text::find_seq_from(cs.as_slice(), needle.as_slice(), start);
    match found {
        None => {
            assert(first_occurrence(cs@, "href="@, start as int) is None);
            ScanStep::Safe
        },
        Some(off) => {
            proof {
                lemma_first_occurrence(cs@, "href="@, start as int, off as int);
            }
            assert(crate::text::occurs_at(cs@, needle@, off as int));
            let n = cs.len();
            assert(off + 5 <= n);
            let idx = off + 5;
            if idx >= n {
                return ScanStep::Safe;
            }
            let q = cs[idx];
            if q != '\'' && q != '"' {
                if (q as u32) >= 0x80 {
                    return ScanStep::Unsafe;
                }
                ScanStep::Next(idx + 1)
            } else {
                let rest = slice_chars(cs.as_slice(), idx + 1, n);
                assert(rest@ =~= cs@.skip(idx as int + 1));
                match crate::text::find_char(rest.as_slice(), q) {
                    Some(e) => ScanStep::Next(idx + 1 + e + 1),
                    None => ScanStep::Safe,
                }
            }
        },
    }
}

/// Whether scanning `html` for `href=` values never steps into the middle
/// of a character (see `href_scan_ok`).
pub fn href_scan_is_safe(html: &str) -> (ok: bool)
    ensures
        ok == href_scan_ok(html@, 0),
{
    let cs = chars_of(html);
    let needle = chars_of("href=");
    let mut start: usize = 0;
    loop
        invariant
            cs@ == html@,
            needle@ == "href="@,
            start <= cs@.len(),
            href_scan_ok(cs@, 0) == href_scan_ok(cs@, start as nat),
        decreases cs@.len() - start,
    {
        match scan_step(&cs, &needle, start) {
            ScanStep::Safe => {
                return true;
            },
            ScanStep::Unsafe => {
                return false;
            },
            ScanStep::Next(n) => {
                start = n;
            },
        }
    }
}

/// What the spider crawls and which links it keeps.
#[derive(Debug, Clone)]
pub struct SpiderConfig {
    pub root: ParsedUrl,
    pub max_depth: usize,
    /// Extensions (lower case) of the links to keep; all when empty.
    pub allowed_extensions: Vec<String>,
    pub same_host_only: bool,
    pub respect_robots: bool,
    /// URL schemes to follow.
    pub allowed_schemes: Vec<String>,
}

impl SpiderConfig {
    /// Fills in the schemes to follow, `http` and `https`, when none are
    /// given; everything else is kept.
    pub fn normalized(self) -> (c: Self)
        ensures
            self.allowed_schemes@.len() == 0 ==> crate::config::strs_view(c.allowed_schemes@) == seq![
                "http"@,
                "https"@,
            ],
            self.allowed_schemes@.len() > 0 ==> c.allowed_schemes == self.allowed_schemes,
            c.root == self.root,
            c.max_depth == self.max_depth,
            c.allowed_extensions == self.allowed_extensions,
            c.same_host_only == self.same_host_only,
            c.respect_robots == self.respect_robots,
    {
        let mut c = self;
        if c.allowed_schemes.len() == 0 {
            c.allowed_schemes.push("http".to_owned());
            c.allowed_schemes.push("https".to_owned());
            assert(crate::config::strs_view(c.allowed_schemes@) =~= seq!["http"@, "https"@]);
        }
        c
    }
}

/// A link the spider found, and how deep it was.
#[derive(Debug, Clone)]
pub struct SpiderHit {
    pub url: String,
    pub depth: usize,
}

/// Lower-cased extension of a URL's last path segment.
pub open spec fn link_extension(path: Seq<char>) -> Option<Seq<char>> {
    match last_segment_of_path(path) {
        Some(seg) => match crate::text::rsplit_once(seg, '.') {
            Some((_, e)) => Some(lower_seq(e)),
            None => None,
        },
        None => None,
    }
}

/// The spider keeps `link`: its scheme is allowed, it is on the root's host
/// when that is asked for, robots.txt allows it, and its extension (if it
/// has one) is allowed when extensions are restricted.
pub open spec fn link_kept(config: SpiderConfig, link: ParsedUrl, robots: Seq<Seq<char>>) -> bool {
    &&& crate::config::strs_view(config.allowed_schemes@).contains(link.scheme@)
    &&& (config.same_host_only ==> crate::urls::opt_view(link.host) == crate::urls::opt_view(config.root.host))
    &&& robots_allow(link.path@, robots)
    &&& (link_extension(link.path@) matches Some(e) ==> (config.allowed_extensions@.len() == 0
        || crate::config::strs_view(config.allowed_extensions@).contains(e)))
}

/// Whether `list` holds a string with the characters `s`.
fn holds(list: &Vec<String>, s: &[char]) -> (b: bool)
    ensures
        b == crate::config::strs_view(list@).contains(s@),
{
    let mut i: usize = 0;
    while i < list.len()
        invariant
            i <= list@.len(),
            forall|j: int| 0 <= j < i ==> crate::config::strs_view(list@)[j] != s@,
        decreases list.len() - i,
    {
        let c = chars_of(list[i].as_str());
        if chars_eq(c.as_slice(), s) {
            assert(crate::config::strs_view(list@)[i as int] == s@);
            return true;
        }
        i = i + 1;
    }
    false
}

/// Whether the spider keeps a link it found (see `link_kept`).
pub fn keeps_link(config: &SpiderConfig, link: &ParsedUrl, robots: &[String]) -> (b: bool)
    ensures
        b == link_kept(*config, *link, crate::config::strs_view(robots@)),
{
    let scheme = chars_of(link.scheme.as_str());
    if !holds(&config.allowed_schemes, scheme.as_slice()) {
        return false;
    }
    if config.same_host_only {
        let same = match (&link.host, &config.root.host) {
            (Some(a), Some(b)) => *a == *b,
            (None, None) => true,
            _ => false,
        };
        if !same {
            return false;
        }
    }
    if !is_allowed_by_robots(link, robots) {
        return false;
    }
    match last_segment(link) {
        Some(seg) => match crate::text::rsplit_once_chars(seg.as_slice(), '.') {
            Some((_, e)) => {
                let ext = lower_chars(e.as_slice());
                config.allowed_extensions.len() == 0 || holds(&config.allowed_extensions, ext.as_slice())
            },
            None => true,
        },
        None => true,
    }
}

/// The URLs of the hits without repeats, first occurrences in order.
pub open spec fn distinct_urls(urls: Seq<Seq<char>>) -> Seq<Seq<char>>
    decreases urls.len(),
{
    if urls.len() == 0 {
        urls
    } else {
        let prev = distinct_urls(urls.drop_last());
        if prev.contains(urls.last()) {
            prev
        } else {
            prev.push(urls.last())
        }
    }
}

/// The URLs of the hits, each once, in the order first found.
pub fn collect_urls(hits: &[SpiderHit]) -> (urls: Vec<String>)
    ensures
        crate::config::strs_view(urls@) == distinct_urls(hits@.map_values(|h: SpiderHit| h.url@)),
{
    let ghost us = hits@.map_values(|h: SpiderHit| h.url@);
    let mut out: Vec<String> = Vec::new();
    let mut i: usize = 0;
    assert(us.take(0) =~= Seq::<Seq<char>>::empty());
    while i < hits.len()
        invariant
            i <= hits@.len(),
            us == hits@.map_values(|h: SpiderHit| h.url@),
            crate::config::strs_view(out@) == distinct_urls(us.take(i as int)),
        decreases hits.len() - i,
    {
        assert(us.take(i as int + 1).drop_last() =~= us.take(i as int));
        assert(us.take(i as int + 1).last() == hits@[i as int].url@);
        let u = chars_of(hits[i].url.as_str());
        if !holds(&out, u.as_slice()) {
            let ghost before = crate::config::strs_view(out@);
            out.push(hits[i].url.clone());
            assert(crate::config::strs_view(out@) =~= before.push(u@));
        }
        i = i + 1;
    }
    assert(us.take(us.len() as int) =~= us);
    out
}

/// What a crawl has to do and has done: the pages waiting, with their
/// depth, the URLs already taken, and the links found.
#[derive(Debug)]
pub struct CrawlState {
    pub queue: std::collections::VecDeque<(ParsedUrl, usize)>,
    pub visited: Vec<String>,
    pub hits: Vec<SpiderHit>,
}

/// Taking the next page: entries deeper than `max` or already taken are
/// dropped; an entry robots.txt forbids is marked taken and dropped; the
/// first other entry is marked taken and returned.
pub open spec fn next_page(
    queue: Seq<(ParsedUrl, usize)>,
    visited: Seq<Seq<char>>,
    max: usize,
    robots: Seq<Seq<char>>,
) -> (Option<(ParsedUrl, usize)>, Seq<(ParsedUrl, usize)>, Seq<Seq<char>>)
    decreases queue.len(),
{
    if queue.len() == 0 {
        (None, queue, visited)
    } else {
        let (u, d) = queue[0];
        let rest = queue.drop_first();
        if d > max || visited.contains(u.serialization@) {
            next_page(rest, visited, max, robots)
        } else if !robots_allow(u.path@, robots) {
            next_page(rest, visited.push(u.serialization@), max, robots)
        } else {
            (Some(queue[0]), rest, visited.push(u.serialization@))
        }
    }
}

/// The links the spider keeps, in order.
pub open spec fn kept_links(config: SpiderConfig, links: Seq<ParsedUrl>, robots: Seq<Seq<char>>) -> Seq<ParsedUrl>
    decreases links.len(),
{
    if links.len() == 0 {
        links
    } else {
        let rest = kept_links(config, links.drop_last(), robots);
        if link_kept(config, links.last(), robots) {
            rest.push(links.last())
        } else {
            rest
        }
    }
}

/// The hits as (URL text, depth) pairs.
pub open spec fn hits_view(hits: Seq<SpiderHit>) -> Seq<(Seq<char>, usize)> {
    hits.map_values(|h: SpiderHit| (h.url@, h.depth))
}

impl CrawlState {
    /// A crawl that starts at `root`, at depth 0.
    pub fn new(root: &ParsedUrl) -> (s: Self)
        ensures
            s.queue@ == seq![(*root, 0usize)],
            s.visited@.len() == 0,
            s.hits@.len() == 0,
    {
        let mut queue = std::collections::VecDeque::new();
        queue.push_back((root.clone(), 0));
        assert(queue@ =~= seq![(*root, 0usize)]);
        CrawlState { queue, visited: Vec::new(), hits: Vec::new() }
    }

    /// The next page to fetch, and its depth (see `next_page`).
    pub fn next_url(&mut self, max_depth: usize, robots: &[String]) -> (r: Option<(ParsedUrl, usize)>)
        ensures
            (r, final(self).queue@, crate::config::strs_view(final(self).visited@)) == next_page(
                old(self).queue@,
                crate::config::strs_view(old(self).visited@),
                max_depth,
                crate::config::strs_view(robots@),
            ),
            final(self).hits == old(self).hits,
    {
        let ghost rv = crate::config::strs_view(robots@);
        loop
            invariant
                rv == crate::config::strs_view(robots@),
                self.hits == old(self).hits,
                next_page(self.queue@, crate::config::strs_view(self.visited@), max_depth, rv)
                    == next_page(old(self).queue@, crate::config::strs_view(old(self).visited@), max_depth, rv),
            decreases self.queue@.len(),
        {
            let ghost q0 = self.queue@;
            let ghost v0 = crate::config::strs_view(self.visited@);
            match self.queue.pop_front() {
                None => {
                    return None;
                },
                Some((url, depth)) => {
                    assert(q0[0] == (url, depth));
                    assert(self.queue@ =~= q0.drop_first());
                    if depth > max_depth {
                        continue;
                    }
                    let u = chars_of(url.serialization.as_str());
                    if holds(&self.visited, u.as_slice()) {
                        continue;
                    }
                    self.visited.push(url.serialization.clone());
                    assert(crate::config::strs_view(self.visited@) =~= v0.push(url.serialization@));
                    if !is_allowed_by_robots(&url, robots) {
                        continue;
                    }
                    return Some((url, depth));
                },
            }
        }
    }

    /// Records the links found on a page at `depth`: each kept link (see
    /// `link_kept`) becomes a hit one level deeper and, while that is within
    /// `max_depth`, a page to visit.
    pub fn record_links(&mut self, config: &SpiderConfig, depth: usize, links: Vec<ParsedUrl>, robots: &[String])
        requires
            depth < usize::MAX,
        ensures
            hits_view(final(self).hits@) == hits_view(old(self).hits@) + kept_links(
                *config,
                links@,
                crate::config::strs_view(robots@),
            ).map_values(|l: ParsedUrl| (l.serialization@, (depth + 1) as usize)),
            final(self).queue@ == old(self).queue@ + if depth < config.max_depth {
                kept_links(*config, links@, crate::config::strs_view(robots@)).map_values(
                    |l: ParsedUrl| (l, (depth + 1) as usize),
                )
            } else {
                Seq::empty()
            },
            final(self).visited == old(self).visited,
    {
        let ghost rv = crate::config::strs_view(robots@);
        let ghost all = links@;
        let ghost h0 = hits_view(self.hits@);
        let ghost q0 = self.queue@;
        let n = links.len();
        let mut links = links;
        let mut i: usize = 0;
        assert(all.take(0) =~= Seq::<ParsedUrl>::empty());
        assert(h0 + kept_links(*config, all.take(0), rv).map_values(|l: ParsedUrl| (l.serialization@, (depth + 1) as usize)) =~= h0);
        assert(q0 + Seq::<(ParsedUrl, usize)>::empty() =~= q0);
        while links.len() > 0
            invariant
                n == all.len(),
                i + links@.len() == n,
                links@ == all.skip(i as int),
                depth < usize::MAX,
                rv == crate::config::strs_view(robots@),
                self.visited == old(self).visited,
                hits_view(self.hits@) == h0 + kept_links(*config, all.take(i as int), rv).map_values(
                    |l: ParsedUrl| (l.serialization@, (depth + 1) as usize),
                ),
                self.queue@ == q0 + if depth < config.max_depth {
                    kept_links(*config, all.take(i as int), rv).map_values(|l: ParsedUrl| (l, (depth + 1) as usize))
                } else {
                    Seq::empty()
                },
            decreases links.len(),
        {
            let link = links.remove(0);
            assert(all[i as int] == link);
            assert(all.take(i as int + 1).drop_last() =~= all.take(i as int));
            let ghost k0 = kept_links(*config, all.take(i as int), rv);
            if keeps_link(config, &link, robots) {
                let ghost hb = hits_view(self.hits@);
                let ghost qb = self.queue@;
                self.hits.push(SpiderHit { url: link.serialization.clone(), depth: depth + 1 });
                assert(hits_view(self.hits@) =~= hb.push((link.serialization@, (depth + 1) as usize)));
                assert(k0.push(link).map_values(|l: ParsedUrl| (l.serialization@, (depth + 1) as usize))
                    =~= k0.map_values(|l: ParsedUrl| (l.serialization@, (depth + 1) as usize)).push(
                    (link.serialization@, (depth + 1) as usize),
                ));
                if depth < config.max_depth {
                    self.queue.push_back((link, depth + 1));
                    assert(k0.push(all[i as int]).map_values(|l: ParsedUrl| (l, (depth + 1) as usize)) =~= k0.map_values(
                        |l: ParsedUrl| (l, (depth + 1) as usize),
                    ).push((all[i as int], (depth + 1) as usize)));
                }
            }
            assert(links@ =~= all.skip(i as int + 1));
            i = i + 1;
        }
        assert(all.take(n as int) =~= all);
    }
}

} // verus!
