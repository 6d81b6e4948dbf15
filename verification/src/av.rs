//! The antivirus hook: a command run on each finished download, with the
//! file's path filled into a template.
use vstd::prelude::*;

use crate::text::{chars_of, occurs_at, occurs_at_chars, string_of};

verus! {

/// What running the hook gave.
#[derive(Debug, Clone)]
pub struct AvHookResult {
    pub command: String,
    pub success: bool,
    pub code: Option<i32>,
    pub stdout: String,
    pub stderr: String,
}

/// `rep` before every character of `s` and once more at the end: what
/// replacing the empty pattern gives.
pub open spec fn interleave(s: Seq<char>, rep: Seq<char>) -> Seq<char>
    decreases s.len(),
{
    if s.len() == 0 {
        rep
    } else {
        rep + seq![s[0]] + interleave(s.drop_first(), rep)
    }
}

/// `s` with every occurrence of `pat`, left to right and not overlapping,
/// replaced by `rep` (`str::replace`); the empty pattern occurs at every
/// character boundary.
pub open spec fn replace_all(s: Seq<char>, pat: Seq<char>, rep: Seq<char>) -> Seq<char>
    decreases s.len(),
{
    if pat.len() == 0 {
        interleave(s, rep)
    } else if s.len() == 0 {
        s
    } else if s.len() >= pat.len() && s.take(pat.len() as int) == pat {
        rep + replace_all(s.skip(pat.len() as int), pat, rep)
    } else {
        seq![s[0]] + replace_all(s.drop_first(), pat, rep)
    }
}

/// Appends the characters of `r` to `out`.
fn push_chars(out: &mut Vec<char>, r: &Vec<char>)
    ensures
        final(out)@ == old(out)@ + r@,
{
    let mut k: usize = 0;
    while k < r.len()
        invariant
            k <= r@.len(),
            out@ == old(out)@ + r@.take(k as int),
        decreases r.len() - k,
    {
        out.push(r[k]);
        assert(out@ =~= old(out)@ + r@.take(k as int + 1));
        k = k + 1;
    }
    assert(r@.take(r@.len() as int) =~= r@);
}

/// `rep` before every character of `s` and once more at the end.
fn interleave_text(cs: &Vec<char>, r: &Vec<char>) -> (out: Vec<char>)
    ensures
        out@ == interleave(cs@, r@),
{
    let mut out: Vec<char> = Vec::new();
    let mut i: usize = 0;
    assert(cs@.skip(0) =~= cs@);
    assert(out@ + interleave(cs@.skip(0), r@) =~= interleave(cs@, r@));
    while i < cs.len()
        invariant
            i <= cs@.len(),
            interleave(cs@, r@) == out@ + interleave(cs@.skip(i as int), r@),
        decreases cs.len() - i,
    {
        let ghost before = out@;
        assert(cs@.skip(i as int).drop_first() =~= cs@.skip(i as int + 1));
        push_chars(&mut out, r);
        out.push(cs[i]);
        assert(before + interleave(cs@.skip(i as int), r@) =~= out@ + interleave(cs@.skip(i as int + 1), r@));
        i = i + 1;
    }
    assert(cs@.skip(i as int) =~= Seq::<char>::empty());
    let ghost before = out@;
    push_chars(&mut out, r);
    assert(out@ =~= before + interleave(cs@.skip(i as int), r@));
    out
}

/// `str::replace`: every occurrence of `pat`, left to right and not
/// overlapping, replaced by `rep`.
pub fn replace_text(s: &str, pat: &str, rep: &str) -> (out: String)
    ensures
        out@ == replace_all(s@, pat@, rep@),
{
    let cs = chars_of(s);
    let p = chars_of(pat);
    let r = chars_of(rep);
    if p.len() == 0 {
        let all = interleave_text(&cs, &r);
        return string_of(all.as_slice());
    }
    let mut out: Vec<char> = Vec::new();
    let mut i: usize = 0;
    assert(cs@.skip(0) =~= cs@);
    assert(out@ + replace_all(cs@.skip(0), p@, r@) =~= replace_all(cs@, p@, r@));
    while i < cs.len()
        invariant
            i <= cs@.len(),
            p@.len() > 0,
            cs@ == s@,
            p@ == pat@,
            r@ == rep@,
            replace_all(cs@, p@, r@) == out@ + replace_all(cs@.skip(i as int), p@, r@),
        decreases cs.len() - i,
    {
        let ghost rest = cs@.skip(i as int);
        if occurs_at_chars(cs.as_slice(), p.as_slice(), i) {
            assert(rest.take(p@.len() as int) =~= cs@.subrange(i as int, i + p@.len()));
            assert(rest.skip(p@.len() as int) =~= cs@.skip(i + p@.len()));
            let ghost before = out@;
            let mut k: usize = 0;
            while k < r.len()
                invariant
                    k <= r@.len(),
                    out@ == before + r@.take(k as int),
                decreases r.len() - k,
            {
                out.push(r[k]);
                assert(out@ =~= before + r@.take(k as int + 1));
                k = k + 1;
            }
            assert(r@.take(r@.len() as int) =~= r@);
            assert(before + (r@ + replace_all(cs@.skip(i + p@.len()), p@, r@)) =~= out@ + replace_all(
                cs@.skip(i + p@.len()),
                p@,
                r@,
            ));
            i = i + p.len();
        } else {
            assert(!(rest.len() >= p@.len() && rest.take(p@.len() as int) == p@)) by {
                if rest.len() >= p@.len() && rest.take(p@.len() as int) == p@ {
                    assert(cs@.subrange(i as int, i + p@.len()) =~= rest.take(p@.len() as int));
                }
            }
            assert(rest.drop_first() =~= cs@.skip(i as int + 1));
            let ghost before = out@;
            out.push(cs[i]);
            assert(before + (seq![cs@[i as int]] + replace_all(cs@.skip(i as int + 1), p@, r@)) =~= out@
                + replace_all(cs@.skip(i as int + 1), p@, r@));
            i = i + 1;
        }
    }
    assert(cs@.skip(i as int) =~= Seq::<char>::empty());
    assert(out@ + Seq::<char>::empty() =~= out@);
    string_of(out.as_slice())
}

/// The last component of a path as `Path::file_name` reads it, or the
/// empty text when it has none (such as a path ending in `..`).
pub uninterp spec fn path_file_name(path: Seq<char>) -> Seq<char>;

/// `Path::file_name`, as text, or empty when there is none or it is not
/// UTF-8; named by `path_file_name`.
#[verifier::external_body]
pub(crate) fn file_name_text(path: &str) -> (name: String)
    ensures
        name@ == path_file_name(path@),
{
    std::path::Path::new(path).file_name().and_then(|n| n.to_str()).unwrap_or_default().to_owned()
}

/// The hook command for a finished file: `{path}` and `{file}` become the
/// file's path and `{filename}` its file name.
pub open spec fn hook_command(template: Seq<char>, path: Seq<char>) -> Seq<char> {
    replace_all(
        replace_all(replace_all(template, "{path}"@, path), "{file}"@, path),
        "{filename}"@,
        path_file_name(path),
    )
}

/// Fills the hook template for a finished file (see `hook_command`).
pub fn render_hook_command(template: &str, output_path: &str) -> (command: String)
    ensures
        command@ == hook_command(template@, output_path@),
{
    proof {
        reveal_strlit("{path}");
        reveal_strlit("{file}");
        reveal_strlit("{filename}");
    }
    let name = file_name_text(output_path);
    let a = replace_text(template, "{path}", output_path);
    let b = replace_text(a.as_str(), "{file}", output_path);
    replace_text(b.as_str(), "{filename}", name.as_str())
}

} // verus!
