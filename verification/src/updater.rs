//! Update checks: reading a release's version against the running one, and
//! picking the release asset for a platform.
use vstd::prelude::*;

use crate::error::LokiDmError;
use crate::text::{
    chars_eq, chars_of, contains_chars, contains_seq, lower_chars, lower_seq, strip_start_char,
    strip_start_char_chars, string_of, trim, trim_chars,
};

verus! {

/// A file attached to a release.
#[derive(Debug)]
pub struct ReleaseAsset {
    pub name: String,
    pub download_url: String,
    pub size: Option<u64>,
}

impl Clone for ReleaseAsset {
    fn clone(&self) -> (r: Self)
        ensures
            r == *self,
    {
        ReleaseAsset { name: self.name.clone(), download_url: self.download_url.clone(), size: self.size }
    }
}

/// What an update check found.
#[derive(Debug, Clone)]
pub struct UpdateInfo {
    pub current_version: String,
    pub latest_version: String,
    pub update_available: bool,
    pub release_name: Option<String>,
    pub release_notes: Option<String>,
    pub published_at: Option<String>,
    pub assets: Vec<ReleaseAsset>,
}

/// A version text without surrounding blanks and leading `v`s.
pub open spec fn normalized_version(raw: Seq<char>) -> Seq<char> {
    strip_start_char(trim(raw), 'v')
}

/// Strips surrounding blanks and leading `v`s from a version (`v1.2.3`
/// becomes `1.2.3`).
pub fn normalize_version(raw: &str) -> (v: String)
    ensures
        v@ == normalized_version(raw@),
{
    let t = trim_chars(chars_of(raw).as_slice());
    let s = strip_start_char_chars(t.as_slice(), 'v');
    string_of(s.as_slice())
}

/// What `semver::Version::parse` says of a text: `None` when it is a
/// version, else the text of the error.
pub uninterp spec fn semver_rejection(s: Seq<char>) -> Option<Seq<char>>;

/// `semver::Version`'s order: the first version is later than the second.
pub uninterp spec fn semver_newer(a: Seq<char>, b: Seq<char>) -> bool;

/// `semver::Version::parse`, keeping only the error's text when it fails;
/// named by `semver_rejection`.
#[verifier::external_body]
fn version_rejection(s: &str) -> (r: Option<String>)
    ensures
        match r {
            Some(e) => semver_rejection(s@) == Some(e@),
            None => semver_rejection(s@) is None,
        },
{
    match semver::Version::parse(s) {
        Ok(_) => None,
        Err(e) => Some(e.to_string()),
    }
}

/// `semver::Version::parse` of both texts and `>` between them; `None`
/// when either does not parse. The order is named by `semver_newer`.
#[verifier::external_body]
fn version_is_newer(a: &str, b: &str) -> (r: Option<bool>)
    ensures
        semver_rejection(a@) is None && semver_rejection(b@) is None ==> r == Some(
            semver_newer(a@, b@),
        ),
{
    match (semver::Version::parse(a), semver::Version::parse(b)) {
        (Ok(x), Ok(y)) => Some(x > y),
        _ => None,
    }
}

/// `'version': error` message for a version that does not parse.
pub open spec fn invalid_version_text(which: Seq<char>, v: Seq<char>, err: Seq<char>) -> Seq<char> {
    "invalid "@ + which + " version '"@ + v + "': "@ + err
}

fn invalid_version(which: &str, v: &str, err: &str) -> (m: String)
    ensures
        m@ == invalid_version_text(which@, v@, err@),
{
    let mut m = "invalid ".to_owned();
    m.append(which);
    m.append(" version '");
    m.append(v);
    m.append("': ");
    m.append(err);
    m
}

/// Compares a release with the running version: both are normalized
/// (`normalize_version`) and must be semantic versions; an update is
/// available when the release is newer. The release's name, notes, date
/// and assets are carried over.
pub fn build_update_info(
    tag_name: &str,
    current_version: &str,
    release_name: Option<String>,
    release_notes: Option<String>,
    published_at: Option<String>,
    assets: Vec<ReleaseAsset>,
) -> (r: Result<UpdateInfo, LokiDmError>)
    ensures
        ({
            let latest = normalized_version(tag_name@);
            let current = normalized_version(current_version@);
            match r {
                Ok(info) => {
                    &&& semver_rejection(latest) is None
                    &&& semver_rejection(current) is None
                    &&& info.latest_version@ == latest
                    &&& info.current_version@ == current
                    &&& info.update_available == semver_newer(latest, current)
                    &&& info.release_name == release_name
                    &&& info.release_notes == release_notes
                    &&& info.published_at == published_at
                    &&& info.assets == assets
                },
                Err(e) => match semver_rejection(latest) {
                    Some(err) => e matches LokiDmError::Message(m) && m@ == invalid_version_text(
                        "latest"@,
                        latest,
                        err,
                    ),
                    None => semver_rejection(current) matches Some(err) && (e matches LokiDmError::Message(
                        m,
                    ) && m@ == invalid_version_text("current"@, current, err)),
                },
            }
        }),
{
    let latest = normalize_version(tag_name);
    let current = normalize_version(current_version);
    if let Some(err) = version_rejection(latest.as_str()) {
        return Err(LokiDmError::Message(invalid_version("latest", latest.as_str(), err.as_str())));
    }
    if let Some(err) = version_rejection(current.as_str()) {
        return Err(LokiDmError::Message(invalid_version("current", current.as_str(), err.as_str())));
    }
    let newer = match version_is_newer(latest.as_str(), current.as_str()) {
        Some(b) => b,
        None => false,
    };
    Ok(UpdateInfo {
        current_version: current,
        latest_version: latest,
        update_available: newer,
        release_name,
        release_notes,
        published_at,
        assets,
    })
}

/// The words an asset name is searched for on a platform, most wanted
/// first.
pub open spec fn platform_terms(os: Seq<char>, arch: Seq<char>) -> Seq<Seq<char>> {
    if os == "windows"@ {
        seq!["windows"@, "win"@, arch, ".msi"@, ".exe"@, ".zip"@]
    } else if os == "macos"@ {
        seq!["macos"@, "darwin"@, arch, ".dmg"@, ".pkg"@, ".zip"@]
    } else if os == "linux"@ {
        seq!["linux"@, arch, ".deb"@, ".rpm"@, ".appimage"@, ".tar"@]
    } else {
        seq![arch]
    }
}

/// The first asset whose name contains `term`, ignoring ASCII case.
pub open spec fn first_asset_with(assets: Seq<ReleaseAsset>, term: Seq<char>) -> Option<int>
    decreases assets.len(),
{
    if assets.len() == 0 {
        None
    } else if contains_seq(lower_seq(assets[0].name@), lower_seq(term)) {
        Some(0)
    } else {
        match first_asset_with(assets.drop_first(), term) {
            Some(i) => Some(i + 1),
            None => None,
        }
    }
}

/// The asset for the first term some asset name contains; else the first
/// asset, if any.
pub open spec fn asset_choice(assets: Seq<ReleaseAsset>, terms: Seq<Seq<char>>) -> Option<int>
    decreases terms.len(),
{
    if terms.len() == 0 {
        if assets.len() > 0 {
            Some(0)
        } else {
            None
        }
    } else {
        match first_asset_with(assets, terms[0]) {
            Some(i) => Some(i),
            None => asset_choice(assets, terms.drop_first()),
        }
    }
}

proof fn lemma_first_asset_bounds(assets: Seq<ReleaseAsset>, term: Seq<char>)
    ensures
        first_asset_with(assets, term) matches Some(i) ==> 0 <= i < assets.len(),
    decreases assets.len(),
{
    if assets.len() > 0 {
        lemma_first_asset_bounds(assets.drop_first(), term);
    }
}

/// The first asset whose lower-cased name contains `term` (itself lower
/// case) is the one `first_asset_with` finds.
proof fn lemma_first_asset_is(assets: Seq<ReleaseAsset>, term: Seq<char>, i: int)
    requires
        lower_seq(term) == term,
        0 <= i < assets.len(),
        contains_seq(lower_seq(assets[i].name@), term),
        forall|j: int| 0 <= j < i ==> !contains_seq(lower_seq(#[trigger] assets[j].name@), term),
    ensures
        first_asset_with(assets, term) == Some(i),
    decreases i,
{
    if i > 0 {
        assert(!contains_seq(lower_seq(assets[0].name@), term));
        let rest = assets.drop_first();
        assert forall|j: int| 0 <= j < i - 1 implies !contains_seq(lower_seq(#[trigger] rest[j].name@), term) by {
            assert(rest[j] == assets[j + 1]);
        }
        lemma_first_asset_is(rest, term, i - 1);
    }
}

/// The platform's own name is searched first: on `windows`, `macos` and
/// `linux`, when some asset's name contains that word (ignoring ASCII
/// case), the asset picked is the first such one, whatever the
/// architecture.
pub proof fn lemma_platform_name_first(assets: Seq<ReleaseAsset>, os: Seq<char>, arch: Seq<char>, i: int)
    requires
        os == "windows"@ || os == "macos"@ || os == "linux"@,
        0 <= i < assets.len(),
        contains_seq(lower_seq(assets[i].name@), os),
        forall|j: int| 0 <= j < i ==> !contains_seq(lower_seq(#[trigger] assets[j].name@), os),
    ensures
        asset_choice(assets, platform_terms(os, arch)) == Some(i),
{
    reveal_strlit("windows");
    reveal_strlit("macos");
    reveal_strlit("linux");
    assert(lower_seq(os) =~= os);
    lemma_first_asset_is(assets, os, i);
    assert(platform_terms(os, arch)[0] == os);
}

/// An asset is chosen exactly when there is one, and the choice names one of
/// them, whatever the search terms.
pub proof fn lemma_asset_choice_found(assets: Seq<ReleaseAsset>, terms: Seq<Seq<char>>)
    ensures
        asset_choice(assets, terms) is None <==> assets.len() == 0,
        asset_choice(assets, terms) matches Some(i) ==> 0 <= i < assets.len(),
    decreases terms.len(),
{
    if terms.len() > 0 {
        lemma_first_asset_bounds(assets, terms[0]);
        lemma_asset_choice_found(assets, terms.drop_first());
    }
}

/// The first asset whose name contains `term`, ignoring ASCII case.
fn find_asset(assets: &Vec<ReleaseAsset>, term: &[char]) -> (r: Option<usize>)
    ensures
        match r {
            Some(i) => first_asset_with(assets@, term@) == Some(i as int),
            None => first_asset_with(assets@, term@) is None,
        },
{
    let lt = lower_chars(term);
    let mut i: usize = 0;
    assert(assets@.skip(0) =~= assets@);
    while i < assets.len()
        invariant
            i <= assets@.len(),
            lt@ == lower_seq(term@),
            forall|j: int| 0 <= j < i ==> !contains_seq(lower_seq(#[trigger] assets@[j].name@), lt@),
            first_asset_with(assets@, term@) == match first_asset_with(assets@.skip(i as int), term@) {
                Some(k) => Some(k + i),
                None => None::<int>,
            },
        decreases assets.len() - i,
    {
        let name = lower_chars(chars_of(assets[i].name.as_str()).as_slice());
        assert(assets@.skip(i as int)[0] == assets@[i as int]);
        assert(assets@.skip(i as int).drop_first() =~= assets@.skip(i as int + 1));
        if contains_chars(name.as_slice(), lt.as_slice()) {
            return Some(i);
        }
        i = i + 1;
    }
    None
}

/// Picks the release asset for a platform: the first asset whose name
/// contains (ignoring ASCII case) the first of the platform's terms that
/// any asset name contains; else the first asset.
pub fn select_asset_for_platform(info: &UpdateInfo, os: &str, arch: &str) -> (asset: Option<ReleaseAsset>)
    ensures
        match asset_choice(info.assets@, platform_terms(os@, arch@)) {
            Some(i) => asset == Some(info.assets@[i]),
            None => asset is None,
        },
{
    let mut terms: Vec<Vec<char>> = Vec::new();
    let o = chars_of(os);
    let a = chars_of(arch);
    if chars_eq(o.as_slice(), chars_of("windows").as_slice()) {
        terms.push(chars_of("windows"));
        terms.push(chars_of("win"));
        terms.push(a);
        terms.push(chars_of(".msi"));
        terms.push(chars_of(".exe"));
        terms.push(chars_of(".zip"));
    } else if chars_eq(o.as_slice(), chars_of("macos").as_slice()) {
        terms.push(chars_of("macos"));
        terms.push(chars_of("darwin"));
        terms.push(a);
        terms.push(chars_of(".dmg"));
        terms.push(chars_of(".pkg"));
        terms.push(chars_of(".zip"));
    } else if chars_eq(o.as_slice(), chars_of("linux").as_slice()) {
        terms.push(chars_of("linux"));
        terms.push(a);
        terms.push(chars_of(".deb"));
        terms.push(chars_of(".rpm"));
        terms.push(chars_of(".appimage"));
        terms.push(chars_of(".tar"));
    } else {
        terms.push(a);
    }
    let ghost ts = crate::text::pieces_view(terms@);
    assert(ts =~= platform_terms(os@, arch@));
    let mut k: usize = 0;
    assert(ts.skip(0) =~= ts);
    while k < terms.len()
        invariant
            k <= terms@.len(),
            ts == crate::text::pieces_view(terms@),
            ts == platform_terms(os@, arch@),
            asset_choice(info.assets@, ts) == asset_choice(info.assets@, ts.skip(k as int)),
        decreases terms.len() - k,
    {
        assert(ts.skip(k as int)[0] == terms@[k as int]@);
        assert(ts.skip(k as int).drop_first() =~= ts.skip(k as int + 1));
        match find_asset(&info.assets, terms[k].as_slice()) {
            Some(i) => {
                proof {
                    lemma_first_asset_bounds(info.assets@, terms@[k as int]@);
                }
                assert(asset_choice(info.assets@, ts.skip(k as int)) == Some(i as int));
                return Some(info.assets[i].clone());
            },
            None => {},
        }
        k = k + 1;
    }
    if info.assets.len() > 0 {
        Some(info.assets[0].clone())
    } else {
        None
    }
}

} // verus!
