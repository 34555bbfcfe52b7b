//! Version values and the polymorphic version sources that resolve the
//! latest known version of a component.
//!
//! A non-static source owns a write-once cache: the cache starts empty and
//! `store_fetched` fills it at most once; later stores leave it unchanged
//! ("first writer wins"). The network transfer itself happens outside the
//! library: `fetch_request` names the URL to fetch, and the decoded records
//! come back through `parse_releases` and `store_fetched`.

use vstd::prelude::*;
use vstd::string::*;

use crate::platform::Platform;
use crate::platform::PlatformId;
use crate::text::str_eq;

verus! {

/// Why a version string was rejected.
#[derive(Debug, Clone, Copy, PartialEq, Eq)]
pub enum ParseError {
    /// The string does not start with the letter `v`.
    MissingPrefix,
    /// The remainder is not a valid semantic version.
    Invalid,
}

/// The decimal digit for a value below ten.
pub open spec fn digit_char(d: nat) -> char {
    if d == 0 {
        '0'
    } else if d == 1 {
        '1'
    } else if d == 2 {
        '2'
    } else if d == 3 {
        '3'
    } else if d == 4 {
        '4'
    } else if d == 5 {
        '5'
    } else if d == 6 {
        '6'
    } else if d == 7 {
        '7'
    } else if d == 8 {
        '8'
    } else {
        '9'
    }
}

/// The decimal digits of `n`, most significant first.
pub open spec fn dec_digits(n: nat) -> Seq<char>
    decreases n,
{
    if n < 10 {
        seq![digit_char(n)]
    } else {
        dec_digits(n / 10).push(digit_char(n % 10))
    }
}

/// Relies on `u64`'s `Display` implementation in std: it renders the
/// value's decimal digits, most significant first.
#[verifier::external_body]
pub(crate) fn u64_to_dec(n: u64) -> (r: String)
    ensures
        r@ == dec_digits(n as nat),
{
    format!("{}", n)
}

/// A semantic version: release triple, optional pre-release identifier,
/// optional build metadata.
#[derive(Debug, PartialEq, Eq)]
pub struct Version {
    pub major: u64,
    pub minor: u64,
    pub patch: u64,
    pub pre: String,
    pub build: String,
}

/// The canonical text of a bare release triple.
pub open spec fn triple_text(major: u64, minor: u64, patch: u64) -> Seq<char> {
    dec_digits(major as nat) + seq!['.'] + dec_digits(minor as nat) + seq!['.'] + dec_digits(
        patch as nat,
    )
}

/// What `semver` finds in a version string: the parsed fields, or nothing
/// when the string is rejected.
pub uninterp spec fn semver_parts(s: Seq<char>) -> Option<(u64, u64, u64, Seq<char>, Seq<char>)>;

/// The fields of a version, in the shape `semver_parts` uses.
pub open spec fn parts_of(v: Version) -> (u64, u64, u64, Seq<char>, Seq<char>) {
    (v.major, v.minor, v.patch, v.pre@, v.build@)
}

/// Whether `r` answers the canonical text of a bare release triple `s`
/// with exactly that triple.
pub open spec fn answers_triple_text(s: Seq<char>, r: Option<Version>) -> bool {
    forall|x: u64, y: u64, z: u64|
        s == triple_text(x, y, z) ==> (r matches Some(v) && v.major == x && v.minor == y && v.patch
            == z && v.pre@.len() == 0 && v.build@.len() == 0)
}

/// Relies on `semver::Version::parse`: acceptance depends on the string
/// alone, and the canonical text of a bare release triple parses to exactly
/// that triple with empty pre-release and build metadata.
#[verifier::external_body]
fn semver_parse(s: &str) -> (r: Option<Version>)
    ensures
        match r {
            Some(v) => semver_parts(s@) == Some(parts_of(v)),
            None => semver_parts(s@) is None,
        },
        answers_triple_text(s@, r),
{
    match semver::Version::parse(s) {
        Ok(v) => Some(
            Version {
                major: v.major,
                minor: v.minor,
                patch: v.patch,
                pre: v.pre.as_str().to_string(),
                build: v.build.as_str().to_string(),
            },
        ),
        Err(_) => None,
    }
}

impl Clone for Version {
    fn clone(&self) -> (r: Self)
        ensures
            r == *self,
    {
        Version {
            major: self.major,
            minor: self.minor,
            patch: self.patch,
            pre: self.pre.clone(),
            build: self.build.clone(),
        }
    }
}

impl Version {
    /// A bare release triple.
    pub fn new(major: u64, minor: u64, patch: u64) -> (r: Version)
        ensures
            r.major == major,
            r.minor == minor,
            r.patch == patch,
            r.pre@ == Seq::<char>::empty(),
            r.build@ == Seq::<char>::empty(),
    {
        Version { major, minor, patch, pre: String::new(), build: String::new() }
    }

    /// The canonical text: `major.minor.patch`, then `-pre` when a
    /// pre-release identifier is present, then `+build` when build metadata
    /// is present.
    pub open spec fn spec_text(self) -> Seq<char> {
        triple_text(self.major, self.minor, self.patch) + (if self.pre@.len() == 0 {
            Seq::<char>::empty()
        } else {
            seq!['-'] + self.pre@
        }) + (if self.build@.len() == 0 {
            Seq::<char>::empty()
        } else {
            seq!['+'] + self.build@
        })
    }

    /// Renders the canonical text of the version.
    pub fn to_text(&self) -> (r: String)
        ensures
            r@ == self.spec_text(),
    {
        proof {
            reveal_strlit(".");
            reveal_strlit("-");
            reveal_strlit("+");
        }
        let mut out = u64_to_dec(self.major);
        out.append(".");
        let minor_text = u64_to_dec(self.minor);
        out.append(minor_text.as_str());
        out.append(".");
        let patch_text = u64_to_dec(self.patch);
        out.append(patch_text.as_str());
        if !self.pre.as_str().is_empty() {
            out.append("-");
            out.append(self.pre.as_str());
        }
        if !self.build.as_str().is_empty() {
            out.append("+");
            out.append(self.build.as_str());
        }
        proof {
            assert(out@ =~= self.spec_text());
        }
        out
    }

    /// Parses a bare semantic version.
    pub fn parse(s: &str) -> (r: Result<Version, ParseError>)
        ensures
            match r {
                Ok(v) => semver_parts(s@) == Some(parts_of(v)),
                Err(e) => semver_parts(s@) is None && e == ParseError::Invalid,
            },
            forall|x: u64, y: u64, z: u64|
                s@ == triple_text(x, y, z) ==> (r matches Ok(v) && v.major == x && v.minor == y
                    && v.patch == z && v.pre@.len() == 0 && v.build@.len() == 0),
    {
        match semver_parse(s) {
            Some(v) => Ok(v),
            None => Err(ParseError::Invalid),
        }
    }

    /// Parses a `v`-prefixed semantic version, as version tags are written.
    pub fn parse_v(s: &str) -> (r: Result<Version, ParseError>)
        ensures
            (s@.len() == 0 || s@[0] != 'v') ==> r == Err::<Version, ParseError>(
                ParseError::MissingPrefix,
            ),
            (s@.len() > 0 && s@[0] == 'v') ==> match r {
                Ok(v) => semver_parts(s@.skip(1)) == Some(parts_of(v)),
                Err(e) => semver_parts(s@.skip(1)) is None && e == ParseError::Invalid,
            },
    {
        let n = s.unicode_len();
        if n == 0 || s.get_char(0) != 'v' {
            return Err(ParseError::MissingPrefix);
        }
        let rest = s.substring_char(1, n);
        proof {
            assert(rest@ =~= s@.skip(1));
        }
        Version::parse(rest)
    }
}

/// One release record as the release-list transport hands it over.
#[derive(Debug)]
pub struct RawRelease {
    pub tag_name: String,
    pub draft: bool,
    pub prerelease: bool,
}

/// One release with its tag parsed.
#[derive(Debug, PartialEq, Eq)]
pub struct GithubRelease {
    pub tag_name: Version,
    pub draft: bool,
    pub prerelease: bool,
}

impl Clone for GithubRelease {
    fn clone(&self) -> (r: Self)
        ensures
            r == *self,
    {
        GithubRelease {
            tag_name: self.tag_name.clone(),
            draft: self.draft,
            prerelease: self.prerelease,
        }
    }
}

/// Whether a raw release record carries a well-formed `v`-prefixed tag.
pub open spec fn raw_release_ok(raw: RawRelease) -> bool {
    raw.tag_name@.len() > 0 && raw.tag_name@[0] == 'v' && semver_parts(
        raw.tag_name@.skip(1),
    ) is Some
}

/// The parse error a bad raw release record yields.
pub open spec fn raw_release_err(raw: RawRelease) -> ParseError {
    if raw.tag_name@.len() == 0 || raw.tag_name@[0] != 'v' {
        ParseError::MissingPrefix
    } else {
        ParseError::Invalid
    }
}

/// Whether `rel` is the parsed form of `raw`.
pub open spec fn release_matches(rel: GithubRelease, raw: RawRelease) -> bool {
    raw_release_ok(raw) && semver_parts(raw.tag_name@.skip(1)) == Some(parts_of(rel.tag_name))
        && rel.draft == raw.draft && rel.prerelease == raw.prerelease
}

/// Parses a whole fetched release list; a single bad tag rejects the list,
/// so that a malformed response is never cached.
pub fn parse_releases(raw: &Vec<RawRelease>) -> (r: Result<Vec<GithubRelease>, ParseError>)
    ensures
        match r {
            Ok(rels) => rels@.len() == raw@.len() && forall|i: int|
                0 <= i < raw@.len() ==> release_matches(rels@[i], raw@[i]),
            Err(e) => exists|i: int|
                0 <= i < raw@.len() && !raw_release_ok(raw@[i]) && e == raw_release_err(raw@[i])
                    && forall|j: int| 0 <= j < i ==> raw_release_ok(raw@[j]),
        },
        (r is Ok) == (forall|i: int| 0 <= i < raw@.len() ==> raw_release_ok(raw@[i])),
{
    let mut rels: Vec<GithubRelease> = Vec::new();
    let mut i: usize = 0;
    while i < raw.len()
        invariant
            0 <= i <= raw@.len(),
            rels@.len() == i,
            forall|j: int| 0 <= j < i ==> release_matches(rels@[j], raw@[j]),
            forall|j: int| 0 <= j < i ==> raw_release_ok(raw@[j]),
        decreases raw@.len() - i,
    {
        match Version::parse_v(raw[i].tag_name.as_str()) {
            Ok(v) => {
                rels.push(
                    GithubRelease {
                        tag_name: v,
                        draft: raw[i].draft,
                        prerelease: raw[i].prerelease,
                    },
                );
            },
            Err(e) => {
                return Err(e);
            },
        }
        i = i + 1;
    }
    Ok(rels)
}

/// A release list fetched from a repository's release feed, newest first.
pub struct GithubRepo {
    pub repo: String,
    pub releases: Option<Vec<GithubRelease>>,
}

/// The release-list URL for a repository.
pub open spec fn github_url(repo: Seq<char>) -> Seq<char> {
    "https://api.github.com/repos/"@ + repo + "/releases"@
}

/// The first release of the list that is neither a draft nor a pre-release.
pub open spec fn first_qualifying(rels: Seq<GithubRelease>) -> Option<Version>
    decreases rels.len(),
{
    if rels.len() == 0 {
        None
    } else if !rels[0].draft && !rels[0].prerelease {
        Some(rels[0].tag_name)
    } else {
        first_qualifying(rels.drop_first())
    }
}

impl GithubRepo {
    /// The latest version this source knows: nothing before a fetch was
    /// stored, otherwise the tag of the first non-draft, non-pre-release
    /// entry in stored order.
    pub open spec fn spec_latest(self) -> Option<Version> {
        match self.releases {
            None => None,
            Some(rels) => first_qualifying(rels@),
        }
    }

    /// The URL whose response body lists this repository's releases.
    pub fn request_url(&self) -> (r: String)
        ensures
            r@ == github_url(self.repo@),
    {
        let mut out = String::from_str("https://api.github.com/repos/");
        out.append(self.repo.as_str());
        out.append("/releases");
        proof {
            assert(out@ =~= github_url(self.repo@));
        }
        out
    }

    /// Stores a fetched release list, unless one is already cached: the
    /// first stored list wins and is never replaced.
    pub fn store_releases(&mut self, rels: Vec<GithubRelease>)
        ensures
            final(self).repo == old(self).repo,
            final(self).releases == (if old(self).releases is Some {
                old(self).releases
            } else {
                Some(rels)
            }),
    {
        if self.releases.is_none() {
            self.releases = Some(rels);
        }
    }

    /// Scans the cached list for the first qualifying release.
    pub fn latest(&self) -> (r: Option<Version>)
        ensures
            r == self.spec_latest(),
    {
        match &self.releases {
            None => None,
            Some(rels) => {
                proof {
                    assert(rels@.skip(0) =~= rels@);
                }
                let mut i: usize = 0;
                while i < rels.len()
                    invariant
                        0 <= i <= rels@.len(),
                        self.releases == Some(*rels),
                        first_qualifying(rels@) == first_qualifying(rels@.skip(i as int)),
                        forall|j: int| 0 <= j < i ==> rels@[j].draft || rels@[j].prerelease,
                    decreases rels@.len() - i,
                {
                    if !rels[i].draft && !rels[i].prerelease {
                        proof {
                            assert(rels@.skip(i as int).len() > 0);
                            assert(rels@.skip(i as int)[0] == rels@[i as int]);
                            assert(first_qualifying(rels@.skip(i as int)) == Some(
                                rels@[i as int].tag_name,
                            ));
                        }
                        return Some(rels[i].tag_name.clone());
                    }
                    proof {
                        assert(rels@.skip(i as int).drop_first() =~= rels@.skip(i + 1));
                    }
                    i = i + 1;
                }
                None
            },
        }
    }
}

/// A feature release line of the Adoptium Java distribution.
pub struct JavaAdoptium {
    pub feature: u8,
    pub release: Option<Version>,
}

/// The architecture name the distribution's API uses.
pub open spec fn adoptium_arch(arch: Seq<char>) -> Seq<char> {
    if arch == "x86_64"@ {
        "x64"@
    } else {
        arch
    }
}

/// The operating-system name the distribution's API uses.
pub open spec fn adoptium_os(os: Seq<char>) -> Seq<char> {
    if os == "macos"@ {
        "mac"@
    } else {
        os
    }
}

/// The query URL for the latest general-availability JRE of a feature line
/// on a platform.
pub open spec fn adoptium_url(feature: u8, p: PlatformId) -> Seq<char> {
    "https://api.adoptium.net/v3/assets/feature_releases/"@ + dec_digits(feature as nat)
        + "/ga?architecture="@ + adoptium_arch(p.arch) + "&os="@ + adoptium_os(p.os)
        + "&heap_size=normal&image_type=jre&page=0&page_size=1&project=jdk&sort_method=DEFAULT&sort_order=DESC&vendor=eclipse"@
}

impl JavaAdoptium {
    /// The URL whose response body holds the latest release of this feature
    /// line for the given platform.
    pub fn request_url(&self, current: &Platform) -> (r: String)
        ensures
            r@ == adoptium_url(self.feature, current@),
    {
        let mut out = String::from_str("https://api.adoptium.net/v3/assets/feature_releases/");
        let feature_text = u64_to_dec(self.feature as u64);
        out.append(feature_text.as_str());
        out.append("/ga?architecture=");
        if str_eq(current.arch.as_str(), "x86_64") {
            out.append("x64");
        } else {
            out.append(current.arch.as_str());
        }
        out.append("&os=");
        if str_eq(current.os.as_str(), "macos") {
            out.append("mac");
        } else {
            out.append(current.os.as_str());
        }
        out.append(
            "&heap_size=normal&image_type=jre&page=0&page_size=1&project=jdk&sort_method=DEFAULT&sort_order=DESC&vendor=eclipse",
        );
        proof {
            assert(out@ =~= adoptium_url(self.feature, current@));
        }
        out
    }

    /// Stores a fetched release, unless one is already cached.
    pub fn store_release(&mut self, rel: Version)
        ensures
            final(self).feature == old(self).feature,
            final(self).release == (if old(self).release is Some {
                old(self).release
            } else {
                Some(rel)
            }),
    {
        if self.release.is_none() {
            self.release = Some(rel);
        }
    }

    /// The cached release, or the synthetic fallback `feature.0.0` before
    /// any fetch was stored.
    pub fn latest(&self) -> (r: Version)
        ensures
            match self.release {
                Some(v) => r == v,
                None => r.major == self.feature as u64 && r.minor == 0 && r.patch == 0
                    && r.pre@.len() == 0 && r.build@.len() == 0,
            },
    {
        match &self.release {
            Some(v) => v.clone(),
            None => Version::new(self.feature as u64, 0, 0),
        }
    }
}

/// What a fetch handed back, ready to be cached.
pub enum FetchedData {
    Github(Vec<GithubRelease>),
    Java(Version),
}

/// A strategy for resolving the latest known version of a component.
pub enum VersionResolvable {
    Github(GithubRepo),
    Java(JavaAdoptium),
    Semver(Version),
}

/// The state a source is in after storing fetched data: an empty cache is
/// filled by data of the source's own kind, and nothing else changes.
pub open spec fn spec_store(s: VersionResolvable, data: FetchedData) -> VersionResolvable {
    match (s, data) {
        (VersionResolvable::Github(g), FetchedData::Github(rels)) => VersionResolvable::Github(
            GithubRepo {
                repo: g.repo,
                releases: if g.releases is Some {
                    g.releases
                } else {
                    Some(rels)
                },
            },
        ),
        (VersionResolvable::Java(j), FetchedData::Java(rel)) => VersionResolvable::Java(
            JavaAdoptium {
                feature: j.feature,
                release: if j.release is Some {
                    j.release
                } else {
                    Some(rel)
                },
            },
        ),
        _ => s,
    }
}

impl VersionResolvable {
    /// Whether the source needs no further fetch: static sources never do,
    /// the others once their cache is filled.
    pub open spec fn cache_filled(self) -> bool {
        match self {
            VersionResolvable::Github(g) => g.releases is Some,
            VersionResolvable::Java(j) => j.release is Some,
            VersionResolvable::Semver(_) => true,
        }
    }

    /// The URL a caller must fetch to resolve this source, or nothing when
    /// no fetch is needed.
    pub fn fetch_request(&self, current: &Platform) -> (r: Option<String>)
        ensures
            self.cache_filled() ==> r is None,
            !self.cache_filled() ==> match *self {
                VersionResolvable::Github(g) => r matches Some(u) && u@ == github_url(g.repo@),
                VersionResolvable::Java(j) => r matches Some(u) && u@ == adoptium_url(
                    j.feature,
                    current@,
                ),
                VersionResolvable::Semver(_) => false,
            },
    {
        match self {
            VersionResolvable::Github(g) => {
                if g.releases.is_some() {
                    None
                } else {
                    Some(g.request_url())
                }
            },
            VersionResolvable::Java(j) => {
                if j.release.is_some() {
                    None
                } else {
                    Some(j.request_url(current))
                }
            },
            VersionResolvable::Semver(_) => None,
        }
    }

    /// Caches fetched data. The first stored result wins; data of another
    /// kind than the source, and any store after the first, leave the
    /// source unchanged.
    pub fn store_fetched(&mut self, data: FetchedData)
        ensures
            *final(self) == spec_store(*old(self), data),
    {
        match (&mut *self, data) {
            (VersionResolvable::Github(g), FetchedData::Github(rels)) => {
                g.store_releases(rels);
            },
            (VersionResolvable::Java(j), FetchedData::Java(rel)) => {
                j.store_release(rel);
            },
            _ => {},
        }
    }

    /// The latest version the source knows right now.
    pub fn latest(&self) -> (r: Option<Version>)
        ensures
            match *self {
                VersionResolvable::Github(g) => r == g.spec_latest(),
                VersionResolvable::Java(j) => match j.release {
                    Some(v) => r == Some(v),
                    None => r matches Some(v) && v.major == j.feature as u64 && v.minor == 0
                        && v.patch == 0 && v.pre@.len() == 0 && v.build@.len() == 0,
                },
                VersionResolvable::Semver(v) => r == Some(v),
            },
    {
        match self {
            VersionResolvable::Github(g) => g.latest(),
            VersionResolvable::Java(j) => Some(j.latest()),
            VersionResolvable::Semver(v) => Some(v.clone()),
        }
    }

    /// Renders the latest version as `v`-prefixed text, or `unknown
    /// version` where none is known yet.
    pub fn display_text(&self) -> (r: String)
        ensures
            match *self {
                VersionResolvable::Github(g) => match g.spec_latest() {
                    Some(v) => r@ == seq!['v'] + v.spec_text(),
                    None => r@ == "unknown version"@,
                },
                VersionResolvable::Java(j) => match j.release {
                    Some(v) => r@ == seq!['v'] + v.spec_text(),
                    None => r@ == seq!['v'] + triple_text(j.feature as u64, 0, 0),
                },
                VersionResolvable::Semver(v) => r@ == seq!['v'] + v.spec_text(),
            },
    {
        proof {
            reveal_strlit("v");
        }
        match self.latest() {
            Some(v) => {
                let mut out = String::from_str("v");
                let text = v.to_text();
                out.append(text.as_str());
                proof {
                    assert(out@ =~= seq!['v'] + v.spec_text());
                    if v.pre@.len() == 0 && v.build@.len() == 0 {
                        assert(v.spec_text() =~= triple_text(v.major, v.minor, v.patch));
                    }
                }
                out
            },
            None => String::from_str("unknown version"),
        }
    }
}

/// Law: fetching is idempotent. Once a fetch result of the source's own
/// kind has been stored, the cache is filled — so no further fetch is
/// requested — and storing anything more leaves the source, and with it
/// every later `latest` answer, unchanged.
pub proof fn lemma_store_idempotent(s: VersionResolvable, d1: FetchedData, d2: FetchedData)
    requires
        match (s, d1) {
            (VersionResolvable::Github(_), FetchedData::Github(_)) => true,
            (VersionResolvable::Java(_), FetchedData::Java(_)) => true,
            (VersionResolvable::Semver(_), _) => true,
            _ => false,
        },
    ensures
        spec_store(s, d1).cache_filled(),
        spec_store(spec_store(s, d1), d2) == spec_store(s, d1),
{
}

} // verus!
