use autoupdater::platform::Platform;
use autoupdater::version::FetchedData;
use autoupdater::version::GithubRepo;
use autoupdater::version::JavaAdoptium;
use autoupdater::version::ParseError;
use autoupdater::version::RawRelease;
use autoupdater::version::Version;
use autoupdater::version::VersionResolvable;
use autoupdater::version::parse_releases;

fn raw(tag: &str, draft: bool, prerelease: bool) -> RawRelease {
    RawRelease { tag_name: tag.to_string(), draft, prerelease }
}

#[test]
fn parse_plain_triple() {
    let v = Version::parse("1.2.3").unwrap();
    assert_eq!(v, Version::new(1, 2, 3));
}

#[test]
fn parse_keeps_pre_and_build() {
    let v = Version::parse("1.2.3-rc1+b5").unwrap();
    assert_eq!(v.major, 1);
    assert_eq!(v.minor, 2);
    assert_eq!(v.patch, 3);
    assert_eq!(v.pre, "rc1".to_string());
    assert_eq!(v.build, "b5".to_string());
    assert_eq!(v.to_text(), "1.2.3-rc1+b5".to_string());
}

#[test]
fn parse_rejects_garbage() {
    assert_eq!(Version::parse("1.2"), Err(ParseError::Invalid));
    assert_eq!(Version::parse("1.02.3"), Err(ParseError::Invalid));
    assert_eq!(Version::parse(""), Err(ParseError::Invalid));
}

#[test]
fn parse_v_needs_prefix() {
    assert_eq!(Version::parse_v("1.2.3"), Err(ParseError::MissingPrefix));
    assert_eq!(Version::parse_v(""), Err(ParseError::MissingPrefix));
    assert_eq!(Version::parse_v("v1.2.3"), Ok(Version::new(1, 2, 3)));
    assert_eq!(Version::parse_v("vx"), Err(ParseError::Invalid));
}

#[test]
fn version_text_of_triple() {
    assert_eq!(Version::new(1, 4, 0).to_text(), "1.4.0".to_string());
    assert_eq!(Version::new(0, 0, 0).to_text(), "0.0.0".to_string());
    assert_eq!(Version::new(10, 200, 3001).to_text(), "10.200.3001".to_string());
}

#[test]
fn semver_source_needs_no_fetch() {
    let current = Platform::parse("x86_64-linux").unwrap();
    let src = VersionResolvable::Semver(Version::parse_v("v1.2.3").unwrap());
    assert!(src.fetch_request(&current).is_none());
    assert_eq!(src.latest(), Some(Version::new(1, 2, 3)));
    assert_eq!(src.latest(), Some(Version::new(1, 2, 3)));
    assert_eq!(src.display_text(), "v1.2.3".to_string());
}

#[test]
fn github_latest_skips_drafts_and_prereleases() {
    let rels = parse_releases(
        &vec![raw("v2.1.0-rc1", false, true), raw("v2.2.0", true, false), raw("v2.0.0", false, false)],
    )
    .unwrap();
    let mut src = VersionResolvable::Github(GithubRepo { repo: "o/r".to_string(), releases: None });
    assert_eq!(src.latest(), None);
    assert_eq!(src.display_text(), "unknown version".to_string());
    src.store_fetched(FetchedData::Github(rels));
    assert_eq!(src.latest(), Some(Version::new(2, 0, 0)));
    assert_eq!(src.display_text(), "v2.0.0".to_string());
}

#[test]
fn github_latest_prefers_first_qualifying() {
    // the newer entry is a pre-release and is skipped
    let rels = parse_releases(&vec![raw("v2.1.0-rc1", false, true), raw("v2.0.0", false, false)])
        .unwrap();
    let mut src = VersionResolvable::Github(GithubRepo { repo: "o/r".to_string(), releases: None });
    src.store_fetched(FetchedData::Github(rels));
    assert_eq!(src.latest(), Some(Version::new(2, 0, 0)));
}

#[test]
fn github_latest_none_when_nothing_qualifies() {
    let rels = parse_releases(&vec![raw("v2.1.0-rc1", false, true)]).unwrap();
    let mut src = VersionResolvable::Github(GithubRepo { repo: "o/r".to_string(), releases: None });
    src.store_fetched(FetchedData::Github(rels));
    assert_eq!(src.latest(), None);
}

#[test]
fn parse_releases_rejects_one_bad_tag() {
    let r = parse_releases(&vec![raw("v2.0.0", false, false), raw("2.1.0", false, false)]);
    assert_eq!(r.unwrap_err(), ParseError::MissingPrefix);
    let r = parse_releases(&vec![raw("vnope", false, false)]);
    assert_eq!(r.unwrap_err(), ParseError::Invalid);
}

#[test]
fn github_request_url() {
    let repo = GithubRepo { repo: "owner/repo".to_string(), releases: None };
    assert_eq!(repo.request_url(), "https://api.github.com/repos/owner/repo/releases".to_string());
}

#[test]
fn fetch_is_idempotent_and_fetches_once() {
    let current = Platform::parse("x86_64-linux").unwrap();
    let first = parse_releases(&vec![raw("v1.0.0", false, false)]).unwrap();
    let second = parse_releases(&vec![raw("v9.9.9", false, false)]).unwrap();
    let mut src = VersionResolvable::Github(GithubRepo { repo: "o/r".to_string(), releases: None });
    assert!(src.fetch_request(&current).is_some());
    src.store_fetched(FetchedData::Github(first));
    // the cache is filled: no second network request is asked for
    assert!(src.fetch_request(&current).is_none());
    let once = src.latest();
    src.store_fetched(FetchedData::Github(second));
    assert_eq!(src.latest(), once);
    assert_eq!(src.latest(), Some(Version::new(1, 0, 0)));
}

#[test]
fn java_fallback_before_fetch() {
    let src = VersionResolvable::Java(JavaAdoptium { feature: 17, release: None });
    assert_eq!(src.latest(), Some(Version::new(17, 0, 0)));
    assert_eq!(src.display_text(), "v17.0.0".to_string());
}

#[test]
fn java_uses_stored_release() {
    let mut src = VersionResolvable::Java(JavaAdoptium { feature: 17, release: None });
    src.store_fetched(FetchedData::Java(Version::parse("17.0.8+7").unwrap()));
    let v = src.latest().unwrap();
    assert_eq!(v.major, 17);
    assert_eq!(v.patch, 8);
    assert_eq!(v.build, "7".to_string());
    // a later store is discarded: the first writer wins
    src.store_fetched(FetchedData::Java(Version::new(99, 0, 0)));
    assert_eq!(src.latest().unwrap().major, 17);
}

#[test]
fn adoptium_url_normalizes_arch_and_os() {
    let java = JavaAdoptium { feature: 17, release: None };
    let mac = Platform::parse("x86_64-macos").unwrap();
    assert_eq!(
        java.request_url(&mac),
        "https://api.adoptium.net/v3/assets/feature_releases/17/ga?architecture=x64&os=mac&heap_size=normal&image_type=jre&page=0&page_size=1&project=jdk&sort_method=DEFAULT&sort_order=DESC&vendor=eclipse".to_string()
    );
    let arm_linux = Platform::parse("aarch64-linux").unwrap();
    assert_eq!(
        java.request_url(&arm_linux),
        "https://api.adoptium.net/v3/assets/feature_releases/17/ga?architecture=aarch64&os=linux&heap_size=normal&image_type=jre&page=0&page_size=1&project=jdk&sort_method=DEFAULT&sort_order=DESC&vendor=eclipse".to_string()
    );
}

#[test]
fn mismatched_fetch_data_is_discarded() {
    let mut src = VersionResolvable::Github(GithubRepo { repo: "o/r".to_string(), releases: None });
    src.store_fetched(FetchedData::Java(Version::new(1, 0, 0)));
    assert_eq!(src.latest(), None);
}
