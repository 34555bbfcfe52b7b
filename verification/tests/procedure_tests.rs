use autoupdater::component::Component;
use autoupdater::cross_platform::MaybeCrossPlatform;
use autoupdater::platform::Platform;
use autoupdater::procedure::CompileError;
use autoupdater::procedure::Download;
use autoupdater::procedure::InstallStep;
use autoupdater::procedure::Procedure;
use autoupdater::procedure::Run;
use autoupdater::procedure::substitute;
use autoupdater::version::Version;
use autoupdater::version::VersionResolvable;

fn linux() -> Platform {
    Platform::parse("x86_64-linux").unwrap()
}

#[test]
fn substitute_replaces_placeholder() {
    assert_eq!(
        substitute("https://example.com/v{version}/app.zip", "1.4.0"),
        Some("https://example.com/v1.4.0/app.zip".to_string()),
    );
    assert_eq!(substitute("{version}-{version}", "2.0.0"), Some("2.0.0-2.0.0".to_string()));
    assert_eq!(substitute("no placeholder", "1.0.0"), Some("no placeholder".to_string()));
}

#[test]
fn substitute_rejects_other_braces() {
    assert_eq!(substitute("https://example.com/{ver}/app.zip", "1.0.0"), None);
    assert_eq!(substitute("open{", "1.0.0"), None);
    assert_eq!(substitute("close}", "1.0.0"), None);
}

#[test]
fn download_template_compiles_to_url() {
    let d = Download(MaybeCrossPlatform::Cross("https://example.com/v{version}/app.zip".to_string()));
    let v = Version::new(1, 4, 0);
    assert_eq!(
        d.get_url(Some(&v), &linux()),
        Ok(Some("https://example.com/v1.4.0/app.zip".to_string())),
    );
}

#[test]
fn download_without_version_resolves_to_absence() {
    let d = Download(MaybeCrossPlatform::Cross("https://example.com/{version}".to_string()));
    assert_eq!(d.get_url(None, &linux()), Ok(None));
}

#[test]
fn download_without_entry_for_platform_resolves_to_absence() {
    let d = Download(MaybeCrossPlatform::NotCross(Vec::new()));
    assert_eq!(d.get_url(Some(&Version::new(1, 0, 0)), &linux()), Ok(None));
}

#[test]
fn download_bad_template_is_an_error() {
    let d = Download(MaybeCrossPlatform::Cross("https://example.com/{oops}".to_string()));
    assert_eq!(
        d.get_url(Some(&Version::new(1, 0, 0)), &linux()),
        Err(CompileError::MalformedTemplate),
    );
}

#[test]
fn download_relative_url_is_an_error() {
    let d = Download(MaybeCrossPlatform::Cross("not-a-url/{version}".to_string()));
    assert_eq!(d.get_url(Some(&Version::new(1, 0, 0)), &linux()), Err(CompileError::InvalidUrl));
}

#[test]
fn run_builds_command_with_version_env() {
    let r = Run(MaybeCrossPlatform::Cross(vec!["installer".to_string(), "--quiet".to_string()]));
    let cmd = r.get_command(Some(&Version::new(1, 4, 0)), &linux()).unwrap().unwrap();
    assert_eq!(cmd.program, "installer".to_string());
    assert_eq!(cmd.args, vec!["--quiet".to_string()]);
    assert_eq!(cmd.env_version, "1.4.0".to_string());
}

#[test]
fn run_rejects_empty_command_list() {
    let r = Run(MaybeCrossPlatform::Cross(Vec::new()));
    assert_eq!(
        r.get_command(Some(&Version::new(1, 0, 0)), &linux()),
        Err(CompileError::EmptyCommand),
    );
}

#[test]
fn run_without_version_resolves_to_absence() {
    let r = Run(MaybeCrossPlatform::Cross(vec!["installer".to_string()]));
    assert_eq!(r.get_command(None, &linux()), Ok(None));
}

#[test]
fn unzip_compiles_to_itself() {
    let step = Procedure::Unzip.compile(Some(&Version::new(1, 0, 0)), &linux());
    assert!(matches!(step, Ok(Some(InstallStep::Unzip))));
}

#[test]
fn component_compiles_steps_independently() {
    let c = Component {
        display_name: "App".to_string(),
        version: VersionResolvable::Semver(Version::new(1, 4, 0)),
        platforms: vec![linux()],
        procedure: vec![
            Procedure::Download(Download(MaybeCrossPlatform::Cross(
                "https://example.com/v{version}/app.zip".to_string(),
            ))),
            Procedure::Unzip,
            Procedure::Run(Run(MaybeCrossPlatform::Cross(Vec::new()))),
        ],
        dependencies: None,
    };
    let v = c.version().latest();
    let steps = c.compile(v.as_ref(), &linux());
    assert_eq!(steps.len(), 3);
    match &steps[0] {
        Ok(Some(InstallStep::Download(url))) => {
            assert_eq!(url, &"https://example.com/v1.4.0/app.zip".to_string());
        },
        other => panic!("unexpected first step: {:?}", other.is_ok()),
    }
    assert!(matches!(steps[1], Ok(Some(InstallStep::Unzip))));
    // the bad third step does not corrupt the first two
    assert!(matches!(steps[2], Err(CompileError::EmptyCommand)));
}

#[test]
fn per_platform_template_resolves() {
    let d = Download(MaybeCrossPlatform::NotCross(vec![
        (linux(), "https://example.com/linux/{version}.tar.gz".to_string()),
        (Platform::parse("x86_64-windows").unwrap(), "https://example.com/win/{version}.zip".to_string()),
    ]));
    assert_eq!(
        d.get_url(Some(&Version::new(2, 0, 0)), &linux()),
        Ok(Some("https://example.com/linux/2.0.0.tar.gz".to_string())),
    );
}
