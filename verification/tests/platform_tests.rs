use autoupdater::platform::ParseError;
use autoupdater::platform::Platform;

#[test]
fn parse_accepts_canonical_pair() {
    let p = Platform::parse("x86_64-linux").unwrap();
    assert_eq!(p.arch, "x86_64".to_string());
    assert_eq!(p.os, "linux".to_string());
}

#[test]
fn parse_format_round_trip() {
    let p = Platform::parse("aarch64-macos").unwrap();
    let text = p.as_text();
    assert_eq!(text, "aarch64-macos".to_string());
    let q = Platform::parse(text.as_str()).unwrap();
    assert!(q == p);
}

#[test]
fn parse_rejects_missing_dash() {
    let r = Platform::parse("x86_64");
    assert!(matches!(r, Err(ParseError::BadShape)));
}

#[test]
fn parse_rejects_three_tokens() {
    let r = Platform::parse("x86_64-unknown-linux");
    assert!(matches!(r, Err(ParseError::BadShape)));
}

#[test]
fn parse_rejects_unknown_arch() {
    let r = Platform::parse("z99-linux");
    assert!(matches!(r, Err(ParseError::UnknownArch)));
}

#[test]
fn parse_rejects_unknown_os() {
    let r = Platform::parse("x86_64-nosuchos");
    assert!(matches!(r, Err(ParseError::UnknownOs)));
}

#[test]
fn parse_rejects_empty_tokens() {
    assert!(matches!(Platform::parse("-linux"), Err(ParseError::UnknownArch)));
    assert!(matches!(Platform::parse("x86_64-"), Err(ParseError::UnknownOs)));
}

#[test]
fn platform_equality_is_structural() {
    let a = Platform::parse("riscv64-freebsd").unwrap();
    let b = Platform::parse("riscv64-freebsd").unwrap();
    let c = Platform::parse("riscv64-linux").unwrap();
    assert!(a == b);
    assert!(a != c);
}
