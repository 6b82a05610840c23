use std::io::Write;

use remux::archive::ExtractError;
use remux::files::FileInfo;
use remux::update::{
    apply_staged_update, background_update_check, bin_path, download_url,
    extract_binary_from_tarball, is_newer, is_valid_binary, keep_staged, last_check_path,
    parse_version, platform_target, should_check_for_update, staged_binary_path, staged_dir,
    tag_version, update_timestamp, ApplyAction, ApplyEvent, CheckAction, CheckEvent, UpdateError,
};

#[test]
fn test_parse_version() {
    assert_eq!(parse_version("0.1.0"), Some((0, 1, 0)));
    assert_eq!(parse_version("1.23.456"), Some((1, 23, 456)));
    assert_eq!(parse_version("bad"), None);
    assert_eq!(parse_version("1.2"), None);
    assert_eq!(parse_version(""), None);
}

#[test]
fn test_is_newer() {
    assert!(is_newer("0.2.0", "0.1.0"));
    assert!(is_newer("1.0.0", "0.9.9"));
    assert!(is_newer("0.1.1", "0.1.0"));
    assert!(!is_newer("0.1.0", "0.1.0"));
    assert!(!is_newer("0.0.9", "0.1.0"));
    assert!(!is_newer("bad", "0.1.0"));
}

#[test]
fn version_numbers_have_their_limits() {
    assert_eq!(parse_version("4294967295.0.0"), Some((4294967295, 0, 0)));
    assert_eq!(parse_version("4294967296.0.0"), None);
    assert_eq!(parse_version("1.2.3.4"), Some((1, 2, 3)));
    assert_eq!(parse_version("1.2.3-beta"), None);
    assert_eq!(parse_version("+1.02.3"), Some((1, 2, 3)));
    assert_eq!(parse_version("1..3"), None);
    assert_eq!(parse_version("-1.2.3"), None);
    assert_eq!(parse_version("1.2."), None);
}

#[test]
fn newer_is_an_order() {
    let versions = ["0.0.9", "0.1.0", "0.1.1", "0.2.0", "0.10.0", "1.0.0"];
    for (i, a) in versions.iter().enumerate() {
        for (j, b) in versions.iter().enumerate() {
            assert_eq!(is_newer(a, b), i > j, "{} {}", a, b);
        }
    }
}

#[test]
fn written_versions_are_read_back() {
    for v in [(0u32, 0u32, 0u32), (10, 200, 3000), (u32::MAX, 1, 0)] {
        assert_eq!(parse_version(&format!("{}.{}.{}", v.0, v.1, v.2)), Some(v));
    }
}

#[test]
fn paths_lie_in_the_home_directory() {
    assert_eq!(bin_path("/home/u/.remux"), "/home/u/.remux/bin/remux");
    assert_eq!(staged_dir("/home/u/.remux"), "/home/u/.remux/staged");
    assert_eq!(staged_binary_path("/home/u/.remux"), "/home/u/.remux/staged/remux");
    assert_eq!(last_check_path("/home/u/.remux/"), "/home/u/.remux/last_update_check");
}

fn file(len: u64, mode: Option<u32>) -> Option<FileInfo> {
    Some(FileInfo { is_file: true, len, mode })
}

#[test]
fn programs_are_long_and_executable() {
    assert!(is_valid_binary(file(1024, Some(0o755))));
    assert!(is_valid_binary(file(1024, Some(0o001))));
    assert!(is_valid_binary(file(5000, None)));
    assert!(!is_valid_binary(file(1023, Some(0o755))));
    assert!(!is_valid_binary(file(4096, Some(0o644))));
    assert!(!is_valid_binary(Some(FileInfo { is_file: false, len: 4096, mode: Some(0o755) })));
    assert!(!is_valid_binary(None));
    assert!(keep_staged(file(2048, Some(0o700))).is_ok());
    let e = keep_staged(file(10, Some(0o700))).unwrap_err();
    assert!(matches!(e, UpdateError::Invalid));
    assert_eq!(e.message(), "Staged binary failed validation");
}

fn cleaned_up(a: ApplyAction) -> String {
    match a {
        ApplyAction::CleanUp(t) => t,
        _ => panic!("no clean-up"),
    }
}

#[test]
fn staged_updates_are_applied_step_by_step() {
    let none = ApplyEvent::Staged { exists: false, file: None };
    assert!(matches!(apply_staged_update(none), ApplyAction::Stop));
    let short = ApplyEvent::Staged { exists: true, file: file(12, Some(0o755)) };
    assert_eq!(
        cleaned_up(apply_staged_update(short)),
        "remux: staged update binary is invalid, cleaning up"
    );
    let good = ApplyEvent::Staged { exists: true, file: file(4096, Some(0o755)) };
    assert!(matches!(apply_staged_update(good), ApplyAction::MakeDirectory));
    assert!(matches!(apply_staged_update(ApplyEvent::DirectoryMade(None)), ApplyAction::Move));
    assert_eq!(
        cleaned_up(apply_staged_update(ApplyEvent::DirectoryMade(Some("full".to_string())))),
        "remux: failed to create bin directory: full"
    );
    assert_eq!(
        cleaned_up(apply_staged_update(ApplyEvent::Moved(None))),
        "remux: updated successfully"
    );
    assert_eq!(
        cleaned_up(apply_staged_update(ApplyEvent::Moved(Some("busy".to_string())))),
        "remux: failed to apply update: busy"
    );
}

#[test]
fn updates_are_looked_for_once_a_day() {
    assert!(should_check_for_update(None, 0));
    assert!(should_check_for_update(Some("garbage"), 5));
    assert!(should_check_for_update(Some(""), 5));
    assert!(!should_check_for_update(Some("1000"), 1000 + 86399));
    assert!(should_check_for_update(Some("1000"), 1000 + 86400));
    assert!(should_check_for_update(Some("  1000\n"), 1000 + 86400));
    assert!(!should_check_for_update(Some("2000"), 1000));
    assert_eq!(update_timestamp(1700000000), "1700000000");
    assert!(!should_check_for_update(Some(&update_timestamp(500)), 501));
    assert!(should_check_for_update(Some(&update_timestamp(500)), 86900));
}

#[test]
fn the_search_goes_on_only_for_something_newer() {
    let started = CheckEvent::Started { last: Some("100".to_string()), now: 200 };
    assert!(matches!(background_update_check(started, "0.1.0"), CheckAction::Skip));
    let started = CheckEvent::Started { last: None, now: 200 };
    assert!(matches!(background_update_check(started, "0.1.0"), CheckAction::LookUp));
    let latest = CheckEvent::Latest("v0.1.0".to_string());
    assert!(matches!(background_update_check(latest, "0.1.0"), CheckAction::UpToDate));
    match background_update_check(CheckEvent::Latest("v0.2.0".to_string()), "0.1.0") {
        CheckAction::Fetch(v) => assert_eq!(v, "0.2.0"),
        _ => panic!("not fetched"),
    }
    assert_eq!(tag_version("vv1.0"), "1.0");
    assert_eq!(tag_version("1.0v"), "1.0v");
}

#[test]
fn releases_have_their_addresses() {
    assert_eq!(platform_target("macos", "aarch64").ok(), Some("aarch64-apple-darwin"));
    assert_eq!(platform_target("macos", "x86_64").ok(), Some("x86_64-apple-darwin"));
    assert_eq!(platform_target("linux", "aarch64").ok(), Some("aarch64-unknown-linux-gnu"));
    assert_eq!(
        download_url("1.2.3", "linux", "x86_64").ok().as_deref(),
        Some("https://github.com/shivships/remux-cli/releases/download/v1.2.3/remux-cli-x86_64-unknown-linux-gnu.tar.gz")
    );
    let e = download_url("1.2.3", "windows", "x86_64").unwrap_err();
    assert_eq!(e.message(), "Unsupported platform: windows/x86_64");
}

fn tgz(files: &[(&str, &[u8])]) -> Vec<u8> {
    let mut builder = tar::Builder::new(Vec::new());
    for (name, data) in files {
        let mut header = tar::Header::new_gnu();
        header.set_size(data.len() as u64);
        header.set_mode(0o755);
        builder.append_data(&mut header, name, *data).unwrap();
    }
    let plain = builder.into_inner().unwrap();
    let mut encoder = flate2::write::GzEncoder::new(Vec::new(), flate2::Compression::default());
    encoder.write_all(&plain).unwrap();
    encoder.finish().unwrap()
}

#[test]
fn the_program_is_taken_out_of_a_release() {
    let archive = tgz(&[
        ("README.md", b"read me"),
        ("remux-cli-extra", b"no"),
        ("dist/remux-cli", b"the program"),
        ("remux-cli", b"another"),
    ]);
    assert_eq!(extract_binary_from_tarball(&archive).ok().unwrap(), b"the program");
}

#[test]
fn a_release_may_be_broken() {
    let e = extract_binary_from_tarball(&tgz(&[("other", b"x")])).unwrap_err();
    assert!(matches!(e, UpdateError::Extract(ExtractError::Missing)));
    assert_eq!(e.message(), "Tarball does not contain 'remux-cli' binary");

    let e = extract_binary_from_tarball(b"this is no archive").unwrap_err();
    assert!(matches!(e, UpdateError::Extract(ExtractError::Entry(_))));
    assert_eq!(e.message(), "Failed to read tarball entry");

    // The header of the entry is whole, what it holds is not.
    let mut noise: Vec<u8> = Vec::new();
    let mut x: u32 = 12345;
    for _ in 0..200_000 {
        x = x.wrapping_mul(1664525).wrapping_add(1013904223);
        noise.push((x >> 24) as u8);
    }
    let archive = tgz(&[("remux-cli", &noise)]);
    let e = extract_binary_from_tarball(&archive[..archive.len() / 2]).unwrap_err();
    assert!(matches!(e, UpdateError::Extract(ExtractError::Contents(_))));
    assert_eq!(e.message(), "Failed to extract binary");
}
