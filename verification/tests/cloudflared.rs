use std::io::Write;

use remux::archive::{find_entry, ExtractError};
use remux::cloudflared::{
    accepts_download, download_prompt, download_url, ensure_cloudflared, fetched_binary,
    find_in_path, managed_bin_path, paths_in, progress_line, resolve_cloudflared, Candidate,
    CloudflaredError, EnsureAction, EnsureEvent,
};
use remux::files::{absolute_path, is_executable, join_path, FileInfo};

fn at(path: &str, mode: Option<u32>) -> Candidate {
    Candidate {
        path: path.to_string(),
        file: mode.map(|m| FileInfo { is_file: true, len: 1, mode: Some(m) }),
    }
}

#[test]
fn files_can_be_executed_by_their_mode() {
    let f = |is_file: bool, mode: Option<u32>| Some(FileInfo { is_file, len: 0, mode });
    assert!(is_executable(f(true, Some(0o100))));
    assert!(is_executable(f(true, Some(0o010))));
    assert!(is_executable(f(true, Some(0o001))));
    assert!(!is_executable(f(true, Some(0o666))));
    assert!(!is_executable(f(false, Some(0o755))));
    assert!(is_executable(f(true, None)));
    assert!(!is_executable(None));
}

#[test]
fn paths_are_joined_with_one_slash() {
    assert_eq!(join_path("/a", "b"), "/a/b");
    assert_eq!(join_path("/a/", "b"), "/a/b");
    assert_eq!(join_path("", "b"), "b");
    assert_eq!(managed_bin_path("/h", false), "/h/bin/cloudflared");
    assert_eq!(managed_bin_path("/h", true), "/h/bin/cloudflared.exe");
    let dirs = vec!["/usr/bin".to_string(), "".to_string(), "/opt/".to_string()];
    assert_eq!(paths_in(&dirs, false), vec!["/usr/bin/cloudflared", "cloudflared", "/opt/cloudflared"]);
}

#[test]
fn a_named_program_comes_first() {
    let searched = vec![at("/usr/bin/cloudflared", Some(0o755))];
    let r = resolve_cloudflared(Some(at("/x", Some(0o755))), &searched, at("/m", Some(0o755)));
    assert_eq!(r.ok().unwrap().as_deref(), Some("/x"));
    let e = resolve_cloudflared(Some(at("/x", None)), &searched, at("/m", Some(0o755))).unwrap_err();
    assert!(matches!(e, CloudflaredError::NotExecutable(_)));
    assert_eq!(
        e.message(),
        "REMUX_CLOUDFLARED_BIN is set to '/x' but no executable file exists at that path"
    );
}

#[test]
fn then_the_search_path_and_the_fetched_one() {
    let searched = vec![at("/a", None), at("/b", Some(0o644)), at("/c", Some(0o755)), at("/d", Some(0o755))];
    assert_eq!(find_in_path(&searched).as_deref(), Some("/c"));
    let r = resolve_cloudflared(None, &searched, at("/m", Some(0o755)));
    assert_eq!(r.ok().unwrap().as_deref(), Some("/c"));
    let r = resolve_cloudflared(None, &vec![at("/a", None)], at("/m", Some(0o755)));
    assert_eq!(r.ok().unwrap().as_deref(), Some("/m"));
    let r = resolve_cloudflared(None, &Vec::new(), at("/m", Some(0o600)));
    assert_eq!(r.ok().unwrap(), None);
}

#[test]
fn the_user_is_asked() {
    assert_eq!(
        download_prompt("linux"),
        "remux uses cloudflared to create a tunnel for remote access.\nDownload it now? (~38 MB) [Y/n]: "
    );
    assert!(download_prompt("macos").contains("~18 MB"));
    assert!(download_prompt("windows").contains("~25 MB"));
    assert!(download_prompt("freebsd").contains("~30 MB"));
    for yes in ["", "\n", "y\n", "Y", " yes \n", "YES", "yEs\r\n"] {
        assert!(accepts_download(yes), "{:?}", yes);
    }
    for no in ["n", "no\n", "yess", "ye", "y y"] {
        assert!(!accepts_download(no), "{:?}", no);
    }
}

#[test]
fn the_program_is_made_sure_of() {
    let step = |e: EnsureEvent| ensure_cloudflared(e, "/work");
    let used = |e: EnsureEvent| match ensure_cloudflared(e, "/work") {
        EnsureAction::Use(p) => p,
        _ => panic!("not used"),
    };
    assert_eq!(used(EnsureEvent::Resolved(Some("/x".to_string()))), "/x");
    assert_eq!(used(EnsureEvent::Resolved(Some("bin/cloudflared".to_string()))), "/work/bin/cloudflared");
    assert_eq!(used(EnsureEvent::Fetched("/h/bin/cloudflared".to_string())), "/h/bin/cloudflared");
    assert_eq!(used(EnsureEvent::Fetched(managed_bin_path(".remux", false))), "/work/.remux/bin/cloudflared");
    assert!(matches!(step(EnsureEvent::Resolved(None)), EnsureAction::Ask));
    assert!(matches!(step(EnsureEvent::Answered("\n".to_string())), EnsureAction::Fetch));
    match step(EnsureEvent::Answered("n\n".to_string())) {
        EnsureAction::Fail(e) => assert_eq!(
            e.message(),
            "cloudflared is required for remux to work.\n\
             Install manually: https://developers.cloudflare.com/cloudflare-one/connections/connect-networks/downloads/"
        ),
        _ => panic!("no failure"),
    }
}

#[test]
fn used_programs_have_absolute_paths() {
    for (cwd, path, absolute) in [
        ("/work", "cloudflared", "/work/cloudflared"),
        ("/", "cloudflared", "/cloudflared"),
        ("/work/", "./a/b", "/work/./a/b"),
        ("/work", "/usr/bin/cloudflared", "/usr/bin/cloudflared"),
    ] {
        assert_eq!(absolute_path(cwd, path), absolute);
        let searched = vec![at("/none", None), at(path, Some(0o755))];
        let found = resolve_cloudflared(None, &searched, at("m", None)).ok().unwrap();
        match ensure_cloudflared(EnsureEvent::Resolved(found), cwd) {
            EnsureAction::Use(p) => assert_eq!(p, absolute),
            _ => panic!("not used"),
        }
    }
}

#[test]
fn every_platform_has_its_file() {
    let base = "https://github.com/cloudflare/cloudflared/releases/latest/download/";
    for (os, arch, name) in [
        ("linux", "x86_64", "cloudflared-linux-amd64"),
        ("linux", "aarch64", "cloudflared-linux-arm64"),
        ("macos", "x86_64", "cloudflared-darwin-amd64.tgz"),
        ("macos", "aarch64", "cloudflared-darwin-arm64.tgz"),
        ("windows", "x86_64", "cloudflared-windows-amd64.exe"),
        ("windows", "aarch64", "cloudflared-windows-arm64.exe"),
    ] {
        assert_eq!(download_url(os, arch).ok().unwrap(), format!("{}{}", base, name));
    }
    let e = download_url("linux", "riscv64").unwrap_err();
    assert_eq!(
        e.message(),
        "Unsupported platform: linux/riscv64. Please install cloudflared manually."
    );
}

#[test]
fn progress_has_thirty_blocks() {
    assert_eq!(
        progress_line(15, 50),
        format!("\r\x1b[KDownloading cloudflared  [{}{}]  50%", "█".repeat(15), "░".repeat(15))
    );
    assert_eq!(
        progress_line(0, 3),
        format!("\r\x1b[KDownloading cloudflared  [{}]   3%", "░".repeat(30))
    );
    assert_eq!(
        progress_line(30, 100),
        format!("\r\x1b[KDownloading cloudflared  [{}] 100%", "█".repeat(30))
    );
}

fn tgz(files: &[(&str, &[u8])]) -> Vec<u8> {
    let mut builder = tar::Builder::new(Vec::new());
    for (name, data) in files {
        let mut header = tar::Header::new_gnu();
        header.set_size(data.len() as u64);
        header.set_mode(0o755);
        builder.append_data(&mut header, name, *data).unwrap();
    }
    let plain = builder.into_inner().unwrap();
    let mut encoder = flate2::write::GzEncoder::new(Vec::new(), flate2::Compression::default());
    encoder.write_all(&plain).unwrap();
    encoder.finish().unwrap()
}

#[test]
fn archives_are_for_macos_alone() {
    let archive = tgz(&[("LICENSE", b"text"), ("cloudflared", b"binary")]);
    assert_eq!(fetched_binary("macos", archive.clone()).ok().unwrap(), b"binary");
    assert_eq!(fetched_binary("linux", archive.clone()).ok().unwrap(), archive);
    let e = fetched_binary("macos", tgz(&[("cloudflared.txt", b"x")])).unwrap_err();
    assert_eq!(e.message(), "Downloaded archive does not contain 'cloudflared' binary");
    let e = fetched_binary("macos", b"junk".to_vec()).unwrap_err();
    assert_eq!(e.message(), "Failed to read tgz entry");
    assert_eq!(
        CloudflaredError::Extract(ExtractError::Contents("eof".to_string())).message(),
        "Failed to extract cloudflared from archive"
    );
}

#[test]
fn the_first_entry_of_the_name_counts() {
    let entries = vec![
        Ok(None),
        Ok(Some("a".to_string())),
        Ok(Some("b".to_string())),
        Ok(Some("b".to_string())),
        Err("broken".to_string()),
    ];
    assert_eq!(find_entry(&entries, "b").ok(), Some(2));
    match find_entry(&entries, "c") {
        Err(ExtractError::Entry(why)) => assert_eq!(why, "broken"),
        _ => panic!("found"),
    }
    assert!(matches!(find_entry(&Vec::new(), "c"), Err(ExtractError::Missing)));
}
