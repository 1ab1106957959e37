//! Self-update: releases, checksums and the guard of the installer.

use hato::checksum::{
    check_digest, check_download, fetch_checksum, pick_sum, read_checksums, NamedSum,
};
use hato::update::{
    CheckEvent, CheckStep, UpdateCheck, begin_check, installer_arguments, check_download_status, check_platform, consider_release, download_failure_of, finish_check,
    judge_download, latest_release_url, release_failure, release_failure_of, release_reply, select_assets, success,
    user_agent, with_checksum, DownloadVerdict, GhAsset, GhRelease, ReleaseReply, UpdateInfo, UpdatePlan, UpdateState,
};

const ABC: &str = "ba7816bf8f01cfea414140de5dae2223b00361a396177a9cb410ff61f20015ad";

fn asset(name: &str) -> GhAsset {
    GhAsset { name: name.to_string(), browser_download_url: format!("https://example.org/{name}") }
}

fn release(tag: &str, names: &[&str]) -> GhRelease {
    GhRelease {
        tag_name: tag.to_string(),
        body: "notes".to_string(),
        published_at: "2025-01-01".to_string(),
        assets: names.iter().map(|n| asset(n)).collect(),
    }
}

fn plan() -> UpdatePlan {
    consider_release(
        release("v0.3.0", &["SHA256SUMS", "Hato-0.3.0-windows-x64-installer.exe"]),
        "0.2.0",
    )
    .unwrap()
    .unwrap()
}

#[test]
fn requests_name_the_program() {
    assert_eq!(user_agent("0.2.0"), "hato/0.2.0 (+https://github.com/StephenSHorton/hato)");
    assert_eq!(latest_release_url(), "https://api.github.com/repos/StephenSHorton/hato/releases/latest");
    let q = begin_check("0.2.0").unwrap();
    assert_eq!(q.url, latest_release_url());
    assert_eq!(q.user_agent, user_agent("0.2.0"));
    assert!(begin_check("dev").is_none());
    assert!(begin_check("").is_none());
}

#[test]
fn status_of_the_release_list() {
    assert_eq!(release_reply(404), ReleaseReply::NoRelease);
    assert_eq!(release_reply(200), ReleaseReply::Release);
    assert_eq!(release_reply(299), ReleaseReply::Release);
    assert_eq!(release_reply(199), ReleaseReply::Failed);
    assert_eq!(release_reply(300), ReleaseReply::Failed);
    assert_eq!(release_reply(500), ReleaseReply::Failed);
    assert!(success(204));
    assert!(!success(304));
}

#[test]
fn messages_show_the_status() {
    assert_eq!(release_failure(403, " slow down \n"), "github releases: 403 Forbidden: slow down");
    assert_eq!(release_failure_of("500 Internal Server Error", ""), "github releases: 500 Internal Server Error: ");
    assert_eq!(
        check_download_status("https://x/y", 404),
        Err("download https://x/y: 404 Not Found".to_string())
    );
    assert_eq!(check_download_status("https://x/y", 200), Ok(()));
    assert_eq!(download_failure_of("u", "s"), "download u: s");
}

#[test]
fn assets_are_told_apart_by_name() {
    let (installer, sums) = select_assets(vec![
        asset("hato-linux.tar.gz"),
        asset("Hato-Windows-Installer.EXE"),
        asset("sha256SUMS"),
        asset("windows-notes.txt"),
        asset("mac-installer.exe"),
    ]);
    assert_eq!(installer.unwrap().name, "Hato-Windows-Installer.EXE");
    assert_eq!(sums.unwrap(), "https://example.org/sha256SUMS");
}

#[test]
fn last_asset_of_a_kind_counts() {
    let (installer, sums) = select_assets(vec![
        asset("a-windows-installer.exe"),
        asset("SHA256SUMS"),
        asset("b-windows-installer.exe"),
        asset("sha256sums"),
    ]);
    assert_eq!(installer.unwrap().name, "b-windows-installer.exe");
    assert_eq!(sums.unwrap(), "https://example.org/sha256sums");
    let (installer, sums) = select_assets(vec![asset("sha256sums.txt")]);
    assert!(installer.is_none());
    assert!(sums.is_none());
}

#[test]
fn older_releases_are_passed_over() {
    assert!(consider_release(release("v0.2.0", &[]), "0.2.0").unwrap().is_none());
    assert!(consider_release(release("v0.1.0", &[]), "0.2.0").unwrap().is_none());
    assert!(consider_release(release("v9.0.0", &[]), "dev").unwrap().is_none());
}

#[test]
fn a_newer_release_needs_an_installer() {
    let e = consider_release(release("v0.3.0", &["SHA256SUMS"]), "0.2.0").unwrap_err();
    assert_eq!(e, "release v0.3.0 has no windows installer asset");
}

#[test]
fn a_newer_release_is_planned() {
    let p = plan();
    assert_eq!(p.version, "0.3.0");
    assert_eq!(p.notes, "notes");
    assert_eq!(p.installer.name, "Hato-0.3.0-windows-x64-installer.exe");
    assert_eq!(p.sums_url.as_deref(), Some("https://example.org/SHA256SUMS"));
    assert_eq!(p.published_at, "2025-01-01");
}

#[test]
fn an_installed_release_is_no_update() {
    let p = plan();
    assert!(consider_release(release("v0.3.0", &[]), &p.version).unwrap().is_none());
}

#[test]
fn plans_are_completed_with_a_checksum() {
    let info = finish_check(plan(), Some("AABB  *dist/Hato-0.3.0-windows-x64-installer.exe\n".to_string()));
    assert_eq!(info.sha256, "aabb");
    assert_eq!(info.asset_name, "Hato-0.3.0-windows-x64-installer.exe");
    assert_eq!(info.asset_url, "https://example.org/Hato-0.3.0-windows-x64-installer.exe");
    assert_eq!(info.version, "0.3.0");
    assert_eq!(finish_check(plan(), None).sha256, "");
    assert_eq!(finish_check(plan(), Some("aabb  other.exe".to_string())).sha256, "");
    let info: UpdateInfo = with_checksum(plan(), Some("x".to_string())).clone();
    assert_eq!(info.sha256, "x");
    assert_eq!(with_checksum(plan(), None).sha256, "");
}

#[test]
fn checksum_lists_are_read_line_by_line() {
    let found = read_checksums("aa  one.exe\r\nbb *two.exe\n\nnot a checksum line\nlone\ncc **d/three.exe");
    let shown: Vec<(&str, &str)> = found.iter().map(|l| (l.sum.as_str(), l.file.as_str())).collect();
    assert_eq!(shown, vec![("aa", "one.exe"), ("bb", "two.exe"), ("cc", "d/three.exe")]);
}

#[test]
fn checksums_are_found_by_file_name() {
    let list = "AA  ./dist/hato.exe\nbb  hato.exe\ncc  *a//b/./other.exe/\ndd ..\nee dir/..\nff x/.";
    assert_eq!(fetch_checksum(list, "hato.exe"), Ok("aa".to_string()));
    assert_eq!(fetch_checksum(list, "other.exe"), Ok("cc".to_string()));
    assert_eq!(fetch_checksum(list, "x"), Ok("ff".to_string()));
    assert_eq!(fetch_checksum(list, "dist"), Err("no checksum for dist".to_string()));
    assert_eq!(fetch_checksum(list, ".."), Err("no checksum for ..".to_string()));
    assert_eq!(fetch_checksum(list, "dir"), Err("no checksum for dir".to_string()));
    assert_eq!(fetch_checksum(list, "HATO.EXE"), Err("no checksum for HATO.EXE".to_string()));
    assert_eq!(fetch_checksum("", "x"), Err("no checksum for x".to_string()));
}

#[test]
fn first_named_sum_counts() {
    let all = vec![
        NamedSum { sum: "AA".to_string(), name: None },
        NamedSum { sum: "BB".to_string(), name: Some("f".to_string()) },
        NamedSum { sum: "CC".to_string(), name: Some("f".to_string()) },
    ];
    assert_eq!(pick_sum(&all, "f"), Some("bb".to_string()));
    assert_eq!(pick_sum(&all, "g"), None);
}

#[test]
fn downloads_are_checked() {
    assert_eq!(check_download(b"abc", ABC), Ok(()));
    assert_eq!(check_download(b"abc", &ABC.to_uppercase()), Ok(()));
    assert_eq!(check_download(b"abc", ""), Ok(()));
    assert_eq!(
        check_download(b"abc", "00"),
        Err(format!("update checksum mismatch: got {ABC}, want 00"))
    );
    assert_eq!(
        check_download(b"", ABC),
        Err(format!(
            "update checksum mismatch: got e3b0c44298fc1c149afbf4c8996fb92427ae41e4649b934ca495991b7852b855, want {ABC}"
        ))
    );
}

#[test]
fn a_checksum_lets_one_digest_pass() {
    assert_eq!(check_digest(&[0xab, 0x01], "AB01"), Ok(()));
    assert_eq!(
        check_digest(&[0xab, 0x02], "AB01"),
        Err("update checksum mismatch: got ab02, want AB01".to_string())
    );
    assert!(check_digest(&[0xab], "AB01").is_err());
}

#[test]
fn what_is_done_with_a_download() {
    assert!(matches!(judge_download(b"abc", ABC, true), DownloadVerdict::Launch));
    match judge_download(b"abc", ABC, false) {
        DownloadVerdict::Unsupported(e) => assert_eq!(e, "auto-update is only supported on Windows"),
        v => panic!("{v:?}"),
    }
    match judge_download(b"abd", ABC, true) {
        DownloadVerdict::Discard(e) => assert!(e.starts_with("update checksum mismatch: got ")),
        v => panic!("{v:?}"),
    }
    assert!(matches!(judge_download(b"abd", "", true), DownloadVerdict::Launch));
    assert_eq!(check_platform(true), Ok(()));
    assert_eq!(check_platform(false), Err("auto-update is only supported on Windows".to_string()));
}

#[test]
fn one_installation_at_a_time() {
    let mut guard = UpdateState::new();
    assert!(guard.begin());
    assert!(!guard.begin());
    guard.finish(false);
    assert!(guard.begin());
    guard.finish(true);
    assert!(!guard.begin());
}

fn asking() -> UpdateCheck {
    let (check, request) = UpdateCheck::begin("0.2.0".to_string()).unwrap();
    assert_eq!(request.url, latest_release_url());
    assert_eq!(request.user_agent, user_agent("0.2.0"));
    check
}

#[test]
fn a_check_finds_an_update() {
    let mut check = asking();
    assert!(matches!(check.step(CheckEvent::Sums(None)), CheckStep::Ignore));
    assert!(matches!(check.step(CheckEvent::Status(200)), CheckStep::ReadRelease));
    let rel = release("v0.3.0", &["SHA256SUMS", "hato-windows-installer.exe"]);
    match check.step(CheckEvent::Release(rel)) {
        CheckStep::FetchSums(url) => assert_eq!(url, "https://example.org/SHA256SUMS"),
        s => panic!("{s:?}"),
    }
    match check.step(CheckEvent::Sums(Some("AB hato-windows-installer.exe".to_string()))) {
        CheckStep::Update(info) => {
            assert_eq!(info.version, "0.3.0");
            assert_eq!(info.sha256, "ab");
            assert_eq!(info.asset_name, "hato-windows-installer.exe");
        }
        s => panic!("{s:?}"),
    }
    assert!(matches!(check.step(CheckEvent::Status(200)), CheckStep::Ignore));
}

#[test]
fn a_check_without_checksums_is_over_at_once() {
    let mut check = asking();
    check.step(CheckEvent::Status(200));
    match check.step(CheckEvent::Release(release("v0.3.0", &["hato-windows-installer.exe"]))) {
        CheckStep::Update(info) => assert_eq!(info.sha256, ""),
        s => panic!("{s:?}"),
    }
}

#[test]
fn a_check_finds_nothing() {
    assert!(UpdateCheck::begin("dev".to_string()).is_none());
    assert!(UpdateCheck::begin(String::new()).is_none());
    assert!(matches!(asking().step(CheckEvent::Status(404)), CheckStep::NoUpdate));
    let mut check = asking();
    check.step(CheckEvent::Status(200));
    assert!(matches!(check.step(CheckEvent::Release(release("v0.2.0", &[]))), CheckStep::NoUpdate));
}

#[test]
fn a_check_fails() {
    let mut check = asking();
    assert!(matches!(check.step(CheckEvent::Status(500)), CheckStep::ReadBody));
    match check.step(CheckEvent::Body(" oops ".to_string())) {
        CheckStep::Fail(e) => assert_eq!(e, "github releases: 500 Internal Server Error: oops"),
        s => panic!("{s:?}"),
    }
    let mut check = asking();
    check.step(CheckEvent::Status(200));
    match check.step(CheckEvent::Release(release("v0.3.0", &[]))) {
        CheckStep::Fail(e) => assert_eq!(e, "release v0.3.0 has no windows installer asset"),
        s => panic!("{s:?}"),
    }
}

#[test]
fn a_first_entry_decides_whatever_follows() {
    let list = "AA hato.exe\nbb C:\\dist\\hato.exe\ncc other.exe";
    assert_eq!(fetch_checksum(list, "hato.exe"), Ok("aa".to_string()));
    assert_eq!(fetch_checksum(list, "other.exe"), Ok("cc".to_string()));
    assert_eq!(fetch_checksum("AA x:other.exe\nBB hato.exe", "hato.exe"), Ok("bb".to_string()));
}

#[test]
fn installers_run_silently() {
    assert_eq!(installer_arguments(), vec!["/S"]);
}
