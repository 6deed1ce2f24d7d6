use deltafishing::updater::{is_newer_version, update_info_from_release, GithubRelease, ReleaseAsset};

#[test]
fn version_comparison() {
    assert!(is_newer_version("0.1.2", "0.1.1"));
    assert!(is_newer_version("v1.0.0", "0.1.1"));
    assert!(is_newer_version("0.2.0", "0.1.9"));
    assert!(!is_newer_version("0.1.1", "0.1.1"));
    assert!(!is_newer_version("0.1.0", "0.1.1"));
}

#[test]
fn longer_version_is_newer_when_prefix_equal() {
    assert!(is_newer_version("1.0.1", "1.0"));
    assert!(!is_newer_version("1.0", "1.0.1"));
    assert!(is_newer_version("1.0.0", "1.0"));
}

#[test]
fn whitespace_and_v_prefix_are_ignored() {
    assert!(!is_newer_version("  V0.1.1\n", "0.1.1"));
    assert!(!is_newer_version("vv0.1.1", "0.1.1"));
    assert!(is_newer_version("\t0.1.2 ", "0.1.1"));
    assert!(is_newer_version("0.1.2\u{3000}", "0.1.1"));
}

#[test]
fn pieces_that_do_not_parse_are_skipped() {
    // "1.x.3" has the parts [1, 3], which beats [1, 2]
    assert!(is_newer_version("1.x.3", "1.2"));
    // "+5" parses as 5, "-5" does not parse
    assert!(is_newer_version("1.+5", "1.4"));
    assert!(!is_newer_version("1.-5", "1.4"));
    // a number that overflows u32 does not parse
    assert!(!is_newer_version("1.4294967296", "1.0"));
    assert!(is_newer_version("1.4294967295", "1.0"));
    // leading zeros are fine
    assert!(!is_newer_version("1.007", "1.7"));
    // nothing parses: no parts
    assert!(!is_newer_version("", ""));
    assert!(is_newer_version("0", "abc"));
}

#[test]
fn newer_is_asymmetric_on_examples() {
    let vs = ["0.1", "0.1.0", "0.2", "1.0", "v1.0.1", "10", "9.9.9"];
    for a in vs.iter() {
        assert!(!is_newer_version(a, a));
        for b in vs.iter() {
            assert!(!(is_newer_version(a, b) && is_newer_version(b, a)));
            for c in vs.iter() {
                if is_newer_version(a, b) && is_newer_version(b, c) {
                    assert!(is_newer_version(a, c));
                }
            }
        }
    }
}

fn asset(name: &str, url: &str) -> ReleaseAsset {
    ReleaseAsset { name: name.to_string(), browser_download_url: url.to_string(), size: 0 }
}

#[test]
fn update_info_picks_first_exe_and_strips_tag() {
    let release = GithubRelease {
        tag_name: "v0.3.0".to_string(),
        html_url: "https://example.com/r".to_string(),
        body: Some("notes".to_string()),
        assets: vec![
            asset("readme.txt", "u0"),
            asset("DeltaFishing.EXE", "u1"),
            asset("other.exe", "u2"),
        ],
    };
    let info = update_info_from_release(release, "0.2.9".to_string());
    assert_eq!(info.latest_version, "0.3.0");
    assert_eq!(info.current_version, "0.2.9");
    assert!(info.has_update);
    assert_eq!(info.release_url, "https://example.com/r");
    assert_eq!(info.download_url, Some("u1".to_string()));
    assert_eq!(info.changelog, "notes");
}

#[test]
fn update_info_without_exe_or_notes() {
    let release = GithubRelease {
        tag_name: "0.1.0".to_string(),
        html_url: "h".to_string(),
        body: None,
        assets: vec![asset("a.zip", "z"), asset("exe", "e"), asset("x.exe.txt", "t")],
    };
    let info = update_info_from_release(release, "0.1.0".to_string());
    assert_eq!(info.latest_version, "0.1.0");
    assert!(!info.has_update);
    assert_eq!(info.download_url, None);
    assert_eq!(info.changelog, "");
}
