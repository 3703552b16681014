use gitweb_release_downloader::models::json::{Asset, Release};
use gitweb_release_downloader::pattern::get_compiled_asset_pattern;
use gitweb_release_downloader::query::{query_asset_names, query_release_tags, AssetsQueryError};
use gitweb_release_downloader::selection::{find_asset, find_assets_in_release, find_release};

fn asset(name: &str) -> Asset {
    Asset {
        browser_download_url: format!("https://example.com/{}", name),
        name: name.to_string(),
        id: None,
    }
}

fn release(tag: &str, prerelease: bool, assets: Vec<Asset>) -> Release {
    Release {
        tag_name: tag.to_string(),
        prerelease,
        assets,
    }
}

#[test]
fn find_release_latest_skips_prereleases() {
    let releases = vec![
        release("v2.0-rc1", true, vec![]),
        release("v1.9", false, vec![]),
        release("v1.8", false, vec![]),
    ];
    let found = find_release(&releases, None, false).unwrap();
    assert_eq!(found.tag_name, "v1.9");
}

#[test]
fn find_release_all_prereleases_is_none() {
    let releases = vec![
        release("v2.0-rc1", true, vec![]),
        release("v2.0-rc0", true, vec![]),
    ];
    assert!(find_release(&releases, None, false).is_none());
}

#[test]
fn find_release_latest_allows_prerelease_when_asked() {
    let releases = vec![
        release("v2.0-rc1", true, vec![]),
        release("v1.9", false, vec![]),
    ];
    let found = find_release(&releases, None, true).unwrap();
    assert_eq!(found.tag_name, "v2.0-rc1");
}

#[test]
fn find_release_tagged_prerelease_is_skipped() {
    let releases = vec![
        release("v1.0", true, vec![]),
        release("v0.9", false, vec![]),
    ];
    assert!(find_release(&releases, Some("v1.0"), false).is_none());
    let found = find_release(&releases, Some("v1.0"), true).unwrap();
    assert_eq!(found.tag_name, "v1.0");
}

#[test]
fn find_release_tag_is_exact_and_case_sensitive() {
    let releases = vec![
        release("v1.0", false, vec![]),
        release("V1.0", false, vec![]),
    ];
    let found = find_release(&releases, Some("V1.0"), false).unwrap();
    assert_eq!(found.tag_name, "V1.0");
    assert!(find_release(&releases, Some("v1"), false).is_none());
}

#[test]
fn find_release_twice_gives_the_same_release() {
    let releases = vec![
        release("v2.0-rc1", true, vec![]),
        release("v1.9", false, vec![]),
    ];
    let first = find_release(&releases, None, false).unwrap();
    let second = find_release(&releases, None, false).unwrap();
    assert_eq!(first, second);
    assert_eq!(first.tag_name, "v1.9");
}

#[test]
fn find_asset_takes_the_first_match() {
    let releases = vec![release(
        "v1.0",
        false,
        vec![asset("a.zip"), asset("a.tar.gz")],
    )];
    let pattern = get_compiled_asset_pattern("a\\.").unwrap();
    let found = find_asset(&releases, None, false, &pattern).unwrap();
    assert_eq!(found.name, "a.zip");
}

#[test]
fn find_asset_match_is_unanchored() {
    let releases = vec![release(
        "v1.0",
        false,
        vec![asset("tool-x86_64.tar.gz"), asset("tool-aarch64.tar.gz")],
    )];
    let pattern = get_compiled_asset_pattern("aarch64").unwrap();
    let found = find_asset(&releases, None, false, &pattern).unwrap();
    assert_eq!(found.name, "tool-aarch64.tar.gz");
}

#[test]
fn find_asset_none_when_nothing_matches() {
    let releases = vec![release("v1.0", false, vec![asset("a.zip")])];
    let pattern = get_compiled_asset_pattern("\\.deb$").unwrap();
    assert!(find_asset(&releases, None, false, &pattern).is_none());
}

#[test]
fn find_assets_in_release_keeps_every_match_in_order() {
    let rel = release(
        "v1.0",
        false,
        vec![asset("a.zip"), asset("b.deb"), asset("a.tar.gz")],
    );
    let pattern = get_compiled_asset_pattern("a\\.").unwrap();
    let found = find_assets_in_release(&rel, &pattern);
    let names: Vec<&str> = found.iter().map(|a| a.name.as_str()).collect();
    assert_eq!(names, vec!["a.zip", "a.tar.gz"]);
}

#[test]
fn query_release_tags_filters_and_counts() {
    let releases = vec![
        release("v2.0-rc1", true, vec![]),
        release("v1.9", false, vec![]),
        release("v1.8", false, vec![]),
        release("v1.7", false, vec![]),
    ];
    assert_eq!(query_release_tags(&releases, false, 2), vec!["v1.9", "v1.8"]);
    assert_eq!(
        query_release_tags(&releases, true, 2),
        vec!["v2.0-rc1", "v1.9"]
    );
    assert_eq!(
        query_release_tags(&releases, false, 10),
        vec!["v1.9", "v1.8", "v1.7"]
    );
    assert_eq!(query_release_tags(&releases, false, 1), vec!["v1.9"]);
}

#[test]
fn query_asset_names_allows_prerelease_only_with_a_tag() {
    let releases = vec![
        release("v2.0-rc1", true, vec![asset("rc.zip")]),
        release("v1.9", false, vec![asset("stable.zip")]),
    ];
    // without a tag the prerelease is skipped
    let names = query_asset_names(&releases, &None, ".*").unwrap();
    assert_eq!(names, vec!["stable.zip"]);
    // an explicit tag admits the prerelease
    let names = query_asset_names(&releases, &Some("v2.0-rc1".to_string()), ".*").unwrap();
    assert_eq!(names, vec!["rc.zip"]);
}

#[test]
fn query_asset_names_reports_a_missing_release() {
    let releases = vec![release("v1.9", false, vec![asset("stable.zip")])];
    let err = query_asset_names(&releases, &Some("v9.9".to_string()), ".*").unwrap_err();
    assert_eq!(err, AssetsQueryError::NoMatchingRelease);
}

#[test]
fn query_asset_names_reports_a_bad_pattern() {
    let releases = vec![release("v1.9", false, vec![asset("stable.zip")])];
    let err = query_asset_names(&releases, &None, "(").unwrap_err();
    assert!(matches!(err, AssetsQueryError::InvalidPattern(_)));
}

#[test]
fn bad_pattern_fails_to_compile() {
    assert!(get_compiled_asset_pattern("(").is_err());
    assert!(get_compiled_asset_pattern(".*").is_ok());
}
