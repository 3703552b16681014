use gitweb_release_downloader::arguments::{GitWebsite, Repository};
use gitweb_release_downloader::models::json::Asset;
use gitweb_release_downloader::selection::no_asset_message;
use gitweb_release_downloader::urls::{
    asset_download_request, get_github_asset_api_url, get_releases_api_url,
    get_scheme_from_repository_string,
};

fn repo(website: GitWebsite, passed: &str, owner: &str, name: &str, origin: &str, sub: &str) -> Repository {
    Repository {
        website,
        owner: owner.to_string(),
        name: name.to_string(),
        origin: origin.to_string(),
        sub_path: sub.to_string(),
        passed_string: passed.to_string(),
    }
}

#[test]
fn scheme_is_http_only_for_a_literal_http_prefix() {
    assert_eq!(get_scheme_from_repository_string("http://example.com/a/b"), "http");
    assert_eq!(get_scheme_from_repository_string("https://example.com/a/b"), "https");
    assert_eq!(get_scheme_from_repository_string("example.com/a/b"), "https");
}

#[test]
fn releases_url_github() {
    let r = repo(
        GitWebsite::GitHub,
        "cm-auto/gitweb-release-downloader",
        "cm-auto",
        "gitweb-release-downloader",
        "github.com",
        "/",
    );
    assert_eq!(
        get_releases_api_url(&r),
        "https://api.github.com/repos/cm-auto/gitweb-release-downloader/releases"
    );
}

#[test]
fn releases_url_github_keeps_http_scheme() {
    let r = repo(
        GitWebsite::GitHub,
        "http://github.com/a/b",
        "a",
        "b",
        "github.com",
        "/",
    );
    assert_eq!(get_releases_api_url(&r), "http://api.github.com/repos/a/b/releases");
}

#[test]
fn releases_url_gitea_with_sub_path_and_port() {
    let r = repo(
        GitWebsite::Gitea,
        "example.com:1337/gitea/owner/repo",
        "owner",
        "repo",
        "example.com:1337",
        "/gitea/",
    );
    assert_eq!(
        get_releases_api_url(&r),
        "https://example.com:1337/gitea/api/v1/repos/owner/repo/releases"
    );
}

#[test]
fn releases_url_gitlab_encodes_the_project_path() {
    let r = repo(
        GitWebsite::GitLab,
        "gitlab.com/group/project",
        "group",
        "project",
        "gitlab.com",
        "/",
    );
    assert_eq!(
        get_releases_api_url(&r),
        "https://gitlab.com/api/v4/projects/group%2Fproject/releases"
    );
}

#[test]
fn github_asset_url_writes_the_id_in_decimal() {
    assert_eq!(
        get_github_asset_api_url("https", "owner", "repo", 123456789),
        "https://api.github.com/repos/owner/repo/releases/assets/123456789"
    );
    assert_eq!(
        get_github_asset_api_url("https", "o", "r", 0),
        "https://api.github.com/repos/o/r/releases/assets/0"
    );
    assert_eq!(
        get_github_asset_api_url("http", "o", "r", -7),
        "http://api.github.com/repos/o/r/releases/assets/-7"
    );
}

#[test]
fn asset_request_github_goes_through_the_api_with_an_accept_header() {
    let r = repo(GitWebsite::GitHub, "a/b", "a", "b", "github.com", "/");
    let asset = Asset {
        browser_download_url: "https://github.com/a/b/releases/download/v1/x.zip".to_string(),
        name: "x.zip".to_string(),
        id: Some(42),
    };
    let (url, header) = asset_download_request(&r, &asset);
    assert_eq!(url, "https://api.github.com/repos/a/b/releases/assets/42");
    assert_eq!(header.as_deref(), Some("Accept: application/octet-stream"));
}

#[test]
fn asset_request_other_platforms_use_the_download_url() {
    let r = repo(
        GitWebsite::Gitea,
        "codeberg.org/a/b",
        "a",
        "b",
        "codeberg.org",
        "/",
    );
    let asset = Asset {
        browser_download_url: "https://codeberg.org/a/b/releases/download/v1/x.zip".to_string(),
        name: "x.zip".to_string(),
        id: None,
    };
    let (url, header) = asset_download_request(&r, &asset);
    assert_eq!(url, "https://codeberg.org/a/b/releases/download/v1/x.zip");
    assert!(header.is_none());
}

#[test]
fn no_asset_message_names_pattern_tag_and_repository() {
    assert_eq!(
        no_asset_message("a\\.", &Some("v1.0".to_string()), "a/b"),
        "Could not find Pattern \"a\\.\" in tag \"v1.0\" in releases of repository \"a/b\""
    );
    assert_eq!(
        no_asset_message(".*", &None, "a/b"),
        "Could not find Pattern \".*\" in latest tag in releases of repository \"a/b\""
    );
}
