use gitweb_release_downloader::arguments::{
    guess_website_type, parse_repository, GitWebsite, ParseRepositoryError, Repository,
    RepositoryArgumentsToRepositoryError,
};

#[test]
fn test_guess_website_type() {
    assert!(matches!(
        guess_website_type("https://github.com/"),
        Some(GitWebsite::GitHub)
    ));
    assert!(matches!(
        guess_website_type("https://gitlab.com/"),
        Some(GitWebsite::GitLab)
    ));
}

#[test]
fn test_parse_github_full_url_repository() {
    let repository = parse_repository(
        "https://github.com/cm-auto/gitweb-release-downloader".into(),
        GitWebsite::GitHub,
    )
    .unwrap();
    let expected = Repository {
        website: GitWebsite::GitHub,
        owner: "cm-auto".to_string(),
        name: "gitweb-release-downloader".to_string(),
        origin: "github.com".to_string(),
        sub_path: "/".to_string(),
        passed_string: "https://github.com/cm-auto/gitweb-release-downloader".to_string(),
    };
    assert_eq!(repository, expected);
}

#[test]
fn test_parse_github_domain_and_repository() {
    let repository = parse_repository(
        "github.com/cm-auto/gitweb-release-downloader".into(),
        GitWebsite::GitHub,
    )
    .unwrap();
    let expected = Repository {
        website: GitWebsite::GitHub,
        owner: "cm-auto".to_string(),
        name: "gitweb-release-downloader".to_string(),
        origin: "github.com".to_string(),
        sub_path: "/".to_string(),
        passed_string: "github.com/cm-auto/gitweb-release-downloader".to_string(),
    };
    assert_eq!(repository, expected);
}

#[test]
fn test_parse_github_only_repository() {
    let repository = parse_repository(
        "cm-auto/gitweb-release-downloader".into(),
        GitWebsite::GitHub,
    )
    .unwrap();
    let expected = Repository {
        website: GitWebsite::GitHub,
        owner: "cm-auto".to_string(),
        name: "gitweb-release-downloader".to_string(),
        origin: "github.com".to_string(),
        sub_path: "/".to_string(),
        passed_string: "cm-auto/gitweb-release-downloader".to_string(),
    };
    assert_eq!(repository, expected);
}

#[test]
fn test_parse_gitea_codeberg_forgejo() {
    let repository = parse_repository(
        "https://codeberg.org/forgejo/forgejo".into(),
        GitWebsite::Gitea,
    )
    .unwrap();
    let expected = Repository {
        website: GitWebsite::Gitea,
        owner: "forgejo".to_string(),
        name: "forgejo".to_string(),
        origin: "codeberg.org".to_string(),
        sub_path: "/".to_string(),
        passed_string: "https://codeberg.org/forgejo/forgejo".to_string(),
    };
    assert_eq!(repository, expected);
}

#[test]
fn test_parse_gitea_codeberg_forgejo_without_protocol() {
    let repository =
        parse_repository("codeberg.org/forgejo/forgejo".into(), GitWebsite::Gitea).unwrap();
    let expected = Repository {
        website: GitWebsite::Gitea,
        owner: "forgejo".to_string(),
        name: "forgejo".to_string(),
        origin: "codeberg.org".to_string(),
        sub_path: "/".to_string(),
        passed_string: "codeberg.org/forgejo/forgejo".to_string(),
    };
    assert_eq!(repository, expected);
}

#[test]
fn test_parse_gitea_sub_domain() {
    let repository = parse_repository(
        "https://gitea.example.com/owner/repo".into(),
        GitWebsite::Gitea,
    )
    .unwrap();
    let expected = Repository {
        website: GitWebsite::Gitea,
        owner: "owner".to_string(),
        name: "repo".to_string(),
        origin: "gitea.example.com".to_string(),
        sub_path: "/".to_string(),
        passed_string: "https://gitea.example.com/owner/repo".to_string(),
    };
    assert_eq!(repository, expected);
}

#[test]
fn test_parse_gitea_sub_domain_without_protocol() {
    let repository =
        parse_repository("gitea.example.com/owner/repo".into(), GitWebsite::Gitea).unwrap();
    let expected = Repository {
        website: GitWebsite::Gitea,
        owner: "owner".to_string(),
        name: "repo".to_string(),
        origin: "gitea.example.com".to_string(),
        sub_path: "/".to_string(),
        passed_string: "gitea.example.com/owner/repo".to_string(),
    };
    assert_eq!(repository, expected);
}

#[test]
fn test_parse_gitea_sub_path() {
    let repository = parse_repository(
        "https://example.com/gitea/owner/repo".into(),
        GitWebsite::Gitea,
    )
    .unwrap();
    let expected = Repository {
        website: GitWebsite::Gitea,
        owner: "owner".to_string(),
        name: "repo".to_string(),
        origin: "example.com".to_string(),
        sub_path: "/gitea/".to_string(),
        passed_string: "https://example.com/gitea/owner/repo".to_string(),
    };
    assert_eq!(repository, expected);
}

#[test]
fn test_parse_gitea_sub_path_without_protocol() {
    let repository =
        parse_repository("example.com/gitea/owner/repo".into(), GitWebsite::Gitea).unwrap();
    let expected = Repository {
        website: GitWebsite::Gitea,
        owner: "owner".to_string(),
        name: "repo".to_string(),
        origin: "example.com".to_string(),
        sub_path: "/gitea/".to_string(),
        passed_string: "example.com/gitea/owner/repo".to_string(),
    };
    assert_eq!(repository, expected);
}

#[test]
fn test_parse_gitea_with_port() {
    let repository = parse_repository(
        "https://example.com:1337/owner/repo".into(),
        GitWebsite::Gitea,
    )
    .unwrap();
    let expected = Repository {
        website: GitWebsite::Gitea,
        owner: "owner".to_string(),
        name: "repo".to_string(),
        origin: "example.com:1337".to_string(),
        sub_path: "/".to_string(),
        passed_string: "https://example.com:1337/owner/repo".to_string(),
    };
    assert_eq!(repository, expected);
}

#[test]
fn test_parse_gitea_with_port_without_protocol() {
    let repository =
        parse_repository("example.com:1337/owner/repo".into(), GitWebsite::Gitea).unwrap();
    let expected = Repository {
        website: GitWebsite::Gitea,
        owner: "owner".to_string(),
        name: "repo".to_string(),
        origin: "example.com:1337".to_string(),
        sub_path: "/".to_string(),
        passed_string: "example.com:1337/owner/repo".to_string(),
    };
    assert_eq!(repository, expected);
}

#[test]
fn guess_website_type_unknown_host_is_none() {
    assert!(guess_website_type("example.com/x/y").is_none());
    assert!(matches!(
        guess_website_type("github.com/x/y"),
        Some(GitWebsite::GitHub)
    ));
    assert!(matches!(
        guess_website_type("gitlab.com/x/y"),
        Some(GitWebsite::GitLab)
    ));
    assert!(matches!(
        guess_website_type("http://gitlab.com/x/y"),
        Some(GitWebsite::GitLab)
    ));
}

#[test]
fn parse_github_owner_may_look_like_host() {
    // only one slash, so the whole string is owner/name
    let repository = parse_repository("github.com/a".into(), GitWebsite::GitHub).unwrap();
    assert_eq!(repository.owner, "github.com");
    assert_eq!(repository.name, "a");
}

#[test]
fn parse_github_rejects_extra_segments() {
    assert!(parse_repository("https://github.com/a".into(), GitWebsite::GitHub).is_err());
    assert!(parse_repository("github.com/a/b/c".into(), GitWebsite::GitHub).is_err());
    assert!(parse_repository("a/b/c".into(), GitWebsite::GitHub).is_err());
    assert!(parse_repository("/b".into(), GitWebsite::GitHub).is_err());
    assert!(parse_repository("a/".into(), GitWebsite::GitHub).is_err());
}

#[test]
fn parse_gitea_rejects_malformed_strings() {
    // origin without an interior dot
    assert!(parse_repository("host/owner/repo".into(), GitWebsite::Gitea).is_err());
    // empty path segment
    assert!(parse_repository("example.com//owner/repo".into(), GitWebsite::Gitea).is_err());
    // too few segments
    assert!(parse_repository("example.com/repo".into(), GitWebsite::Gitea).is_err());
    // trailing slash leaves the name empty
    assert!(parse_repository("example.com/owner/repo/".into(), GitWebsite::Gitea).is_err());
}

#[test]
fn parse_gitea_with_several_sub_path_segments() {
    let repository =
        parse_repository("example.com/a/b/owner/repo".into(), GitWebsite::Gitea).unwrap();
    assert_eq!(repository.origin, "example.com");
    assert_eq!(repository.sub_path, "/a/b/");
    assert_eq!(repository.owner, "owner");
    assert_eq!(repository.name, "repo");
}

#[test]
fn parse_gitlab_uses_the_hosted_shape() {
    let repository = parse_repository(
        "https://gitlab.com/group/project".into(),
        GitWebsite::GitLab,
    )
    .unwrap();
    assert_eq!(repository.owner, "group");
    assert_eq!(repository.name, "project");
    assert_eq!(repository.origin, "gitlab.com");
    assert_eq!(repository.sub_path, "/");
}

#[test]
fn parse_error_keeps_the_input_and_writes_the_message() {
    let err = parse_repository("no-good".into(), GitWebsite::Gitea).unwrap_err();
    let ParseRepositoryError::InvalidRepository(s) = &err;
    assert_eq!(s, "no-good");
    assert_eq!(err.message(), "invalid repository: no-good");
}

#[test]
fn from_arguments_guesses_or_fails() {
    let repo = Repository::from_arguments("github.com/a/b".into(), None).unwrap();
    assert_eq!(repo.website, GitWebsite::GitHub);
    assert_eq!(repo.owner, "a");

    let err = Repository::from_arguments("example.com/a/b".into(), None).unwrap_err();
    assert_eq!(err, RepositoryArgumentsToRepositoryError::GuessWebsiteFail);
    assert_eq!(err.message(), "failed to guess website type");

    let repo = Repository::from_arguments("example.com/a/b".into(), Some(GitWebsite::Gitea));
    assert_eq!(repo.unwrap().origin, "example.com");

    let err = Repository::from_arguments("no-good".into(), Some(GitWebsite::Gitea)).unwrap_err();
    assert_eq!(
        err,
        RepositoryArgumentsToRepositoryError::ParseRepository(
            ParseRepositoryError::InvalidRepository("no-good".to_string())
        )
    );
    assert_eq!(err.message(), "invalid repository: no-good");
}
