use vstd::prelude::*;

use crate::arguments::{GitWebsite, Repository};
use crate::models::json::Asset;
use crate::strutil::has_prefix;

verus! {

/// The URL scheme a repository string implies: `http` only when the string
/// literally starts with `http://`, else `https`.
pub open spec fn spec_scheme(s: Seq<char>) -> Seq<char> {
    if "http://"@.is_prefix_of(s) {
        "http"@
    } else {
        "https"@
    }
}

/// Reads the URL scheme off the raw repository string.
pub fn get_scheme_from_repository_string(url: &str) -> (r: &str)
    ensures
        r@ == spec_scheme(url@),
{
    if has_prefix(url, "http://") {
        "http"
    } else {
        "https"
    }
}

/// The decimal digit `d` as a character.
pub open spec fn dec_digit(d: int) -> char {
    if d == 0 {
        '0'
    } else if d == 1 {
        '1'
    } else if d == 2 {
        '2'
    } else if d == 3 {
        '3'
    } else if d == 4 {
        '4'
    } else if d == 5 {
        '5'
    } else if d == 6 {
        '6'
    } else if d == 7 {
        '7'
    } else if d == 8 {
        '8'
    } else {
        '9'
    }
}

/// The decimal representation of `n`, most significant digit first.
pub open spec fn dec_rep_nat(n: nat) -> Seq<char>
    decreases n,
{
    if n < 10 {
        seq![dec_digit(n as int)]
    } else {
        dec_rep_nat(n / 10) + seq![dec_digit((n % 10) as int)]
    }
}

/// The decimal representation of a signed value: a minus sign before the
/// digits when it is negative.
pub open spec fn dec_rep_int(v: int) -> Seq<char> {
    if v < 0 {
        seq!['-'] + dec_rep_nat((-v) as nat)
    } else {
        dec_rep_nat(v as nat)
    }
}

/// One decimal digit as a string slice.
fn digit_str(d: u64) -> (r: &'static str)
    requires
        d < 10,
    ensures
        r@ == seq![dec_digit(d as int)],
{
    let r: &'static str = if d == 0 {
        "0"
    } else if d == 1 {
        "1"
    } else if d == 2 {
        "2"
    } else if d == 3 {
        "3"
    } else if d == 4 {
        "4"
    } else if d == 5 {
        "5"
    } else if d == 6 {
        "6"
    } else if d == 7 {
        "7"
    } else if d == 8 {
        "8"
    } else {
        "9"
    };
    proof {
        reveal_strlit("0");
        reveal_strlit("1");
        reveal_strlit("2");
        reveal_strlit("3");
        reveal_strlit("4");
        reveal_strlit("5");
        reveal_strlit("6");
        reveal_strlit("7");
        reveal_strlit("8");
        reveal_strlit("9");
        assert(r@ =~= seq![dec_digit(d as int)]);
    }
    r
}

/// Writes `n` in decimal.
fn u64_to_string(n: u64) -> (r: String)
    ensures
        r@ == dec_rep_nat(n as nat),
    decreases n,
{
    if n < 10 {
        digit_str(n).to_owned()
    } else {
        proof {
            assert(n / 10 < n) by (nonlinear_arith)
                requires
                    n >= 10,
            ;
        }
        let mut s = u64_to_string(n / 10);
        s.append(digit_str(n % 10));
        s
    }
}

/// Writes `v` in decimal, with a minus sign when it is negative.
fn i64_to_string(v: i64) -> (r: String)
    ensures
        r@ == dec_rep_int(v as int),
{
    if v >= 0 {
        u64_to_string(v as u64)
    } else {
        let m: u64 = ((-(v + 1)) as u64) + 1;
        proof {
            assert(m == -(v as int));
            reveal_strlit("-");
        }
        let mut s = "-".to_owned();
        s.append(u64_to_string(m).as_str());
        s
    }
}

/// The releases-listing address of a repository: GitHub goes through its API
/// host; Gitea and GitLab go through the repository's own origin and
/// sub-path, GitLab with owner and name joined by an encoded slash.
pub open spec fn spec_releases_api_url(r: Repository) -> Seq<char> {
    let scheme = spec_scheme(r.passed_string@);
    match r.website {
        GitWebsite::GitHub => scheme + "://api.github.com/repos/"@ + r.owner@ + "/"@ + r.name@
            + "/releases"@,
        GitWebsite::Gitea => scheme + "://"@ + r.origin@ + r.sub_path@ + "api/v1/repos/"@
            + r.owner@ + "/"@ + r.name@ + "/releases"@,
        GitWebsite::GitLab => scheme + "://"@ + r.origin@ + r.sub_path@ + "api/v4/projects/"@
            + r.owner@ + "%2F"@ + r.name@ + "/releases"@,
    }
}

/// Builds the releases-listing address for the repository's platform.
pub fn get_releases_api_url(repository: &Repository) -> (r: String)
    ensures
        r@ == spec_releases_api_url(*repository),
{
    let scheme = get_scheme_from_repository_string(repository.passed_string.as_str());
    let mut url = scheme.to_owned();
    match repository.website {
        GitWebsite::GitHub => {
            url.append("://api.github.com/repos/");
            url.append(repository.owner.as_str());
            url.append("/");
            url.append(repository.name.as_str());
            url.append("/releases");
        },
        GitWebsite::Gitea => {
            url.append("://");
            url.append(repository.origin.as_str());
            url.append(repository.sub_path.as_str());
            url.append("api/v1/repos/");
            url.append(repository.owner.as_str());
            url.append("/");
            url.append(repository.name.as_str());
            url.append("/releases");
        },
        GitWebsite::GitLab => {
            url.append("://");
            url.append(repository.origin.as_str());
            url.append(repository.sub_path.as_str());
            url.append("api/v4/projects/");
            url.append(repository.owner.as_str());
            url.append("%2F");
            url.append(repository.name.as_str());
            url.append("/releases");
        },
    }
    proof {
        assert(url@ =~= spec_releases_api_url(*repository));
    }
    url
}

/// The GitHub asset-download address: the repository's API releases tree,
/// then the asset id in decimal.
pub open spec fn spec_github_asset_api_url(
    scheme: Seq<char>,
    owner: Seq<char>,
    repository: Seq<char>,
    asset_id: int,
) -> Seq<char> {
    scheme + "://api.github.com/repos/"@ + owner + "/"@ + repository + "/releases/assets/"@
        + dec_rep_int(asset_id)
}

/// Builds the GitHub asset-download address.
pub fn get_github_asset_api_url(scheme: &str, owner: &str, repository: &str, asset_id: i64) -> (r:
    String)
    ensures
        r@ == spec_github_asset_api_url(scheme@, owner@, repository@, asset_id as int),
{
    let mut url = scheme.to_owned();
    url.append("://api.github.com/repos/");
    url.append(owner);
    url.append("/");
    url.append(repository);
    url.append("/releases/assets/");
    url.append(i64_to_string(asset_id).as_str());
    proof {
        assert(url@ =~= spec_github_asset_api_url(scheme@, owner@, repository@, asset_id as int));
    }
    url
}

/// Plans the asset fetch: GitHub assets are fetched through the API address
/// built from the asset id, under an extra Accept header that asks for the
/// raw bytes; every other platform uses the asset's own download address,
/// with no extra header.
pub fn asset_download_request(repository: &Repository, asset: &Asset) -> (r: (String, Option<
    String,
>))
    requires
        repository.website == GitWebsite::GitHub ==> asset.id is Some,
    ensures
        repository.website == GitWebsite::GitHub ==> r.0@ == spec_github_asset_api_url(
            spec_scheme(repository.passed_string@),
            repository.owner@,
            repository.name@,
            asset.id.unwrap() as int,
        ) && (r.1 matches Some(h) && h@ == "Accept: application/octet-stream"@),
        repository.website != GitWebsite::GitHub ==> r.0@ == asset.browser_download_url@ && r.1
            is None,
{
    match repository.website {
        GitWebsite::GitHub => {
            let scheme = get_scheme_from_repository_string(repository.passed_string.as_str());
            let id = match asset.id {
                Some(id) => id,
                None => {
                    proof {
                        assert(false);
                    }
                    0
                },
            };
            let url = get_github_asset_api_url(
                scheme,
                repository.owner.as_str(),
                repository.name.as_str(),
                id,
            );
            (url, Some("Accept: application/octet-stream".to_owned()))
        },
        GitWebsite::Gitea | GitWebsite::GitLab => (asset.browser_download_url.clone(), None),
    }
}

} // verus!
