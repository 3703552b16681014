use vstd::prelude::*;

use crate::models::json::{Asset, Release};
use crate::pattern::{regex_matches, AssetPattern};
use crate::strutil::str_eq;

verus! {

/// The tag selector as the contracts see it: no tag means "latest".
pub open spec fn tag_view(tag: Option<&str>) -> Option<Seq<char>> {
    match tag {
        None => None,
        Some(t) => Some(t@),
    }
}

/// A release passes the selection policy: prereleases only when allowed, and
/// the tag equal to the requested one when a tag is requested.
pub open spec fn release_admitted(r: Release, tag: Option<Seq<char>>, allow_prerelease: bool) -> bool {
    (!r.prerelease || allow_prerelease) && match tag {
        None => true,
        Some(t) => r.tag_name@ == t,
    }
}

/// `i` points at the first release of the list that the policy admits.
pub open spec fn is_first_admitted(
    releases: Seq<Release>,
    tag: Option<Seq<char>>,
    allow_prerelease: bool,
    i: int,
) -> bool {
    0 <= i < releases.len() && release_admitted(releases[i], tag, allow_prerelease) && forall|j: int|
        0 <= j < i ==> !release_admitted(releases[j], tag, allow_prerelease)
}

/// Scans the releases in their given order and returns the first one the
/// policy admits: prereleases are skipped unless allowed, and a requested
/// tag must match exactly.
pub fn find_release<'a>(
    releases: &'a Vec<Release>,
    tag: Option<&str>,
    allow_prerelease: bool,
) -> (r: Option<&'a Release>)
    ensures
        match r {
            Some(rel) => exists|i: int|
                #[trigger] is_first_admitted(releases@, tag_view(tag), allow_prerelease, i) && *rel
                    == releases@[i],
            None => forall|j: int|
                0 <= j < releases@.len() ==> !release_admitted(
                    releases@[j],
                    tag_view(tag),
                    allow_prerelease,
                ),
        },
{
    let len = releases.len();
    let mut k: usize = 0;
    while k < len
        invariant
            len == releases@.len(),
            k <= len,
            forall|j: int|
                0 <= j < k ==> !release_admitted(releases@[j], tag_view(tag), allow_prerelease),
        decreases len - k,
    {
        let release = &releases[k];
        if !release.prerelease || allow_prerelease {
            // if tag is latest take the first, which is the latest
            match tag {
                None => {
                    proof {
                        assert(is_first_admitted(
                            releases@,
                            tag_view(tag),
                            allow_prerelease,
                            k as int,
                        ));
                    }
                    return Some(release);
                },
                Some(tag) => {
                    if str_eq(release.tag_name.as_str(), tag) {
                        proof {
                            assert(is_first_admitted(
                                releases@,
                                tag_view(Some(tag)),
                                allow_prerelease,
                                k as int,
                            ));
                        }
                        return Some(release);
                    }
                },
            }
        }
        k = k + 1;
    }
    None
}

/// `k` points at the first asset of the list whose name the pattern matches.
pub open spec fn is_first_match(assets: Seq<Asset>, pattern: Seq<char>, k: int) -> bool {
    0 <= k < assets.len() && regex_matches(pattern, assets[k].name@) && forall|j: int|
        0 <= j < k ==> !regex_matches(pattern, assets[j].name@)
}

/// Resolves the release under the policy, then returns the first asset of
/// that release whose name the pattern matches, in the assets' given order.
pub fn find_asset<'a>(
    releases: &'a Vec<Release>,
    tag: Option<&str>,
    allow_prerelease: bool,
    asset_name_pattern: &AssetPattern,
) -> (r: Option<&'a Asset>)
    ensures
        match r {
            Some(a) => exists|i: int, k: int|
                #[trigger] is_first_admitted(releases@, tag_view(tag), allow_prerelease, i)
                    && #[trigger] is_first_match(
                    releases@[i].assets@,
                    asset_name_pattern.spec_pattern(),
                    k,
                ) && *a == releases@[i].assets@[k],
            None => (forall|j: int|
                0 <= j < releases@.len() ==> !release_admitted(
                    releases@[j],
                    tag_view(tag),
                    allow_prerelease,
                )) || exists|i: int|
                #[trigger] is_first_admitted(releases@, tag_view(tag), allow_prerelease, i)
                    && forall|k: int|
                    0 <= k < releases@[i].assets@.len() ==> !regex_matches(
                        asset_name_pattern.spec_pattern(),
                        releases@[i].assets@[k].name@,
                    ),
        },
{
    let release = match find_release(releases, tag, allow_prerelease) {
        Some(release) => release,
        None => {
            return None;
        },
    };
    let ghost i = choose|i: int|
        #[trigger] is_first_admitted(releases@, tag_view(tag), allow_prerelease, i) && *release
            == releases@[i];
    let len = release.assets.len();
    let mut k: usize = 0;
    while k < len
        invariant
            len == release.assets@.len(),
            k <= len,
            *release == releases@[i],
            is_first_admitted(releases@, tag_view(tag), allow_prerelease, i),
            forall|j: int|
                0 <= j < k ==> !regex_matches(
                    asset_name_pattern.spec_pattern(),
                    release.assets@[j].name@,
                ),
        decreases len - k,
    {
        let asset = &release.assets[k];
        if asset_name_pattern.is_match(asset.name.as_str()) {
            proof {
                assert(is_first_match(
                    releases@[i].assets@,
                    asset_name_pattern.spec_pattern(),
                    k as int,
                ));
            }
            return Some(asset);
        }
        k = k + 1;
    }
    None
}

/// The diagnostic shown when no asset satisfied the download policy: it
/// names the pattern, the tag selector and the repository as given.
pub open spec fn spec_no_asset_message(
    pattern: Seq<char>,
    tag: Option<Seq<char>>,
    repository: Seq<char>,
) -> Seq<char> {
    let tag_part = match tag {
        Some(t) => "tag \""@ + t + "\""@,
        None => "latest tag"@,
    };
    "Could not find Pattern \""@ + pattern + "\" in "@ + tag_part
        + " in releases of repository \""@ + repository + "\""@
}

/// Writes the diagnostic for a download that found no matching asset.
pub fn no_asset_message(pattern: &str, tag: &Option<String>, repository: &str) -> (r: String)
    ensures
        r@ == spec_no_asset_message(pattern@, tag_view_owned(*tag), repository@),
{
    let mut m = "Could not find Pattern \"".to_owned();
    m.append(pattern);
    m.append("\" in ");
    match tag {
        Some(t) => {
            m.append("tag \"");
            m.append(t.as_str());
            m.append("\"");
        },
        None => {
            m.append("latest tag");
        },
    }
    m.append(" in releases of repository \"");
    m.append(repository);
    m.append("\"");
    proof {
        assert(m@ =~= spec_no_asset_message(pattern@, tag_view_owned(*tag), repository@));
    }
    m
}

/// The tag selector of an owned optional tag.
pub open spec fn tag_view_owned(tag: Option<String>) -> Option<Seq<char>> {
    match tag {
        None => None,
        Some(t) => Some(t@),
    }
}

/// The assets of a release whose names the pattern matches, in their given
/// order.
pub open spec fn matching_assets(assets: Seq<Asset>, pattern: Seq<char>) -> Seq<Asset> {
    assets.filter(|a: Asset| regex_matches(pattern, a.name@))
}

/// Collects every asset of the release whose name the pattern matches,
/// keeping the assets' given order.
pub fn find_assets_in_release<'a>(release: &'a Release, asset_name_pattern: &AssetPattern) -> (r:
    Vec<&'a Asset>)
    ensures
        r@.map_values(|a: &Asset| *a) == matching_assets(
            release.assets@,
            asset_name_pattern.spec_pattern(),
        ),
{
    let mut matching: Vec<&Asset> = Vec::new();
    let len = release.assets.len();
    let mut k: usize = 0;
    proof {
        reveal(Seq::filter);
        assert(release.assets@.take(0) =~= Seq::<Asset>::empty());
    }
    while k < len
        invariant
            len == release.assets@.len(),
            k <= len,
            matching@.map_values(|a: &Asset| *a) == release.assets@.take(k as int).filter(
                |a: Asset| regex_matches(asset_name_pattern.spec_pattern(), a.name@),
            ),
        decreases len - k,
    {
        let ghost prefix = release.assets@.take(k as int);
        let asset = &release.assets[k];
        if asset_name_pattern.is_match(asset.name.as_str()) {
            matching.push(asset);
        }
        proof {
            reveal(Seq::filter);
            let next = release.assets@.take(k + 1);
            assert(next.drop_last() =~= prefix);
            assert(next.last() == release.assets@[k as int]);
            assert(matching@.map_values(|a: &Asset| *a) =~= next.filter(
                |a: Asset| regex_matches(asset_name_pattern.spec_pattern(), a.name@),
            ));
        }
        k = k + 1;
    }
    proof {
        assert(release.assets@.take(len as int) =~= release.assets@);
    }
    matching
}

/// Law: release selection is idempotent: the policy picks one well-defined
/// release, so any two selections from the same inputs agree.
pub proof fn lemma_find_release_idempotent(
    releases: Seq<Release>,
    tag: Option<Seq<char>>,
    allow_prerelease: bool,
    i1: int,
    i2: int,
)
    requires
        is_first_admitted(releases, tag, allow_prerelease, i1),
        is_first_admitted(releases, tag, allow_prerelease, i2),
    ensures
        i1 == i2,
{
    if i1 < i2 {
        assert(!release_admitted(releases[i1], tag, allow_prerelease));
    }
    if i2 < i1 {
        assert(!release_admitted(releases[i2], tag, allow_prerelease));
    }
}

/// Law: with no tag and prereleases disallowed, the selected release is the
/// first of the list that is not a prerelease, and everything before it is
/// one.
pub proof fn lemma_select_latest(releases: Seq<Release>, i: int)
    requires
        is_first_admitted(releases, None, false, i),
    ensures
        !releases[i].prerelease,
        forall|j: int| 0 <= j < i ==> releases[j].prerelease,
{
    assert forall|j: int| 0 <= j < i implies releases[j].prerelease by {
        assert(!release_admitted(releases[j], None, false));
    }
}

/// Law: with no tag and prereleases disallowed, a list of prereleases only
/// selects nothing.
pub proof fn lemma_select_latest_all_prerelease(releases: Seq<Release>)
    requires
        forall|j: int| 0 <= j < releases.len() ==> releases[j].prerelease,
    ensures
        forall|i: int| !is_first_admitted(releases, None, false, i),
{
}

/// Law: with prereleases disallowed, a requested tag whose releases are all
/// prereleases selects nothing, even though the tag exists.
pub proof fn lemma_tagged_prerelease_skipped(releases: Seq<Release>, t: Seq<char>)
    requires
        forall|j: int|
            0 <= j < releases.len() && (#[trigger] releases[j]).tag_name@ == t ==> releases[j].prerelease,
    ensures
        forall|i: int| !is_first_admitted(releases, Some(t), false, i),
{
    assert forall|i: int| !is_first_admitted(releases, Some(t), false, i) by {
        if 0 <= i < releases.len() {
            assert(!release_admitted(releases[i], Some(t), false));
        }
    }
}

} // verus!
