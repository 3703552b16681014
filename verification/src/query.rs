use vstd::prelude::*;

use crate::models::json::{Asset, Release};
use crate::pattern::{get_compiled_asset_pattern, regex_compiles};
use crate::selection::{
    find_assets_in_release, find_release, is_first_admitted, matching_assets, release_admitted,
    tag_view_owned,
};

verus! {

/// The releases the prerelease policy keeps, in their given order.
pub open spec fn admitted_releases(releases: Seq<Release>, allow_prerelease: bool) -> Seq<Release> {
    releases.filter(|r: Release| !r.prerelease || allow_prerelease)
}

/// The tags of a run of releases, in order.
pub open spec fn tags_of(releases: Seq<Release>) -> Seq<Seq<char>> {
    releases.map_values(|r: Release| r.tag_name@)
}

/// What a releases query answers: the tags of the first `count` releases the
/// prerelease policy keeps, or of all of them when fewer remain.
pub open spec fn spec_release_tags(
    releases: Seq<Release>,
    allow_prerelease: bool,
    count: int,
) -> Seq<Seq<char>> {
    let tags = tags_of(admitted_releases(releases, allow_prerelease));
    if count <= tags.len() {
        tags.take(count)
    } else {
        tags
    }
}

/// Answers a releases query: walks the releases in their given order, skips
/// prereleases unless they are allowed, and returns the first `count`
/// remaining tags.
pub fn query_release_tags(releases: &Vec<Release>, allow_prerelease: bool, count: usize) -> (r: Vec<
    String,
>)
    ensures
        r@.map_values(|s: String| s@) == spec_release_tags(
            releases@,
            allow_prerelease,
            count as int,
        ),
{
    let mut tags: Vec<String> = Vec::new();
    let len = releases.len();
    let mut i: usize = 0;
    proof {
        reveal(Seq::filter);
        assert(releases@.take(0) =~= Seq::<Release>::empty());
    }
    while i < len && tags.len() < count
        invariant
            len == releases@.len(),
            i <= len,
            tags@.len() <= count,
            tags@.map_values(|s: String| s@) == tags_of(
                admitted_releases(releases@.take(i as int), allow_prerelease),
            ),
        decreases len - i,
    {
        let ghost prefix = releases@.take(i as int);
        let ghost tags0 = tags@;
        let release = &releases[i];
        if !release.prerelease || allow_prerelease {
            tags.push(release.tag_name.clone());
        }
        proof {
            reveal(Seq::filter);
            let next = releases@.take(i + 1);
            assert(next.drop_last() =~= prefix);
            assert(next.last() == releases@[i as int]);
            let fa = admitted_releases(next, allow_prerelease);
            let fb = admitted_releases(prefix, allow_prerelease);
            let lhs = tags@.map_values(|s: String| s@);
            let rhs = tags_of(fa);
            if !releases@[i as int].prerelease || allow_prerelease {
                assert(fa == fb.push(releases@[i as int]));
            } else {
                assert(fa == fb);
            }
            assert(tags0.map_values(|s: String| s@).len() == tags0.len());
            assert(tags0.map_values(|s: String| s@) == tags_of(fb));
            assert(tags_of(fb).len() == fb.len());
            assert(lhs.len() == tags@.len());
            assert(rhs.len() == fa.len());
            assert(lhs.len() == rhs.len());
            assert forall|j: int| 0 <= j < lhs.len() implies #[trigger] lhs[j] == rhs[j] by {
                assert(lhs[j] == tags@[j]@);
                assert(rhs[j] == fa[j].tag_name@);
                if j < fb.len() {
                    assert(fa[j] == fb[j]);
                    assert(tags_of(fb)[j] == fb[j].tag_name@);
                }
            }
            assert(lhs =~= rhs);
        }
        i = i + 1;
    }
    proof {
        let whole = admitted_releases(releases@, allow_prerelease);
        if i == len {
            assert(releases@.take(len as int) =~= releases@);
            if count <= tags@.len() {
                assert(tags_of(whole).take(count as int) =~= tags_of(whole));
            }
        } else {
            // stopped because `count` tags were collected
            let prefix = releases@.take(i as int);
            assert(prefix.is_prefix_of(releases@)) by {
                assert(prefix =~= releases@.subrange(0, i as int));
            }
            prefix.lemma_filter_monotone(
                releases@,
                |rel: Release| !rel.prerelease || allow_prerelease,
            );
            let part = admitted_releases(prefix, allow_prerelease);
            assert(part =~= whole.subrange(0, part.len() as int));
            assert(tags_of(part) =~= tags_of(whole).take(count as int)) by {
                assert forall|j: int| 0 <= j < part.len() implies tags_of(part)[j] == tags_of(
                    whole,
                ).take(count as int)[j] by {
                    assert(part[j] == whole[j]);
                }
            }
        }
    }
    tags
}

/// Why an assets query answered nothing: no release passed the policy, or
/// the asset pattern did not compile (the text is the compile error).
#[derive(Clone, Debug, PartialEq)]
pub enum AssetsQueryError {
    NoMatchingRelease,
    InvalidPattern(String),
}

/// Answers an assets query: resolves the release, then lists the names of
/// its assets that the pattern matches, in their given order. A query
/// without a tag keeps prereleases out; a query with an explicit tag admits
/// them, the tag being read as informed intent.
pub fn query_asset_names(releases: &Vec<Release>, tag: &Option<String>, pattern: &str) -> (r:
    Result<Vec<String>, AssetsQueryError>)
    ensures
        match r {
            Ok(names) => regex_compiles(pattern@) && exists|i: int|
                #[trigger] is_first_admitted(releases@, tag_view_owned(*tag), tag is Some, i)
                    && names@.map_values(|s: String| s@) == matching_assets(
                    releases@[i].assets@,
                    pattern@,
                ).map_values(|a: Asset| a.name@),
            Err(e) => match e {
                AssetsQueryError::NoMatchingRelease => forall|j: int|
                    0 <= j < releases@.len() ==> !release_admitted(
                        releases@[j],
                        tag_view_owned(*tag),
                        tag is Some,
                    ),
                AssetsQueryError::InvalidPattern(_) => !regex_compiles(pattern@) && exists|i: int|
                    #[trigger] is_first_admitted(releases@, tag_view_owned(*tag), tag is Some, i),
            },
        },
{
    // if no tag is specified, prereleases are not allowed
    // however if a tag is specified, the user explicitly chose
    // a tag that might be a prerelease, so in this case it
    // will be allowed
    let allow_prerelease = tag.is_some();
    let tag_str: Option<&str> = match tag {
        Some(t) => Some(t.as_str()),
        None => None,
    };
    let release = match find_release(releases, tag_str, allow_prerelease) {
        Some(release) => release,
        None => {
            return Err(AssetsQueryError::NoMatchingRelease);
        },
    };
    let compiled = match get_compiled_asset_pattern(pattern) {
        Ok(compiled) => compiled,
        Err(e) => {
            return Err(AssetsQueryError::InvalidPattern(e));
        },
    };
    let assets = find_assets_in_release(release, &compiled);
    let ghost i = choose|i: int|
        #[trigger] is_first_admitted(releases@, tag_view_owned(*tag), tag is Some, i) && *release
            == releases@[i];
    let mut names: Vec<String> = Vec::new();
    let len = assets.len();
    let mut k: usize = 0;
    while k < len
        invariant
            len == assets@.len(),
            k <= len,
            names@.len() == k,
            forall|j: int| 0 <= j < k ==> (#[trigger] names@[j])@ == assets@[j].name@,
        decreases len - k,
    {
        let asset = assets[k];
        names.push(asset.name.clone());
        k = k + 1;
    }
    proof {
        let ms = matching_assets(releases@[i].assets@, compiled.spec_pattern());
        let lhs = names@.map_values(|s: String| s@);
        let rhs = ms.map_values(|a: Asset| a.name@);
        assert(assets@.map_values(|a: &Asset| *a) == ms);
        assert(lhs.len() == rhs.len());
        assert forall|j: int| 0 <= j < lhs.len() implies #[trigger] lhs[j] == rhs[j] by {
            assert(assets@.map_values(|a: &Asset| *a)[j] == ms[j]);
            assert(lhs[j] == names@[j]@);
            assert(rhs[j] == ms[j].name@);
        }
        assert(lhs =~= rhs);
    }
    Ok(names)
}

} // verus!
