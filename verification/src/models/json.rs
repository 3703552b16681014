use vstd::prelude::*;

verus! {

/// A release as every platform's listing is normalized to: its tag, its
/// prerelease flag, and its assets in the order the platform reported them.
#[derive(Debug, Clone, PartialEq)]
pub struct Release {
    pub tag_name: String,
    pub prerelease: bool,
    pub assets: Vec<Asset>,
}

/// One downloadable file of a release. The id is the platform-side asset id,
/// carried only where the platform needs it to build an authenticated
/// download address (GitHub does, the others do not).
#[derive(Debug, Clone, PartialEq)]
pub struct Asset {
    pub browser_download_url: String,
    pub name: String,
    pub id: Option<i64>,
}

/// A release as GitLab's wire shape carries it.
#[derive(Debug, Clone, PartialEq)]
pub struct GitLabRelease {
    pub tag_name: String,
    pub upcoming_release: bool,
    pub assets: GitLabAssets,
}

/// The asset container of GitLab's wire shape.
#[derive(Debug, Clone, PartialEq)]
pub struct GitLabAssets {
    pub links: Vec<GitLabAsset>,
}

/// One asset link of GitLab's wire shape.
#[derive(Debug, Clone, PartialEq)]
pub struct GitLabAsset {
    pub name: String,
    pub direct_asset_url: String,
}

/// The common asset a GitLab asset link maps to: the direct asset address
/// becomes the download address, the name is kept, and no id is carried.
pub open spec fn spec_asset_of_gitlab(value: GitLabAsset) -> Asset {
    Asset { browser_download_url: value.direct_asset_url, name: value.name, id: None }
}

impl From<GitLabAsset> for Asset {
    fn from(value: GitLabAsset) -> (r: Self) {
        Asset { browser_download_url: value.direct_asset_url, name: value.name, id: None }
    }
}

impl vstd::std_specs::convert::FromSpecImpl<GitLabAsset> for Asset {
    open spec fn obeys_from_spec() -> bool {
        true
    }

    open spec fn from_spec(value: GitLabAsset) -> Self {
        spec_asset_of_gitlab(value)
    }
}

impl Release {
    /// Maps a GitLab release field for field onto the common shape: the
    /// upcoming-release flag becomes the prerelease flag, and every asset
    /// link is kept, in order, under its own name.
    pub fn from_gitlab(value: GitLabRelease) -> (r: Release)
        ensures
            r.tag_name == value.tag_name,
            r.prerelease == value.upcoming_release,
            r.assets@ == value.assets.links@.map_values(|a: GitLabAsset| spec_asset_of_gitlab(a)),
    {
        let GitLabRelease { tag_name, upcoming_release, assets } = value;
        let ghost orig = assets.links@;
        let mut links = assets.links;
        let mut converted: Vec<Asset> = Vec::new();
        while links.len() > 0
            invariant
                converted@.len() + links@.len() == orig.len(),
                links@ == orig.skip(converted@.len() as int),
                converted@ == orig.take(converted@.len() as int).map_values(
                    |a: GitLabAsset| spec_asset_of_gitlab(a),
                ),
            decreases links@.len(),
        {
            let ghost k = converted@.len() as int;
            let a = links.remove(0);
            proof {
                assert(a == orig[k]);
                assert(links@ =~= orig.skip(k + 1));
            }
            converted.push(Asset::from(a));
            proof {
                assert(converted@ =~= orig.take(k + 1).map_values(
                    |a: GitLabAsset| spec_asset_of_gitlab(a),
                )) by {
                    let m = orig.take(k + 1).map_values(|a: GitLabAsset| spec_asset_of_gitlab(a));
                    assert forall|i: int| 0 <= i < converted@.len() implies converted@[i]
                        == m[i] by {
                        if i < k {
                            assert(converted@[i] == orig.take(k).map_values(
                                |a: GitLabAsset| spec_asset_of_gitlab(a),
                            )[i]);
                        }
                    }
                }
            }
        }
        proof {
            assert(orig.take(orig.len() as int) =~= orig);
        }
        Release { tag_name, prerelease: upcoming_release, assets: converted }
    }
}

} // verus!
