//! Candidate releases as seen on the release host: the parsed candidate
//! info, its assets, the selection of the newest usable candidate, and the
//! checksum rows used by the vote text.

use vstd::prelude::*;
use vstd::string::*;

use crate::rc::{parse_rc_tag, spec_parse_rc_tag};
use crate::text::{
    ends_with_str, spec_dec, spec_ends_with, str_eq, trim_str, spec_trim, u64_to_string,
};
use crate::version::{spec_stable_tag, spec_version_str, stable_tag_string, version_string, Version};

verus! {

/// The spec-level value of one release asset.
pub ghost struct RcAssetView {
    pub name: Seq<char>,
    pub download_url: Seq<char>,
    pub size: u64,
}

/// One asset of a candidate release.
pub struct RcAsset {
    pub name: String,
    pub download_url: String,
    pub size: u64,
}

impl View for RcAsset {
    type V = RcAssetView;

    open spec fn view(&self) -> RcAssetView {
        RcAssetView { name: self.name@, download_url: self.download_url@, size: self.size }
    }
}

impl RcAsset {
    /// Whether this asset is a checksum sidecar.
    pub fn is_checksum(&self) -> (r: bool)
        ensures
            r == spec_ends_with(self@.name, ".sha512"@),
    {
        ends_with_str(self.name.as_str(), ".sha512")
    }

    /// A copy with the same view.
    pub fn duplicate(&self) -> (r: RcAsset)
        ensures
            r@ == self@,
    {
        RcAsset {
            name: self.name.clone(),
            download_url: self.download_url.clone(),
            size: self.size,
        }
    }
}

pub open spec fn asset_views(s: Seq<RcAsset>) -> Seq<RcAssetView> {
    s.map_values(|a: RcAsset| a@)
}

/// A parsed candidate release: its tag, base version, candidate number, and
/// assets.
pub struct RcReleaseInfo {
    pub tag: String,
    pub version: Version,
    pub rc_number: u64,
    pub assets: Vec<RcAsset>,
}

impl RcReleaseInfo {
    /// The `-rc<n>` suffix used in artifact and directory names.
    pub fn rc_suffix(&self) -> (r: String)
        ensures
            r@ == "-rc"@ + spec_dec(self.rc_number as nat),
    {
        let mut r = String::from_str("-rc");
        let num = u64_to_string(self.rc_number);
        r.append(num.as_str());
        r
    }

    /// The bare `major.minor.patch` string of the base version.
    pub fn base_version_string(&self) -> (r: String)
        ensures
            r@ == spec_version_str(self.version),
    {
        version_string(&self.version)
    }

    /// The stable tag this candidate will become.
    pub fn stable_tag(&self) -> (r: String)
        ensures
            r@ == spec_stable_tag(self.version),
    {
        stable_tag_string(&self.version)
    }

    /// The distribution directory component for this candidate.
    pub fn svn_path_component(&self, repo_name: &str) -> (r: String)
        ensures
            r@ == repo_name@ + "-"@ + spec_version_str(self.version) + "-rc"@ + spec_dec(
                self.rc_number as nat,
            ),
    {
        let mut r = String::from_str(repo_name);
        r.append("-");
        let ver = version_string(&self.version);
        r.append(ver.as_str());
        let suffix = self.rc_suffix();
        r.append(suffix.as_str());
        proof {
            assert(r@ =~= repo_name@ + "-"@ + spec_version_str(self.version) + "-rc"@ + spec_dec(
                self.rc_number as nat,
            ));
        }
        r
    }
}

/// One release as listed by the release host.
pub struct ReleaseRecord {
    pub tag_name: String,
    pub draft: bool,
    pub assets: Vec<RcAsset>,
}

/// A listed release is a usable candidate when it is not a draft and its
/// tag has the candidate form.
pub open spec fn spec_rc_candidate(rel: ReleaseRecord) -> bool {
    !rel.draft && spec_parse_rc_tag(rel.tag_name@) is Some
}

fn duplicate_assets(assets: &Vec<RcAsset>) -> (r: Vec<RcAsset>)
    ensures
        asset_views(r@) == asset_views(assets@),
{
    let mut r: Vec<RcAsset> = Vec::new();
    let mut i: usize = 0;
    while i < assets.len()
        invariant
            0 <= i <= assets@.len(),
            r@.len() == i,
            forall|k: int| 0 <= k < i ==> (#[trigger] r@[k]@) == assets@[k]@,
        decreases assets@.len() - i,
    {
        r.push(assets[i].duplicate());
        i = i + 1;
    }
    proof {
        assert(asset_views(r@) =~= asset_views(assets@));
    }
    r
}

/// Builds the candidate info of one listed release, when it is a usable
/// candidate.
pub fn try_build_rc_release(release: &ReleaseRecord) -> (r: Option<RcReleaseInfo>)
    ensures
        r is Some <==> spec_rc_candidate(*release),
        match r {
            Some(info) => {
                &&& info.tag@ == release.tag_name@
                &&& spec_parse_rc_tag(release.tag_name@) == Some(
                    (info.version, info.rc_number as nat),
                )
                &&& asset_views(info.assets@) == asset_views(release.assets@)
            },
            None => true,
        },
{
    if release.draft {
        return None;
    }
    match parse_rc_tag(release.tag_name.as_str()) {
        Some(p) => {
            let assets = duplicate_assets(&release.assets);
            Some(
                RcReleaseInfo {
                    tag: release.tag_name.clone(),
                    version: p.0,
                    rc_number: p.1,
                    assets,
                },
            )
        },
        None => None,
    }
}

/// Picks the first usable candidate from a page of listed releases.
pub fn select_rc_release(releases: &Vec<ReleaseRecord>) -> (r: Option<RcReleaseInfo>)
    ensures
        match r {
            Some(info) => exists|i: int|
                {
                    &&& 0 <= i < releases@.len()
                    &&& spec_rc_candidate(#[trigger] releases@[i])
                    &&& forall|k: int| 0 <= k < i ==> !spec_rc_candidate(#[trigger] releases@[k])
                    &&& info.tag@ == releases@[i].tag_name@
                    &&& spec_parse_rc_tag(releases@[i].tag_name@) == Some(
                        (info.version, info.rc_number as nat),
                    )
                    &&& asset_views(info.assets@) == asset_views(releases@[i].assets@)
                },
            None => forall|k: int| 0 <= k < releases@.len() ==> !spec_rc_candidate(
                #[trigger] releases@[k],
            ),
        },
{
    let mut i: usize = 0;
    while i < releases.len()
        invariant
            0 <= i <= releases@.len(),
            forall|k: int| 0 <= k < i ==> !spec_rc_candidate(#[trigger] releases@[k]),
        decreases releases@.len() - i,
    {
        match try_build_rc_release(&releases[i]) {
            Some(info) => {
                return Some(info);
            },
            None => {},
        }
        i = i + 1;
    }
    None
}

// ---------------------------------------------------------------------------
// Checksum rows for the vote text.
// ---------------------------------------------------------------------------

/// The spec-level value of one artifact row.
pub ghost struct VoteArtifactView {
    pub name: Seq<char>,
    pub url: Seq<char>,
    pub sha512: Option<Seq<char>>,
}

/// One artifact row of the vote text: name, download URL, and its checksum
/// when the sidecar was found.
pub struct VoteArtifact {
    pub name: String,
    pub url: String,
    pub sha512: Option<String>,
}

impl View for VoteArtifact {
    type V = VoteArtifactView;

    open spec fn view(&self) -> VoteArtifactView {
        VoteArtifactView {
            name: self.name@,
            url: self.url@,
            sha512: match self.sha512 {
                Some(s) => Some(s@),
                None => None,
            },
        }
    }
}

/// The base name a checksum sidecar belongs to: its name without the
/// `.sha512` suffix.
pub open spec fn spec_sidecar_base(name: Seq<char>) -> Seq<char> {
    name.subrange(0, name.len() - ".sha512"@.len())
}

/// Turns fetched sidecar texts into checksum entries: each checksum asset's
/// base name with its trimmed sidecar content.
pub fn sidecar_checksums(fetched: &Vec<(String, String)>) -> (r: Vec<(String, String)>)
    ensures
        r@.len() == fetched@.len(),
        forall|i: int|
            0 <= i < fetched@.len() ==> {
                &&& (#[trigger] r@[i]).0@ == (if spec_ends_with(fetched@[i].0@, ".sha512"@) {
                    spec_sidecar_base(fetched@[i].0@)
                } else {
                    fetched@[i].0@
                })
                &&& r@[i].1@ == spec_trim(fetched@[i].1@)
            },
{
    let mut r: Vec<(String, String)> = Vec::new();
    let mut i: usize = 0;
    while i < fetched.len()
        invariant
            0 <= i <= fetched@.len(),
            r@.len() == i,
            forall|k: int|
                0 <= k < i ==> {
                    &&& (#[trigger] r@[k]).0@ == (if spec_ends_with(fetched@[k].0@, ".sha512"@) {
                        spec_sidecar_base(fetched@[k].0@)
                    } else {
                        fetched@[k].0@
                    })
                    &&& r@[k].1@ == spec_trim(fetched@[k].1@)
                },
        decreases fetched@.len() - i,
    {
        let name = fetched[i].0.as_str();
        let n = name.unicode_len();
        let base: String = if ends_with_str(name, ".sha512") {
            proof {
                reveal_strlit(".sha512");
            }
            name.substring_char(0, n - 7).to_owned()
        } else {
            name.to_owned()
        };
        let value = trim_str(fetched[i].1.as_str());
        r.push((base, value));
        i = i + 1;
    }
    r
}

/// The first checksum recorded for a name.
pub open spec fn spec_lookup(map: Seq<(String, String)>, name: Seq<char>) -> Option<Seq<char>>
    decreases map.len(),
{
    if map.len() == 0 {
        None
    } else if map[0].0@ == name {
        Some(map[0].1@)
    } else {
        spec_lookup(map.drop_first(), name)
    }
}

fn lookup(map: &Vec<(String, String)>, name: &str) -> (r: Option<String>)
    ensures
        match r {
            Some(v) => spec_lookup(map@, name@) == Some(v@),
            None => spec_lookup(map@, name@) is None,
        },
{
    let mut i: usize = 0;
    proof {
        assert(map@.subrange(0, map@.len() as int) =~= map@);
    }
    while i < map.len()
        invariant
            0 <= i <= map@.len(),
            spec_lookup(map@, name@) == spec_lookup(map@.subrange(i as int, map@.len() as int), name@),
        decreases map@.len() - i,
    {
        let ghost rest = map@.subrange(i as int, map@.len() as int);
        proof {
            assert(rest[0] == map@[i as int]);
            assert(rest.drop_first() =~= map@.subrange(i + 1, map@.len() as int));
        }
        if str_eq(map[i].0.as_str(), name) {
            return Some(map[i].1.clone());
        }
        i = i + 1;
    }
    proof {
        assert(map@.subrange(map@.len() as int, map@.len() as int) =~= Seq::<(String, String)>::empty());
    }
    None
}

/// Builds the artifact rows of the vote text: one row per non-checksum
/// asset, in order, each carrying the checksum looked up under its name.
pub fn build_artifact_rows(assets: &Vec<RcAsset>, checksums: &Vec<(String, String)>) -> (r: Vec<
    VoteArtifact,
>)
    ensures
        r@.len() == spec_rows(asset_views(assets@)).len(),
        forall|k: int|
            0 <= k < r@.len() ==> {
                let row = spec_rows(asset_views(assets@))[k];
                &&& (#[trigger] r@[k]@).name == row.name
                &&& r@[k]@.url == row.download_url
                &&& r@[k]@.sha512 == spec_lookup(checksums@, row.name)
            },
{
    let mut r: Vec<VoteArtifact> = Vec::new();
    let mut i: usize = 0;
    proof {
        assert(asset_views(assets@.subrange(0, 0)) =~= Seq::<RcAssetView>::empty());
        assert(spec_rows(asset_views(assets@.subrange(0, 0))) =~= Seq::<RcAssetView>::empty());
    }
    while i < assets.len()
        invariant
            0 <= i <= assets@.len(),
            r@.len() == spec_rows(asset_views(assets@.subrange(0, i as int))).len(),
            forall|k: int|
                0 <= k < r@.len() ==> {
                    let row = spec_rows(asset_views(assets@.subrange(0, i as int)))[k];
                    &&& (#[trigger] r@[k]@).name == row.name
                    &&& r@[k]@.url == row.download_url
                    &&& r@[k]@.sha512 == spec_lookup(checksums@, row.name)
                },
        decreases assets@.len() - i,
    {
        let ghost pre = asset_views(assets@.subrange(0, i as int));
        let ghost pre1 = asset_views(assets@.subrange(0, i + 1));
        proof {
            assert(assets@.subrange(0, i + 1).drop_last() =~= assets@.subrange(0, i as int));
            assert(pre1.drop_last() =~= pre);
            assert(pre1.last() == assets@[i as int]@);
        }
        let a = &assets[i];
        if !a.is_checksum() {
            let sha = lookup(checksums, a.name.as_str());
            r.push(
                VoteArtifact { name: a.name.clone(), url: a.download_url.clone(), sha512: sha },
            );
            proof {
                assert(spec_rows(pre1) =~= spec_rows(pre).push(assets@[i as int]@));
            }
        } else {
            proof {
                assert(spec_rows(pre1) =~= spec_rows(pre));
            }
        }
        i = i + 1;
    }
    proof {
        assert(assets@.subrange(0, assets@.len() as int) =~= assets@);
    }
    r
}

/// The non-checksum assets, in order.
pub open spec fn spec_rows(assets: Seq<RcAssetView>) -> Seq<RcAssetView>
    decreases assets.len(),
{
    if assets.len() == 0 {
        Seq::empty()
    } else {
        let init = spec_rows(assets.drop_last());
        if !spec_ends_with(assets.last().name, ".sha512"@) {
            init.push(assets.last())
        } else {
            init
        }
    }
}

} // verus!
