//! Finding the loader image to download among a repository's releases.
//!
//! File names are never assembled from a tag: the image prefix of one
//! repository changed from `tinycore-redpill.` to `alpine-redpill.`, and the
//! latest release of the other sometimes has no assets at all. The list of
//! releases is read instead, the asset is found in it, and the download URL
//! the API gave is used as it is.
use crate::text::{
    chars_of, contains, ends_with, lower, lower_chars, push_str, seq_contains, seq_ends_with,
    seq_starts_with, starts_with,
};
use vstd::prelude::*;

verus! {

/// The boot loaders offered.
#[derive(Debug, Clone, Copy, PartialEq, Eq, Structural)]
pub enum Loader {
    /// The m-shell image of PeterSuh-Q3/tinycore-redpill; the default.
    MShell,
    /// RROrg/rr.
    Rr,
}

pub open spec fn repo_spec(l: Loader) -> Seq<char> {
    match l {
        Loader::MShell => "PeterSuh-Q3/tinycore-redpill"@,
        Loader::Rr => "RROrg/rr"@,
    }
}

pub open spec fn display_name_spec(l: Loader) -> Seq<char> {
    match l {
        Loader::MShell => "m-shell"@,
        Loader::Rr => "RR"@,
    }
}

impl Loader {
    /// The GitHub repository the loader is released from.
    pub fn repo(self) -> (r: &'static str)
        ensures
            r@ == repo_spec(self),
    {
        match self {
            Loader::MShell => "PeterSuh-Q3/tinycore-redpill",
            Loader::Rr => "RROrg/rr",
        }
    }

    pub fn display_name(self) -> (r: &'static str)
        ensures
            r@ == display_name_spec(self),
    {
        match self {
            Loader::MShell => "m-shell",
            Loader::Rr => "RR",
        }
    }

    /// Whether the user is pointed to this one by default.
    pub fn is_recommended(self) -> (r: bool)
        ensures
            r == (self == Loader::MShell),
    {
        match self {
            Loader::MShell => true,
            Loader::Rr => false,
        }
    }

    /// The release-list API address. The list, not `latest`: the newest
    /// release may have no assets, and the search goes back from it.
    pub fn releases_api_url(self) -> (r: String)
        ensures
            r@ == "https://api.github.com/repos/"@ + repo_spec(self) + "/releases?per_page=10"@,
    {
        let mut s = String::new();
        push_str(&mut s, "https://api.github.com/repos/");
        push_str(&mut s, self.repo());
        push_str(&mut s, "/releases?per_page=10");
        proof {
            assert(s@ =~= "https://api.github.com/repos/"@ + repo_spec(self)
                + "/releases?per_page=10"@);
        }
        s
    }
}

/// A GitHub release asset (the fields used).
#[derive(Debug, Clone, PartialEq, Eq)]
pub struct Asset {
    pub name: String,
    /// 0 when the API gave no size.
    pub size: u64,
    pub browser_download_url: String,
}

/// A GitHub release (the fields used).
#[derive(Debug, Clone, PartialEq, Eq)]
pub struct Release {
    pub tag_name: String,
    pub draft: bool,
    pub prerelease: bool,
    pub assets: Vec<Asset>,
}

/// What to download.
#[derive(Debug, Clone, PartialEq, Eq)]
pub struct ResolvedImage {
    pub loader: Loader,
    pub tag: String,
    /// Name of the image asset.
    pub asset_name: String,
    /// The URL the API gave, used as it is.
    pub download_url: String,
    /// Size of the compressed image.
    pub compressed_size: u64,
    /// The sha256sum asset, when the release has one. RR publishes one with
    /// most releases, m-shell never does: its absence is normal.
    pub checksum_url: Option<String>,
}

/// Why no image was found.
#[derive(Debug, Clone, PartialEq, Eq, Structural)]
pub enum ResolveError {
    /// Every recent release was searched and none has a usable image.
    NoUsableAsset { searched: usize },
    /// The release list is empty.
    NoReleases,
}

/// Whether an asset is a raw disk image that can be written to a stick.
///
/// Left out on purpose: `.vmdk.gz` (a VMware disk, does not boot from a
/// stick), `.ova.zip` / `.vhd.zip` (for virtual machines), `updateall-*.zip`
/// (an update bundle for an installed system, not a boot image), and the
/// `xtcrp` images when m-shell is asked for. The prefix is not looked at: it
/// changes.
pub open spec fn is_target_spec(l: Loader, name: Seq<char>) -> bool {
    let n = lower(name);
    match l {
        Loader::MShell => ends_with(n, ".img.gz"@) && contains(n, "m-shell"@) && !contains(
            n,
            "vmdk"@,
        ),
        Loader::Rr => starts_with(n, "rr-"@) && ends_with(n, ".img.zip"@),
    }
}

/// Rank among several images of one release; lower comes first.
///
/// m-shell publishes size variants with each release. `-5GB` is downloaded
/// most and is preferred; older releases have none or `-4GB`, and then the
/// standard image comes before the `-4GB` one.
pub open spec fn preference_spec(l: Loader, name: Seq<char>) -> u8 {
    let n = lower(name);
    match l {
        Loader::MShell => if contains(n, "-5gb"@) {
            0
        } else if contains(n, "-4gb"@) {
            2
        } else {
            1
        },
        Loader::Rr => 0,
    }
}

/// Whether a sha256sum asset.
pub open spec fn is_checksum_spec(name: Seq<char>) -> bool {
    let n = lower(name);
    n == "sha256sum"@ || ends_with(n, ".sha256"@)
}

fn is_target_image(loader: Loader, name: &str) -> (r: bool)
    ensures
        r == is_target_spec(loader, name@),
{
    let lower_name = lower_chars(name);
    match loader {
        Loader::MShell => {
            let a = chars_of(".img.gz");
            let b = chars_of("m-shell");
            let c = chars_of("vmdk");
            seq_ends_with(lower_name.as_slice(), a.as_slice()) && seq_contains(
                lower_name.as_slice(),
                b.as_slice(),
            ) && !seq_contains(lower_name.as_slice(), c.as_slice())
        },
        Loader::Rr => {
            let a = chars_of("rr-");
            let b = chars_of(".img.zip");
            seq_starts_with(lower_name.as_slice(), a.as_slice()) && seq_ends_with(
                lower_name.as_slice(),
                b.as_slice(),
            )
        },
    }
}

fn preference(loader: Loader, name: &str) -> (r: u8)
    ensures
        r == preference_spec(loader, name@),
{
    match loader {
        Loader::MShell => {
            let lower_name = lower_chars(name);
            let five = chars_of("-5gb");
            let four = chars_of("-4gb");
            if seq_contains(lower_name.as_slice(), five.as_slice()) {
                0
            } else if seq_contains(lower_name.as_slice(), four.as_slice()) {
                2
            } else {
                1
            }
        },
        Loader::Rr => 0,
    }
}

fn is_checksum(name: &str) -> (r: bool)
    ensures
        r == is_checksum_spec(name@),
{
    let lower_name = lower_chars(name);
    let exact = chars_of("sha256sum");
    let suffix = chars_of(".sha256");
    let same = lower_name.len() == exact.len() && seq_starts_with(
        lower_name.as_slice(),
        exact.as_slice(),
    );
    proof {
        if same {
            assert(lower_name@ =~= exact@);
        }
        if lower_name@ == exact@ {
            assert(lower_name@.subrange(0, exact@.len() as int) =~= exact@);
        }
    }
    same || seq_ends_with(lower_name.as_slice(), suffix.as_slice())
}

/// Code-point order of character sequences, which is the byte order of
/// their UTF-8 encodings and so the order of `String`.
pub open spec fn name_lt(a: Seq<char>, b: Seq<char>) -> bool
    decreases a.len(),
{
    if a.len() == 0 {
        b.len() > 0
    } else if b.len() == 0 {
        false
    } else if a[0] != b[0] {
        (a[0] as int) < (b[0] as int)
    } else {
        name_lt(a.drop_first(), b.drop_first())
    }
}

proof fn lemma_name_lt_trans(a: Seq<char>, b: Seq<char>, c: Seq<char>)
    requires
        name_lt(a, b),
        name_lt(b, c),
    ensures
        name_lt(a, c),
    decreases a.len(),
{
    if a.len() > 0 && b.len() > 0 && c.len() > 0 && a[0] == b[0] && b[0] == c[0] {
        lemma_name_lt_trans(a.drop_first(), b.drop_first(), c.drop_first());
    }
}

proof fn lemma_name_lt_total(a: Seq<char>, b: Seq<char>)
    ensures
        a != b ==> name_lt(a, b) || name_lt(b, a),
        !(name_lt(a, b) && name_lt(b, a)),
        !name_lt(a, a),
    decreases a.len(),
{
    if a.len() > 0 && b.len() > 0 {
        lemma_name_lt_total(a.drop_first(), b.drop_first());
        if a[0] != b[0] {
            assert((a[0] as int) != (b[0] as int));
        }
        if a[0] == b[0] && a != b {
            assert(a.drop_first() != b.drop_first()) by {
                if a.drop_first() == b.drop_first() {
                    assert(a =~= seq![a[0]] + a.drop_first());
                    assert(b =~= seq![b[0]] + b.drop_first());
                }
            }
        }
    } else if a.len() == 0 && b.len() == 0 {
        assert(a =~= b);
    } else if a.len() > 0 {
        lemma_name_lt_total(a.drop_first(), a.drop_first());
    }
}

/// Whether `a` orders before `b`: by preference, then by name.
pub open spec fn key_lt(l: Loader, a: Asset, b: Asset) -> bool {
    preference_spec(l, a.name@) < preference_spec(l, b.name@) || (preference_spec(l, a.name@)
        == preference_spec(l, b.name@) && name_lt(a.name@, b.name@))
}

proof fn lemma_key_order(l: Loader, a: Asset, b: Asset, c: Asset)
    ensures
        key_lt(l, a, b) && key_lt(l, b, c) ==> key_lt(l, a, c),
        !key_lt(l, a, b) ==> key_lt(l, b, a) || (preference_spec(l, a.name@) == preference_spec(
            l,
            b.name@,
        ) && a.name@ == b.name@),
        !(key_lt(l, a, b) && key_lt(l, b, a)),
{
    lemma_name_lt_total(a.name@, b.name@);
    if name_lt(a.name@, b.name@) && name_lt(b.name@, c.name@) {
        lemma_name_lt_trans(a.name@, b.name@, c.name@);
    }
}

/// The image asset picked from a release: a target image that no other
/// target image orders before, and the first of those.
pub open spec fn picked(l: Loader, assets: Seq<Asset>, i: int) -> bool {
    &&& 0 <= i < assets.len()
    &&& is_target_spec(l, assets[i].name@)
    &&& forall|j: int|
        0 <= j < assets.len() && is_target_spec(l, assets[j].name@) ==> !key_lt(
            l,
            #[trigger] assets[j],
            assets[i],
        )
    &&& forall|j: int|
        0 <= j < i && is_target_spec(l, assets[j].name@) ==> key_lt(l, assets[i], #[trigger] assets[j])
}

/// Whether a release holds any target image.
pub open spec fn has_target(l: Loader, assets: Seq<Asset>) -> bool {
    exists|i: int| 0 <= i < assets.len() && is_target_spec(l, #[trigger] assets[i].name@)
}

fn name_less(a: &str, b: &str) -> (r: bool)
    ensures
        r == name_lt(a@, b@),
{
    let x = chars_of(a);
    let y = chars_of(b);
    let mut i: usize = 0;
    proof {
        assert(x@.skip(0) =~= x@);
        assert(y@.skip(0) =~= y@);
    }
    while i < x.len() && i < y.len() && x[i] == y[i]
        invariant
            i <= x@.len(),
            i <= y@.len(),
            x@ == a@,
            y@ == b@,
            name_lt(a@, b@) == name_lt(x@.skip(i as int), y@.skip(i as int)),
        decreases x@.len() - i,
    {
        proof {
            assert(x@.skip(i as int).drop_first() =~= x@.skip(i + 1));
            assert(y@.skip(i as int).drop_first() =~= y@.skip(i + 1));
        }
        i += 1;
    }
    if i == x.len() {
        i < y.len()
    } else if i == y.len() {
        false
    } else {
        x[i] < y[i]
    }
}

fn key_less(loader: Loader, a: &Asset, b: &Asset) -> (r: bool)
    ensures
        r == key_lt(loader, *a, *b),
{
    let pa = preference(loader, a.name.as_str());
    let pb = preference(loader, b.name.as_str());
    pa < pb || (pa == pb && name_less(a.name.as_str(), b.name.as_str()))
}

/// The image of one release; None when it has none.
fn select_asset(loader: Loader, assets: &Vec<Asset>) -> (r: Option<usize>)
    ensures
        r is None <==> !has_target(loader, assets@),
        r matches Some(i) ==> picked(loader, assets@, i as int),
{
    let mut best: Option<usize> = None;
    let mut i: usize = 0;
    while i < assets.len()
        invariant
            i <= assets@.len(),
            best is None <==> forall|j: int|
                0 <= j < i ==> !is_target_spec(loader, #[trigger] assets@[j].name@),
            best matches Some(b) ==> b < i && is_target_spec(loader, assets@[b as int].name@)
                && (forall|j: int|
                0 <= j < i && is_target_spec(loader, assets@[j].name@) ==> !key_lt(
                    loader,
                    #[trigger] assets@[j],
                    assets@[b as int],
                )) && (forall|j: int|
                0 <= j < b && is_target_spec(loader, assets@[j].name@) ==> key_lt(
                    loader,
                    assets@[b as int],
                    #[trigger] assets@[j],
                )),
        decreases assets@.len() - i,
    {
        if is_target_image(loader, assets[i].name.as_str()) {
            match best {
                None => {
                    best = Some(i);
                    proof {
                        lemma_name_lt_total(assets@[i as int].name@, assets@[i as int].name@);
                    }
                },
                Some(b) => {
                    if key_less(loader, &assets[i], &assets[b]) {
                        proof {
                            let c = assets@[i as int];
                            let bb = assets@[b as int];
                            assert forall|j: int|
                                0 <= j < i + 1 && is_target_spec(
                                    loader,
                                    assets@[j].name@,
                                ) implies !key_lt(loader, #[trigger] assets@[j], c) by {
                                lemma_key_order(loader, assets@[j], c, bb);
                                lemma_key_order(loader, c, c, c);
                            }
                            assert forall|j: int|
                                0 <= j < i && is_target_spec(loader, assets@[j].name@) implies key_lt(
                                loader,
                                c,
                                #[trigger] assets@[j],
                            ) by {
                                lemma_key_order(loader, c, bb, assets@[j]);
                                lemma_key_order(loader, assets@[j], bb, c);
                                if j < b {
                                } else if j == b {
                                } else {
                                    assert(!key_lt(loader, assets@[j], bb));
                                    lemma_key_order(loader, assets@[j], bb, bb);
                                }
                            }
                        }
                        best = Some(i);
                    } else {
                        proof {
                            lemma_key_order(loader, assets@[i as int], assets@[b as int], assets@[b as int]);
                        }
                    }
                },
            }
        }
        i += 1;
    }
    proof {
        if best is None {
            assert(!has_target(loader, assets@));
        } else {
            let b = best->Some_0 as int;
            assert(is_target_spec(loader, assets@[b].name@));
        }
    }
    best
}

/// Position of the first sha256sum asset, if any.
pub open spec fn first_checksum(assets: Seq<Asset>, k: int) -> bool {
    &&& 0 <= k < assets.len()
    &&& is_checksum_spec(assets[k].name@)
    &&& forall|j: int| 0 <= j < k ==> !is_checksum_spec(#[trigger] assets[j].name@)
}

/// Whether a release can be used: published, and holding an image.
pub open spec fn usable(l: Loader, r: Release) -> bool {
    !r.draft && !r.prerelease && has_target(l, r.assets@)
}

/// What [`resolve`] found in release `rel`, with image asset `k`.
pub open spec fn resolved_from(l: Loader, rel: Release, k: int, img: ResolvedImage) -> bool {
    let a = rel.assets@[k];
    &&& picked(l, rel.assets@, k)
    &&& img.loader == l
    &&& img.tag@ == rel.tag_name@
    &&& img.asset_name@ == a.name@
    &&& img.download_url@ == a.browser_download_url@
    &&& img.compressed_size == a.size
    &&& match img.checksum_url {
        None => forall|j: int| 0 <= j < rel.assets@.len() ==> !is_checksum_spec(
            #[trigger] rel.assets@[j].name@,
        ),
        Some(u) => exists|c: int| first_checksum(rel.assets@, c) && u@ == rel.assets@[c].browser_download_url@,
    }
}

/// Finds the image to download in a release list, newest first.
///
/// Drafts and pre-releases are skipped, and so are releases without an
/// image: the first release that actually holds one is taken.
pub fn resolve(loader: Loader, releases: &[Release]) -> (r: Result<ResolvedImage, ResolveError>)
    ensures
        releases@.len() == 0 <==> r == Err::<ResolvedImage, ResolveError>(ResolveError::NoReleases),
        r matches Err(ResolveError::NoUsableAsset { searched }) ==> searched == releases@.len(),
        (r matches Err(ResolveError::NoUsableAsset { .. })) <==> (releases@.len() > 0 && forall|i: int|
            0 <= i < releases@.len() ==> !usable(loader, #[trigger] releases@[i])),
        r matches Ok(img) ==> exists|i: int, k: int|
            0 <= i < releases@.len() && usable(loader, releases@[i]) && (forall|j: int|
                0 <= j < i ==> !usable(loader, #[trigger] releases@[j])) && resolved_from(
                loader,
                releases@[i],
                k,
                img,
            ),
{
    if releases.len() == 0 {
        return Err(ResolveError::NoReleases);
    }
    let mut i: usize = 0;
    while i < releases.len()
        invariant
            i <= releases@.len(),
            forall|j: int| 0 <= j < i ==> !usable(loader, #[trigger] releases@[j]),
        decreases releases@.len() - i,
    {
        let release = &releases[i];
        if release.draft || release.prerelease {
            i += 1;
            continue;
        }
        match select_asset(loader, &release.assets) {
            None => {
                // A release without assets: go on to the previous one.
                i += 1;
                continue;
            },
            Some(k) => {
                let image = &release.assets[k];
                let mut checksum_url: Option<String> = None;
                let mut c: usize = 0;
                while c < release.assets.len()
                    invariant
                        c <= release.assets@.len(),
                        checksum_url is None,
                        forall|j: int| 0 <= j < c ==> !is_checksum_spec(
                            #[trigger] release.assets@[j].name@,
                        ),
                    ensures
                        c <= release.assets@.len(),
                        checksum_url is None,
                        forall|j: int| 0 <= j < c ==> !is_checksum_spec(
                            #[trigger] release.assets@[j].name@,
                        ),
                        c < release.assets@.len() ==> is_checksum_spec(release.assets@[c as int].name@),
                    decreases release.assets@.len() - c,
                {
                    if is_checksum(release.assets[c].name.as_str()) {
                        break;
                    }
                    c += 1;
                }
                if c < release.assets.len() {
                    checksum_url = Some(release.assets[c].browser_download_url.clone());
                    proof {
                        assert(first_checksum(release.assets@, c as int));
                    }
                }
                let img = ResolvedImage {
                    loader,
                    tag: release.tag_name.clone(),
                    asset_name: image.name.clone(),
                    download_url: image.browser_download_url.clone(),
                    compressed_size: image.size,
                    checksum_url,
                };
                proof {
                    assert(resolved_from(loader, releases@[i as int], k as int, img));
                }
                return Ok(img);
            },
        }
    }
    Err(ResolveError::NoUsableAsset { searched: releases.len() })
}

/// What is resolved is never a wrong file: it is one of the loader's own
/// images, from a published release, and the first-ranked image of that
/// release.
pub proof fn law_resolved_is_a_published_target_image(
    l: Loader,
    rel: Release,
    k: int,
    img: ResolvedImage,
)
    requires
        usable(l, rel),
        resolved_from(l, rel, k, img),
    ensures
        is_target_spec(l, img.asset_name@),
        !rel.draft && !rel.prerelease,
        img.loader == l,
        forall|j: int|
            0 <= j < rel.assets@.len() && is_target_spec(l, rel.assets@[j].name@) ==> !key_lt(
                l,
                #[trigger] rel.assets@[j],
                rel.assets@[k],
            ),
{
}

} // verus!
