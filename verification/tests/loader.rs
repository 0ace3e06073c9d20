use xpenology_usb::loader::{resolve, Asset, Loader, Release, ResolveError};

fn asset(name: &str, size: u64) -> Asset {
    Asset {
        name: name.into(),
        size,
        browser_download_url: format!("https://example.invalid/{name}"),
    }
}

fn release(tag: &str, assets: Vec<Asset>) -> Release {
    Release {
        tag_name: tag.into(),
        draft: false,
        prerelease: false,
        assets,
    }
}

fn mshell_assets(tag: &str, prefix: &str) -> Vec<Asset> {
    vec![
        asset(&format!("{prefix}.{tag}.m-shell.img.gz"), 605_888_202),
        asset(&format!("{prefix}.{tag}.m-shell-5GB.img.gz"), 607_744_000),
        asset(&format!("{prefix}.{tag}.m-shell.vmdk.gz"), 600_000_000),
        asset(&format!("{prefix}.{tag}.m-shell-5GB.vmdk.gz"), 601_000_000),
        asset(&format!("{prefix}.{tag}.xtcrp.img.gz"), 590_000_000),
        asset(&format!("{prefix}.{tag}.xtcrp-4GB.img.gz"), 591_000_000),
        asset(&format!("{prefix}.{tag}.xtcrp.vmdk.gz"), 592_000_000),
        asset(&format!("{prefix}.{tag}.xtcrp-4GB.vmdk.gz"), 593_000_000),
    ]
}

fn rr_assets(tag: &str) -> Vec<Asset> {
    vec![
        asset(&format!("rr-{tag}.img.zip"), 1_300_283_351),
        asset(&format!("rr-{tag}.ova.zip"), 1_310_000_000),
        asset(&format!("rr-{tag}.vhd.zip"), 1_320_000_000),
        asset("sha256sum", 512),
        asset(&format!("updateall-{tag}.zip"), 200_000_000),
    ]
}

#[test]
fn resolves_new_alpine_prefix() {
    let rs = vec![release("v1.4.2.8", mshell_assets("v1.4.2.8", "alpine-redpill"))];
    let got = resolve(Loader::MShell, &rs).unwrap();
    assert!(got.asset_name.starts_with("alpine-redpill."));
    assert!(got.asset_name.contains("m-shell"));
    assert!(got.asset_name.ends_with(".img.gz"));
}

#[test]
fn resolves_old_tinycore_prefix_too() {
    let rs = vec![release("v1.3.1.1", mshell_assets("v1.3.1.1", "tinycore-redpill"))];
    let got = resolve(Loader::MShell, &rs).unwrap();
    assert!(got.asset_name.starts_with("tinycore-redpill."));
    assert!(got.asset_name.contains("m-shell"));
    assert!(got.asset_name.ends_with(".img.gz"));
}

#[test]
fn resolves_hypothetical_future_prefix() {
    let rs = vec![release("v2.0.0", mshell_assets("v2.0.0", "something-new"))];
    assert!(resolve(Loader::MShell, &rs).is_ok());
}

#[test]
fn never_picks_vmdk() {
    let rs = vec![release("v1.4.2.8", mshell_assets("v1.4.2.8", "alpine-redpill"))];
    let got = resolve(Loader::MShell, &rs).unwrap();
    assert!(!got.asset_name.contains("vmdk"));
    assert!(got.asset_name.ends_with(".img.gz"));
}

#[test]
fn prefers_5gb_variant_when_available() {
    let rs = vec![release("v1.4.2.8", mshell_assets("v1.4.2.8", "alpine-redpill"))];
    let got = resolve(Loader::MShell, &rs).unwrap();
    assert_eq!(got.asset_name, "alpine-redpill.v1.4.2.8.m-shell-5GB.img.gz");
}

#[test]
fn falls_back_to_standard_when_no_5gb_variant() {
    let rs = vec![release(
        "v1.2.5.0",
        vec![
            asset("tinycore-redpill.v1.2.5.0.m-shell.img.gz", 500_000_000),
            asset("tinycore-redpill.v1.2.5.0.m-shell.vmdk.gz", 500_000_000),
        ],
    )];
    let got = resolve(Loader::MShell, &rs).unwrap();
    assert_eq!(got.asset_name, "tinycore-redpill.v1.2.5.0.m-shell.img.gz");
}

#[test]
fn prefers_standard_over_old_4gb_naming() {
    let rs = vec![release(
        "v1.3.0.0",
        vec![
            asset("tinycore-redpill.v1.3.0.0.m-shell-4GB.img.gz", 500_000_000),
            asset("tinycore-redpill.v1.3.0.0.m-shell.img.gz", 500_000_000),
        ],
    )];
    let got = resolve(Loader::MShell, &rs).unwrap();
    assert_eq!(got.asset_name, "tinycore-redpill.v1.3.0.0.m-shell.img.gz");
}

#[test]
fn never_picks_xtcrp_when_mshell_requested() {
    let rs = vec![release("v1.4.2.8", mshell_assets("v1.4.2.8", "alpine-redpill"))];
    let got = resolve(Loader::MShell, &rs).unwrap();
    assert!(got.asset_name.contains("m-shell"));
}

#[test]
fn rr_picks_img_zip_not_ova_or_vhd() {
    let rs = vec![release("26.8.1", rr_assets("26.8.1"))];
    let got = resolve(Loader::Rr, &rs).unwrap();
    assert_eq!(got.asset_name, "rr-26.8.1.img.zip");
}

#[test]
fn rr_ignores_updateall_bundle() {
    let rs = vec![release(
        "26.8.1",
        vec![
            asset("updateall-26.8.1.zip", 200_000_000),
            asset("rr-26.8.1.img.zip", 1_300_283_351),
        ],
    )];
    let got = resolve(Loader::Rr, &rs).unwrap();
    assert_eq!(got.asset_name, "rr-26.8.1.img.zip");
}

#[test]
fn skips_assetless_release_and_takes_previous() {
    let rs = vec![release("26.8.0", vec![]), release("26.7.9", rr_assets("26.7.9"))];
    let got = resolve(Loader::Rr, &rs).unwrap();
    assert_eq!(got.tag, "26.7.9");
}

#[test]
fn skips_multiple_consecutive_assetless_releases() {
    let rs = vec![
        release("25.5.3", vec![]),
        release("25.5.2", vec![]),
        release("25.5.1", vec![]),
        release("25.5.0", vec![]),
        release("25.4.9", rr_assets("25.4.9")),
    ];
    assert_eq!(resolve(Loader::Rr, &rs).unwrap().tag, "25.4.9");
}

#[test]
fn skips_release_with_only_irrelevant_assets() {
    let rs = vec![
        release("26.8.0", vec![asset("sha256sum", 512)]),
        release("26.7.9", rr_assets("26.7.9")),
    ];
    assert_eq!(resolve(Loader::Rr, &rs).unwrap().tag, "26.7.9");
}

#[test]
fn skips_draft_and_prerelease() {
    let mut draft = release("26.9.0", rr_assets("26.9.0"));
    draft.draft = true;
    let mut pre = release("26.8.9", rr_assets("26.8.9"));
    pre.prerelease = true;
    let rs = vec![draft, pre, release("26.8.1", rr_assets("26.8.1"))];
    assert_eq!(resolve(Loader::Rr, &rs).unwrap().tag, "26.8.1");
}

#[test]
fn rr_exposes_checksum_url() {
    let rs = vec![release("26.8.1", rr_assets("26.8.1"))];
    assert!(resolve(Loader::Rr, &rs).unwrap().checksum_url.is_some());
}

#[test]
fn mshell_has_no_checksum_and_that_is_ok() {
    let rs = vec![release("v1.4.2.8", mshell_assets("v1.4.2.8", "alpine-redpill"))];
    let got = resolve(Loader::MShell, &rs).unwrap();
    assert_eq!(got.checksum_url, None);
}

#[test]
fn uses_api_provided_url_verbatim() {
    let rs = vec![release(
        "v1.4.2.8",
        vec![Asset {
            name: "alpine-redpill.v1.4.2.8.m-shell.img.gz".into(),
            size: 1,
            browser_download_url: "https://cdn.example.invalid/redirected/path".into(),
        }],
    )];
    let got = resolve(Loader::MShell, &rs).unwrap();
    assert_eq!(got.download_url, "https://cdn.example.invalid/redirected/path");
}

#[test]
fn empty_release_list_is_an_error() {
    assert_eq!(resolve(Loader::Rr, &[]), Err(ResolveError::NoReleases));
}

#[test]
fn all_assetless_reports_how_many_were_searched() {
    let rs = vec![release("a", vec![]), release("b", vec![])];
    assert_eq!(
        resolve(Loader::Rr, &rs),
        Err(ResolveError::NoUsableAsset { searched: 2 })
    );
}

#[test]
fn loader_repos_are_correct() {
    assert_eq!(Loader::MShell.repo(), "PeterSuh-Q3/tinycore-redpill");
    assert_eq!(Loader::Rr.repo(), "RROrg/rr");
    assert!(Loader::MShell.is_recommended());
    assert!(!Loader::Rr.is_recommended());
}

#[test]
fn the_release_list_address_names_the_repository() {
    assert_eq!(
        Loader::Rr.releases_api_url(),
        "https://api.github.com/repos/RROrg/rr/releases?per_page=10"
    );
    assert_eq!(Loader::MShell.display_name(), "m-shell");
    assert_eq!(Loader::Rr.display_name(), "RR");
}

#[test]
fn names_are_compared_without_case() {
    let rs = vec![release("x", vec![asset("RR-X.IMG.ZIP", 3)])];
    let got = resolve(Loader::Rr, &rs).unwrap();
    assert_eq!(got.asset_name, "RR-X.IMG.ZIP");
    assert_eq!(got.compressed_size, 3);
}

#[test]
fn equal_preferences_take_the_smallest_name() {
    let rs = vec![release(
        "v",
        vec![
            asset("b.m-shell.img.gz", 1),
            asset("a.m-shell.img.gz", 2),
        ],
    )];
    assert_eq!(resolve(Loader::MShell, &rs).unwrap().asset_name, "a.m-shell.img.gz");
}
