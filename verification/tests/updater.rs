use loki_dm_core::updater::{build_update_info, normalize_version, select_asset_for_platform, ReleaseAsset, UpdateInfo};

fn asset(name: &str, url: &str, size: u64) -> ReleaseAsset {
    ReleaseAsset { name: name.to_owned(), download_url: url.to_owned(), size: Some(size) }
}

#[test]
fn normalize_strips_v_prefix() {
    assert_eq!(normalize_version("v1.2.3"), "1.2.3");
    assert_eq!(normalize_version("1.2.3"), "1.2.3");
}

#[test]
fn picks_some_asset_when_available() {
    let info = UpdateInfo {
        current_version: "1.0.0".to_owned(),
        latest_version: "1.1.0".to_owned(),
        update_available: true,
        release_name: None,
        release_notes: None,
        published_at: None,
        assets: vec![
            asset("loki-dm-linux-x86_64.AppImage", "https://example.invalid/linux", 1),
            asset("loki-dm-windows-x86_64.msi", "https://example.invalid/windows", 2),
        ],
    };
    assert!(select_asset_for_platform(&info, "linux", "x86_64").is_some());
    assert_eq!(select_asset_for_platform(&info, "windows", "x86_64").map(|a| a.size), Some(Some(2)));
    assert_eq!(select_asset_for_platform(&info, "linux", "aarch64").map(|a| a.size), Some(Some(1)));
}

#[test]
fn no_asset_without_assets() {
    let info = UpdateInfo {
        current_version: "1.0.0".to_owned(),
        latest_version: "1.0.0".to_owned(),
        update_available: false,
        release_name: None,
        release_notes: None,
        published_at: None,
        assets: Vec::new(),
    };
    assert!(select_asset_for_platform(&info, "linux", "x86_64").is_none());
}

#[test]
fn update_info_compares_versions() {
    let info = build_update_info("v1.4.0", "1.3.9", Some("r".to_owned()), None, None, Vec::new())
        .expect("valid versions");
    assert_eq!(info.latest_version, "1.4.0");
    assert_eq!(info.current_version, "1.3.9");
    assert!(info.update_available);
    let same = build_update_info("v1.0.0", "1.0.0", None, None, None, Vec::new()).expect("valid");
    assert!(!same.update_available);
    assert!(build_update_info("latest", "1.0.0", None, None, None, Vec::new()).is_err());
}

#[test]
fn normalize_trims_blanks_and_many_v() {
    assert_eq!(normalize_version("  vv2.0.0 "), "2.0.0");
}
