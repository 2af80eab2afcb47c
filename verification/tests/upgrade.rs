use moi::upgrade::{
    asset_url, checksum_url, default_release_asset, default_release_base, latest_release_url,
    parse_release_version, plan_upgrade, release_package, release_tag, target_triple,
    parse_version, upgrade_action, upgrade_announcement, upgrade_message, upgraded_announcement,
    upgraded_message, UpgradeAction, VersionOrder,
};

#[test]
fn test_parse_release_version() {
    let version =
        parse_release_version("https://github.com/konattsu/moi/releases/tag/v1.2.3").unwrap();

    assert_eq!(version, semver::Version::new(1, 2, 3));
}

#[test]
fn test_parse_release_version_without_v_prefix() {
    let version =
        parse_release_version("https://github.com/konattsu/moi/releases/tag/1.2.3/").unwrap();

    assert_eq!(version, semver::Version::new(1, 2, 3));
}

#[test]
fn test_reject_latest_without_redirect() {
    let error =
        parse_release_version("https://github.com/konattsu/moi/releases/latest").unwrap_err();

    assert!(error.message().contains("could not determine"));
}

#[test]
fn test_reject_invalid_release_version() {
    let error =
        parse_release_version("https://github.com/konattsu/moi/releases/tag/vnext").unwrap_err();
    assert!(error.message().starts_with("invalid release version vnext: "));
}

#[test]
fn test_release_tag_takes_last_segment() {
    assert_eq!(release_tag("https://x/releases/tag/v2.0.0///").unwrap(), "v2.0.0");
    assert_eq!(release_tag("v3").unwrap(), "v3");
    assert_eq!(
        release_tag("https://x/").unwrap(),
        "x"
    );
    assert_eq!(
        release_tag("/").unwrap_err().message(),
        "could not determine latest release from /"
    );
}

#[test]
fn test_upgrade_decision() {
    assert_eq!(upgrade_action(VersionOrder::Newer, true), UpgradeAction::AheadOfRelease);
    assert_eq!(upgrade_action(VersionOrder::Same, false), UpgradeAction::UpToDate);
    assert_eq!(upgrade_action(VersionOrder::Same, true), UpgradeAction::Reinstall);
    assert_eq!(upgrade_action(VersionOrder::Older, false), UpgradeAction::Upgrade);
    let old = semver::Version::new(0, 1, 0);
    let new = semver::Version::new(0, 2, 0);
    assert_eq!(plan_upgrade(&old, &new, false), UpgradeAction::Upgrade);
    assert_eq!(plan_upgrade(&new, &old, false), UpgradeAction::AheadOfRelease);
    assert_eq!(plan_upgrade(&new, &new, false), UpgradeAction::UpToDate);
}

#[test]
fn test_upgrade_messages() {
    assert_eq!(
        upgrade_message(UpgradeAction::AheadOfRelease, "0.2.0", "0.1.0"),
        "moi v0.2.0 is newer than the latest release (v0.1.0)."
    );
    assert_eq!(
        upgrade_message(UpgradeAction::UpToDate, "0.1.0", "0.1.0"),
        "moi v0.1.0 is already up to date."
    );
    assert_eq!(
        upgrade_message(UpgradeAction::Reinstall, "0.1.0", "0.1.0"),
        "Reinstalling moi v0.1.0..."
    );
    assert_eq!(
        upgrade_message(UpgradeAction::Upgrade, "0.1.0", "0.2.0"),
        "Upgrading moi v0.1.0 to v0.2.0..."
    );
    assert_eq!(upgraded_message("0.2.0"), "Successfully upgraded moi to v0.2.0.");
}

#[test]
fn test_release_locations() {
    assert_eq!(target_triple("linux", "x86_64").unwrap(), "x86_64-unknown-linux-gnu");
    assert_eq!(target_triple("linux", "aarch64").unwrap(), "aarch64-unknown-linux-gnu");
    assert_eq!(
        target_triple("macos", "aarch64").unwrap_err().message(),
        "unsupported platform: macos/aarch64"
    );
    assert_eq!(
        latest_release_url("konattsu/moi"),
        "https://github.com/konattsu/moi/releases/latest"
    );
    let base = default_release_base("konattsu/moi");
    assert_eq!(base, "https://github.com/konattsu/moi/releases/latest/download");
    let package = release_package("x86_64-unknown-linux-gnu");
    assert_eq!(package, "moi-x86_64-unknown-linux-gnu");
    let asset = default_release_asset(&package);
    assert_eq!(asset, "moi-x86_64-unknown-linux-gnu.tar.gz");
    let url = asset_url("https://example.test/download//", &asset);
    assert_eq!(url, "https://example.test/download/moi-x86_64-unknown-linux-gnu.tar.gz");
    assert_eq!(
        checksum_url(&url),
        "https://example.test/download/moi-x86_64-unknown-linux-gnu.tar.gz.sha256"
    );
}

#[test]
fn test_parse_version() {
    assert_eq!(parse_version("0.3.1").unwrap(), semver::Version::new(0, 3, 1));
    assert_eq!(parse_version("1.0.0-rc.1").unwrap().pre.as_str(), "rc.1");
    let error = parse_version("v1.0").unwrap_err();
    assert!(error.message().len() > 0);
    assert!(parse_version("").is_err());
}

#[test]
fn test_plan_upgrade_orders_versions_by_precedence() {
    let release = semver::Version::new(1, 0, 0);
    let candidate = parse_version("1.0.0-rc.1").unwrap();
    assert_eq!(plan_upgrade(&candidate, &release, false), UpgradeAction::Upgrade);
    assert_eq!(plan_upgrade(&release, &candidate, false), UpgradeAction::AheadOfRelease);
    let later = semver::Version::new(0, 10, 0);
    let earlier = semver::Version::new(0, 9, 0);
    assert_eq!(plan_upgrade(&earlier, &later, true), UpgradeAction::Upgrade);
    assert_eq!(plan_upgrade(&later, &later, true), UpgradeAction::Reinstall);
}

#[test]
fn test_upgrade_announcements_write_versions() {
    let old = semver::Version::new(0, 1, 0);
    let new = parse_version("0.2.0-beta.2").unwrap();
    assert_eq!(
        upgrade_announcement(UpgradeAction::Upgrade, &old, &new),
        "Upgrading moi v0.1.0 to v0.2.0-beta.2..."
    );
    assert_eq!(upgraded_announcement(&new), "Successfully upgraded moi to v0.2.0-beta.2.");
}
