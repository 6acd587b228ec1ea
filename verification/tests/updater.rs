use codex_plus_core::json::Json;
use codex_plus_core::update::{
    classify_linux_os_release, download_file_name, is_newer_version, parse_version_tag,
    release_from_github_payload_for_platform, release_from_latest_json_payload_for_platform,
    safe_asset_name, safe_asset_name_for, select_update_asset_for_platform, update_check_for_release,
    LinuxPackageFamily, Release, ReleaseError, UpdateArch, UpdateError, UpdateOs, UpdatePlatform,
    VersionError, DEFAULT_LATEST_JSON_URL, DEFAULT_UPDATE_REPOSITORY,
};

fn to_json(value: &serde_json::Value) -> Json {
    match value {
        serde_json::Value::Null => Json::Null,
        serde_json::Value::Bool(b) => Json::Bool(*b),
        serde_json::Value::Number(n) => {
            if let Some(u) = n.as_u64() {
                Json::UInt(u)
            } else if let Some(i) = n.as_i64() {
                Json::Int(i)
            } else {
                Json::Float(n.to_string())
            }
        }
        serde_json::Value::String(s) => Json::Str(s.clone()),
        serde_json::Value::Array(items) => Json::Array(items.iter().map(to_json).collect()),
        serde_json::Value::Object(map) => Json::Object(
            map.iter()
                .map(|(k, v)| (k.clone(), to_json(v)))
                .collect(),
        ),
    }
}

fn json(text: &str) -> Json {
    to_json(&serde_json::from_str::<serde_json::Value>(text).unwrap())
}

fn linux(family: LinuxPackageFamily) -> UpdatePlatform {
    UpdatePlatform {
        os: UpdateOs::Linux,
        arch: UpdateArch::X86_64,
        linux_family: family,
    }
}

fn linux_with_arch(family: LinuxPackageFamily, arch: UpdateArch) -> UpdatePlatform {
    UpdatePlatform {
        os: UpdateOs::Linux,
        arch,
        linux_family: family,
    }
}

fn platform(os: UpdateOs, arch: UpdateArch) -> UpdatePlatform {
    UpdatePlatform {
        os,
        arch,
        linux_family: LinuxPackageFamily::Unknown,
    }
}

fn pairs(items: &[(&str, &str)]) -> Vec<(String, String)> {
    items
        .iter()
        .map(|(n, u)| (n.to_string(), u.to_string()))
        .collect()
}

#[test]
fn classifies_linux_package_families() {
    assert_eq!(
        classify_linux_os_release("ID=cachyos\nID_LIKE=arch\n"),
        LinuxPackageFamily::Arch
    );
    assert_eq!(
        classify_linux_os_release("ID=linuxmint\nID_LIKE=\"ubuntu debian\"\n"),
        LinuxPackageFamily::Debian
    );
    assert_eq!(
        classify_linux_os_release("NAME=Other\n"),
        LinuxPackageFamily::Unknown
    );
}

#[test]
fn linux_families_choose_native_non_debug_packages() {
    let assets = [
        "codexplusplus-debug-1.2.42-1-x86_64.pkg.tar.zst",
        "codexplusplus-1.2.42-1-x86_64.pkg.tar.zst",
        "codexplusplus_1.2.42_amd64.deb",
        "CodexPlusPlus-1.2.42-macos-x64.dmg",
    ]
    .into_iter()
    .map(|name| (name.to_string(), format!("https://example.test/{name}")))
    .collect::<Vec<_>>();
    assert_eq!(
        select_update_asset_for_platform(&assets, linux(LinuxPackageFamily::Arch))
            .unwrap()
            .name,
        "codexplusplus-1.2.42-1-x86_64.pkg.tar.zst"
    );
    assert_eq!(
        select_update_asset_for_platform(&assets, linux(LinuxPackageFamily::Debian))
            .unwrap()
            .name,
        "codexplusplus_1.2.42_amd64.deb"
    );
}

#[test]
fn source_only_manifest_preserves_release_url_without_selecting_asset() {
    let release_url = "https://github.com/zcj123v/CodexPlusPlus/releases/tag/v1.2.42-linux.1";
    let release = release_from_latest_json_payload_for_platform(
        &json(&format!(
            r#"{{"version":"v1.2.42-linux.1","url":"{release_url}","assets":[{{"name":"source.zip","url":"https://example.test/source.zip"}}]}}"#
        )),
        linux(LinuxPackageFamily::Arch),
    )
    .unwrap();

    assert_eq!(release.url, release_url);
    assert_eq!(release.asset_name, None);
    assert_eq!(release.asset_url, None);
}

#[test]
fn update_source_points_to_fork() {
    assert_eq!(DEFAULT_UPDATE_REPOSITORY, "zcj123v/CodexPlusPlus");
    assert_eq!(
        DEFAULT_LATEST_JSON_URL,
        "https://github.com/zcj123v/CodexPlusPlus/releases/latest/download/latest.json"
    );
}

#[test]
fn fork_linux_revisions_sort_after_base_version() {
    assert!(is_newer_version("1.2.42-linux.1", "1.2.41").unwrap());
    assert!(is_newer_version("1.2.42-linux.1", "1.2.42").unwrap());
    assert!(is_newer_version("1.2.42-linux.2", "1.2.42-linux.1").unwrap());
    assert!(!is_newer_version("1.2.42-linux.1", "1.2.42-linux.1").unwrap());
    assert!(!is_newer_version("v1.2.42", "1.2.42").unwrap());
}

#[test]
fn parse_version_tag_accepts_prefix_and_suffix() {
    assert_eq!(parse_version_tag("v1.2.3").unwrap(), vec![1, 2, 3]);
    assert_eq!(parse_version_tag("1.2.3").unwrap(), vec![1, 2, 3]);
    assert_eq!(parse_version_tag("v1.2.3-beta.1").unwrap(), vec![1, 2, 3]);
}

#[test]
fn version_comparison_uses_numeric_segments() {
    assert!(is_newer_version("v1.0.10", "1.0.4").unwrap());
    assert!(!is_newer_version("v1.0.4", "1.0.4").unwrap());
    assert!(!is_newer_version("v1.0.3", "1.0.4").unwrap());
}

#[test]
fn github_payload_selects_platform_installer() {
    let payload = json(
        r#"{
        "tag_name": "v1.0.9",
        "html_url": "https://github.com/BigPizzaV3/CodexPlusPlus/releases/tag/v1.0.9",
        "body": "fixes",
        "assets": [
            {"name": "source.zip", "browser_download_url": "https://example.test/source.zip"},
            {"name": "codex-plus-plus-manager.exe", "browser_download_url": "https://example.test/manager.exe"},
            {"name": "CodexPlusPlus_1.0.9_x64-setup.exe", "browser_download_url": "https://example.test/setup.exe"},
            {"name": "CodexPlusPlus_1.0.9_x64.dmg", "browser_download_url": "https://example.test/app.dmg"}
        ]
    }"#,
    );
    let windows =
        release_from_github_payload_for_platform(&payload, platform(UpdateOs::Windows, UpdateArch::X86_64))
            .unwrap();
    assert_eq!(windows.version, "v1.0.9");
    assert_eq!(
        windows.asset_name.as_deref(),
        Some("CodexPlusPlus_1.0.9_x64-setup.exe")
    );
    let macos =
        release_from_github_payload_for_platform(&payload, platform(UpdateOs::Macos, UpdateArch::X86_64))
            .unwrap();
    assert_eq!(macos.asset_name.as_deref(), Some("CodexPlusPlus_1.0.9_x64.dmg"));
    let linux =
        release_from_github_payload_for_platform(&payload, platform(UpdateOs::Linux, UpdateArch::X86_64))
            .unwrap();
    assert_eq!(linux.asset_name.as_deref(), None);
}

#[test]
fn latest_json_payload_selects_platform_installer_without_github_api_shape() {
    let payload = json(
        r#"{
        "version": "v1.1.6",
        "url": "https://github.com/BigPizzaV3/CodexPlusPlus/releases/tag/v1.1.6",
        "body": "静态更新描述",
        "assets": [
            {"name": "source.zip", "url": "https://example.test/source.zip"},
            {"name": "CodexPlusPlus-1.1.6-windows-x64-setup.exe", "url": "https://example.test/setup.exe"},
            {"name": "CodexPlusPlus-1.1.6-macos-x64.dmg", "url": "https://example.test/app.dmg"}
        ]
    }"#,
    );
    for os in [UpdateOs::Windows, UpdateOs::Macos, UpdateOs::Linux] {
        let release =
            release_from_latest_json_payload_for_platform(&payload, platform(os, UpdateArch::X86_64))
                .unwrap();
        assert_eq!(release.version, "v1.1.6");
        assert_eq!(release.body, "静态更新描述");
        let expected = match os {
            UpdateOs::Windows => Some("CodexPlusPlus-1.1.6-windows-x64-setup.exe"),
            UpdateOs::Macos => Some("CodexPlusPlus-1.1.6-macos-x64.dmg"),
            _ => None,
        };
        assert_eq!(release.asset_name.as_deref(), expected);
    }
}

#[test]
fn asset_selection_prefers_current_platform_artifacts() {
    let assets = pairs(&[
        ("CodexPlusPlus.zip", "https://example.test/source.zip"),
        ("codex-plus-plus-manager.exe", "https://example.test/manager.exe"),
        ("CodexPlusPlus_1.0.9_x64-setup.exe", "https://example.test/setup.exe"),
        ("CodexPlusPlus_1.0.9_x64.dmg", "https://example.test/app.dmg"),
    ]);
    let selected =
        select_update_asset_for_platform(&assets, platform(UpdateOs::Windows, UpdateArch::X86_64))
            .unwrap();
    assert_eq!(selected.name, "CodexPlusPlus_1.0.9_x64-setup.exe");
    let selected =
        select_update_asset_for_platform(&assets, platform(UpdateOs::Macos, UpdateArch::X86_64))
            .unwrap();
    assert_eq!(selected.name, "CodexPlusPlus_1.0.9_x64.dmg");
    assert!(
        select_update_asset_for_platform(&assets, platform(UpdateOs::Linux, UpdateArch::X86_64))
            .is_none()
    );
}

#[test]
fn asset_selection_distinguishes_x64_and_arm64_macos_dmgs() {
    let assets = pairs(&[
        ("CodexPlusPlus-1.2.17-macos-arm64.dmg", "https://example.test/app-arm64.dmg"),
        ("CodexPlusPlus-1.2.17-macos-x64.dmg", "https://example.test/app-x64.dmg"),
    ]);
    let x64 = select_update_asset_for_platform(&assets, platform(UpdateOs::Macos, UpdateArch::X86_64))
        .expect("a macOS DMG should be selected for the running arch");
    assert_eq!(
        x64.name, "CodexPlusPlus-1.2.17-macos-x64.dmg",
        "x86_64 binary must select x64 DMG, aarch64 binary must select arm64 DMG"
    );
    let arm = select_update_asset_for_platform(&assets, platform(UpdateOs::Macos, UpdateArch::Aarch64))
        .expect("a macOS DMG should be selected for the running arch");
    assert_eq!(
        arm.name, "CodexPlusPlus-1.2.17-macos-arm64.dmg",
        "x86_64 binary must select x64 DMG, aarch64 binary must select arm64 DMG"
    );
    for os in [UpdateOs::Windows, UpdateOs::Linux] {
        assert!(select_update_asset_for_platform(&assets, platform(os, UpdateArch::X86_64)).is_none());
    }
}

#[test]
fn safe_asset_name_rejects_path_traversal() {
    assert_eq!(safe_asset_name("pkg.zip").unwrap(), "pkg.zip");
    assert!(safe_asset_name("../pkg.zip").is_err());
    assert!(safe_asset_name("").is_err());
}

#[test]
fn linux_aarch64_and_other_arches_reject_explicit_x86_assets() {
    let release_url = "https://example.test/releases/v1.2.42";
    let payload = json(
        r#"{
        "version": "v1.2.42",
        "url": "https://example.test/releases/v1.2.42",
        "assets": [
            {"name": "codexplusplus-1.2.42-1-x64.pkg.tar.zst", "url": "https://example.test/x64.pkg.tar.zst"},
            {"name": "codexplusplus-1.2.42-1-x86_64.pkg.tar.zst", "url": "https://example.test/x86_64.pkg.tar.zst"},
            {"name": "codexplusplus_1.2.42_amd64.deb", "url": "https://example.test/amd64.deb"}
        ]
    }"#,
    );

    for family in [
        LinuxPackageFamily::Arch,
        LinuxPackageFamily::Debian,
        LinuxPackageFamily::Unknown,
    ] {
        for arch in [UpdateArch::Aarch64, UpdateArch::Other] {
            let release = release_from_latest_json_payload_for_platform(
                &payload,
                linux_with_arch(family, arch),
            )
            .unwrap();
            assert_eq!(release.url, release_url);
            assert_eq!(release.asset_name, None, "family={family:?}, arch={arch:?}");
            assert_eq!(release.asset_url, None, "family={family:?}, arch={arch:?}");
        }
    }
}

#[test]
fn linux_aarch64_selects_arm64_asset() {
    let assets = pairs(&[
        ("codexplusplus_1.2.42_amd64.deb", "https://example.test/amd64.deb"),
        ("codexplusplus_1.2.42_arm64.deb", "https://example.test/arm64.deb"),
    ]);
    let selected = select_update_asset_for_platform(
        &assets,
        linux_with_arch(LinuxPackageFamily::Debian, UpdateArch::Aarch64),
    )
    .unwrap();
    assert_eq!(selected.name, "codexplusplus_1.2.42_arm64.deb");
}

#[test]
fn latest_json_url_candidates_fall_back_after_type_and_blank_validation() {
    for invalid in ["null", "42", "\"   \""] {
        let release = release_from_latest_json_payload_for_platform(
            &json(&format!(
                r#"{{
                "version": "v1.2.42",
                "url": {invalid},
                "html_url": "  https://example.test/releases/v1.2.42  ",
                "assets": [{{
                    "name": "codexplusplus_1.2.42_amd64.deb",
                    "url": {invalid},
                    "browser_download_url": "  https://example.test/amd64.deb  "
                }}]
            }}"#
            )),
            linux(LinuxPackageFamily::Debian),
        )
        .unwrap();

        assert_eq!(release.url, "https://example.test/releases/v1.2.42");
        assert_eq!(
            release.asset_url.as_deref(),
            Some("https://example.test/amd64.deb")
        );
    }
}

#[test]
fn github_url_candidates_fall_back_after_type_and_blank_validation() {
    for invalid in ["null", "42", "\"   \""] {
        let release = release_from_github_payload_for_platform(
            &json(&format!(
                r#"{{
                "tag_name": "v1.2.42",
                "html_url": {invalid},
                "url": "  https://api.example.test/releases/42  ",
                "assets": [{{
                    "name": "codexplusplus-1.2.42.deb",
                    "browser_download_url": {invalid},
                    "url": "  https://api.example.test/assets/42  "
                }}]
            }}"#
            )),
            linux(LinuxPackageFamily::Debian),
        )
        .unwrap();

        assert_eq!(release.url, "https://api.example.test/releases/42");
        assert_eq!(
            release.asset_url.as_deref(),
            Some("https://api.example.test/assets/42")
        );
    }
}

#[test]
fn newer_version_is_a_strict_order_on_examples() {
    let tags = ["1.2.41", "1.2.42", "v1.2.42.0", "1.2.42-linux.1", "1.2.42-linux.2", "1.10"];
    for a in tags {
        assert!(!is_newer_version(a, a).unwrap());
        for b in tags {
            if is_newer_version(a, b).unwrap() {
                assert!(!is_newer_version(b, a).unwrap());
                for c in tags {
                    if is_newer_version(b, c).unwrap() {
                        assert!(is_newer_version(a, c).unwrap());
                    }
                }
            }
        }
    }
}

#[test]
fn version_errors_distinguish_missing_and_bad_segments() {
    assert_eq!(parse_version_tag("release"), Err(VersionError::InvalidTag));
    assert_eq!(parse_version_tag("  vV"), Err(VersionError::InvalidTag));
    assert_eq!(parse_version_tag("1..2"), Err(VersionError::InvalidNumber));
    assert_eq!(
        parse_version_tag("99999999999999999999"),
        Err(VersionError::InvalidNumber)
    );
    assert_eq!(parse_version_tag(" V2.0 "), Ok(vec![2, 0]));
    assert_eq!(is_newer_version("x", "1.0"), Err(VersionError::InvalidTag));
    assert!(!is_newer_version("1.0.0", "1").unwrap());
    assert!(is_newer_version("1.0.0-linux.99999999999999999999", "1").is_ok());
}

#[test]
fn os_release_uses_last_assignment_and_quotes() {
    assert_eq!(
        classify_linux_os_release("ID=other\r\nID='Manjaro'\n"),
        LinuxPackageFamily::Arch
    );
    assert_eq!(
        classify_linux_os_release("ID_LIKE=  fedora   pop \nID=rhel"),
        LinuxPackageFamily::Debian
    );
    assert_eq!(classify_linux_os_release(""), LinuxPackageFamily::Unknown);
}

#[test]
fn safe_asset_name_accepts_single_component_only() {
    assert_eq!(safe_asset_name("pkg.zip/").unwrap(), "pkg.zip");
    assert_eq!(safe_asset_name("pkg.zip/.").unwrap(), "pkg.zip");
    assert_eq!(safe_asset_name(" pkg.zip").unwrap(), " pkg.zip");
    assert_eq!(safe_asset_name("/pkg.zip"), Err(UpdateError::InvalidAssetName));
    assert_eq!(safe_asset_name("./pkg.zip"), Err(UpdateError::InvalidAssetName));
    assert_eq!(safe_asset_name("a/b"), Err(UpdateError::InvalidAssetName));
    assert_eq!(safe_asset_name(".."), Err(UpdateError::InvalidAssetName));
    assert_eq!(safe_asset_name("   "), Err(UpdateError::InvalidAssetName));
}

#[test]
fn safe_asset_name_follows_windows_path_rules() {
    assert_eq!(safe_asset_name_for("pkg.exe", true).unwrap(), "pkg.exe");
    assert_eq!(safe_asset_name_for("pkg.exe\\", true).unwrap(), "pkg.exe");
    assert_eq!(safe_asset_name_for("pkg.exe\\.", true).unwrap(), "pkg.exe");
    assert_eq!(safe_asset_name_for("..\\pkg.exe", true), Err(UpdateError::InvalidAssetName));
    assert_eq!(safe_asset_name_for("a\\b", true), Err(UpdateError::InvalidAssetName));
    assert_eq!(safe_asset_name_for("\\pkg.exe", true), Err(UpdateError::InvalidAssetName));
    assert_eq!(safe_asset_name_for("C:pkg.exe", true), Err(UpdateError::InvalidAssetName));
    assert_eq!(safe_asset_name_for("c:", true), Err(UpdateError::InvalidAssetName));
    assert_eq!(safe_asset_name_for("a/b", true), Err(UpdateError::InvalidAssetName));
    assert_eq!(safe_asset_name_for("pkg:1.exe", true).unwrap(), "pkg:1.exe");
}

#[test]
fn safe_asset_name_keeps_backslashes_off_windows() {
    assert_eq!(safe_asset_name_for("a\\b", false).unwrap(), "a\\b");
    assert_eq!(safe_asset_name_for("C:pkg.exe", false).unwrap(), "C:pkg.exe");
    assert_eq!(safe_asset_name_for("a/b", false), Err(UpdateError::InvalidAssetName));
    assert_eq!(safe_asset_name_for("..", false), Err(UpdateError::InvalidAssetName));
}

#[test]
fn download_file_name_requires_safe_asset() {
    let mut release = Release {
        version: "v1.0.9".to_string(),
        url: "https://example.test".to_string(),
        body: "fixes".to_string(),
        asset_name: Some("pkg.zip".to_string()),
        asset_url: Some("https://example.test/pkg.zip".to_string()),
    };
    assert_eq!(download_file_name(&release).unwrap(), "pkg.zip");
    release.asset_name = Some("../pkg.zip".to_string());
    assert_eq!(download_file_name(&release), Err(UpdateError::InvalidAssetName));
    release.asset_name = None;
    assert_eq!(download_file_name(&release), Err(UpdateError::MissingAsset));
}

#[test]
fn update_check_reports_availability() {
    let release = Release {
        version: "v1.2.0".to_string(),
        url: "https://example.test/r".to_string(),
        body: "notes".to_string(),
        asset_name: Some("a.deb".to_string()),
        asset_url: Some("https://example.test/a.deb".to_string()),
    };
    let check = update_check_for_release("1.1.9", release.clone()).unwrap();
    assert!(check.update_available);
    assert_eq!(check.current_version, "1.1.9");
    assert_eq!(check.latest_version.as_deref(), Some("v1.2.0"));
    assert_eq!(check.release_summary, "notes");
    assert_eq!(check.release_url, "https://example.test/r");
    assert_eq!(check.asset_name.as_deref(), Some("a.deb"));
    let same = update_check_for_release("1.2.0", release.clone()).unwrap();
    assert!(!same.update_available);
    assert_eq!(
        update_check_for_release("bogus", release),
        Err(VersionError::InvalidTag)
    );
}

#[test]
fn payloads_without_version_are_rejected() {
    assert_eq!(
        release_from_latest_json_payload_for_platform(&json(r#"{"version": 3}"#), linux(LinuxPackageFamily::Debian)),
        Err(ReleaseError::MissingVersion)
    );
    let fallback = release_from_latest_json_payload_for_platform(
        &json(r#"{"tag_name": "v2", "notes": "n"}"#),
        linux(LinuxPackageFamily::Debian),
    )
    .unwrap();
    assert_eq!(fallback.version, "v2");
    assert_eq!(fallback.body, "n");
    assert_eq!(fallback.url, "");
    assert_eq!(
        release_from_github_payload_for_platform(&json(r#"{"version": "v2"}"#), linux(LinuxPackageFamily::Debian)),
        Err(ReleaseError::MissingTagName)
    );
}
