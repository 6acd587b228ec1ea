use codex_plus_core::desktop::{
    build_desktop_entries, desktop_entry_candidates, join_path_exec, same_path,
    DesktopEntryTarget, MANAGER_DESKTOP_FILE, SILENT_DESKTOP_FILE,
};

fn target(name: &str, executable: &str, icon: &str) -> DesktopEntryTarget {
    DesktopEntryTarget {
        name: name.to_string(),
        executable: executable.to_string(),
        icon: icon.to_string(),
    }
}

#[test]
fn desktop_entries_are_written_under_install_root() {
    let entries = build_desktop_entries(
        "/home/u/.local/share/applications",
        &target("Codex++", "/opt/codex plus/codex-plus-plus", "codexplusplus"),
        &target("Codex++ Manager", "/opt/cpp/manager", "/opt/cpp/codexplusplus.png"),
    );
    assert_eq!(entries.len(), 2);
    assert_eq!(
        entries[0].file_path,
        format!("/home/u/.local/share/applications/{SILENT_DESKTOP_FILE}")
    );
    assert_eq!(
        entries[1].file_path,
        format!("/home/u/.local/share/applications/{MANAGER_DESKTOP_FILE}")
    );
    assert_eq!(
        entries[0].contents,
        [
            "[Desktop Entry]\n",
            "Type=Application\n",
            "Version=1.0\n",
            "Name=Codex++\n",
            "GenericName=Codex Launcher\n",
            "Comment=Launch Codex with Codex++ enhancements\n",
            "Exec=\"/opt/codex plus/codex-plus-plus\"\n",
            "Icon=codexplusplus\n",
            "Terminal=false\n",
            "Categories=Development;IDE;\n",
            "Keywords=codex;ai;\n",
            "StartupNotify=true\n",
        ].concat()
    );
    assert!(entries[1].contents.contains("Exec=/opt/cpp/manager\n"));
    assert!(entries[1].contents.contains("Icon=/opt/cpp/codexplusplus.png\n"));
    assert!(entries[1].contents.contains("Categories=Development;Settings;\n"));
}

#[test]
fn candidates_put_install_root_first_without_repeats() {
    assert_eq!(
        desktop_entry_candidates(Some("/home/u/apps"), false),
        vec![
            format!("/home/u/apps/{SILENT_DESKTOP_FILE}"),
            format!("/usr/local/share/applications/{SILENT_DESKTOP_FILE}"),
            format!("/usr/share/applications/{SILENT_DESKTOP_FILE}"),
        ]
    );
    assert_eq!(
        desktop_entry_candidates(Some("/usr/share/applications/"), true),
        vec![
            format!("/usr/share/applications/{MANAGER_DESKTOP_FILE}"),
            format!("/usr/local/share/applications/{MANAGER_DESKTOP_FILE}"),
        ]
    );
    assert_eq!(desktop_entry_candidates(None, true).len(), 2);
}

#[test]
fn paths_join_and_compare_by_components() {
    assert_eq!(join_path_exec("/a", "b"), "/a/b");
    assert_eq!(join_path_exec("/a/", "b"), "/a/b");
    assert_eq!(join_path_exec("", "b"), "b");
    assert!(same_path("/a//b/./c", "/a/b/c"));
    assert!(!same_path("/a/b", "a/b"));
}
