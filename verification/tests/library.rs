use deskimage::app_state::DeskImageApp;
use deskimage::appname::clean_app_name;
use deskimage::descriptor::contains_str;
use deskimage::descriptor::ensure_utility;
use deskimage::descriptor::lookup;
use deskimage::descriptor::parse_desktop_file;
use deskimage::descriptor::render_descriptor;
use deskimage::descriptor::synthesize_descriptor;
use deskimage::sync::base_name;
use deskimage::sync::default_applications_dir;
use deskimage::sync::default_icons_dir;
use deskimage::sync::desktop_file_path_for;
use deskimage::sync::is_globally_installed;
use deskimage::sync::join_path;
use deskimage::sync::mode_is_executable;
use deskimage::sync::plan_icon;
use deskimage::sync::plan_staging;
use deskimage::sync::resolved_new_icon;
use deskimage::sync::IconPlan;
use deskimage::sync::SyncError;

#[test]
fn clean_name_strips_version_after_hyphen() {
    assert_eq!(clean_app_name("Foo-1.2.3.AppImage"), "Foo");
}

#[test]
fn clean_name_strips_after_underscore() {
    assert_eq!(clean_app_name("bar_app.AppImage"), "bar");
}

#[test]
fn clean_name_keeps_whole_name_without_separator() {
    assert_eq!(clean_app_name("NoSeparator.AppImage"), "NoSeparator");
}

#[test]
fn clean_name_is_deterministic() {
    let a = clean_app_name("Editor-2.0.AppImage");
    let b = clean_app_name("Editor-2.0.AppImage");
    assert_eq!(a, b);
    assert_eq!(a, "Editor");
}

#[test]
fn clean_name_edge_cases() {
    assert_eq!(clean_app_name(""), "");
    assert_eq!(clean_app_name("-x.AppImage"), "");
    assert_eq!(clean_app_name("x.AppImage.AppImage"), "x");
    assert_eq!(clean_app_name("x.appimage"), "x.appimage");
    assert_eq!(clean_app_name("My-App.AppImage"), "My");
    assert_eq!(clean_app_name("plain"), "plain");
}

#[test]
fn method_clean_app_name_matches_free_function() {
    let app = DeskImageApp::default();
    assert_eq!(app.clean_app_name("Foo-1.2.3.AppImage"), "Foo");
}

#[test]
fn parse_splits_on_first_equals_and_trims() {
    let entries = parse_desktop_file("a=b\nnokey\n c = d=e \n");
    assert_eq!(entries.len(), 2);
    assert_eq!(entries[0].0, "a");
    assert_eq!(entries[0].1, "b");
    assert_eq!(entries[1].0, "c");
    assert_eq!(entries[1].1, "d=e");
}

#[test]
fn parse_trims_unicode_whitespace() {
    // str::trim removes all Unicode White_Space, not only ASCII
    let entries = parse_desktop_file("\u{00A0}k =\u{2003}v\u{202F}\n");
    assert_eq!(entries.len(), 1);
    assert_eq!(entries[0].0, "k");
    assert_eq!(entries[0].1, "v");
}

#[test]
fn merge_carries_fields_behind_unicode_padding() {
    let prior = "Icon =\u{00A0}/x.png\u{2028}\nCategories=Utility;\n";
    let text = synthesize_descriptor("E", "/x", None, Some(prior));
    assert!(text.contains("\nIcon=/x.png\n"));
}

#[test]
fn parse_ignores_header_line() {
    let entries = parse_desktop_file("[Desktop Entry]\nName=X\n");
    assert_eq!(entries.len(), 1);
    assert_eq!(entries[0].0, "Name");
    assert_eq!(entries[0].1, "X");
}

#[test]
fn parse_method_on_app_state() {
    let app = DeskImageApp::default();
    let entries = app.parse_desktop_file("Icon=foo\n");
    assert_eq!(entries.len(), 1);
    assert_eq!(entries[0].0, "Icon");
    assert_eq!(entries[0].1, "foo");
}

#[test]
fn lookup_takes_the_last_occurrence() {
    let entries = parse_desktop_file("k=1\nother=x\nk=2\n");
    assert_eq!(lookup(&entries, "k"), Some("2".to_string()));
    assert_eq!(lookup(&entries, "other"), Some("x".to_string()));
    assert_eq!(lookup(&entries, "missing"), None);
}

#[test]
fn contains_finds_substrings() {
    assert!(contains_str("Utility;Network;", "Utility"));
    assert!(contains_str("XUtilityY", "Utility"));
    assert!(!contains_str("Util", "Utility"));
    assert!(contains_str("anything", ""));
}

#[test]
fn ensure_utility_prefixes_and_terminates() {
    assert_eq!(ensure_utility("Network;"), "Utility;Network;");
    assert_eq!(ensure_utility("Utility;Office;"), "Utility;Office;");
    assert_eq!(ensure_utility("Network"), "Utility;Network;");
    assert_eq!(ensure_utility("Utility"), "Utility;");
}

#[test]
fn render_emits_fixed_order_and_skips_empty_fields() {
    let text = render_descriptor("N", "/e", "ic", "Utility;", "", "");
    assert_eq!(
        text,
        "[Desktop Entry]\nType=Application\nName=N\nExec=/e\nIcon=ic\nTerminal=false\nCategories=Utility;\n"
    );
    let full = render_descriptor("N", "/e", "ic", "Utility;", "kw;", "hello");
    assert_eq!(
        full,
        "[Desktop Entry]\nType=Application\nName=N\nExec=/e\nIcon=ic\nTerminal=false\nCategories=Utility;\nKeywords=kw;\nComment=hello\n"
    );
}

#[test]
fn fresh_registration_uses_defaults() {
    // a first registration: no prior descriptor, no icon supplied
    let text = synthesize_descriptor("Editor", "/home/u/.local/bin/Editor", None, None);
    assert_eq!(
        text,
        "[Desktop Entry]\nType=Application\nName=Editor\nExec=/home/u/.local/bin/Editor\nIcon=application-x-executable\nTerminal=false\nCategories=Utility;\n"
    );
    assert!(!text.contains("Keywords="));
    assert!(!text.contains("Comment="));
}

#[test]
fn merge_prefixes_utility_to_prior_categories() {
    let prior =
        "[Desktop Entry]\nType=Application\nName=Editor\nExec=/x\nIcon=foo\nTerminal=false\nCategories=Network;\n";
    let text = synthesize_descriptor("Editor", "/x", None, Some(prior));
    assert_eq!(
        text,
        "[Desktop Entry]\nType=Application\nName=Editor\nExec=/x\nIcon=foo\nTerminal=false\nCategories=Utility;Network;\n"
    );
}

#[test]
fn merge_leaves_categories_with_utility_alone() {
    let prior =
        "[Desktop Entry]\nType=Application\nName=Editor\nExec=/x\nIcon=foo\nTerminal=false\nCategories=Utility;Office;\n";
    let text = synthesize_descriptor("Editor", "/x", None, Some(prior));
    assert!(text.contains("\nCategories=Utility;Office;\n"));
}

#[test]
fn merge_preserves_prior_icon_without_new_icon() {
    let prior =
        "[Desktop Entry]\nType=Application\nName=E\nExec=/x\nIcon=/custom/icon.png\nTerminal=false\nCategories=Utility;\n";
    let text = synthesize_descriptor("E", "/x", None, Some(prior));
    assert!(text.contains("\nIcon=/custom/icon.png\n"));
}

#[test]
fn merge_keeps_keywords_and_comment() {
    let prior = "Icon=i\nKeywords=a;b;\nComment=my tool\nCategories=Utility;\n";
    let text = synthesize_descriptor("E", "/x", None, Some(prior));
    assert!(text.contains("\nKeywords=a;b;\n"));
    assert!(text.contains("\nComment=my tool\n"));
}

#[test]
fn new_icon_overrides_prior_icon() {
    let prior = "Icon=/old.png\nCategories=Utility;\n";
    let text = synthesize_descriptor("E", "/x", Some("/new.png"), Some(prior));
    assert!(text.contains("\nIcon=/new.png\n"));
    assert!(!text.contains("/old.png"));
}

#[test]
fn merging_twice_is_idempotent() {
    let prior = "[Desktop Entry]\nName=Old\nIcon=/custom.png\nCategories=Network;Office\nKeywords=k;\nComment=c\n";
    let once = synthesize_descriptor("Editor", "/home/u/.local/bin/Editor", None, Some(prior));
    let twice = synthesize_descriptor(
        "Editor",
        "/home/u/.local/bin/Editor",
        None,
        Some(once.as_str()),
    );
    assert_eq!(once, twice);
}

#[test]
fn merging_twice_is_idempotent_without_prior() {
    let once = synthesize_descriptor("App", "/bin/App", None, None);
    let twice = synthesize_descriptor("App", "/bin/App", None, Some(once.as_str()));
    assert_eq!(once, twice);
}

#[test]
fn staging_plan_derives_paths_and_mode() {
    let plan = plan_staging("/tmp/Editor-2.0.AppImage", true, "/home/u").unwrap();
    assert_eq!(plan.appname, "Editor");
    assert_eq!(plan.bin_dir, "/home/u/.local/bin");
    assert_eq!(plan.exec_target, "/home/u/.local/bin/Editor");
    assert_eq!(plan.mode, 0o755);
    assert!(mode_is_executable(plan.mode));
}

#[test]
fn staging_fails_only_on_missing_source() {
    let r = plan_staging("/tmp/Editor-2.0.AppImage", false, "/home/u");
    assert!(matches!(r, Err(SyncError::SourceNotFound)));
}

#[test]
fn mode_test_matches_permission_bits() {
    assert!(mode_is_executable(0o755));
    assert!(mode_is_executable(0o100));
    assert!(mode_is_executable(0o001));
    assert!(!mode_is_executable(0o644));
    assert!(!mode_is_executable(0));
}

#[test]
fn icon_plan_copies_existing_icon() {
    let plan = plan_icon(Some("/pics/logo.png"), true, "/home/u/.local/share/icons");
    match &plan {
        IconPlan::CopyIcon { source, destination } => {
            assert_eq!(source.as_str(), "/pics/logo.png");
            assert_eq!(destination.as_str(), "/home/u/.local/share/icons/logo.png");
        },
        IconPlan::KeepExisting => panic!("expected a copy step"),
    }
    let (value, degraded) = resolved_new_icon(&plan, true).unwrap();
    assert_eq!(value, "/home/u/.local/share/icons/logo.png");
    assert!(!degraded);
    let (fallback, degraded) = resolved_new_icon(&plan, false).unwrap();
    assert_eq!(fallback, "/pics/logo.png");
    assert!(degraded);
}

#[test]
fn icon_plan_skips_missing_or_absent_icon() {
    assert!(matches!(
        plan_icon(Some("/pics/none.png"), false, "/icons"),
        IconPlan::KeepExisting
    ));
    assert!(matches!(plan_icon(None, false, "/icons"), IconPlan::KeepExisting));
    assert!(matches!(
        resolved_new_icon(&IconPlan::KeepExisting, true),
        None::<(String, bool)>
    ));
}

#[test]
fn paths_are_joined_deterministically() {
    assert_eq!(join_path("/a/b", "c"), "/a/b/c");
    assert_eq!(base_name("/a/b/c.png"), "c.png");
    assert_eq!(base_name("noslash"), "noslash");
    assert_eq!(base_name("/ends/with/"), "");
    assert_eq!(
        desktop_file_path_for("/apps", "Editor"),
        "/apps/Editor.desktop"
    );
    assert_eq!(
        default_applications_dir(Some("/home/u/.local/share"), "/home/u"),
        "/home/u/.local/share/applications"
    );
    assert_eq!(
        default_applications_dir(None, "/home/u"),
        "/home/u/.local/share/applications"
    );
    assert_eq!(default_icons_dir("/home/u"), "/home/u/.local/share/icons");
}

#[test]
fn global_installation_check() {
    assert!(is_globally_installed(
        "/usr/local/bin/deskimage",
        "/usr/local/bin/deskimage",
        false
    ));
    assert!(is_globally_installed("/somewhere/else", "/usr/local/bin/deskimage", true));
    assert!(!is_globally_installed("/somewhere/else", "/usr/local/bin/deskimage", false));
}

#[test]
fn app_state_defaults_and_status_updates() {
    let mut app = DeskImageApp::default();
    assert!(app.appimage_path.is_none());
    assert!(app.icon_path.is_none());
    assert!(!app.is_installed);
    assert!(app.status_visible);
    assert_eq!(
        app.status_message,
        "Select an AppImage file to create a desktop entry"
    );
    app.status_visible = false;
    app.update_status("Processing...".to_string());
    assert_eq!(app.status_message, "Processing...");
    assert!(app.status_visible);
}
