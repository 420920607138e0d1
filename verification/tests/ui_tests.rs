use ecargo::config::Config;
use ecargo::pkg::{DepKind, PkgKey};
use ecargo::ui::{
    depkind_badge_label, markdown_tab_label, MdContent, MdContentKind, SettingsWindow, Tab,
};

#[test]
fn default_config() {
    let c = Config::default();
    assert_eq!(c.style_name, "crates.io");
    assert_eq!(c.terminal_app, "");
}

#[test]
fn default_tab_is_single_view() {
    assert_eq!(Tab::default(), Tab::ViewSingle);
    assert_ne!(Tab::default(), Tab::Licenses);
}

#[test]
fn settings_window_starts_closed() {
    assert!(!SettingsWindow::default().open);
}

#[test]
fn markdown_content_new_keeps_fields() {
    let m = MdContent::new("# hello".to_string(), MdContentKind::Changelog, PkgKey { idx: 4 });
    assert_eq!(m.md, "# hello");
    assert_eq!(m.kind, MdContentKind::Changelog);
    assert_eq!(m.key.idx, 4);
}

#[test]
fn markdown_content_default_is_empty_readme() {
    let m = MdContent::default();
    assert_eq!(m.md, "");
    assert_eq!(m.kind, MdContentKind::Readme);
}

#[test]
fn markdown_tab_labels() {
    assert_eq!(markdown_tab_label(MdContentKind::Readme, "serde"), "Readme - serde");
    assert_eq!(markdown_tab_label(MdContentKind::Changelog, "rand"), "Changelog - rand");
    assert_eq!(markdown_tab_label(MdContentKind::CargoToml, "toml"), "Cargo.toml - toml");
}

#[test]
fn depkind_badge_labels() {
    assert_eq!(depkind_badge_label(DepKind::Normal), "normal");
    assert_eq!(depkind_badge_label(DepKind::Development), "dev");
    assert_eq!(depkind_badge_label(DepKind::Build), "build");
    assert_eq!(depkind_badge_label(DepKind::Unknown), "unknown");
}
