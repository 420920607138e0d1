//! State and pure helpers behind the viewer's interface: the selected
//! tab, the settings window flag, the markdown pane's content, and the
//! label rules for tabs and dependency-kind badges.
//!
//! Everything that draws stays outside the library; these types carry the
//! state the drawing code reads, and these functions decide the texts it
//! shows.

use vstd::prelude::*;
use vstd::string::StringExecFns;
use crate::pkg::{DepKind, PkgKey};

verus! {

/// The tabs of the main view.
#[derive(Clone, Copy, PartialEq, Eq, Structural, Debug)]
pub enum Tab {
    /// One package in detail.
    ViewSingle,
    /// The filterable package list.
    PackageList,
    /// The markdown pane (README, CHANGELOG or manifest text).
    Markdown,
    /// Packages grouped by license.
    Licenses,
}

impl Default for Tab {
    /// The view opens on the single-package tab.
    fn default() -> (t: Tab)
        ensures
            t == Tab::ViewSingle,
    {
        Tab::ViewSingle
    }
}

/// State of the settings window.
pub struct SettingsWindow {
    pub open: bool,
}

impl Default for SettingsWindow {
    /// The settings window starts closed.
    fn default() -> (w: SettingsWindow)
        ensures
            !w.open,
    {
        SettingsWindow { open: false }
    }
}

/// What kind of document the markdown pane shows.
#[derive(Clone, Copy, PartialEq, Eq, Structural, Debug)]
pub enum MdContentKind {
    Readme,
    Changelog,
    CargoToml,
}

/// Markdown content: the text shown in the markdown pane, what kind of
/// document it is, and which package it belongs to.
pub struct MdContent {
    pub md: String,
    pub kind: MdContentKind,
    pub key: PkgKey,
}

impl MdContent {
    pub fn new(md: String, kind: MdContentKind, key: PkgKey) -> (m: MdContent)
        ensures
            m.md == md,
            m.kind == kind,
            m.key == key,
    {
        MdContent { md, kind, key }
    }
}

impl Default for MdContent {
    /// Empty content, presented as a README of no package.
    fn default() -> (m: MdContent)
        ensures
            m.md@ == Seq::<char>::empty(),
            m.kind == MdContentKind::Readme,
            m.key.idx == 0,
    {
        MdContent { md: String::new(), kind: MdContentKind::Readme, key: PkgKey { idx: 0 } }
    }
}

/// Icon texts of the interface.
pub struct Icons {
    pub settings: &'static str,
}

/// The heading of each markdown document kind.
pub open spec fn md_kind_label(kind: MdContentKind) -> Seq<char> {
    match kind {
        MdContentKind::Readme => "Readme"@,
        MdContentKind::Changelog => "Changelog"@,
        MdContentKind::CargoToml => "Cargo.toml"@,
    }
}

/// The heading of each markdown document kind, as text.
pub fn md_kind_str(kind: MdContentKind) -> (s: &'static str)
    ensures
        s@ == md_kind_label(kind),
{
    match kind {
        MdContentKind::Readme => "Readme",
        MdContentKind::Changelog => "Changelog",
        MdContentKind::CargoToml => "Cargo.toml",
    }
}

/// Label of the markdown tab: the document kind's heading, a separator,
/// and the package's name.
pub fn markdown_tab_label(kind: MdContentKind, pkgname: &str) -> (label: String)
    ensures
        label@ == md_kind_label(kind) + " - "@ + pkgname@,
{
    let mut label = md_kind_str(kind).to_owned();
    label.append(" - ");
    label.append(pkgname);
    label
}

/// The badge text of each dependency-edge kind.
pub open spec fn spec_depkind_label(kind: DepKind) -> Seq<char> {
    match kind {
        DepKind::Normal => "normal"@,
        DepKind::Development => "dev"@,
        DepKind::Build => "build"@,
        DepKind::Unknown => "unknown"@,
    }
}

/// The badge text of each dependency-edge kind, as text.
pub fn depkind_badge_label(kind: DepKind) -> (s: &'static str)
    ensures
        s@ == spec_depkind_label(kind),
{
    match kind {
        DepKind::Normal => "normal",
        DepKind::Development => "dev",
        DepKind::Build => "build",
        DepKind::Unknown => "unknown",
    }
}

} // verus!
