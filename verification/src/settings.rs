//! Settings of the database views.

use vstd::prelude::*;

use crate::text::str_equal;

verus! {

/// Where a large text value is opened for editing.
#[derive(Clone, Copy, Debug, Default, PartialEq, Eq, Structural)]
pub enum LargeTextEditorOpenMode {
    /// In the preview side bar.
    #[default]
    SidebarPreview,
    /// In a dialog.
    Dialog,
}

/// The stored name of a mode.
pub open spec fn open_mode_name(mode: LargeTextEditorOpenMode) -> Seq<char> {
    match mode {
        LargeTextEditorOpenMode::SidebarPreview => "sidebar_preview"@,
        LargeTextEditorOpenMode::Dialog => "dialog"@,
    }
}

/// The mode that a stored name selects: `dialog`, or the side bar for any other name.
pub open spec fn open_mode_named(name: Seq<char>) -> LargeTextEditorOpenMode {
    if name == "dialog"@ {
        LargeTextEditorOpenMode::Dialog
    } else {
        LargeTextEditorOpenMode::SidebarPreview
    }
}

impl LargeTextEditorOpenMode {
    /// The stored name of the mode.
    pub fn as_str(&self) -> (r: &'static str)
        ensures
            r@ == open_mode_name(*self),
    {
        match self {
            LargeTextEditorOpenMode::SidebarPreview => "sidebar_preview",
            LargeTextEditorOpenMode::Dialog => "dialog",
        }
    }

    /// The mode with the stored name `value`; any name but `dialog` gives the side bar.
    pub fn from_str(value: &str) -> (r: Self)
        ensures
            r == open_mode_named(value@),
    {
        if str_equal(value, "dialog") {
            LargeTextEditorOpenMode::Dialog
        } else {
            LargeTextEditorOpenMode::SidebarPreview
        }
    }
}

/// The settings of the database views.
#[derive(Clone, Copy, Debug, Default, PartialEq, Eq, Structural)]
pub struct DbViewSettings {
    pub large_text_editor_open_mode: LargeTextEditorOpenMode,
}

/// Reading back the stored name of a mode gives that mode.
pub proof fn lemma_open_mode_name_round_trip(mode: LargeTextEditorOpenMode)
    ensures
        open_mode_named(open_mode_name(mode)) == mode,
{
    reveal_strlit("sidebar_preview");
    reveal_strlit("dialog");
    assert("sidebar_preview"@.len() != "dialog"@.len());
}

/// Where the application keeps the database view settings once they are set.
pub struct SettingsStore {
    stored: Option<DbViewSettings>,
}

impl View for SettingsStore {
    /// The stored settings, if any were set.
    type V = Option<DbViewSettings>;

    closed spec fn view(&self) -> Option<DbViewSettings> {
        self.stored
    }
}

impl SettingsStore {
    /// A store that holds no settings yet.
    pub fn new() -> (s: Self)
        ensures
            s@ is None,
    {
        SettingsStore { stored: None }
    }
}

/// The settings that a store gives: the stored ones, or the defaults.
pub open spec fn settings_in(stored: Option<DbViewSettings>) -> DbViewSettings {
    match stored {
        Some(s) => s,
        None => DbViewSettings { large_text_editor_open_mode: LargeTextEditorOpenMode::SidebarPreview },
    }
}

/// Stores `settings`, replacing any stored before.
pub fn init_settings(store: &mut SettingsStore, settings: DbViewSettings)
    ensures
        final(store)@ == Some(settings),
{
    store.stored = Some(settings);
}

/// The current settings: the stored ones, or the defaults.
pub fn current_settings(store: &SettingsStore) -> (r: DbViewSettings)
    ensures
        r == settings_in(store@),
{
    match store.stored {
        Some(s) => s,
        None => DbViewSettings { large_text_editor_open_mode: LargeTextEditorOpenMode::SidebarPreview },
    }
}

/// Changes where large text values open, keeping the other settings.
pub fn set_large_text_editor_open_mode(mode: LargeTextEditorOpenMode, store: &mut SettingsStore)
    ensures
        final(store)@ == Some((DbViewSettings { large_text_editor_open_mode: mode, ..settings_in(old(store)@) })),
{
    let mut settings = current_settings(store);
    settings.large_text_editor_open_mode = mode;
    init_settings(store, settings);
}

/// After the open mode was set, the current settings have that mode.
pub proof fn lemma_open_mode_read_after_set(stored: Option<DbViewSettings>, mode: LargeTextEditorOpenMode)
    ensures
        settings_in(Some((DbViewSettings { large_text_editor_open_mode: mode, ..settings_in(stored) }))).large_text_editor_open_mode
            == mode,
{
}

} // verus!
