use onetcli::canvas::{
    current_tool_mode, set_tool_mode, should_start_pan, CanvasToolMode, ErDiagramScrollPanPlugin,
    SharedState, ViewportPlugin,
};
use onetcli::icon::{IconColorMode, IconSize};
use onetcli::settings::{
    current_settings, init_settings, set_large_text_editor_open_mode, DbViewSettings,
    LargeTextEditorOpenMode, SettingsStore,
};

#[test]
fn tool_mode_defaults_to_select() {
    let shared_state = SharedState::new();

    assert_eq!(CanvasToolMode::Select, current_tool_mode(&shared_state));
}

#[test]
fn tool_mode_can_switch_to_pan() {
    let mut shared_state = SharedState::new();

    set_tool_mode(&mut shared_state, CanvasToolMode::Pan);

    assert_eq!(CanvasToolMode::Pan, current_tool_mode(&shared_state));
}

#[test]
fn tool_mode_switches_back_to_select() {
    let mut shared_state = SharedState::new();
    set_tool_mode(&mut shared_state, CanvasToolMode::Pan);
    set_tool_mode(&mut shared_state, CanvasToolMode::Select);
    assert_eq!(CanvasToolMode::Select, current_tool_mode(&shared_state));
    assert!(!current_tool_mode(&shared_state).is_pan());
    assert!(CanvasToolMode::Pan.is_pan());
}

#[test]
fn default_viewport_keeps_shift_drag_pan_behavior() {
    assert!(should_start_pan(true, false, false, false));
    assert!(!should_start_pan(false, false, false, false));
}

#[test]
fn blank_left_drag_pans_only_when_not_over_node() {
    assert!(should_start_pan(false, true, false, false));
    assert!(!should_start_pan(false, true, true, false));
}

#[test]
fn pan_tool_pans_even_when_over_node() {
    assert!(should_start_pan(false, false, true, true));
}

#[test]
fn viewport_plugins_differ_only_on_blank_drag() {
    let plain = ViewportPlugin::new();
    let blank = ViewportPlugin::with_blank_left_drag();
    assert!(!plain.pans_on_left_press(false, false, false));
    assert!(blank.pans_on_left_press(false, false, false));
    assert!(!blank.pans_on_left_press(false, true, false));
    assert!(plain.pans_on_left_press(true, true, false));
    let _ = ErDiagramScrollPanPlugin::new();
}

#[test]
fn large_text_editor_open_mode_defaults_to_sidebar_preview() {
    assert_eq!(
        LargeTextEditorOpenMode::from_str("unknown"),
        LargeTextEditorOpenMode::SidebarPreview
    );
}

#[test]
fn large_text_editor_open_mode_parses_dialog() {
    assert_eq!(
        LargeTextEditorOpenMode::from_str("dialog"),
        LargeTextEditorOpenMode::Dialog
    );
}

#[test]
fn large_text_editor_open_mode_names_round_trip() {
    for mode in [LargeTextEditorOpenMode::SidebarPreview, LargeTextEditorOpenMode::Dialog] {
        assert_eq!(LargeTextEditorOpenMode::from_str(mode.as_str()), mode);
    }
    assert_eq!(LargeTextEditorOpenMode::Dialog.as_str(), "dialog");
    assert_eq!(
        DbViewSettings::default().large_text_editor_open_mode,
        LargeTextEditorOpenMode::SidebarPreview
    );
}

#[test]
fn icon_sizes_have_fixed_pixels_and_defaults() {
    assert_eq!(16, IconSize::default().pixels());
    assert_eq!(12, IconSize::Micro.pixels());
    assert_eq!(14, IconSize::Small.pixels());
    assert_eq!(20, IconSize::Medium.pixels());
    assert_eq!(24, IconSize::Large.pixels());
    assert_eq!(32, IconSize::Display.pixels());
    assert_eq!(40, IconSize::Hero.pixels());
    assert_eq!(IconColorMode::Mono, IconColorMode::default());
}

#[test]
fn settings_store_defaults_and_keeps_the_open_mode() {
    let mut store = SettingsStore::new();
    assert_eq!(DbViewSettings::default(), current_settings(&store));
    set_large_text_editor_open_mode(LargeTextEditorOpenMode::Dialog, &mut store);
    assert_eq!(
        LargeTextEditorOpenMode::Dialog,
        current_settings(&store).large_text_editor_open_mode
    );
    init_settings(&mut store, DbViewSettings::default());
    assert_eq!(
        LargeTextEditorOpenMode::SidebarPreview,
        current_settings(&store).large_text_editor_open_mode
    );
}
