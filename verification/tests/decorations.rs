use onetcli::decorations::{
    adjust_offset_for_edit, adjust_range_for_edit, normalize, normalize_ranges, normalize_widgets,
    DecorationCollections, EditorAnnotations, GutterMarker, InlineWidget, InputBaseState,
    RangeDecoration, RangeDecorationStyle, TextDecoration,
};

#[derive(Clone, Copy, Debug, PartialEq)]
enum Style {
    Bold,
    RedBackground,
    Plain,
}

#[test]
fn collections_are_independent_and_ranges_are_clipped() {
    let text = "héllo";
    let first_style = Style::Bold;
    let second_style = Style::RedBackground;
    let mut collections = DecorationCollections::new();

    let first = collections.create(normalize(
        text,
        vec![TextDecoration::new(2..4, first_style)],
    ));
    let second = collections.create(normalize(
        text,
        vec![TextDecoration::new(5..100, second_style)],
    ));

    assert_ne!(first, second);
    assert_eq!(
        collections.get(first),
        Some(&[TextDecoration::new(1..4, first_style)][..])
    );
    assert_eq!(
        collections.get(second),
        Some(&[TextDecoration::new(5..6, second_style)][..])
    );

    assert!(collections.append(first, vec![TextDecoration::new(4..5, second_style)]));
    assert_eq!(
        collections.get(first),
        Some(
            &[
                TextDecoration::new(1..4, first_style),
                TextDecoration::new(4..5, second_style),
            ][..]
        )
    );

    assert!(collections.set(first, Vec::new()));
    assert_eq!(collections.get(first), Some(&[][..]));
    assert_eq!(
        collections.get(second),
        Some(&[TextDecoration::new(5..6, second_style)][..])
    );
}

#[test]
fn decoration_ranges_follow_text_edits() {
    let style = Style::Plain;
    let mut collections = DecorationCollections::new();
    let collection = collections.create(vec![TextDecoration::new(2..6, style)]);

    collections.adjust_for_edit(&(0..0), 2);
    assert_eq!(
        collections.get(collection),
        Some(&[TextDecoration::new(4..8, style)][..])
    );

    collections.adjust_for_edit(&(6..6), 2);
    assert_eq!(
        collections.get(collection),
        Some(&[TextDecoration::new(4..10, style)][..])
    );

    collections.adjust_for_edit(&(4..10), 3);
    assert_eq!(
        collections.get(collection),
        Some(&[TextDecoration::new(4..7, style)][..])
    );

    assert_eq!(adjust_range_for_edit(&(2..6), &(2..2), 2), 4..8);
    assert_eq!(adjust_range_for_edit(&(2..6), &(6..6), 2), 2..6);
    assert_eq!(adjust_range_for_edit(&(2..6), &(2..6), 3), 2..5);
}

#[test]
fn geometric_decorations_and_widgets_follow_utf8_edits() {
    let mut annotations: EditorAnnotations<u32> = EditorAnnotations::new();
    annotations.range_decorations = vec![RangeDecoration::new("range", 2..6)];
    annotations.inline_widgets = vec![InlineWidget::new("hint", 6, "hint")];

    annotations.adjust_for_edit(&(0..0), "é".len());
    assert_eq!(annotations.range_decorations[0].range(), &(4..8));
    assert_eq!(annotations.inline_widgets[0].offset(), 8);

    annotations.adjust_for_edit(&(5..7), 1);
    assert_eq!(annotations.range_decorations[0].range(), &(4..7));
    assert_eq!(annotations.inline_widgets[0].offset(), 7);
}

#[test]
fn extension_ranges_and_offsets_clip_to_utf8_boundaries() {
    let text = "éx";
    let decorations = normalize_ranges::<u32>(text, vec![RangeDecoration::new("range", 1..3)]);
    let widgets = normalize_widgets(text, vec![InlineWidget::new("hint", 1, "hint")]);

    assert_eq!(decorations[0].range(), &(0..3));
    assert_eq!(widgets[0].offset(), 0);
}

#[test]
fn edits_drop_emptied_ranges_and_move_offsets_inside_edits() {
    let mut annotations: EditorAnnotations<u32> = EditorAnnotations::new();
    annotations.range_decorations = vec![
        RangeDecoration::new("gone", 3..5).with_style(RangeDecorationStyle::Fill),
        RangeDecoration::new("kept", 0..2).with_color(7),
    ];
    annotations.inline_widgets = vec![InlineWidget::new("w", 4, "x")];
    annotations.adjust_for_edit(&(2..6), 0);
    assert_eq!(annotations.range_decorations.len(), 1);
    assert_eq!(annotations.range_decorations[0].id(), "kept");
    assert_eq!(annotations.range_decorations[0].color(), &Some(7));
    assert_eq!(annotations.inline_widgets[0].offset(), 2);
    assert_eq!(adjust_offset_for_edit(9, &(2..6), 1), 6);
    assert_eq!(adjust_offset_for_edit(1, &(0..4), 0), 0);
    assert_eq!(adjust_offset_for_edit(2, &(2..2), 5), 2);
}

#[test]
fn input_state_clips_annotations_and_reports_changes() {
    let mut state: InputBaseState<Style, u32> = InputBaseState::new("aé".to_string());
    assert_eq!(state.document_revision(), 0);
    let collection = state.create_decorations_collection(vec![TextDecoration::new(2..9, Style::Bold)]);
    assert_eq!(collection.get_ranges(&state), vec![1..3]);
    assert!(collection.append(&mut state, vec![TextDecoration::new(0..1, Style::Plain)]));
    assert_eq!(collection.get_ranges(&state), vec![1..3, 0..1]);
    assert!(collection.clear(&mut state));
    assert!(collection.get_ranges(&state).is_empty());

    state.set_range_decorations(vec![RangeDecoration::new("r", 3..3), RangeDecoration::new("s", 2..3)]);
    assert_eq!(state.range_decorations().len(), 1);
    assert_eq!(state.range_decorations()[0].range(), &(1..3));
    assert!(state.clear_range_decorations());
    assert!(!state.clear_range_decorations());

    state.set_inline_widgets(vec![InlineWidget::new("w", 2, "hint")]);
    assert_eq!(state.inline_widgets()[0].offset(), 1);
    assert_eq!(state.inline_widgets()[0].text(), "hint");

    assert!(!state.clear_gutter_markers());
    let marker = GutterMarker::new("bp", 3, "dot").with_tooltip("Breakpoint").enabled(false);
    assert_eq!(marker.tooltip(), Some("Breakpoint"));
    assert!(!marker.is_enabled());
    state.set_gutter_markers(vec![marker]);
    assert_eq!(state.gutter_markers()[0].logical_row(), 3);
    assert!(state.clear_gutter_markers());
    assert!(state.gutter_markers().is_empty());
}

#[test]
fn annotation_changes_keep_the_revision_and_the_marker_lane() {
    let mut state: InputBaseState<Style, u32> = InputBaseState::new("abc".to_string());
    assert!(!state.gutter_lane_reserved());
    state.set_gutter_markers(vec![GutterMarker::new("bp", 0, "dot")]);
    assert!(state.gutter_lane_reserved());
    assert!(state.clear_gutter_markers());
    assert!(state.gutter_lane_reserved());

    let collection = state.create_decorations_collection(vec![TextDecoration::new(0..1, Style::Bold)]);
    assert!(state.gutter_lane_reserved());
    assert!(collection.set(&mut state, vec![TextDecoration::new(1..2, Style::Plain)]));
    assert!(collection.append(&mut state, vec![TextDecoration::new(2..3, Style::Plain)]));
    assert!(collection.clear(&mut state));
    state.set_range_decorations(vec![RangeDecoration::new("r", 0..2)]);
    assert!(state.clear_range_decorations());
    state.set_inline_widgets(vec![InlineWidget::new("w", 1, "hint")]);
    assert!(state.clear_inline_widgets());
    state.set_gutter_markers(Vec::new());

    assert!(state.gutter_lane_reserved());
    assert_eq!(state.document_revision(), 0);
    assert_eq!(state.text(), "abc");
}

#[test]
fn collection_ranges_follow_the_last_set_or_clear() {
    let mut state: InputBaseState<Style, u32> = InputBaseState::new("aé!".to_string());
    let first = state.create_decorations_collection(vec![TextDecoration::new(0..1, Style::Bold)]);
    let second = state.create_decorations_collection(vec![TextDecoration::new(3..4, Style::Plain)]);

    assert!(first.set(
        &mut state,
        vec![
            TextDecoration::new(2..9, Style::Bold),
            TextDecoration::new(4..4, Style::Plain),
            TextDecoration::new(0..2, Style::Plain),
        ],
    ));
    assert!(second.append(&mut state, vec![TextDecoration::new(0..1, Style::Bold)]));
    assert!(second.clear(&mut state));
    assert_eq!(first.get_ranges(&state), vec![1..4, 0..3]);
    assert!(second.get_ranges(&state).is_empty());

    assert!(first.append(&mut state, vec![TextDecoration::new(3..4, Style::Plain)]));
    assert_eq!(first.get_ranges(&state), vec![1..4, 0..3, 3..4]);
    assert!(second.set(&mut state, vec![TextDecoration::new(1..1, Style::Bold)]));
    assert!(second.get_ranges(&state).is_empty());
    assert_eq!(first.get_ranges(&state), vec![1..4, 0..3, 3..4]);
}
