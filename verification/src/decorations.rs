//! Editor decorations anchored to UTF-8 byte offsets of the document: text decoration
//! collections, range decorations, inline widgets and gutter markers, and how they
//! follow edits of the text.

use std::ops::Range;
use vstd::prelude::*;
use vstd::utf8::{encode_utf8, is_char_boundary};

use crate::text::copy_str;

verus! {

broadcast use vstd::utf8::group_utf8_lib;

/// Which way an offset inside a character moves to reach a character boundary.
#[derive(Clone, Copy, Debug, PartialEq, Eq, Structural)]
pub enum Bias {
    /// Towards the start of the text.
    Left,
    /// Towards the end of the text.
    Right,
}

/// The boundary at or before `i` in `bytes`.
pub open spec fn boundary_at_or_before(bytes: Seq<u8>, i: int) -> int
    decreases i,
{
    if i <= 0 {
        0
    } else if is_char_boundary(bytes, i) {
        i
    } else {
        boundary_at_or_before(bytes, i - 1)
    }
}

/// The boundary at or after `i` in `bytes`.
pub open spec fn boundary_at_or_after(bytes: Seq<u8>, i: int) -> int
    decreases bytes.len() - i,
{
    if i >= bytes.len() {
        bytes.len() as int
    } else if is_char_boundary(bytes, i) {
        i
    } else {
        boundary_at_or_after(bytes, i + 1)
    }
}

/// `offset` moved into the text (of `len` bytes) and then to a character boundary.
pub open spec fn clip_offset(text: Seq<char>, offset: int, bias: Bias) -> int {
    let bytes = encode_utf8(text);
    let o = if offset > bytes.len() {
        bytes.len() as int
    } else {
        offset
    };
    match bias {
        Bias::Left => boundary_at_or_before(bytes, o),
        Bias::Right => boundary_at_or_after(bytes, o),
    }
}

/// Moves `offset` into `text` and onto a character boundary, in the direction of `bias`.
pub fn clip_offset_in(text: &str, offset: usize, bias: Bias) -> (r: usize)
    ensures
        r == clip_offset(text@, offset as int, bias),
        r <= encode_utf8(text@).len(),
{
    let len = text.as_bytes().len();
    let mut i = if offset > len {
        len
    } else {
        offset
    };
    let ghost bytes = encode_utf8(text@);
    assert(bytes == encode_utf8(text@));
    match bias {
        Bias::Left => {
            let ghost o = i as int;
            while i > 0 && !text.is_char_boundary(i)
                invariant
                    i <= len,
                    len == bytes.len(),
                    bytes == encode_utf8(text@),
                    boundary_at_or_before(bytes, o) == boundary_at_or_before(bytes, i as int),
                decreases i,
            {
                i -= 1;
            }
            i
        },
        Bias::Right => {
            let ghost o = i as int;
            while i < len && !text.is_char_boundary(i)
                invariant
                    i <= len,
                    len == bytes.len(),
                    bytes == encode_utf8(text@),
                    boundary_at_or_after(bytes, o) == boundary_at_or_after(bytes, i as int),
                decreases len - i,
            {
                i += 1;
            }
            i
        },
    }
}

// ---------------------------------------------------------------------------
// How offsets and ranges follow an edit.

/// The number of bytes that replacing `edited` removes.
pub open spec fn removed_len(edited: Range<usize>) -> int {
    if edited.end >= edited.start {
        edited.end - edited.start
    } else {
        0
    }
}

/// `offset`, which lies after an edit that replaced `edited` by `inserted_len` bytes,
/// moved by the change of length (saturating at the ends of `usize`).
pub open spec fn shift_after_edit(offset: usize, edited: Range<usize>, inserted_len: usize) -> usize {
    let moved = offset + inserted_len - removed_len(edited);
    if moved < 0 {
        0
    } else if moved > usize::MAX {
        usize::MAX
    } else {
        moved as usize
    }
}

fn shift_offset(offset: usize, removed: usize, inserted_len: usize) -> (r: usize)
    ensures
        r == (if offset + inserted_len - removed < 0 {
            0
        } else if offset + inserted_len - removed > usize::MAX {
            usize::MAX
        } else {
            (offset + inserted_len - removed) as usize
        }),
{
    if inserted_len >= removed {
        offset.saturating_add(inserted_len - removed)
    } else {
        offset.saturating_sub(removed - inserted_len)
    }
}

/// Where an offset lands after `edited` was replaced by `inserted_len` bytes: before
/// or at the edit's start it stays, inside the edit it moves to the end of the
/// inserted text, after the edit it moves by the change of length.
pub open spec fn offset_after_edit(offset: usize, edited: Range<usize>, inserted_len: usize) -> usize {
    if offset <= edited.start {
        offset
    } else if offset < edited.end {
        if edited.start + inserted_len > usize::MAX {
            usize::MAX
        } else {
            (edited.start + inserted_len) as usize
        }
    } else {
        shift_after_edit(offset, edited, inserted_len)
    }
}

/// Moves `offset` to follow the replacement of `edited_range` by `inserted_len` bytes.
pub fn adjust_offset_for_edit(offset: usize, edited_range: &Range<usize>, inserted_len: usize) -> (r: usize)
    ensures
        r == offset_after_edit(offset, *edited_range, inserted_len),
{
    if offset <= edited_range.start {
        return offset;
    }
    if offset < edited_range.end {
        return edited_range.start.saturating_add(inserted_len);
    }
    let removed = edited_range.end.saturating_sub(edited_range.start);
    shift_offset(offset, removed, inserted_len)
}

/// Where a range lands after `edited` was replaced by `inserted_len` bytes.
/// For an insertion (an empty `edited`), a bound before the insertion point stays and
/// any other bound moves with the text, so a range never grows at its edges. For a
/// replacement, a bound before the edit stays, a bound after it moves by the change
/// of length, and a bound inside it snaps to the start (for `start`) or to the end
/// of the inserted text (for `end`).
pub open spec fn range_after_edit(range: Range<usize>, edited: Range<usize>, inserted_len: usize) -> Range<usize> {
    if !(edited.start < edited.end) {
        Range {
            start: if range.start < edited.start {
                range.start
            } else {
                shift_after_edit(range.start, edited, inserted_len)
            },
            end: if range.end <= edited.start {
                range.end
            } else {
                shift_after_edit(range.end, edited, inserted_len)
            },
        }
    } else {
        Range {
            start: if range.start <= edited.start {
                range.start
            } else if range.start >= edited.end {
                shift_after_edit(range.start, edited, inserted_len)
            } else {
                edited.start
            },
            end: if range.end <= edited.start {
                range.end
            } else if range.end >= edited.end {
                shift_after_edit(range.end, edited, inserted_len)
            } else {
                (edited.start + inserted_len) as usize
            },
        }
    }
}

/// A range that lies wholly after an edit moves with the text: both of its ends move
/// by the number of bytes the edit inserted minus the number it removed, so its length
/// stays (when its end stays within `usize`).
pub proof fn lemma_range_after_edit_moves_with_text(range: Range<usize>, edited: Range<usize>, inserted_len: usize)
    requires
        edited.start <= edited.end <= range.start <= range.end,
        edited.start == edited.end ==> range.start < range.end,
        range.end + inserted_len - (edited.end - edited.start) <= usize::MAX,
    ensures
        range_after_edit(range, edited, inserted_len).start == range.start + inserted_len - (edited.end
            - edited.start),
        range_after_edit(range, edited, inserted_len).end == range.end + inserted_len - (edited.end
            - edited.start),
        range_after_edit(range, edited, inserted_len).end - range_after_edit(range, edited, inserted_len).start
            == range.end - range.start,
{
}

/// A range that holds a replaced span keeps its start and grows or shrinks at its end
/// by what the edit added or removed.
pub proof fn lemma_range_around_edit_resizes(range: Range<usize>, edited: Range<usize>, inserted_len: usize)
    requires
        range.start <= edited.start < edited.end <= range.end,
        range.end + inserted_len - (edited.end - edited.start) <= usize::MAX,
    ensures
        range_after_edit(range, edited, inserted_len).start == range.start,
        range_after_edit(range, edited, inserted_len).end == range.end + inserted_len - (edited.end
            - edited.start),
{
}

/// An offset follows an edit: at or before the edit's start it stays, inside the
/// replaced span it lands at the end of the inserted text, and after the span it moves
/// by what the edit added or removed.
pub proof fn lemma_offset_follows_edit(offset: usize, edited: Range<usize>, inserted_len: usize)
    requires
        edited.start <= edited.end,
        edited.start + inserted_len <= usize::MAX,
        offset + inserted_len - (edited.end - edited.start) <= usize::MAX,
    ensures
        offset <= edited.start ==> offset_after_edit(offset, edited, inserted_len) == offset,
        edited.start < offset < edited.end ==> offset_after_edit(offset, edited, inserted_len)
            == edited.start + inserted_len,
        edited.start < offset && edited.end <= offset ==> offset_after_edit(offset, edited, inserted_len)
            == offset + inserted_len - (edited.end - edited.start),
{
}

/// Moves `range` to follow the replacement of `edited_range` by `inserted_len` bytes.
pub fn adjust_range_for_edit(range: &Range<usize>, edited_range: &Range<usize>, inserted_len: usize) -> (r: Range<usize>)
    requires
        edited_range.start < edited_range.end ==> edited_range.start + inserted_len <= usize::MAX,
    ensures
        r == range_after_edit(*range, *edited_range, inserted_len),
        // An edit after the range leaves it as it is.
        range.start < range.end <= edited_range.start ==> r == *range,
        // Inserting at either edge of a range moves it without making it longer.
        !(edited_range.start < edited_range.end) && (edited_range.start == range.start
            || edited_range.start == range.end) && range.start < range.end && range.end
            + inserted_len <= usize::MAX ==> r.end - r.start == range.end - range.start,
        // Inserting strictly inside a range makes it longer by the inserted text.
        !(edited_range.start < edited_range.end) && range.start < edited_range.start
            < range.end && range.end + inserted_len <= usize::MAX ==> r.start == range.start
            && r.end == range.end + inserted_len,
        // A range wholly after a replaced span moves with the text at both ends, by what
        // the edit added or removed, and keeps its length.
        edited_range.start < edited_range.end <= range.start <= range.end && range.end
            + inserted_len - (edited_range.end - edited_range.start) <= usize::MAX ==> r.start
            == range.start + inserted_len - (edited_range.end - edited_range.start) && r.end
            == range.end + inserted_len - (edited_range.end - edited_range.start),
        // A range wholly after an insertion point moves by the inserted length.
        edited_range.start == edited_range.end <= range.start < range.end && range.end
            + inserted_len <= usize::MAX ==> r.start == range.start + inserted_len && r.end
            == range.end + inserted_len,
{
    let removed = edited_range.end.saturating_sub(edited_range.start);
    if !(edited_range.start < edited_range.end) {
        let start = if range.start < edited_range.start {
            range.start
        } else {
            shift_offset(range.start, removed, inserted_len)
        };
        let end = if range.end <= edited_range.start {
            range.end
        } else {
            shift_offset(range.end, removed, inserted_len)
        };
        return Range { start, end };
    }
    let inserted_end = edited_range.start + inserted_len;
    let start = if range.start <= edited_range.start {
        range.start
    } else if range.start >= edited_range.end {
        shift_offset(range.start, removed, inserted_len)
    } else {
        edited_range.start
    };
    let end = if range.end <= edited_range.start {
        range.end
    } else if range.end >= edited_range.end {
        shift_offset(range.end, removed, inserted_len)
    } else {
        inserted_end
    };
    Range { start, end }
}


// ---------------------------------------------------------------------------
// Decoration values.

/// A feature-owned marker anchored to a logical editor row.
#[derive(Clone, Debug, PartialEq, Eq)]
pub struct GutterMarker {
    id: String,
    logical_row: usize,
    icon: String,
    tooltip: Option<String>,
    enabled: bool,
}

/// The model of a [`GutterMarker`].
pub struct GutterMarkerView {
    pub id: Seq<char>,
    pub logical_row: usize,
    pub icon: Seq<char>,
    pub tooltip: Option<Seq<char>>,
    pub enabled: bool,
}

impl View for GutterMarker {
    type V = GutterMarkerView;

    closed spec fn view(&self) -> GutterMarkerView {
        GutterMarkerView {
            id: self.id@,
            logical_row: self.logical_row,
            icon: self.icon@,
            tooltip: match self.tooltip {
                Some(t) => Some(t@),
                None => None,
            },
            enabled: self.enabled,
        }
    }
}

impl GutterMarker {
    /// An enabled marker without tooltip.
    pub fn new(id: &str, logical_row: usize, icon: &str) -> (m: Self)
        ensures
            m@ == (GutterMarkerView {
                id: id@,
                logical_row,
                icon: icon@,
                tooltip: None,
                enabled: true,
            }),
    {
        GutterMarker {
            id: copy_str(id),
            logical_row,
            icon: copy_str(icon),
            tooltip: None,
            enabled: true,
        }
    }

    pub fn id(&self) -> (r: &str)
        ensures
            r@ == self@.id,
    {
        self.id.as_str()
    }

    pub fn logical_row(&self) -> (r: usize)
        ensures
            r == self@.logical_row,
    {
        self.logical_row
    }

    pub fn icon(&self) -> (r: &str)
        ensures
            r@ == self@.icon,
    {
        self.icon.as_str()
    }

    pub fn tooltip(&self) -> (r: Option<&str>)
        ensures
            match r {
                Some(t) => self@.tooltip == Some(t@),
                None => self@.tooltip is None,
            },
    {
        match &self.tooltip {
            Some(t) => Some(t.as_str()),
            None => None,
        }
    }

    pub fn is_enabled(&self) -> (r: bool)
        ensures
            r == self@.enabled,
    {
        self.enabled
    }

    /// The marker with a tooltip.
    pub fn with_tooltip(self, tooltip: &str) -> (m: Self)
        ensures
            m@ == (GutterMarkerView { tooltip: Some(tooltip@), ..self@ }),
    {
        GutterMarker { tooltip: Some(copy_str(tooltip)), ..self }
    }

    /// The marker, enabled or not.
    pub fn enabled(self, enabled: bool) -> (m: Self)
        ensures
            m@ == (GutterMarkerView { enabled, ..self@ }),
    {
        GutterMarker { enabled, ..self }
    }
}

/// Geometric presentation for an editor range decoration.
#[derive(Clone, Copy, Debug, Default, PartialEq, Eq, Structural)]
pub enum RangeDecorationStyle {
    /// Fill the continuous visual range.
    Fill,
    /// Draw a continuous one-pixel frame around the visual range.
    #[default]
    Frame,
}

/// A geometric decoration over a UTF-8 byte range, with an optional color `C`.
#[derive(Debug, PartialEq)]
pub struct RangeDecoration<C> {
    id: String,
    range: Range<usize>,
    style: RangeDecorationStyle,
    color: Option<C>,
}

impl<C> RangeDecoration<C> {
    pub closed spec fn spec_id(&self) -> Seq<char> {
        self.id@
    }

    pub closed spec fn spec_range(&self) -> Range<usize> {
        self.range
    }

    pub closed spec fn spec_style(&self) -> RangeDecorationStyle {
        self.style
    }

    pub closed spec fn spec_color(&self) -> Option<C> {
        self.color
    }

    /// The decoration with the same id, style and color over another range.
    pub closed spec fn with_spec_range(self, range: Range<usize>) -> Self {
        RangeDecoration { range, ..self }
    }

    /// A framed decoration over `range`, without color.
    pub fn new(id: &str, range: Range<usize>) -> (d: Self)
        ensures
            d.spec_id() == id@,
            d.spec_range() == range,
            d.spec_style() == RangeDecorationStyle::Frame,
            d.spec_color() is None,
    {
        RangeDecoration { id: copy_str(id), range, style: RangeDecorationStyle::Frame, color: None }
    }

    pub fn id(&self) -> (r: &str)
        ensures
            r@ == self.spec_id(),
    {
        self.id.as_str()
    }

    pub fn range(&self) -> (r: &Range<usize>)
        ensures
            *r == self.spec_range(),
    {
        &self.range
    }

    pub fn style(&self) -> (r: RangeDecorationStyle)
        ensures
            r == self.spec_style(),
    {
        self.style
    }

    pub fn color(&self) -> (r: &Option<C>)
        ensures
            *r == self.spec_color(),
    {
        &self.color
    }

    pub fn with_style(self, style: RangeDecorationStyle) -> (d: Self)
        ensures
            d.spec_style() == style,
            d.spec_id() == self.spec_id() && d.spec_range() == self.spec_range() && d.spec_color()
                == self.spec_color(),
    {
        RangeDecoration { style, ..self }
    }

    pub fn with_color(self, color: C) -> (d: Self)
        ensures
            d.spec_color() == Some(color),
            d.spec_id() == self.spec_id() && d.spec_range() == self.spec_range() && d.spec_style()
                == self.spec_style(),
    {
        RangeDecoration { color: Some(color), ..self }
    }
}

/// Non-document text painted at a UTF-8 byte offset.
#[derive(Clone, Debug, PartialEq, Eq)]
pub struct InlineWidget {
    id: String,
    offset: usize,
    text: String,
}

impl InlineWidget {
    pub closed spec fn spec_id(&self) -> Seq<char> {
        self.id@
    }

    pub closed spec fn spec_offset(&self) -> usize {
        self.offset
    }

    pub closed spec fn spec_text(&self) -> Seq<char> {
        self.text@
    }

    /// The widget with the same id and text at another offset.
    pub closed spec fn with_spec_offset(self, offset: usize) -> Self {
        InlineWidget { offset, ..self }
    }

    pub fn new(id: &str, offset: usize, text: &str) -> (w: Self)
        ensures
            w.spec_id() == id@,
            w.spec_offset() == offset,
            w.spec_text() == text@,
    {
        InlineWidget { id: copy_str(id), offset, text: copy_str(text) }
    }

    pub fn id(&self) -> (r: &str)
        ensures
            r@ == self.spec_id(),
    {
        self.id.as_str()
    }

    pub fn offset(&self) -> (r: usize)
        ensures
            r == self.spec_offset(),
    {
        self.offset
    }

    pub fn text(&self) -> (r: &str)
        ensures
            r@ == self.spec_text(),
    {
        self.text.as_str()
    }
}

/// A presentation style `S` applied to a UTF-8 byte range of an input.
#[derive(Debug, PartialEq)]
pub struct TextDecoration<S> {
    pub range: Range<usize>,
    pub style: S,
}

impl<S> TextDecoration<S> {
    /// A text decoration over `range`.
    pub fn new(range: Range<usize>, style: S) -> (d: Self)
        ensures
            d == (TextDecoration { range, style }),
    {
        TextDecoration { range, style }
    }
}


impl<C: Clone> Clone for RangeDecoration<C> {
    fn clone(&self) -> (d: Self)
        ensures
            d.spec_id() == self.spec_id() && d.spec_range() == self.spec_range() && d.spec_style()
                == self.spec_style(),
    {
        RangeDecoration {
            id: self.id.clone(),
            range: Range { start: self.range.start, end: self.range.end },
            style: self.style,
            color: self.color.clone(),
        }
    }
}

impl<S: Clone> Clone for TextDecoration<S> {
    fn clone(&self) -> (d: Self)
        ensures
            d.range == self.range,
    {
        TextDecoration { range: Range { start: self.range.start, end: self.range.end }, style: self.style.clone() }
    }
}


// ---------------------------------------------------------------------------
// Following edits and clipping to the text.

/// Text decorations after an edit: each range follows the edit, and decorations whose
/// range became empty are dropped.
pub open spec fn decorations_after_edit<S>(
    ds: Seq<TextDecoration<S>>,
    edited: Range<usize>,
    inserted_len: usize,
) -> Seq<TextDecoration<S>>
    decreases ds.len(),
{
    if ds.len() == 0 {
        seq![]
    } else {
        let r = range_after_edit(ds.last().range, edited, inserted_len);
        decorations_after_edit(ds.drop_last(), edited, inserted_len) + (if r.start < r.end {
            seq![TextDecoration { range: r, style: ds.last().style }]
        } else {
            seq![]
        })
    }
}

/// Moves every decoration of `ds` with an edit and drops those that became empty.
pub fn adjust_decorations_for_edit<S>(
    ds: Vec<TextDecoration<S>>,
    edited_range: &Range<usize>,
    inserted_len: usize,
) -> (r: Vec<TextDecoration<S>>)
    requires
        edited_range.start < edited_range.end ==> edited_range.start + inserted_len <= usize::MAX,
    ensures
        r@ == decorations_after_edit(ds@, *edited_range, inserted_len),
{
    let ghost all = ds@;
    let mut out: Vec<TextDecoration<S>> = Vec::new();
    for d in it: ds.into_iter()
        invariant
            it.seq() == all,
            edited_range.start < edited_range.end ==> edited_range.start + inserted_len
                <= usize::MAX,
            out@ == decorations_after_edit(all.take(it.index() as int), *edited_range, inserted_len),
    {
        let ghost k = it.index() as int;
        assert(all.take(k + 1).drop_last() =~= all.take(k));
        let range = adjust_range_for_edit(&d.range, edited_range, inserted_len);
        if range.start < range.end {
            out.push(TextDecoration { range, style: d.style });
        }
    }
    assert(all.take(all.len() as int) =~= all);
    out
}

/// Text decorations clipped to the text: `start` moves back and `end` forward to
/// character boundaries (within the text), and decorations that became empty are dropped.
pub open spec fn decorations_clipped<S>(text: Seq<char>, ds: Seq<TextDecoration<S>>) -> Seq<
    TextDecoration<S>,
>
    decreases ds.len(),
{
    if ds.len() == 0 {
        seq![]
    } else {
        let start = clip_offset(text, ds.last().range.start as int, Bias::Left);
        let end = clip_offset(text, ds.last().range.end as int, Bias::Right);
        decorations_clipped(text, ds.drop_last()) + (if start < end {
            seq![
                TextDecoration {
                    range: Range { start: start as usize, end: end as usize },
                    style: ds.last().style,
                },
            ]
        } else {
            seq![]
        })
    }
}

/// Clips text decorations to `text` (see `decorations_clipped`).
pub fn normalize<S>(text: &str, decorations: Vec<TextDecoration<S>>) -> (r: Vec<TextDecoration<S>>)
    ensures
        r@ == decorations_clipped(text@, decorations@),
{
    let ghost all = decorations@;
    let mut out: Vec<TextDecoration<S>> = Vec::new();
    for d in it: decorations.into_iter()
        invariant
            it.seq() == all,
            out@ == decorations_clipped(text@, all.take(it.index() as int)),
    {
        let ghost k = it.index() as int;
        assert(all.take(k + 1).drop_last() =~= all.take(k));
        let start = clip_offset_in(text, d.range.start, Bias::Left);
        let end = clip_offset_in(text, d.range.end, Bias::Right);
        if start < end {
            out.push(TextDecoration { range: Range { start, end }, style: d.style });
        }
    }
    assert(all.take(all.len() as int) =~= all);
    out
}

/// Range decorations clipped to the text, as `decorations_clipped` does it.
pub open spec fn ranges_clipped<C>(text: Seq<char>, ds: Seq<RangeDecoration<C>>) -> Seq<
    RangeDecoration<C>,
>
    decreases ds.len(),
{
    if ds.len() == 0 {
        seq![]
    } else {
        let start = clip_offset(text, ds.last().spec_range().start as int, Bias::Left);
        let end = clip_offset(text, ds.last().spec_range().end as int, Bias::Right);
        ranges_clipped(text, ds.drop_last()) + (if start < end {
            seq![ds.last().with_spec_range(Range { start: start as usize, end: end as usize })]
        } else {
            seq![]
        })
    }
}

/// Clips range decorations to `text` (see `ranges_clipped`).
pub fn normalize_ranges<C>(text: &str, decorations: Vec<RangeDecoration<C>>) -> (r: Vec<
    RangeDecoration<C>,
>)
    ensures
        r@ == ranges_clipped(text@, decorations@),
{
    let ghost all = decorations@;
    let mut out: Vec<RangeDecoration<C>> = Vec::new();
    for d in it: decorations.into_iter()
        invariant
            it.seq() == all,
            out@ == ranges_clipped(text@, all.take(it.index() as int)),
    {
        let ghost k = it.index() as int;
        assert(all.take(k + 1).drop_last() =~= all.take(k));
        let start = clip_offset_in(text, d.range.start, Bias::Left);
        let end = clip_offset_in(text, d.range.end, Bias::Right);
        if start < end {
            let mut d = d;
            d.range = Range { start, end };
            out.push(d);
        }
    }
    assert(all.take(all.len() as int) =~= all);
    out
}

/// Inline widgets with their offsets moved back to character boundaries of the text.
pub open spec fn widgets_clipped(text: Seq<char>, ws: Seq<InlineWidget>) -> Seq<InlineWidget> {
    ws.map_values(|w: InlineWidget| w.with_spec_offset(clip_offset(text, w.spec_offset() as int, Bias::Left) as usize))
}

/// Clips inline widgets to `text` (see `widgets_clipped`).
pub fn normalize_widgets(text: &str, widgets: Vec<InlineWidget>) -> (r: Vec<InlineWidget>)
    ensures
        r@ == widgets_clipped(text@, widgets@),
{
    let ghost all = widgets@;
    let mut out: Vec<InlineWidget> = Vec::new();
    for w in it: widgets.into_iter()
        invariant
            it.seq() == all,
            out@ == widgets_clipped(text@, all.take(it.index() as int)),
    {
        let mut w = w;
        w.offset = clip_offset_in(text, w.offset, Bias::Left);
        out.push(w);
        assert(out@ =~= widgets_clipped(text@, all.take(it.index() + 1)));
    }
    assert(all.take(all.len() as int) =~= all);
    out
}


// ---------------------------------------------------------------------------
// Independently managed collections of text decorations.

/// The identity of a [`TextDecorationCollection`] within one editor.
#[derive(Clone, Copy, Debug, PartialEq, Eq, Hash, Structural)]
pub struct TextDecorationCollectionId(pub usize);

/// The text decoration collections of one editor, in creation order.
pub struct DecorationCollections<S> {
    entries: Vec<(TextDecorationCollectionId, Vec<TextDecoration<S>>)>,
}

impl<S> View for DecorationCollections<S> {
    /// The decorations of each collection, indexed by collection id.
    type V = Seq<Seq<TextDecoration<S>>>;

    closed spec fn view(&self) -> Seq<Seq<TextDecoration<S>>> {
        self.entries@.map_values(|e: (TextDecorationCollectionId, Vec<TextDecoration<S>>)| e.1@)
    }
}

impl<S> DecorationCollections<S> {
    /// Every collection is stored under the id it was created with: its position.
    pub closed spec fn wf(&self) -> bool {
        forall|i: int| 0 <= i < self.entries@.len() ==> (#[trigger] self.entries@[i]).0 == TextDecorationCollectionId(i as usize)
    }

    /// No collections yet.
    pub fn new() -> (c: Self)
        ensures
            c@ == Seq::<Seq<TextDecoration<S>>>::empty(),
            c.wf(),
    {
        let c = DecorationCollections { entries: Vec::new() };
        assert(c@ =~= Seq::<Seq<TextDecoration<S>>>::empty());
        c
    }

    /// Adds a collection holding `decorations` and returns its id.
    pub fn create(&mut self, decorations: Vec<TextDecoration<S>>) -> (id: TextDecorationCollectionId)
        requires
            old(self).wf(),
        ensures
            final(self).wf(),
            id == TextDecorationCollectionId(old(self)@.len() as usize),
            final(self)@ == old(self)@.push(decorations@),
    {
        let id = TextDecorationCollectionId(self.entries.len());
        let ghost d = decorations@;
        self.entries.push((id, decorations));
        assert(self@ =~= old(self)@.push(d));
        id
    }

    /// The position of the collection `id`, if it exists.
    fn position(&self, id: TextDecorationCollectionId) -> (r: Option<usize>)
        requires
            self.wf(),
        ensures
            r == (if id.0 < self@.len() { Some(id.0) } else { None::<usize> }),
    {
        let mut i: usize = 0;
        while i < self.entries.len()
            invariant
                self.wf(),
                i <= self.entries.len(),
                i <= id.0,
            decreases self.entries.len() - i,
        {
            if self.entries[i].0 == id {
                assert(self.entries@[i as int].0 == TextDecorationCollectionId(i));
                return Some(i);
            }
            i += 1;
        }
        None
    }

    /// Replaces the decorations of the collection `id`; false when there is no such collection.
    pub fn set(&mut self, id: TextDecorationCollectionId, decorations: Vec<TextDecoration<S>>) -> (r: bool)
        requires
            old(self).wf(),
        ensures
            final(self).wf(),
            r == (id.0 < old(self)@.len()),
            final(self)@ == (if r { old(self)@.update(id.0 as int, decorations@) } else { old(self)@ }),
    {
        match self.position(id) {
            None => false,
            Some(i) => {
                let ghost d = decorations@;
                let _ = self.entries.remove(i);
                self.entries.insert(i, (id, decorations));
                assert(self@ =~= old(self)@.update(i as int, d));
                true
            },
        }
    }

    /// Adds decorations to the collection `id`; false when there is no such collection.
    pub fn append(&mut self, id: TextDecorationCollectionId, decorations: Vec<TextDecoration<S>>) -> (r: bool)
        requires
            old(self).wf(),
        ensures
            final(self).wf(),
            r == (id.0 < old(self)@.len()),
            final(self)@ == (if r {
                old(self)@.update(id.0 as int, old(self)@[id.0 as int] + decorations@)
            } else {
                old(self)@
            }),
    {
        match self.position(id) {
            None => false,
            Some(i) => {
                let ghost d = decorations@;
                let (entry_id, mut current) = self.entries.remove(i);
                let mut more = decorations;
                current.append(&mut more);
                self.entries.insert(i, (entry_id, current));
                assert(self@ =~= old(self)@.update(i as int, old(self)@[i as int] + d));
                true
            },
        }
    }

    /// The decorations of the collection `id`, if it exists.
    pub fn get(&self, id: TextDecorationCollectionId) -> (r: Option<&[TextDecoration<S>]>)
        requires
            self.wf(),
        ensures
            match r {
                Some(ds) => id.0 < self@.len() && ds@ == self@[id.0 as int],
                None => id.0 >= self@.len(),
            },
    {
        match self.position(id) {
            None => None,
            Some(i) => Some(self.entries[i].1.as_slice()),
        }
    }

    /// Moves every decoration with an edit, dropping those that became empty.
    pub fn adjust_for_edit(&mut self, edited_range: &Range<usize>, inserted_len: usize)
        requires
            old(self).wf(),
            edited_range.start < edited_range.end ==> edited_range.start + inserted_len <= usize::MAX,
        ensures
            final(self).wf(),
            final(self)@ == old(self)@.map_values(|ds: Seq<TextDecoration<S>>| decorations_after_edit(ds, *edited_range, inserted_len)),
    {
        let mut taken: Vec<(TextDecorationCollectionId, Vec<TextDecoration<S>>)> = Vec::new();
        std::mem::swap(&mut taken, &mut self.entries);
        let ghost all = taken@;
        for e in it: taken.into_iter()
            invariant
                it.seq() == all,
                all == old(self).entries@,
                self.entries@.len() == it.index(),
                edited_range.start < edited_range.end ==> edited_range.start + inserted_len <= usize::MAX,
                forall|i: int| 0 <= i < it.index() ==> (#[trigger] self.entries@[i]).0 == all[i].0
                    && self.entries@[i].1@ == decorations_after_edit(all[i].1@, *edited_range, inserted_len),
        {
            let (id, ds) = e;
            let adjusted = adjust_decorations_for_edit(ds, edited_range, inserted_len);
            self.entries.push((id, adjusted));
        }
        assert(self@ =~= old(self)@.map_values(|ds: Seq<TextDecoration<S>>| decorations_after_edit(ds, *edited_range, inserted_len)));
    }

    /// Empties every collection; the collections stay.
    pub fn clear(&mut self)
        requires
            old(self).wf(),
        ensures
            final(self).wf(),
            final(self)@.len() == old(self)@.len(),
            forall|i: int| 0 <= i < final(self)@.len() ==> #[trigger] final(self)@[i] == Seq::<TextDecoration<S>>::empty(),
    {
        let mut taken: Vec<(TextDecorationCollectionId, Vec<TextDecoration<S>>)> = Vec::new();
        std::mem::swap(&mut taken, &mut self.entries);
        let ghost all = taken@;
        for e in it: taken.into_iter()
            invariant
                it.seq() == all,
                all == old(self).entries@,
                self.entries@.len() == it.index(),
                forall|i: int| 0 <= i < it.index() ==> (#[trigger] self.entries@[i]).0 == all[i].0
                    && self.entries@[i].1@ == Seq::<TextDecoration<S>>::empty(),
        {
            let (id, _) = e;
            self.entries.push((id, Vec::new()));
        }
    }
}


// ---------------------------------------------------------------------------
// Annotations of one editor.

/// Range decorations after an edit: each range follows the edit, and decorations whose
/// range became empty are dropped.
pub open spec fn ranges_after_edit<C>(
    ds: Seq<RangeDecoration<C>>,
    edited: Range<usize>,
    inserted_len: usize,
) -> Seq<RangeDecoration<C>>
    decreases ds.len(),
{
    if ds.len() == 0 {
        seq![]
    } else {
        let r = range_after_edit(ds.last().spec_range(), edited, inserted_len);
        ranges_after_edit(ds.drop_last(), edited, inserted_len) + (if r.start < r.end {
            seq![ds.last().with_spec_range(r)]
        } else {
            seq![]
        })
    }
}

/// Inline widgets after an edit: each offset follows the edit.
pub open spec fn widgets_after_edit(ws: Seq<InlineWidget>, edited: Range<usize>, inserted_len: usize) -> Seq<InlineWidget> {
    ws.map_values(|w: InlineWidget| w.with_spec_offset(offset_after_edit(w.spec_offset(), edited, inserted_len)))
}

/// The markers, range decorations and inline widgets of one editor.
pub struct EditorAnnotations<C> {
    /// Monotonic content revision.
    pub document_revision: u64,
    pub completion_epoch: u64,
    pub gutter_markers: Vec<GutterMarker>,
    /// Whether the gutter keeps room for markers; it does after the first markers were set.
    pub gutter_lane_reserved: bool,
    pub range_decorations: Vec<RangeDecoration<C>>,
    pub inline_widgets: Vec<InlineWidget>,
}

impl<C> EditorAnnotations<C> {
    /// No annotations, at revision zero.
    pub fn new() -> (a: Self)
        ensures
            a.document_revision == 0,
            a.completion_epoch == 0,
            a.gutter_markers@.len() == 0,
            !a.gutter_lane_reserved,
            a.range_decorations@.len() == 0,
            a.inline_widgets@.len() == 0,
    {
        EditorAnnotations {
            document_revision: 0,
            completion_epoch: 0,
            gutter_markers: Vec::new(),
            gutter_lane_reserved: false,
            range_decorations: Vec::new(),
            inline_widgets: Vec::new(),
        }
    }

    /// Moves range decorations and inline widgets with an edit that replaced
    /// `edited_range` by `inserted_len` bytes; range decorations that became empty are dropped.
    pub fn adjust_for_edit(&mut self, edited_range: &Range<usize>, inserted_len: usize)
        requires
            edited_range.start < edited_range.end ==> edited_range.start + inserted_len <= usize::MAX,
        ensures
            final(self).range_decorations@ == ranges_after_edit(old(self).range_decorations@, *edited_range, inserted_len),
            final(self).inline_widgets@ == widgets_after_edit(old(self).inline_widgets@, *edited_range, inserted_len),
            final(self).document_revision == old(self).document_revision,
            final(self).completion_epoch == old(self).completion_epoch,
            final(self).gutter_markers == old(self).gutter_markers,
            final(self).gutter_lane_reserved == old(self).gutter_lane_reserved,
    {
        let mut ranges: Vec<RangeDecoration<C>> = Vec::new();
        std::mem::swap(&mut ranges, &mut self.range_decorations);
        let ghost all = ranges@;
        let mut kept: Vec<RangeDecoration<C>> = Vec::new();
        for d in it: ranges.into_iter()
            invariant
                it.seq() == all,
                edited_range.start < edited_range.end ==> edited_range.start + inserted_len <= usize::MAX,
                kept@ == ranges_after_edit(all.take(it.index() as int), *edited_range, inserted_len),
        {
            let ghost k = it.index() as int;
            assert(all.take(k + 1).drop_last() =~= all.take(k));
            let range = adjust_range_for_edit(&d.range, edited_range, inserted_len);
            if range.start < range.end {
                let mut d = d;
                d.range = range;
                kept.push(d);
            }
        }
        assert(all.take(all.len() as int) =~= all);
        self.range_decorations = kept;
        let mut widgets: Vec<InlineWidget> = Vec::new();
        std::mem::swap(&mut widgets, &mut self.inline_widgets);
        let ghost ws = widgets@;
        let mut moved: Vec<InlineWidget> = Vec::new();
        for w in it: widgets.into_iter()
            invariant
                it.seq() == ws,
                moved@ == widgets_after_edit(ws.take(it.index() as int), *edited_range, inserted_len),
        {
            let mut w = w;
            w.offset = adjust_offset_for_edit(w.offset, edited_range, inserted_len);
            moved.push(w);
            assert(moved@ =~= widgets_after_edit(ws.take(it.index() + 1), *edited_range, inserted_len));
        }
        assert(ws.take(ws.len() as int) =~= ws);
        self.inline_widgets = moved;
    }
}

/// The decoration state of an editor input: its text (UTF-8, with byte offsets), its
/// annotations and its text decoration collections.
pub struct InputBaseState<S, C> {
    text: String,
    annotations: EditorAnnotations<C>,
    decorations: DecorationCollections<S>,
}

/// A handle to a text decoration collection of an [`InputBaseState`].
#[derive(Clone, Copy, Debug, PartialEq, Eq, Structural)]
pub struct TextDecorationCollection {
    id: TextDecorationCollectionId,
}

impl TextDecorationCollection {
    pub closed spec fn spec_id(&self) -> TextDecorationCollectionId {
        self.id
    }
}

impl<S, C> InputBaseState<S, C> {
    pub closed spec fn spec_text(&self) -> Seq<char> {
        self.text@
    }

    pub closed spec fn spec_revision(&self) -> u64 {
        self.annotations.document_revision
    }

    pub closed spec fn spec_gutter_markers(&self) -> Seq<GutterMarker> {
        self.annotations.gutter_markers@
    }

    pub closed spec fn spec_gutter_lane_reserved(&self) -> bool {
        self.annotations.gutter_lane_reserved
    }

    pub closed spec fn spec_range_decorations(&self) -> Seq<RangeDecoration<C>> {
        self.annotations.range_decorations@
    }

    pub closed spec fn spec_inline_widgets(&self) -> Seq<InlineWidget> {
        self.annotations.inline_widgets@
    }

    /// The decorations of each collection, by id.
    pub closed spec fn spec_collections(&self) -> Seq<Seq<TextDecoration<S>>> {
        self.decorations@
    }

    pub closed spec fn wf(&self) -> bool {
        self.decorations.wf()
    }

    /// An input holding `text`, without annotations or collections.
    pub fn new(text: String) -> (s: Self)
        ensures
            s.wf(),
            s.spec_text() == text@,
            s.spec_revision() == 0,
            s.spec_gutter_markers().len() == 0,
            !s.spec_gutter_lane_reserved(),
            s.spec_range_decorations().len() == 0,
            s.spec_inline_widgets().len() == 0,
            s.spec_collections().len() == 0,
    {
        InputBaseState { text, annotations: EditorAnnotations::new(), decorations: DecorationCollections::new() }
    }

    /// The text.
    pub fn text(&self) -> (r: &str)
        ensures
            r@ == self.spec_text(),
    {
        self.text.as_str()
    }

    /// Creates a collection holding `decorations` clipped to the text.
    pub fn create_decorations_collection(&mut self, decorations: Vec<TextDecoration<S>>) -> (c: TextDecorationCollection)
        requires
            old(self).wf(),
        ensures
            final(self).wf(),
            c.spec_id() == TextDecorationCollectionId(old(self).spec_collections().len() as usize),
            final(self).spec_collections() == old(self).spec_collections().push(
                decorations_clipped(old(self).spec_text(), decorations@),
            ),
            final(self).spec_text() == old(self).spec_text(),
            final(self).spec_revision() == old(self).spec_revision(),
            final(self).spec_gutter_markers() == old(self).spec_gutter_markers(),
            final(self).spec_gutter_lane_reserved() == old(self).spec_gutter_lane_reserved(),
            final(self).spec_range_decorations() == old(self).spec_range_decorations(),
            final(self).spec_inline_widgets() == old(self).spec_inline_widgets(),
    {
        let decorations = normalize(self.text.as_str(), decorations);
        let id = self.decorations.create(decorations);
        TextDecorationCollection { id }
    }

    /// Monotonic content revision. Selection, focus and scrolling do not change it.
    pub fn document_revision(&self) -> (r: u64)
        ensures
            r == self.spec_revision(),
    {
        self.annotations.document_revision
    }

    /// Replaces all gutter markers; the marker lane stays reserved from then on.
    pub fn set_gutter_markers(&mut self, markers: Vec<GutterMarker>)
        ensures
            final(self).spec_gutter_markers() == markers@,
            final(self).spec_gutter_lane_reserved(),
            final(self).spec_revision() == old(self).spec_revision(),
            final(self).spec_range_decorations() == old(self).spec_range_decorations(),
            final(self).spec_inline_widgets() == old(self).spec_inline_widgets(),
            final(self).spec_collections() == old(self).spec_collections(),
            final(self).spec_text() == old(self).spec_text(),
            final(self).wf() == old(self).wf(),
    {
        self.annotations.gutter_markers = markers;
        self.annotations.gutter_lane_reserved = true;
    }

    /// Removes all gutter markers; returns whether there were any (and a redraw is due).
    pub fn clear_gutter_markers(&mut self) -> (changed: bool)
        ensures
            changed == (old(self).spec_gutter_markers().len() > 0),
            final(self).spec_gutter_markers().len() == 0,
            final(self).spec_gutter_lane_reserved() == old(self).spec_gutter_lane_reserved(),
            final(self).spec_revision() == old(self).spec_revision(),
            final(self).spec_range_decorations() == old(self).spec_range_decorations(),
            final(self).spec_inline_widgets() == old(self).spec_inline_widgets(),
            final(self).spec_collections() == old(self).spec_collections(),
            final(self).spec_text() == old(self).spec_text(),
            final(self).wf() == old(self).wf(),
    {
        if self.annotations.gutter_markers.len() > 0 {
            self.annotations.gutter_markers = Vec::new();
            true
        } else {
            false
        }
    }

    /// Whether the gutter keeps a lane for markers (it does once markers were set).
    pub fn gutter_lane_reserved(&self) -> (r: bool)
        ensures
            r == self.spec_gutter_lane_reserved(),
    {
        self.annotations.gutter_lane_reserved
    }

    /// The gutter markers.
    pub fn gutter_markers(&self) -> (r: &[GutterMarker])
        ensures
            r@ == self.spec_gutter_markers(),
    {
        self.annotations.gutter_markers.as_slice()
    }

    /// Replaces all range decorations by `decorations` clipped to the text.
    pub fn set_range_decorations(&mut self, decorations: Vec<RangeDecoration<C>>)
        ensures
            final(self).spec_range_decorations() == ranges_clipped(old(self).spec_text(), decorations@),
            final(self).spec_revision() == old(self).spec_revision(),
            final(self).spec_gutter_markers() == old(self).spec_gutter_markers(),
            final(self).spec_gutter_lane_reserved() == old(self).spec_gutter_lane_reserved(),
            final(self).spec_inline_widgets() == old(self).spec_inline_widgets(),
            final(self).spec_collections() == old(self).spec_collections(),
            final(self).spec_text() == old(self).spec_text(),
            final(self).wf() == old(self).wf(),
    {
        self.annotations.range_decorations = normalize_ranges(self.text.as_str(), decorations);
    }

    /// Removes all range decorations; returns whether there were any.
    pub fn clear_range_decorations(&mut self) -> (changed: bool)
        ensures
            changed == (old(self).spec_range_decorations().len() > 0),
            final(self).spec_range_decorations().len() == 0,
            final(self).spec_revision() == old(self).spec_revision(),
            final(self).spec_gutter_markers() == old(self).spec_gutter_markers(),
            final(self).spec_gutter_lane_reserved() == old(self).spec_gutter_lane_reserved(),
            final(self).spec_inline_widgets() == old(self).spec_inline_widgets(),
            final(self).spec_collections() == old(self).spec_collections(),
            final(self).spec_text() == old(self).spec_text(),
            final(self).wf() == old(self).wf(),
    {
        if self.annotations.range_decorations.len() > 0 {
            self.annotations.range_decorations = Vec::new();
            true
        } else {
            false
        }
    }

    /// The range decorations.
    pub fn range_decorations(&self) -> (r: &[RangeDecoration<C>])
        ensures
            r@ == self.spec_range_decorations(),
    {
        self.annotations.range_decorations.as_slice()
    }

    /// Replaces all inline widgets by `widgets` with offsets clipped to the text.
    pub fn set_inline_widgets(&mut self, widgets: Vec<InlineWidget>)
        ensures
            final(self).spec_inline_widgets() == widgets_clipped(old(self).spec_text(), widgets@),
            final(self).spec_revision() == old(self).spec_revision(),
            final(self).spec_gutter_markers() == old(self).spec_gutter_markers(),
            final(self).spec_gutter_lane_reserved() == old(self).spec_gutter_lane_reserved(),
            final(self).spec_range_decorations() == old(self).spec_range_decorations(),
            final(self).spec_collections() == old(self).spec_collections(),
            final(self).spec_text() == old(self).spec_text(),
            final(self).wf() == old(self).wf(),
    {
        self.annotations.inline_widgets = normalize_widgets(self.text.as_str(), widgets);
    }

    /// Removes all inline widgets; returns whether there were any.
    pub fn clear_inline_widgets(&mut self) -> (changed: bool)
        ensures
            changed == (old(self).spec_inline_widgets().len() > 0),
            final(self).spec_inline_widgets().len() == 0,
            final(self).spec_revision() == old(self).spec_revision(),
            final(self).spec_gutter_markers() == old(self).spec_gutter_markers(),
            final(self).spec_gutter_lane_reserved() == old(self).spec_gutter_lane_reserved(),
            final(self).spec_range_decorations() == old(self).spec_range_decorations(),
            final(self).spec_collections() == old(self).spec_collections(),
            final(self).spec_text() == old(self).spec_text(),
            final(self).wf() == old(self).wf(),
    {
        if self.annotations.inline_widgets.len() > 0 {
            self.annotations.inline_widgets = Vec::new();
            true
        } else {
            false
        }
    }

    /// The inline widgets.
    pub fn inline_widgets(&self) -> (r: &[InlineWidget])
        ensures
            r@ == self.spec_inline_widgets(),
    {
        self.annotations.inline_widgets.as_slice()
    }
}

impl TextDecorationCollection {
    /// Replaces all decorations of this collection by `decorations` clipped to the
    /// text of `state`; returns whether the collection exists (and a redraw is due).
    pub fn set<S, C>(&self, state: &mut InputBaseState<S, C>, decorations: Vec<TextDecoration<S>>) -> (changed: bool)
        requires
            old(state).wf(),
        ensures
            final(state).wf(),
            changed == (self.spec_id().0 < old(state).spec_collections().len()),
            final(state).spec_collections() == collections_after_change(
                old(state).spec_text(),
                old(state).spec_collections(),
                CollectionChange::Replace(self.spec_id(), decorations@),
            ),
            final(state).spec_text() == old(state).spec_text(),
            final(state).spec_revision() == old(state).spec_revision(),
            final(state).spec_gutter_markers() == old(state).spec_gutter_markers(),
            final(state).spec_gutter_lane_reserved() == old(state).spec_gutter_lane_reserved(),
            final(state).spec_range_decorations() == old(state).spec_range_decorations(),
            final(state).spec_inline_widgets() == old(state).spec_inline_widgets(),
    {
        let decorations = normalize(state.text.as_str(), decorations);
        state.decorations.set(self.id, decorations)
    }

    /// Adds `decorations`, clipped to the text of `state`, to this collection; returns
    /// whether the collection exists.
    pub fn append<S, C>(&self, state: &mut InputBaseState<S, C>, decorations: Vec<TextDecoration<S>>) -> (changed: bool)
        requires
            old(state).wf(),
        ensures
            final(state).wf(),
            changed == (self.spec_id().0 < old(state).spec_collections().len()),
            final(state).spec_collections() == collections_after_change(
                old(state).spec_text(),
                old(state).spec_collections(),
                CollectionChange::Append(self.spec_id(), decorations@),
            ),
            final(state).spec_text() == old(state).spec_text(),
            final(state).spec_revision() == old(state).spec_revision(),
            final(state).spec_gutter_markers() == old(state).spec_gutter_markers(),
            final(state).spec_gutter_lane_reserved() == old(state).spec_gutter_lane_reserved(),
            final(state).spec_range_decorations() == old(state).spec_range_decorations(),
            final(state).spec_inline_widgets() == old(state).spec_inline_widgets(),
    {
        let decorations = normalize(state.text.as_str(), decorations);
        state.decorations.append(self.id, decorations)
    }

    /// Removes all decorations from this collection.
    pub fn clear<S, C>(&self, state: &mut InputBaseState<S, C>) -> (changed: bool)
        requires
            old(state).wf(),
        ensures
            final(state).wf(),
            changed == (self.spec_id().0 < old(state).spec_collections().len()),
            final(state).spec_collections() == collections_after_change(
                old(state).spec_text(),
                old(state).spec_collections(),
                CollectionChange::Clear(self.spec_id()),
            ),
            final(state).spec_text() == old(state).spec_text(),
            final(state).spec_revision() == old(state).spec_revision(),
            final(state).spec_gutter_markers() == old(state).spec_gutter_markers(),
            final(state).spec_gutter_lane_reserved() == old(state).spec_gutter_lane_reserved(),
            final(state).spec_range_decorations() == old(state).spec_range_decorations(),
            final(state).spec_inline_widgets() == old(state).spec_inline_widgets(),
    {
        let r = self.set(state, Vec::new());
        assert(decorations_clipped(old(state).spec_text(), Seq::<TextDecoration<S>>::empty()) =~= Seq::<TextDecoration<S>>::empty());
        r
    }

    /// The byte ranges of this collection's decorations (none when it does not exist).
    pub fn get_ranges<S, C>(&self, state: &InputBaseState<S, C>) -> (r: Vec<Range<usize>>)
        requires
            state.wf(),
        ensures
            self.spec_id().0 < state.spec_collections().len() ==> r@ == ranges_of(state.spec_collections()[self.spec_id().0 as int]),
            self.spec_id().0 >= state.spec_collections().len() ==> r@.len() == 0,
    {
        let mut out: Vec<Range<usize>> = Vec::new();
        match state.decorations.get(self.id) {
            None => {},
            Some(ds) => {
                let mut i: usize = 0;
                while i < ds.len()
                    invariant
                        i <= ds@.len(),
                        out@ == ds@.take(i as int).map_values(|d: TextDecoration<S>| d.range),
                    decreases ds@.len() - i,
                {
                    out.push(Range { start: ds[i].range.start, end: ds[i].range.end });
                    assert(out@ =~= ds@.take(i + 1).map_values(|d: TextDecoration<S>| d.range));
                    i += 1;
                }
                assert(ds@.take(ds@.len() as int) =~= ds@);
            },
        }
        out
    }
}

/// One call that changes a text decoration collection, as a value: `set` (`Replace`),
/// `append` or `clear` on the collection with the given id.
pub enum CollectionChange<S> {
    Replace(TextDecorationCollectionId, Seq<TextDecoration<S>>),
    Append(TextDecorationCollectionId, Seq<TextDecoration<S>>),
    Clear(TextDecorationCollectionId),
}

/// The collection a change is made on.
pub open spec fn change_target<S>(change: CollectionChange<S>) -> TextDecorationCollectionId {
    match change {
        CollectionChange::Replace(id, _) => id,
        CollectionChange::Append(id, _) => id,
        CollectionChange::Clear(id) => id,
    }
}

/// The collections after one change, on an input whose text is `text`; a change on a
/// collection that does not exist changes nothing.
pub open spec fn collections_after_change<S>(
    text: Seq<char>,
    collections: Seq<Seq<TextDecoration<S>>>,
    change: CollectionChange<S>,
) -> Seq<Seq<TextDecoration<S>>> {
    let i = change_target(change).0 as int;
    if i < collections.len() {
        match change {
            CollectionChange::Replace(_, ds) => collections.update(i, decorations_clipped(text, ds)),
            CollectionChange::Append(_, ds) => collections.update(
                i,
                collections[i] + decorations_clipped(text, ds),
            ),
            CollectionChange::Clear(_) => collections.update(i, seq![]),
        }
    } else {
        collections
    }
}

/// The collections after the changes, in order (none of them edits the text).
pub open spec fn collections_after_changes<S>(
    text: Seq<char>,
    collections: Seq<Seq<TextDecoration<S>>>,
    changes: Seq<CollectionChange<S>>,
) -> Seq<Seq<TextDecoration<S>>>
    decreases changes.len(),
{
    if changes.len() == 0 {
        collections
    } else {
        collections_after_change(
            text,
            collections_after_changes(text, collections, changes.drop_last()),
            changes.last(),
        )
    }
}

/// The byte ranges of decorations, in order.
pub open spec fn ranges_of<S>(ds: Seq<TextDecoration<S>>) -> Seq<Range<usize>> {
    ds.map_values(|d: TextDecoration<S>| d.range)
}

/// `range` with its start moved back and its end moved forward to character boundaries
/// of `text`, or nothing when that leaves it empty.
pub open spec fn clipped_range(text: Seq<char>, range: Range<usize>) -> Option<Range<usize>> {
    let start = clip_offset(text, range.start as int, Bias::Left);
    let end = clip_offset(text, range.end as int, Bias::Right);
    if start < end {
        Some(Range { start: start as usize, end: end as usize })
    } else {
        None
    }
}

/// The clipped ranges that are not empty, in the order of `ranges`.
pub open spec fn clipped_ranges(text: Seq<char>, ranges: Seq<Range<usize>>) -> Seq<Range<usize>> {
    ranges.filter_map(|r: Range<usize>| clipped_range(text, r))
}

/// The ranges of clipped decorations are the clipped ranges of the decorations.
pub proof fn lemma_ranges_of_clipped<S>(text: Seq<char>, ds: Seq<TextDecoration<S>>)
    ensures
        ranges_of(decorations_clipped(text, ds)) == clipped_ranges(text, ranges_of(ds)),
    decreases ds.len(),
{
    if ds.len() > 0 {
        lemma_ranges_of_clipped(text, ds.drop_last());
        assert(ranges_of(ds).drop_last() =~= ranges_of(ds.drop_last()));
        let rest = decorations_clipped(text, ds.drop_last());
        let start = clip_offset(text, ds.last().range.start as int, Bias::Left);
        let end = clip_offset(text, ds.last().range.end as int, Bias::Right);
        let tail: Seq<TextDecoration<S>> = if start < end {
            seq![TextDecoration { range: Range { start: start as usize, end: end as usize }, style: ds.last().style }]
        } else {
            seq![]
        };
        assert(ranges_of(rest + tail) =~= ranges_of(rest) + ranges_of(tail));
        assert(ranges_of(ds).last() == ds.last().range);
        if start < end {
            assert(ranges_of(tail) =~= seq![Range { start: start as usize, end: end as usize }]);
        } else {
            assert(ranges_of(tail) =~= Seq::<Range<usize>>::empty());
        }
    }
}

/// Changes keep the number of collections.
pub proof fn lemma_changes_keep_count<S>(
    text: Seq<char>,
    collections: Seq<Seq<TextDecoration<S>>>,
    changes: Seq<CollectionChange<S>>,
)
    ensures
        collections_after_changes(text, collections, changes).len() == collections.len(),
    decreases changes.len(),
{
    if changes.len() > 0 {
        lemma_changes_keep_count(text, collections, changes.drop_last());
    }
}

/// Changes made on other collections leave a collection, and so its ranges, as it was.
pub proof fn lemma_other_changes_keep_collection<S>(
    text: Seq<char>,
    collections: Seq<Seq<TextDecoration<S>>>,
    changes: Seq<CollectionChange<S>>,
    id: TextDecorationCollectionId,
)
    requires
        id.0 < collections.len(),
        forall|j: int| 0 <= j < changes.len() ==> change_target(#[trigger] changes[j]) != id,
    ensures
        collections_after_changes(text, collections, changes)[id.0 as int] == collections[id.0 as int],
        ranges_of(collections_after_changes(text, collections, changes)[id.0 as int]) == ranges_of(
            collections[id.0 as int],
        ),
    decreases changes.len(),
{
    if changes.len() > 0 {
        let front = changes.drop_last();
        assert forall|j: int| 0 <= j < front.len() implies change_target(#[trigger] front[j]) != id by {
            assert(front[j] == changes[j]);
        }
        lemma_other_changes_keep_collection(text, collections, front, id);
        lemma_changes_keep_count(text, collections, front);
        assert(change_target(changes[changes.len() - 1]) != id);
    }
}

/// Changes made one after the other: the changes of `first`, then those of `then`.
pub proof fn lemma_changes_concat<S>(
    text: Seq<char>,
    collections: Seq<Seq<TextDecoration<S>>>,
    first: Seq<CollectionChange<S>>,
    then: Seq<CollectionChange<S>>,
)
    ensures
        collections_after_changes(text, collections, first + then) == collections_after_changes(
            text,
            collections_after_changes(text, collections, first),
            then,
        ),
    decreases then.len(),
{
    if then.len() == 0 {
        assert(first + then =~= first);
    } else {
        lemma_changes_concat(text, collections, first, then.drop_last());
        assert((first + then).drop_last() =~= first + then.drop_last());
        assert((first + then).last() == then.last());
    }
}

/// What `get_ranges` gives after a sequence of `set`, `append` and `clear` calls on an
/// input whose text stays `text`: when the last of them on collection `id` (an existing
/// collection) is `set(decorations)`, the ranges of `decorations` clipped to the text,
/// without those that became empty, in order; when it is `clear`, none.
pub proof fn lemma_ranges_after_last_replacement<S>(
    text: Seq<char>,
    collections: Seq<Seq<TextDecoration<S>>>,
    changes: Seq<CollectionChange<S>>,
    k: int,
    id: TextDecorationCollectionId,
)
    requires
        id.0 < collections.len(),
        0 <= k < changes.len(),
        changes[k] is Replace || changes[k] is Clear,
        change_target(changes[k]) == id,
        forall|j: int| k < j < changes.len() ==> change_target(#[trigger] changes[j]) != id,
    ensures
        ranges_of(collections_after_changes(text, collections, changes)[id.0 as int]) == (match changes[k] {
            CollectionChange::Replace(_, ds) => clipped_ranges(text, ranges_of(ds)),
            _ => Seq::<Range<usize>>::empty(),
        }),
{
    let upto = changes.take(k + 1);
    let rest = changes.skip(k + 1);
    assert(upto + rest =~= changes);
    lemma_changes_concat(text, collections, upto, rest);
    assert(upto.drop_last() =~= changes.take(k));
    assert(upto.last() == changes[k]);
    lemma_changes_keep_count(text, collections, changes.take(k));
    let mid = collections_after_changes(text, collections, upto);
    lemma_changes_keep_count(text, collections, upto);
    assert forall|j: int| 0 <= j < rest.len() implies change_target(#[trigger] rest[j]) != id by {
        assert(rest[j] == changes[k + 1 + j]);
    }
    lemma_other_changes_keep_collection(text, mid, rest, id);
    match changes[k] {
        CollectionChange::Replace(_, ds) => {
            lemma_ranges_of_clipped(text, ds);
        },
        _ => {
            assert(ranges_of(Seq::<TextDecoration<S>>::empty()) =~= Seq::<Range<usize>>::empty());
        },
    }
}

/// What `get_ranges` gives after `append(decorations)` on an existing collection: the
/// ranges it gave before, then the clipped, non-empty ranges of `decorations`.
pub proof fn lemma_ranges_after_append<S>(
    text: Seq<char>,
    collections: Seq<Seq<TextDecoration<S>>>,
    id: TextDecorationCollectionId,
    decorations: Seq<TextDecoration<S>>,
)
    requires
        id.0 < collections.len(),
    ensures
        ranges_of(
            collections_after_change(text, collections, CollectionChange::Append(id, decorations))[id.0 as int],
        ) == ranges_of(collections[id.0 as int]) + clipped_ranges(text, ranges_of(decorations)),
{
    lemma_ranges_of_clipped(text, decorations);
    assert(ranges_of(collections[id.0 as int] + decorations_clipped(text, decorations)) =~= ranges_of(
        collections[id.0 as int],
    ) + ranges_of(decorations_clipped(text, decorations)));
}

/// Collections are independent: replacing the decorations of one collection leaves
/// every other collection as it was.
pub proof fn lemma_collections_are_independent<S>(
    collections: Seq<Seq<TextDecoration<S>>>,
    id: TextDecorationCollectionId,
    decorations: Seq<TextDecoration<S>>,
    other: TextDecorationCollectionId,
)
    requires
        id.0 < collections.len(),
        other.0 < collections.len(),
        other != id,
    ensures
        collections.update(id.0 as int, decorations)[other.0 as int] == collections[other.0 as int],
        collections.update(id.0 as int, decorations)[id.0 as int] == decorations,
{
}

} // verus!
