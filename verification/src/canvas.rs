//! Tool and gesture decisions of the diagram canvas.

use vstd::prelude::*;

verus! {

/// The active canvas tool.
#[derive(Debug, Clone, Copy, PartialEq, Eq, Structural)]
pub enum CanvasToolMode {
    /// Clicks select and drag nodes.
    Select,
    /// Left drags pan the view.
    Pan,
}

impl CanvasToolMode {
    /// Whether this is the pan tool.
    pub fn is_pan(self) -> (r: bool)
        ensures
            r == (self == CanvasToolMode::Pan),
    {
        match self {
            CanvasToolMode::Pan => true,
            CanvasToolMode::Select => false,
        }
    }
}

/// The state that the canvas plugins share; it holds the tool mode once one was set.
pub struct SharedState {
    tool_mode: Option<CanvasToolMode>,
}

impl View for SharedState {
    /// The stored tool mode, if any.
    type V = Option<CanvasToolMode>;

    closed spec fn view(&self) -> Option<CanvasToolMode> {
        self.tool_mode
    }
}

impl SharedState {
    /// A shared state that holds nothing yet.
    pub fn new() -> (s: Self)
        ensures
            s@ is None,
    {
        SharedState { tool_mode: None }
    }
}

/// The tool mode that `state` holds; select when none was set.
pub open spec fn tool_mode_of(state: Option<CanvasToolMode>) -> CanvasToolMode {
    match state {
        Some(mode) => mode,
        None => CanvasToolMode::Select,
    }
}

/// The active tool mode; select until one is set.
pub fn current_tool_mode(shared_state: &SharedState) -> (r: CanvasToolMode)
    ensures
        r == tool_mode_of(shared_state@),
{
    match shared_state.tool_mode {
        Some(mode) => mode,
        None => CanvasToolMode::Select,
    }
}

/// Makes `mode` the active tool mode.
pub fn set_tool_mode(shared_state: &mut SharedState, mode: CanvasToolMode)
    ensures
        final(shared_state)@ == Some(mode),
{
    shared_state.tool_mode = Some(mode);
}

/// Setting a tool mode and reading it back gives that mode, whatever was set before.
pub proof fn lemma_tool_mode_read_after_set(before: Option<CanvasToolMode>, mode: CanvasToolMode)
    ensures
        tool_mode_of(Some(mode)) == mode,
        before is None ==> tool_mode_of(before) == CanvasToolMode::Select,
{
}

/// Pans the viewport by dragging and zooms it with the wheel.
pub struct ViewportPlugin {
    pan_with_blank_left_drag: bool,
}

impl ViewportPlugin {
    pub closed spec fn spec_pan_with_blank_left_drag(&self) -> bool {
        self.pan_with_blank_left_drag
    }

    /// A viewport that pans on shift-drag or with the pan tool.
    pub fn new() -> (p: Self)
        ensures
            !p.spec_pan_with_blank_left_drag(),
    {
        ViewportPlugin { pan_with_blank_left_drag: false }
    }

    /// A viewport that also pans when a left drag starts over empty canvas.
    pub fn with_blank_left_drag() -> (p: Self)
        ensures
            p.spec_pan_with_blank_left_drag(),
    {
        ViewportPlugin { pan_with_blank_left_drag: true }
    }

    /// Whether a left button press starts panning.
    pub fn pans_on_left_press(&self, shift: bool, node_under_mouse: bool, pan_tool_active: bool) -> (r: bool)
        ensures
            r == pan_starts(shift, self.spec_pan_with_blank_left_drag(), node_under_mouse, pan_tool_active),
    {
        should_start_pan(shift, self.pan_with_blank_left_drag, node_under_mouse, pan_tool_active)
    }
}

/// A left press pans with the pan tool, with shift held, or, when enabled, over empty canvas.
pub open spec fn pan_starts(shift: bool, blank_left_drag: bool, node_under_mouse: bool, pan_tool_active: bool) -> bool {
    pan_tool_active || shift || (blank_left_drag && !node_under_mouse)
}

/// Whether a left button press starts panning.
pub fn should_start_pan(shift: bool, blank_left_drag: bool, node_under_mouse: bool, pan_tool_active: bool) -> (r: bool)
    ensures
        r == pan_starts(shift, blank_left_drag, node_under_mouse, pan_tool_active),
{
    pan_tool_active || shift || (blank_left_drag && !node_under_mouse)
}

/// Scrolls the ER diagram with the mouse wheel.
pub struct ErDiagramScrollPanPlugin;

impl ErDiagramScrollPanPlugin {
    pub fn new() -> (p: Self)
        ensures
            p == ErDiagramScrollPanPlugin,
    {
        ErDiagramScrollPanPlugin
    }
}

} // verus!
