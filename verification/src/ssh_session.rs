//! What an interactive SSH session does with the output of the remote shell: the
//! events it passes on, and when it sends the start-up commands.

use vstd::prelude::*;
use vstd::utf8::encode_utf8;

use crate::history::{split_lines, text_lines};
use crate::osc::{event_views, extract_osc_events, osc_events, spec_utf8_lossy, OscEvent, OscView};
use crate::text::{is_blank, str_is_blank};

verus! {

/// What the session reports to the terminal from the shell integration markers.
#[derive(Clone, Debug, PartialEq, Eq)]
pub enum SessionEvent {
    WorkingDirChanged(String),
    CommandFinished { exit_code: i32 },
    CommandRecorded(String),
}

/// The model of a [`SessionEvent`].
pub enum SessionEventView {
    WorkingDirChanged(Seq<char>),
    CommandFinished { exit_code: i32 },
    CommandRecorded(Seq<char>),
}

impl View for SessionEvent {
    type V = SessionEventView;

    open spec fn view(&self) -> SessionEventView {
        match self {
            SessionEvent::WorkingDirChanged(p) => SessionEventView::WorkingDirChanged(p@),
            SessionEvent::CommandFinished { exit_code } => SessionEventView::CommandFinished {
                exit_code: *exit_code,
            },
            SessionEvent::CommandRecorded(c) => SessionEventView::CommandRecorded(c@),
        }
    }
}

/// The event that the session reports for a marker, if any: working directories,
/// finished commands and recorded commands are passed on.
pub open spec fn reported(e: OscView) -> Seq<SessionEventView> {
    match e {
        OscView::WorkingDirChanged(p) => seq![SessionEventView::WorkingDirChanged(p)],
        OscView::CommandFinished { exit_code } => seq![SessionEventView::CommandFinished { exit_code }],
        OscView::CommandRecorded(c) => seq![SessionEventView::CommandRecorded(c)],
        _ => seq![],
    }
}

/// The events that the session reports for `es`, in order.
pub open spec fn reported_events(es: Seq<OscView>) -> Seq<SessionEventView>
    decreases es.len(),
{
    if es.len() == 0 {
        seq![]
    } else {
        reported_events(es.drop_last()) + reported(es.last())
    }
}

/// Some marker of `es` says that the shell takes input.
pub open spec fn has_input_start(es: Seq<OscView>) -> bool {
    exists|i: int| 0 <= i < es.len() && (#[trigger] es[i]) is InputStart
}

/// The bytes sent for the start-up command lines `lines`: each non-blank line,
/// followed by a newline.
pub open spec fn command_writes(lines: Seq<Seq<char>>) -> Seq<Seq<u8>>
    decreases lines.len(),
{
    if lines.len() == 0 {
        seq![]
    } else {
        command_writes(lines.drop_last()) + if is_blank(lines.last()) {
            Seq::<Seq<u8>>::empty()
        } else {
            seq![encode_utf8(lines.last()).push(10u8)]
        }
    }
}

/// The bytes sent for the start-up commands, if there are any.
pub open spec fn init_writes(init_commands: Option<Seq<char>>) -> Seq<Seq<u8>> {
    match init_commands {
        Some(c) => command_writes(text_lines(c)),
        None => seq![],
    }
}

/// The byte strings of a list of byte vectors.
pub open spec fn byte_views(ws: Seq<Vec<u8>>) -> Seq<Seq<u8>> {
    ws.map_values(|w: Vec<u8>| w@)
}

/// The characters of an optional string slice.
pub open spec fn opt_str(o: Option<&str>) -> Option<Seq<char>> {
    match o {
        Some(s) => Some(s@),
        None => None,
    }
}

/// What to do with a chunk of output: events to report and bytes to send.
#[derive(Clone, Debug, PartialEq, Eq)]
pub struct DataOutcome {
    pub events: Vec<SessionEvent>,
    pub writes: Vec<Vec<u8>>,
}

/// Whether the shell has shown that it takes input, and whether the start-up commands
/// were sent.
#[derive(Clone, Copy, Debug, PartialEq, Eq)]
pub struct SessionState {
    pub shell_ready: bool,
    pub init_sent: bool,
}

/// The bytes to send for the start-up commands `commands`.
pub fn init_command_writes(commands: &str) -> (r: Vec<Vec<u8>>)
    ensures
        byte_views(r@) == command_writes(text_lines(commands@)),
{
    let lines = split_lines(commands);
    let ghost ls = text_lines(commands@);
    let mut writes: Vec<Vec<u8>> = Vec::new();
    let mut i: usize = 0;
    while i < lines.len()
        invariant
            i <= lines@.len(),
            ls == lines@.map_values(|x: String| x@),
            byte_views(writes@) == command_writes(ls.subrange(0, i as int)),
        decreases lines@.len() - i,
    {
        let line = lines[i].as_str();
        assert(ls.subrange(0, i + 1).drop_last() =~= ls.subrange(0, i as int));
        assert(ls[i as int] == line@);
        let ghost before = writes@;
        if !str_is_blank(line) {
            let mut bytes = vstd::slice::slice_to_vec(line.as_bytes());
            bytes.push(10u8);
            writes.push(bytes);
            assert(byte_views(writes@) =~= byte_views(before).push(encode_utf8(line@).push(10u8)));
        }
        assert(byte_views(writes@) =~= command_writes(ls.subrange(0, i + 1)));
        i += 1;
    }
    assert(ls.subrange(0, i as int) =~= ls);
    writes
}

impl SessionState {
    /// A session whose shell has not shown a prompt yet.
    pub fn new() -> (s: Self)
        ensures
            !s.shell_ready,
            !s.init_sent,
    {
        SessionState { shell_ready: false, init_sent: false }
    }

    /// Takes in the markers of one chunk of output: reports working directories,
    /// finished and recorded commands; the first input marker makes the shell ready,
    /// and the first chunk that finds it ready sends each non-blank start-up command
    /// line, once.
    pub fn on_markers(&mut self, markers: Vec<OscEvent>, init_commands: Option<&str>) -> (r: DataOutcome)
        ensures
            final(self).shell_ready == (old(self).shell_ready || has_input_start(event_views(markers@))),
            final(self).init_sent == (old(self).init_sent || final(self).shell_ready),
            r.events@.map_values(|e: SessionEvent| e@) == reported_events(event_views(markers@)),
            byte_views(r.writes@) == if final(self).shell_ready && !old(self).init_sent {
                init_writes(opt_str(init_commands))
            } else {
                Seq::<Seq<u8>>::empty()
            },
    {
        let ghost ms = event_views(markers@);
        let ghost was_ready = self.shell_ready;
        let mut events: Vec<SessionEvent> = Vec::new();
        let mut i: usize = 0;
        while i < markers.len()
            invariant
                i <= markers@.len(),
                ms == event_views(markers@),
                self.init_sent == old(self).init_sent,
                self.shell_ready == (was_ready || has_input_start(ms.subrange(0, i as int))),
                was_ready == old(self).shell_ready,
                events@.map_values(|e: SessionEvent| e@) == reported_events(ms.subrange(0, i as int)),
            decreases markers@.len() - i,
        {
            let ghost before = events@.map_values(|e: SessionEvent| e@);
            assert(ms.subrange(0, i + 1).drop_last() =~= ms.subrange(0, i as int));
            assert(ms[i as int] == markers@[i as int]@);
            match &markers[i] {
                OscEvent::WorkingDirChanged(path) => {
                    events.push(SessionEvent::WorkingDirChanged(path.clone()));
                },
                OscEvent::InputStart => {
                    self.shell_ready = true;
                },
                OscEvent::CommandFinished { exit_code } => {
                    events.push(SessionEvent::CommandFinished { exit_code: *exit_code });
                },
                OscEvent::CommandRecorded(command) => {
                    events.push(SessionEvent::CommandRecorded(command.clone()));
                },
                _ => {},
            }
            assert(events@.map_values(|e: SessionEvent| e@) =~= reported_events(ms.subrange(0, i + 1)));
            assert(has_input_start(ms.subrange(0, i + 1)) == (has_input_start(ms.subrange(0, i as int))
                || ms[i as int] is InputStart)) by {
                if has_input_start(ms.subrange(0, i + 1)) {
                    let j = choose|j: int| 0 <= j < i + 1 && (#[trigger] ms.subrange(0, i + 1)[j]) is InputStart;
                    if j < i {
                        assert(ms.subrange(0, i as int)[j] == ms.subrange(0, i + 1)[j]);
                    }
                }
                if has_input_start(ms.subrange(0, i as int)) {
                    let j = choose|j: int| 0 <= j < i && (#[trigger] ms.subrange(0, i as int)[j]) is InputStart;
                    assert(ms.subrange(0, i + 1)[j] == ms.subrange(0, i as int)[j]);
                }
                if ms[i as int] is InputStart {
                    assert(ms.subrange(0, i + 1)[i as int] == ms[i as int]);
                }
            }
            i += 1;
        }
        assert(ms.subrange(0, i as int) =~= ms);
        let mut writes: Vec<Vec<u8>> = Vec::new();
        if self.shell_ready && !self.init_sent {
            self.init_sent = true;
            match init_commands {
                Some(commands) => {
                    writes = init_command_writes(commands);
                },
                None => {},
            }
        }
        DataOutcome { events, writes }
    }

    /// Takes in one chunk of output (see `on_markers`), reading its markers with
    /// `extract_osc_events`.
    pub fn on_data(&mut self, data: &[u8], init_commands: Option<&str>) -> (r: DataOutcome)
        ensures
            ({
                let ms = osc_events(spec_utf8_lossy(data@));
                &&& final(self).shell_ready == (old(self).shell_ready || has_input_start(ms))
                &&& final(self).init_sent == (old(self).init_sent || final(self).shell_ready)
                &&& r.events@.map_values(|e: SessionEvent| e@) == reported_events(ms)
                &&& byte_views(r.writes@) == if final(self).shell_ready && !old(self).init_sent {
                    init_writes(opt_str(init_commands))
                } else {
                    Seq::<Seq<u8>>::empty()
                }
            }),
    {
        let markers = extract_osc_events(data);
        self.on_markers(markers, init_commands)
    }
}

} // verus!
