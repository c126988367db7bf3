//! The state of the history prompt that follows what the user types into a terminal:
//! inline suggestions for the current line and a search mode.

use vstd::prelude::*;

use crate::seqs::views;
use crate::text::{
    chars_start_with, copy_str, starts_with, str_chars, string_from_chars, string_pop, string_push,
};

verus! {

/// Whether the prompt suggests completions of the shell line or searches the history.
#[derive(Clone, Copy, Debug, Default, PartialEq, Eq, Structural)]
pub enum HistoryPromptMode {
    /// Suggest completions of the line typed into the shell.
    #[default]
    InlineSuggest,
    /// Search the history with a query typed into the prompt.
    Search,
}

/// What accepting a suggestion does to the shell line.
#[derive(Clone, Debug, PartialEq, Eq)]
pub enum HistoryPromptAccept {
    /// Type these characters after what is already on the line.
    AppendSuffix(String),
    /// Replace the whole line with this command.
    ReplaceLine(String),
}

/// The model of a [`HistoryPromptAccept`].
pub enum AcceptView {
    AppendSuffix(Seq<char>),
    ReplaceLine(Seq<char>),
}

impl View for HistoryPromptAccept {
    type V = AcceptView;

    open spec fn view(&self) -> AcceptView {
        match self {
            HistoryPromptAccept::AppendSuffix(s) => AcceptView::AppendSuffix(s@),
            HistoryPromptAccept::ReplaceLine(s) => AcceptView::ReplaceLine(s@),
        }
    }
}

/// The state of the history prompt.
#[derive(Clone, Debug)]
pub struct HistoryPromptState {
    mode: HistoryPromptMode,
    input: String,
    search_query: String,
    search_base_input: String,
    tracking: bool,
    matches: Vec<String>,
    selected: Option<usize>,
}

/// The model of a [`HistoryPromptState`].
pub struct PromptView {
    pub mode: HistoryPromptMode,
    /// The line as the shell has it.
    pub input: Seq<char>,
    /// The query typed in search mode.
    pub search_query: Seq<char>,
    /// The shell line when search mode was entered.
    pub search_base_input: Seq<char>,
    /// Whether the prompt still follows the shell line.
    pub tracking: bool,
    pub matches: Seq<Seq<char>>,
    pub selected: Option<usize>,
}

impl View for HistoryPromptState {
    type V = PromptView;

    closed spec fn view(&self) -> PromptView {
        PromptView {
            mode: self.mode,
            input: self.input@,
            search_query: self.search_query@,
            search_base_input: self.search_base_input@,
            tracking: self.tracking,
            matches: views(self.matches@),
            selected: self.selected,
        }
    }
}

/// A fresh prompt that follows the shell line `input`.
pub open spec fn fresh_prompt(input: Seq<char>) -> PromptView {
    PromptView {
        mode: HistoryPromptMode::InlineSuggest,
        input,
        search_query: seq![],
        search_base_input: seq![],
        tracking: true,
        matches: seq![],
        selected: None,
    }
}

/// The prompt after it stopped following the shell line: search mode is left (the line
/// is restored), and matches and selection are dropped.
pub open spec fn invalidated(v: PromptView) -> PromptView {
    if v.mode == HistoryPromptMode::Search {
        PromptView {
            mode: HistoryPromptMode::InlineSuggest,
            input: v.search_base_input,
            search_query: seq![],
            search_base_input: seq![],
            tracking: false,
            matches: seq![],
            selected: None,
        }
    } else {
        PromptView { tracking: false, matches: seq![], selected: None, ..v }
    }
}

/// The prompt after `text` was typed.
pub open spec fn appended(v: PromptView, text: Seq<char>) -> PromptView {
    if !v.tracking {
        v
    } else if v.mode == HistoryPromptMode::InlineSuggest {
        PromptView { input: v.input + text, selected: None, ..v }
    } else {
        PromptView { search_query: v.search_query + text, selected: None, ..v }
    }
}

/// The prompt after entering search mode: the shell line is remembered and the query
/// starts empty; nothing changes while the prompt does not follow the line.
pub open spec fn entered_search(v: PromptView) -> PromptView {
    if v.tracking {
        PromptView {
            mode: HistoryPromptMode::Search,
            search_base_input: v.input,
            search_query: seq![],
            matches: seq![],
            selected: None,
            ..v
        }
    } else {
        v
    }
}

/// The prompt after leaving search mode: the shell line it was entered with is back.
pub open spec fn left_search(v: PromptView) -> PromptView {
    if v.mode == HistoryPromptMode::Search {
        PromptView {
            mode: HistoryPromptMode::InlineSuggest,
            input: v.search_base_input,
            search_query: seq![],
            search_base_input: seq![],
            matches: seq![],
            selected: None,
            ..v
        }
    } else {
        v
    }
}

/// The text that the prompt matches against: the shell line, or the search query.
pub open spec fn query_of(v: PromptView) -> Seq<char> {
    if v.mode == HistoryPromptMode::InlineSuggest {
        v.input
    } else {
        v.search_query
    }
}

/// The index of the selected match, the first when none is selected.
pub open spec fn selected_or_first(v: PromptView) -> int {
    match v.selected {
        Some(i) => i as int,
        None => 0,
    }
}

/// The prompt after a deleted character: the last one of the shell line, or of the query
/// in search mode (nothing when it is empty).
pub open spec fn backspaced(v: PromptView) -> PromptView {
    if !v.tracking {
        v
    } else if v.mode == HistoryPromptMode::InlineSuggest {
        PromptView {
            input: if v.input.len() > 0 {
                v.input.drop_last()
            } else {
                v.input
            },
            selected: None,
            ..v
        }
    } else {
        PromptView {
            search_query: if v.search_query.len() > 0 {
                v.search_query.drop_last()
            } else {
                v.search_query
            },
            selected: None,
            ..v
        }
    }
}

/// The prompt with new matches: the selection is kept within them, and search mode
/// selects the first match. While the prompt does not follow the line, the matches are
/// dropped.
pub open spec fn with_matches(v: PromptView, matches: Seq<Seq<char>>) -> PromptView {
    if !v.tracking {
        PromptView { matches: seq![], selected: None, ..v }
    } else {
        PromptView {
            matches,
            selected: if matches.len() == 0 {
                None
            } else if v.selected is Some {
                let s = v.selected->0;
                Some(if s < matches.len() - 1 { s } else { (matches.len() - 1) as usize })
            } else if v.mode == HistoryPromptMode::Search {
                Some(0)
            } else {
                None
            },
            ..v
        }
    }
}

/// The index that moving the selection one match on selects.
pub open spec fn index_after_previous(v: PromptView) -> int {
    match v.selected {
        Some(i) => if i + 1 < v.matches.len() { i + 1 } else { v.matches.len() - 1 },
        None => 0,
    }
}

/// The prompt after moving the selection one match on.
pub open spec fn navigated_previous(v: PromptView) -> PromptView {
    if !v.tracking || v.matches.len() == 0 {
        v
    } else {
        PromptView { selected: Some(index_after_previous(v) as usize), ..v }
    }
}

/// The prompt after moving the selection one match back.
pub open spec fn navigated_next(v: PromptView) -> PromptView {
    if !v.tracking || v.matches.len() == 0 {
        v
    } else if v.mode == HistoryPromptMode::InlineSuggest {
        match v.selected {
            None => PromptView { selected: Some(0), ..v },
            Some(i) => if i > 0 {
                PromptView { selected: Some((i - 1) as usize), ..v }
            } else {
                PromptView { selected: None, ..v }
            },
        }
    } else {
        let n: int = if selected_or_first(v) > 0 { selected_or_first(v) - 1 } else { 0 };
        PromptView { selected: Some(n as usize), ..v }
    }
}

/// The prompt after selecting the match at `index`, when there is one.
pub open spec fn selected_at(v: PromptView, index: usize) -> PromptView {
    if index < v.matches.len() {
        PromptView { selected: Some(index), ..v }
    } else {
        v
    }
}

impl HistoryPromptState {
    /// The selection, when there is one, points at a match.
    pub open spec fn wf(&self) -> bool {
        self@.selected matches Some(i) ==> i < self@.matches.len()
    }

    /// A prompt that follows the shell line `input`.
    pub fn from_input(input: &str) -> (s: Self)
        ensures
            s@ == fresh_prompt(input@),
            s.wf(),
    {
        let s = HistoryPromptState {
            mode: HistoryPromptMode::InlineSuggest,
            input: copy_str(input),
            search_query: String::new(),
            search_base_input: String::new(),
            tracking: true,
            matches: Vec::new(),
            selected: None,
        };
        assert(views(s.matches@) =~= Seq::<Seq<char>>::empty());
        s
    }

    /// The shell line.
    pub fn input(&self) -> (r: &str)
        ensures
            r@ == self@.input,
    {
        self.input.as_str()
    }

    /// The text that suggestions are matched against.
    pub fn query_input(&self) -> (r: &str)
        ensures
            r@ == query_of(self@),
    {
        match self.mode {
            HistoryPromptMode::InlineSuggest => self.input.as_str(),
            HistoryPromptMode::Search => self.search_query.as_str(),
        }
    }

    /// The current matches.
    pub fn matches(&self) -> (r: &[String])
        ensures
            views(r@) == self@.matches,
    {
        self.matches.as_slice()
    }

    /// The current mode.
    pub fn mode(&self) -> (r: HistoryPromptMode)
        ensures
            r == self@.mode,
    {
        self.mode
    }

    /// Whether the prompt still follows the shell line.
    pub fn is_valid(&self) -> (r: bool)
        ensures
            r == self@.tracking,
    {
        self.tracking
    }

    /// Starts over with an empty shell line that is followed again.
    pub fn clear(&mut self)
        ensures
            final(self)@ == fresh_prompt(seq![]),
            final(self).wf(),
    {
        self.mode = HistoryPromptMode::InlineSuggest;
        self.input = String::new();
        self.search_query = String::new();
        self.search_base_input = String::new();
        self.tracking = true;
        self.matches = Vec::new();
        self.selected = None;
        assert(views(self.matches@) =~= Seq::<Seq<char>>::empty());
    }

    /// Drops the matches and the selection.
    pub fn dismiss_matches(&mut self)
        ensures
            final(self)@ == (PromptView { matches: seq![], selected: None, ..old(self)@ }),
            final(self).wf(),
    {
        self.matches = Vec::new();
        self.selected = None;
        assert(views(self.matches@) =~= Seq::<Seq<char>>::empty());
    }

    /// Stops following the shell line until it is cleared or set again.
    pub fn invalidate(&mut self)
        ensures
            final(self)@ == invalidated(old(self)@),
            final(self).wf(),
    {
        if self.mode == HistoryPromptMode::Search {
            self.input = self.search_base_input.clone();
            self.search_query = String::new();
            self.search_base_input = String::new();
            self.mode = HistoryPromptMode::InlineSuggest;
        }
        self.tracking = false;
        self.matches = Vec::new();
        self.selected = None;
        assert(views(self.matches@) =~= Seq::<Seq<char>>::empty());
    }

    /// Follows the shell line `input` again, keeping the matches.
    pub fn set_input(&mut self, input: String)
        ensures
            final(self)@ == (PromptView {
                mode: HistoryPromptMode::InlineSuggest,
                input: input@,
                search_query: seq![],
                search_base_input: seq![],
                tracking: true,
                selected: None,
                ..old(self)@
            }),
            final(self).wf(),
    {
        self.mode = HistoryPromptMode::InlineSuggest;
        self.input = input;
        self.search_query = String::new();
        self.search_base_input = String::new();
        self.tracking = true;
        self.selected = None;
    }

    /// Enters search mode, remembering the shell line; nothing happens while the
    /// prompt does not follow the line.
    pub fn enter_search(&mut self)
        requires
            old(self).wf(),
        ensures
            final(self)@ == entered_search(old(self)@),
            final(self).wf(),
    {
        if !self.tracking {
            return;
        }
        self.mode = HistoryPromptMode::Search;
        self.search_base_input = self.input.clone();
        self.search_query = String::new();
        self.matches = Vec::new();
        self.selected = None;
        assert(views(self.matches@) =~= Seq::<Seq<char>>::empty());
    }

    /// Leaves search mode, restoring the shell line it was entered with.
    pub fn exit_search(&mut self)
        requires
            old(self).wf(),
        ensures
            final(self)@ == left_search(old(self)@),
            final(self).wf(),
    {
        if self.mode != HistoryPromptMode::Search {
            return;
        }
        self.input = self.search_base_input.clone();
        self.search_query = String::new();
        self.search_base_input = String::new();
        self.mode = HistoryPromptMode::InlineSuggest;
        self.matches = Vec::new();
        self.selected = None;
        assert(views(self.matches@) =~= Seq::<Seq<char>>::empty());
    }

    /// Follows typed text: it extends the shell line, or the query in search mode.
    pub fn append_text(&mut self, text: &str)
        requires
            old(self).wf(),
        ensures
            final(self)@ == appended(old(self)@, text@),
            final(self).wf(),
    {
        if !self.tracking {
            return;
        }
        let chars = str_chars(text);
        let mut i: usize = 0;
        let ghost start_input = self.input@;
        let ghost start_query = self.search_query@;
        while i < chars.len()
            invariant
                i <= chars.len(),
                chars@ == text@,
                self.mode == old(self).mode,
                self.tracking == old(self).tracking,
                self.search_base_input == old(self).search_base_input,
                self.matches == old(self).matches,
                self.selected == old(self).selected,
                self.mode == HistoryPromptMode::InlineSuggest ==> self.input@ == start_input
                    + chars@.subrange(0, i as int) && self.search_query@ == start_query,
                self.mode == HistoryPromptMode::Search ==> self.search_query@ == start_query
                    + chars@.subrange(0, i as int) && self.input@ == start_input,
            decreases chars.len() - i,
        {
            match self.mode {
                HistoryPromptMode::InlineSuggest => string_push(&mut self.input, chars[i]),
                HistoryPromptMode::Search => string_push(&mut self.search_query, chars[i]),
            }
            assert(chars@.subrange(0, i + 1) =~= chars@.subrange(0, i as int).push(chars@[i as int]));
            i += 1;
        }
        assert(chars@.subrange(0, i as int) =~= text@);
        self.selected = None;
    }

    /// Follows a deleted character: the last one of the shell line, or of the query in
    /// search mode.
    pub fn backspace(&mut self)
        requires
            old(self).wf(),
        ensures
            final(self)@ == backspaced(old(self)@),
            final(self).wf(),
    {
        if !self.tracking {
            return;
        }
        match self.mode {
            HistoryPromptMode::InlineSuggest => {
                let _ = string_pop(&mut self.input);
            },
            HistoryPromptMode::Search => {
                let _ = string_pop(&mut self.search_query);
            },
        }
        self.selected = None;
    }

    /// Follows pasted text: a paste of several lines stops following the shell line;
    /// any other paste is typed text.
    pub fn apply_paste(&mut self, text: &str)
        requires
            old(self).wf(),
        ensures
            final(self)@ == (if text@.contains('\n') || text@.contains('\r') {
                invalidated(old(self)@)
            } else {
                appended(old(self)@, text@)
            }),
            final(self).wf(),
    {
        let chars = str_chars(text);
        let mut i: usize = 0;
        while i < chars.len()
            invariant
                i <= chars.len(),
                chars@ == text@,
                *self == *old(self),
                self.wf(),
                forall|k: int| 0 <= k < i ==> chars@[k] != '\n' && chars@[k] != '\r',
            decreases chars.len() - i,
        {
            if chars[i] == '\n' || chars[i] == '\r' {
                assert(text@[i as int] == '\n' || text@[i as int] == '\r');
                self.invalidate();
                return;
            }
            i += 1;
        }
        assert(!text@.contains('\n') && !text@.contains('\r'));
        self.append_text(text);
    }

    /// Replaces the matches; the selection is kept within them, and search mode selects
    /// the first match. While the prompt does not follow the line, the matches are dropped.
    pub fn set_matches(&mut self, matches: Vec<String>)
        requires
            old(self).wf(),
        ensures
            final(self)@ == with_matches(old(self)@, views(matches@)),
            final(self).wf(),
    {
        if !self.tracking {
            self.matches = Vec::new();
            self.selected = None;
            assert(views(self.matches@) =~= Seq::<Seq<char>>::empty());
            return;
        }
        self.matches = matches;
        if self.matches.len() == 0 {
            self.selected = None;
        } else if let Some(selected) = self.selected {
            let last = self.matches.len() - 1;
            self.selected = Some(if selected < last { selected } else { last });
        } else if self.mode == HistoryPromptMode::Search {
            self.selected = Some(0);
        }
    }

    /// The index of the selected match; the first when none is selected.
    pub fn selected_index(&self) -> (r: usize)
        ensures
            r == selected_or_first(self@),
    {
        match self.selected {
            Some(i) => i,
            None => 0,
        }
    }

    /// The selected match (the first when none is selected), if there is one.
    pub fn selected_match(&self) -> (r: Option<&str>)
        ensures
            match r {
                Some(m) => selected_or_first(self@) < self@.matches.len() && m@
                    == self@.matches[selected_or_first(self@)],
                None => selected_or_first(self@) >= self@.matches.len(),
            },
    {
        let i = self.selected_index();
        if i < self.matches.len() {
            Some(self.matches[i].as_str())
        } else {
            None
        }
    }

    /// Accepts the selected match. In search mode it replaces the shell line and leaves
    /// search mode. Otherwise, when it extends the shell line, the missing characters
    /// are typed; a match that does not extend the line is not accepted.
    pub fn accept_selected_suggestion(&mut self) -> (r: Option<HistoryPromptAccept>)
        requires
            old(self).wf(),
        ensures
            final(self).wf(),
            ({
                let v = old(self)@;
                let i = selected_or_first(v);
                if i >= v.matches.len() {
                    r is None && final(self)@ == v
                } else if v.mode == HistoryPromptMode::Search {
                    r matches Some(a) && a@ == AcceptView::ReplaceLine(v.matches[i])
                        && final(self)@ == (PromptView {
                        mode: HistoryPromptMode::InlineSuggest,
                        input: v.matches[i],
                        search_query: seq![],
                        search_base_input: seq![],
                        matches: seq![],
                        selected: None,
                        ..v
                    })
                } else if starts_with(v.matches[i], v.input) && v.matches[i].len() > v.input.len() {
                    r matches Some(a) && a@ == AcceptView::AppendSuffix(
                        v.matches[i].subrange(v.input.len() as int, v.matches[i].len() as int),
                    ) && final(self)@ == (PromptView {
                        input: v.matches[i],
                        selected: None,
                        ..v
                    })
                } else {
                    r is None && final(self)@ == v
                }
            }),
    {
        let i = self.selected_index();
        if i >= self.matches.len() {
            return None;
        }
        let candidate = self.matches[i].clone();
        match self.mode {
            HistoryPromptMode::InlineSuggest => {
                let cv = str_chars(candidate.as_str());
                let iv = str_chars(self.input.as_str());
                if !chars_start_with(&cv, &iv) || cv.len() == iv.len() {
                    return None;
                }
                let suffix = string_from_chars(&cv, iv.len(), cv.len());
                self.input = candidate;
                self.selected = None;
                Some(HistoryPromptAccept::AppendSuffix(suffix))
            },
            HistoryPromptMode::Search => {
                self.input = candidate.clone();
                self.search_query = String::new();
                self.search_base_input = String::new();
                self.mode = HistoryPromptMode::InlineSuggest;
                self.matches = Vec::new();
                self.selected = None;
                assert(views(self.matches@) =~= Seq::<Seq<char>>::empty());
                Some(HistoryPromptAccept::ReplaceLine(candidate))
            },
        }
    }

    /// Selects the match at `index` and returns it; nothing happens when there is none.
    pub fn select_match(&mut self, index: usize) -> (r: Option<String>)
        requires
            old(self).wf(),
        ensures
            final(self).wf(),
            index < old(self)@.matches.len() ==> (r matches Some(m) && m@ == old(self)@.matches[index as int]
                && final(self)@ == (PromptView { selected: Some(index), ..old(self)@ })),
            index >= old(self)@.matches.len() ==> (r is None && final(self)@ == old(self)@),
            final(self)@ == selected_at(old(self)@, index),
    {
        if index >= self.matches.len() {
            return None;
        }
        let candidate = self.matches[index].clone();
        self.selected = Some(index);
        Some(candidate)
    }

    /// Moves the selection one match on (to the first when none is selected, staying at
    /// the last) and returns the selected match; nothing happens without matches or
    /// while the prompt does not follow the line.
    pub fn navigate_previous(&mut self) -> (r: Option<String>)
        requires
            old(self).wf(),
        ensures
            final(self).wf(),
            ({
                let v = old(self)@;
                if !v.tracking || v.matches.len() == 0 {
                    r is None && final(self)@ == v
                } else {
                    let n: int = match v.selected {
                        Some(i) => if i + 1 < v.matches.len() { i + 1 } else { v.matches.len() - 1 },
                        None => 0,
                    };
                    r matches Some(m) && m@ == v.matches[n] && final(self)@ == (PromptView {
                        selected: Some(n as usize),
                        ..v
                    })
                }
            }),
            final(self)@ == navigated_previous(old(self)@),
    {
        if !self.tracking || self.matches.len() == 0 {
            return None;
        }
        let last = self.matches.len() - 1;
        let next_index = match self.selected {
            Some(index) => if index + 1 < last { index + 1 } else { last },
            None => 0,
        };
        self.selected = Some(next_index);
        Some(self.matches[next_index].clone())
    }

    /// Moves the selection one match back. Inline, moving back from the first match
    /// drops the selection and returns the shell line; in search mode the selection
    /// stays at the first match. Nothing happens without matches or while the prompt
    /// does not follow the line.
    pub fn navigate_next(&mut self) -> (r: Option<String>)
        requires
            old(self).wf(),
        ensures
            final(self).wf(),
            ({
                let v = old(self)@;
                if !v.tracking || v.matches.len() == 0 {
                    r is None && final(self)@ == v
                } else if v.mode == HistoryPromptMode::InlineSuggest {
                    match v.selected {
                        None => r matches Some(m) && m@ == v.matches[0] && final(self)@ == (
                        PromptView { selected: Some(0), ..v }),
                        Some(i) => if i > 0 {
                            r matches Some(m) && m@ == v.matches[i - 1] && final(self)@ == (
                            PromptView { selected: Some((i - 1) as usize), ..v })
                        } else {
                            r matches Some(m) && m@ == v.input && final(self)@ == (PromptView {
                                selected: None,
                                ..v
                            })
                        },
                    }
                } else {
                    let n: int = if selected_or_first(v) > 0 { selected_or_first(v) - 1 } else { 0 };
                    r matches Some(m) && m@ == v.matches[n] && final(self)@ == (PromptView {
                        selected: Some(n as usize),
                        ..v
                    })
                }
            }),
            final(self)@ == navigated_next(old(self)@),
    {
        if !self.tracking || self.matches.len() == 0 {
            return None;
        }
        match self.mode {
            HistoryPromptMode::InlineSuggest => match self.selected {
                None => {
                    self.selected = Some(0);
                    Some(self.matches[0].clone())
                },
                Some(index) => {
                    if index > 0 {
                        let next_index = index - 1;
                        self.selected = Some(next_index);
                        Some(self.matches[next_index].clone())
                    } else {
                        self.selected = None;
                        Some(self.input.clone())
                    }
                },
            },
            HistoryPromptMode::Search => {
                let current = self.selected_index();
                let next_index = if current > 0 { current - 1 } else { 0 };
                self.selected = Some(next_index);
                Some(self.matches[next_index].clone())
            },
        }
    }
}

impl Default for HistoryPromptState {
    /// An empty prompt that does not follow a shell line.
    fn default() -> (s: Self)
        ensures
            s@ == (PromptView { tracking: false, ..fresh_prompt(seq![]) }),
            s.wf(),
    {
        let s = HistoryPromptState {
            mode: HistoryPromptMode::InlineSuggest,
            input: String::new(),
            search_query: String::new(),
            search_base_input: String::new(),
            tracking: false,
            matches: Vec::new(),
            selected: None,
        };
        assert(views(s.matches@) =~= Seq::<Seq<char>>::empty());
        s
    }
}

/// Search mode does not touch the shell line: text typed in search mode goes to the
/// query, and leaving search mode, or losing track of the line, gives back the line that
/// search mode was entered with.
pub proof fn lemma_search_keeps_shell_line(v: PromptView, typed: Seq<char>)
    requires
        v.tracking,
        v.mode == HistoryPromptMode::InlineSuggest,
    ensures
        appended(entered_search(v), typed).input == v.input,
        query_of(appended(entered_search(v), typed)) == typed,
        left_search(appended(entered_search(v), typed)).input == v.input,
        invalidated(appended(entered_search(v), typed)).input == v.input,
{
    assert(Seq::<char>::empty() + typed =~= typed);
}

/// One call made on the prompt while it searches the history, as a value: typed text,
/// a deleted character, new matches, moving the selection, selecting a match or
/// dismissing the matches.
pub enum SearchStep {
    Typed(Seq<char>),
    Backspace,
    SetMatches(Seq<Seq<char>>),
    NavigatePrevious,
    NavigateNext,
    SelectMatch(usize),
    DismissMatches,
}

/// The prompt after one such call, as its contract states it.
pub open spec fn after_search_step(v: PromptView, step: SearchStep) -> PromptView {
    match step {
        SearchStep::Typed(text) => appended(v, text),
        SearchStep::Backspace => backspaced(v),
        SearchStep::SetMatches(matches) => with_matches(v, matches),
        SearchStep::NavigatePrevious => navigated_previous(v),
        SearchStep::NavigateNext => navigated_next(v),
        SearchStep::SelectMatch(index) => selected_at(v, index),
        SearchStep::DismissMatches => PromptView { matches: seq![], selected: None, ..v },
    }
}

/// The prompt after the calls, in order.
pub open spec fn after_search_steps(v: PromptView, steps: Seq<SearchStep>) -> PromptView
    decreases steps.len(),
{
    if steps.len() == 0 {
        v
    } else {
        after_search_step(after_search_steps(v, steps.drop_last()), steps.last())
    }
}

/// Such calls keep the mode and the shell line that search mode was entered with.
pub proof fn lemma_search_steps_keep_mode_and_line(v: PromptView, steps: Seq<SearchStep>)
    ensures
        after_search_steps(v, steps).mode == v.mode,
        after_search_steps(v, steps).search_base_input == v.search_base_input,
    decreases steps.len(),
{
    if steps.len() > 0 {
        lemma_search_steps_keep_mode_and_line(v, steps.drop_last());
    }
}

/// The search round trip: entering search mode on a prompt that follows the shell line,
/// then any sequence of typing, deleting, new matches, navigation, selection and
/// dismissing, stays in search mode; leaving it then gives back inline suggestions for
/// the very line that search mode was entered with.
pub proof fn lemma_search_round_trip(v: PromptView, steps: Seq<SearchStep>)
    requires
        v.tracking,
    ensures
        after_search_steps(entered_search(v), steps).mode == HistoryPromptMode::Search,
        left_search(after_search_steps(entered_search(v), steps)).mode == HistoryPromptMode::InlineSuggest,
        left_search(after_search_steps(entered_search(v), steps)).input == v.input,
        left_search(after_search_steps(entered_search(v), steps)).search_query.len() == 0,
        left_search(after_search_steps(entered_search(v), steps)).matches.len() == 0,
{
    lemma_search_steps_keep_mode_and_line(entered_search(v), steps);
}

/// A prompt that lost track of the shell line ignores typing, search mode and pasted
/// text until it is cleared or given a line again, which makes it follow the line again.
pub proof fn lemma_lost_prompt_waits_for_clear(v: PromptView, typed: Seq<char>)
    requires
        !v.tracking,
    ensures
        appended(v, typed) == v,
        entered_search(v) == v,
        !invalidated(v).tracking,
        fresh_prompt(seq![]).tracking,
{
}

} // verus!
