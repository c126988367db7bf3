//! The tab that shows the ER diagram of a database or schema: its title and the
//! loading state that decides what it shows.

use vstd::prelude::*;

use crate::text::concat_str;

verus! {

/// What the tab shows the diagram of.
#[derive(Clone, Debug, PartialEq, Eq)]
pub struct ErDiagramConfig {
    pub connection_id: String,
    pub database_name: String,
    pub schema_name: Option<String>,
}

/// The title of a tab for `config`: the schema, or the database when there is no
/// schema, followed by ` - ER`.
pub open spec fn tab_title_of(config: ErDiagramConfig) -> Seq<char> {
    match config.schema_name {
        Some(s) => s@ + " - ER"@,
        None => config.database_name@ + " - ER"@,
    }
}

/// The title of a tab for `config`.
pub fn tab_title(config: &ErDiagramConfig) -> (r: String)
    ensures
        r@ == tab_title_of(*config),
{
    match &config.schema_name {
        Some(s) => concat_str(s.as_str(), " - ER"),
        None => concat_str(config.database_name.as_str(), " - ER"),
    }
}

/// What the tab shows.
#[derive(Clone, Debug, PartialEq, Eq)]
pub enum TabContentView {
    /// A spinner while the tables load.
    Loading,
    /// The error of the last load, with a button to load again.
    Error(String),
    /// The diagram.
    Canvas,
    /// Nothing: the load succeeded but there is no canvas.
    Blank,
}

/// The loading state of the tab; `C` is the canvas that a successful load builds.
pub struct ErDiagramTabState<C> {
    pub loading: bool,
    pub error: Option<String>,
    pub canvas: Option<C>,
}

impl<C> ErDiagramTabState<C> {
    /// A tab that starts loading.
    pub fn new() -> (s: Self)
        ensures
            s.loading,
            s.error is None,
            s.canvas is None,
    {
        ErDiagramTabState { loading: true, error: None, canvas: None }
    }

    /// Starts loading again: the error and the canvas are dropped.
    pub fn reload(&mut self)
        ensures
            final(self).loading,
            final(self).error is None,
            final(self).canvas is None,
    {
        self.loading = true;
        self.error = None;
        self.canvas = None;
    }

    /// Takes in the result of a load: the canvas built from the diagram, or the error.
    pub fn apply_load_result(&mut self, result: Result<C, String>)
        ensures
            !final(self).loading,
            match result {
                Ok(c) => final(self).canvas == Some(c) && final(self).error is None,
                Err(e) => final(self).canvas is None && final(self).error == Some(e),
            },
    {
        self.loading = false;
        match result {
            Ok(canvas) => {
                self.canvas = Some(canvas);
                self.error = None;
            },
            Err(err) => {
                self.canvas = None;
                self.error = Some(err);
            },
        }
    }

    /// What the tab shows: the spinner while loading, then the error if there is one,
    /// then the canvas.
    pub fn content(&self) -> (r: TabContentView)
        ensures
            self.loading ==> r == TabContentView::Loading,
            !self.loading ==> match self.error {
                Some(e) => r matches TabContentView::Error(m) && m@ == e@,
                None => r == (if self.canvas is Some {
                    TabContentView::Canvas
                } else {
                    TabContentView::Blank
                }),
            },
    {
        if self.loading {
            return TabContentView::Loading;
        }
        match &self.error {
            Some(e) => TabContentView::Error(e.clone()),
            None => match &self.canvas {
                Some(_) => TabContentView::Canvas,
                None => TabContentView::Blank,
            },
        }
    }
}

} // verus!
