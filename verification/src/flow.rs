//! The vocabulary of the operations that need outside work. Each operation
//! is a state machine: it names the next thing to do (resolve a path, run
//! awww, run wal, reload bread-theme, read or write the saved outputs, ...)
//! as a `Request`, takes what came of it as a `Reply`, and decides the next
//! step, until it finishes with the operation's result. `Event` is what it
//! publishes on the bread bus.
use vstd::prelude::*;

use crate::current::{entries_view, Current};
use crate::error::{ErrorView, PaperError};
use crate::text::opt_string;

verus! {

/// A `bread.paper.*` event.
#[derive(Debug)]
pub enum Event {
    /// The wallpaper changed: on every output, or on `output`.
    Changed { path: String, output: Option<String> },
    /// A `bread.command.paper.set` succeeded.
    SetDone { path: String, output: Option<String> },
    /// A `bread.command.paper.set` failed.
    SetFailed { error: String, path: Option<String>, output: Option<String> },
    /// A `bread.command.paper.library` started the picker.
    LibraryDone,
    /// A `bread.command.paper.library` could not start the picker.
    LibraryFailed { error: String },
}

pub enum EventView {
    Changed { path: Seq<char>, output: Option<Seq<char>> },
    SetDone { path: Seq<char>, output: Option<Seq<char>> },
    SetFailed { error: Seq<char>, path: Option<Seq<char>>, output: Option<Seq<char>> },
    LibraryDone,
    LibraryFailed { error: Seq<char> },
}

impl View for Event {
    type V = EventView;

    open spec fn view(&self) -> EventView {
        match self {
            Event::Changed { path, output } => EventView::Changed {
                path: path@,
                output: opt_string(*output),
            },
            Event::SetDone { path, output } => EventView::SetDone {
                path: path@,
                output: opt_string(*output),
            },
            Event::SetFailed { error, path, output } => EventView::SetFailed {
                error: error@,
                path: opt_string(*path),
                output: opt_string(*output),
            },
            Event::LibraryDone => EventView::LibraryDone,
            Event::LibraryFailed { error } => EventView::LibraryFailed { error: error@ },
        }
    }
}

/// The name an event is published under.
pub open spec fn event_name(e: EventView) -> Seq<char> {
    match e {
        EventView::Changed { .. } => "bread.paper.changed"@,
        EventView::SetDone { .. } => "bread.paper.set.done"@,
        EventView::SetFailed { .. } => "bread.paper.set.failed"@,
        EventView::LibraryDone => "bread.paper.library.done"@,
        EventView::LibraryFailed { .. } => "bread.paper.library.failed"@,
    }
}

impl Event {
    /// The name this event is published under.
    pub fn name(&self) -> (r: &'static str)
        ensures
            r@ == event_name(self@),
    {
        match self {
            Event::Changed { .. } => "bread.paper.changed",
            Event::SetDone { .. } => "bread.paper.set.done",
            Event::SetFailed { .. } => "bread.paper.set.failed",
            Event::LibraryDone => "bread.paper.library.done",
            Event::LibraryFailed { .. } => "bread.paper.library.failed",
        }
    }
}

/// The next thing an operation needs done outside.
#[derive(Debug)]
pub enum Request {
    /// Resolve this path to its canonical absolute form.
    Canonicalize(String),
    /// `awww img PATH` on every output.
    ApplyAll(String),
    /// `awww img PATH --outputs OUTPUT`.
    ApplyOn(String, String),
    /// `wal -i PATH -n`.
    GeneratePalette(String),
    /// `bread-theme reload`.
    ReloadTheme,
    /// Read the saved outputs (`current.json`).
    LoadCurrent,
    /// The output names Hyprland reports, when it answers.
    HyprMonitors,
    /// The standard output of `awww query`, when it succeeds.
    AwwwQuery,
    /// Write these saved outputs (`current.json`).
    SaveCurrent(Vec<(String, String)>),
    /// Generate OUTPUT's palette and bread-theme files from PATH.
    ThemeFor(String, String),
    /// The name of the focused Hyprland monitor, when there is one.
    FocusedMonitor,
    /// Write the shared stylesheet from OUTPUT's palette.
    WriteShared(String),
    /// Publish this event.
    Emit(Event),
    /// Start a `breadpaper library` process.
    SpawnLibrary,
    /// The operation is over, with this result.
    Finished(Result<(), PaperError>),
}

pub enum RequestView {
    Canonicalize(Seq<char>),
    ApplyAll(Seq<char>),
    ApplyOn(Seq<char>, Seq<char>),
    GeneratePalette(Seq<char>),
    ReloadTheme,
    LoadCurrent,
    HyprMonitors,
    AwwwQuery,
    SaveCurrent(Seq<(Seq<char>, Seq<char>)>),
    ThemeFor(Seq<char>, Seq<char>),
    FocusedMonitor,
    WriteShared(Seq<char>),
    Emit(EventView),
    SpawnLibrary,
    Finished(Result<(), ErrorView>),
}

impl View for Request {
    type V = RequestView;

    open spec fn view(&self) -> RequestView {
        match self {
            Request::Canonicalize(p) => RequestView::Canonicalize(p@),
            Request::ApplyAll(p) => RequestView::ApplyAll(p@),
            Request::ApplyOn(p, o) => RequestView::ApplyOn(p@, o@),
            Request::GeneratePalette(p) => RequestView::GeneratePalette(p@),
            Request::ReloadTheme => RequestView::ReloadTheme,
            Request::LoadCurrent => RequestView::LoadCurrent,
            Request::HyprMonitors => RequestView::HyprMonitors,
            Request::AwwwQuery => RequestView::AwwwQuery,
            Request::SaveCurrent(es) => RequestView::SaveCurrent(entries_view(es@)),
            Request::ThemeFor(o, p) => RequestView::ThemeFor(o@, p@),
            Request::FocusedMonitor => RequestView::FocusedMonitor,
            Request::WriteShared(o) => RequestView::WriteShared(o@),
            Request::Emit(e) => RequestView::Emit(e@),
            Request::SpawnLibrary => RequestView::SpawnLibrary,
            Request::Finished(r) => RequestView::Finished(
                match r {
                    Ok(()) => Ok(()),
                    Err(e) => Err(e@),
                },
            ),
        }
    }
}

/// What came of a request.
#[derive(Debug)]
pub enum Reply {
    /// The step ran, or failed with this message.
    Done(Result<(), String>),
    /// The canonical path, or why it could not be resolved.
    Resolved(Result<String, String>),
    /// The saved outputs.
    Loaded(Current),
    /// Hyprland's output names, or `None` when it did not answer.
    Monitors(Option<Vec<String>>),
    /// `awww query`'s output, or `None` when it failed.
    Query(Option<String>),
    /// The focused monitor's name, if any.
    Focused(Option<String>),
}

pub enum ReplyView {
    Done(Result<(), Seq<char>>),
    Resolved(Result<Seq<char>, Seq<char>>),
    Loaded(Seq<(Seq<char>, Seq<char>)>),
    Monitors(Option<Seq<Seq<char>>>),
    Query(Option<Seq<char>>),
    Focused(Option<Seq<char>>),
}

impl View for Reply {
    type V = ReplyView;

    open spec fn view(&self) -> ReplyView {
        match self {
            Reply::Done(r) => ReplyView::Done(
                match r {
                    Ok(()) => Ok(()),
                    Err(m) => Err(m@),
                },
            ),
            Reply::Resolved(r) => ReplyView::Resolved(
                match r {
                    Ok(p) => Ok(p@),
                    Err(m) => Err(m@),
                },
            ),
            Reply::Loaded(c) => ReplyView::Loaded(c@),
            Reply::Monitors(m) => ReplyView::Monitors(
                match m {
                    Some(v) => Some(v@.map_values(|s: String| s@)),
                    None => None,
                },
            ),
            Reply::Query(q) => ReplyView::Query(opt_string(*q)),
            Reply::Focused(f) => ReplyView::Focused(opt_string(*f)),
        }
    }
}

} // verus!
