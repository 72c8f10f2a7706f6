//! Honoring `bread.command.paper.*`: which commands are handled, and the
//! events each one publishes.
use vstd::prelude::*;

use crate::error::{error_message, ErrorView};
use crate::flow::{Event, EventView, Reply, ReplyView, Request, RequestView};
use crate::image::{ascii_lowercase, ext_or_empty, is_ascii_chars, lowered_extension};
use crate::setting::{
    before_publish, lemma_set_next_shape, set_accepts, set_next, set_start, start_run, SetPhase,
    SetRun, SetView,
};
use crate::text::{chars_of, copy_opt, opt_string, same_chars};

verus! {

/// The data of a `bread.command.paper.set`: its `path` and `output` fields,
/// each when it is a string.
#[derive(Debug)]
pub struct SetCommand {
    pub path: Option<String>,
    pub output: Option<String>,
}

/// The namespace of the commands this app honors.
pub open spec fn command_prefix() -> Seq<char> {
    "bread.command.paper."@
}

/// The verb of a command event, when it is in this app's namespace.
pub open spec fn command_verb(event: Seq<char>) -> Option<Seq<char>> {
    let p = command_prefix();
    if event.len() >= p.len() && event.subrange(0, p.len() as int) == p {
        Some(event.subrange(p.len() as int, event.len() as int))
    } else {
        None
    }
}

/// Where a command stands.
#[derive(Debug, Clone, Copy, PartialEq, Eq, Structural)]
pub enum CommandPhase {
    Setting,
    Resolving,
    Spawning,
    Emitting,
    Finished,
}

pub struct CommandView {
    pub phase: CommandPhase,
    pub requested: Seq<char>,
    pub output: Option<Seq<char>>,
    pub inner: SetView,
}

pub open spec fn missing_path_message() -> Seq<char> {
    "missing string \"path\""@
}

/// After the set a command asked for: resolve the path again to report it,
/// or publish the failure with the requested path.
pub open spec fn after_set(s: CommandView, res: Result<(), ErrorView>) -> (CommandView, RequestView) {
    match res {
        Ok(()) => (
            CommandView { phase: CommandPhase::Resolving, ..s },
            RequestView::Canonicalize(s.requested),
        ),
        Err(e) => (
            CommandView { phase: CommandPhase::Emitting, ..s },
            RequestView::Emit(
                EventView::SetFailed {
                    error: error_message(e),
                    path: Some(s.requested),
                    output: s.output,
                },
            ),
        ),
    }
}

/// Forwards the inner set's request, or goes on once it finishes.
pub open spec fn forward(s: CommandView, step: (SetView, RequestView)) -> (CommandView, RequestView) {
    let s2 = CommandView { inner: step.0, ..s };
    match step.1 {
        RequestView::Finished(res) => after_set(s2, res),
        req => (s2, req),
    }
}

pub open spec fn idle_set() -> SetView {
    set_start(Seq::empty(), None).0
}

/// How a command event starts.
pub open spec fn command_start(event: Seq<char>, path: Option<Seq<char>>, output: Option<Seq<char>>) -> (
    CommandView,
    RequestView,
) {
    let s = CommandView {
        phase: CommandPhase::Finished,
        requested: Seq::empty(),
        output: None,
        inner: idle_set(),
    };
    match command_verb(event) {
        Some(v) => if v == "set"@ {
            match path {
                None => (
                    CommandView { phase: CommandPhase::Emitting, ..s },
                    RequestView::Emit(
                        EventView::SetFailed {
                            error: missing_path_message(),
                            path: None,
                            output,
                        },
                    ),
                ),
                Some(p) => forward(
                    CommandView { phase: CommandPhase::Setting, requested: p, output, ..s },
                    set_start(p, output),
                ),
            }
        } else if v == "library"@ {
            (CommandView { phase: CommandPhase::Spawning, ..s }, RequestView::SpawnLibrary)
        } else {
            (s, RequestView::Finished(Ok(())))
        },
        None => (s, RequestView::Finished(Ok(()))),
    }
}

pub open spec fn command_accepts(s: CommandView, r: ReplyView) -> bool {
    match s.phase {
        CommandPhase::Setting => set_accepts(s.inner.phase, r),
        CommandPhase::Resolving => r is Resolved,
        CommandPhase::Finished => false,
        _ => r is Done,
    }
}

pub open spec fn command_next(s: CommandView, r: ReplyView) -> (CommandView, RequestView) {
    match s.phase {
        CommandPhase::Setting => forward(s, set_next(s.inner, r)),
        CommandPhase::Resolving => {
            let applied = match r {
                ReplyView::Resolved(Ok(c)) => c,
                _ => s.requested,
            };
            (
                CommandView { phase: CommandPhase::Emitting, ..s },
                RequestView::Emit(EventView::SetDone { path: applied, output: s.output }),
            )
        },
        CommandPhase::Spawning => (
            CommandView { phase: CommandPhase::Emitting, ..s },
            RequestView::Emit(
                match r {
                    ReplyView::Done(Err(m)) => EventView::LibraryFailed { error: m },
                    _ => EventView::LibraryDone,
                },
            ),
        ),
        CommandPhase::Emitting => (
            CommandView { phase: CommandPhase::Finished, ..s },
            RequestView::Finished(Ok(())),
        ),
        CommandPhase::Finished => (s, RequestView::Finished(Ok(()))),
    }
}


/// The requests a command run makes as it takes `rs`.
pub open spec fn command_trace(s: CommandView, rs: Seq<ReplyView>) -> Seq<RequestView>
    decreases rs.len(),
{
    if rs.len() == 0 {
        Seq::empty()
    } else {
        let (s2, q) = command_next(s, rs[0]);
        seq![q] + command_trace(s2, rs.drop_first())
    }
}

pub open spec fn command_accepted(s: CommandView, rs: Seq<ReplyView>) -> bool
    decreases rs.len(),
{
    rs.len() == 0 || (command_accepts(s, rs[0]) && command_accepted(
        command_next(s, rs[0]).0,
        rs.drop_first(),
    ))
}

pub open spec fn publishes_changed(q: RequestView) -> bool {
    q matches RequestView::Emit(EventView::Changed { .. })
}

pub open spec fn publishes_set_done(q: RequestView) -> bool {
    q matches RequestView::Emit(EventView::SetDone { .. })
}

pub open spec fn publishes_set_failed(q: RequestView) -> bool {
    q matches RequestView::Emit(EventView::SetFailed { .. })
}

/// Once the change is published, or the set is over, no failure is
/// published.
proof fn lemma_after_change(s: CommandView, rs: Seq<ReplyView>)
    requires
        (s.phase == CommandPhase::Setting && s.inner.phase == SetPhase::Emitting) || s.phase
            == CommandPhase::Resolving || s.phase == CommandPhase::Emitting || s.phase
            == CommandPhase::Finished,
        command_accepted(s, rs),
    ensures
        forall|i: int|
            0 <= i < command_trace(s, rs).len() ==> !publishes_set_failed(
                #[trigger] command_trace(s, rs)[i],
            ),
    decreases rs.len(),
{
    if rs.len() > 0 {
        let (s2, q) = command_next(s, rs[0]);
        let t = command_trace(s, rs);
        let rest = command_trace(s2, rs.drop_first());
        assert(t == seq![q] + rest);
        assert(command_accepted(s2, rs.drop_first()));
        if s.phase == CommandPhase::Finished {
            assert(false);
        }
        lemma_after_change(s2, rs.drop_first());
        assert forall|i: int| 0 <= i < t.len() implies !publishes_set_failed(#[trigger] t[i]) by {
            if i > 0 {
                assert(t[i] == rest[i - 1]);
            }
        }
    }
}

/// `bread.paper.set.done` is published only after `bread.paper.changed`,
/// and `bread.paper.set.failed` never after it: a command's set reports
/// success only when the wallpaper was applied, and failure only when
/// nothing was published.
pub proof fn law_set_command_reports_truthfully(s: CommandView, rs: Seq<ReplyView>)
    requires
        s.phase == CommandPhase::Setting,
        before_publish(s.inner.phase),
        command_accepted(s, rs),
    ensures
        forall|i: int|
            0 <= i < command_trace(s, rs).len() && publishes_set_done(
                #[trigger] command_trace(s, rs)[i],
            ) ==> exists|j: int| 0 <= j < i && publishes_changed(#[trigger] command_trace(s, rs)[j]),
        forall|i: int|
            0 <= i < command_trace(s, rs).len() && publishes_set_failed(
                #[trigger] command_trace(s, rs)[i],
            ) ==> forall|j: int| 0 <= j < i ==> !publishes_changed(#[trigger] command_trace(s, rs)[j]),
    decreases rs.len(),
{
    if rs.len() > 0 {
        let r = rs[0];
        let (s2, q) = command_next(s, r);
        let t = command_trace(s, rs);
        let rest = command_trace(s2, rs.drop_first());
        assert(t == seq![q] + rest);
        assert(command_accepted(s2, rs.drop_first()));
        lemma_set_next_shape(s.inner, r);
        let (i2, iq) = set_next(s.inner, r);
        if before_publish(i2.phase) {
            assert(q == iq);
            law_set_command_reports_truthfully(s2, rs.drop_first());
            assert forall|i: int|
                0 <= i < t.len() && publishes_set_done(#[trigger] t[i]) implies exists|j: int|
                0 <= j < i && publishes_changed(#[trigger] t[j]) by {
                assert(i > 0);
                assert(t[i] == rest[i - 1]);
                let j = choose|j: int| 0 <= j < i - 1 && publishes_changed(#[trigger] rest[j]);
                assert(t[j + 1] == rest[j]);
            }
            assert forall|i: int| 0 <= i < t.len() && publishes_set_failed(#[trigger] t[i]) implies forall|
                j: int,
            | 0 <= j < i ==> !publishes_changed(#[trigger] t[j]) by {
                assert(i > 0);
                assert(t[i] == rest[i - 1]);
                assert forall|j: int| 0 <= j < i implies !publishes_changed(#[trigger] t[j]) by {
                    if j > 0 {
                        assert(t[j] == rest[j - 1]);
                    }
                }
            }
        } else if i2.phase == SetPhase::Finished {
            assert(s2.phase == CommandPhase::Emitting);
            lemma_after_change(s2, rs.drop_first());
            assert forall|i: int| 0 <= i < t.len() && publishes_set_done(#[trigger] t[i]) implies exists|
                j: int,
            | 0 <= j < i && publishes_changed(#[trigger] t[j]) by {
                if i > 0 {
                    assert(t[i] == rest[i - 1]);
                    let rs2 = rs.drop_first();
                    assert(rs2.len() > 0);
                    let (s3, q3) = command_next(s2, rs2[0]);
                    assert(command_accepted(s3, rs2.drop_first()));
                    assert(s3.phase == CommandPhase::Finished);
                    assert(rs2.drop_first().len() == 0);
                    assert(command_trace(s3, rs2.drop_first()) =~= Seq::<RequestView>::empty());
                    assert(rest =~= seq![q3]);
                }
            }
        } else {
            assert(q == iq);
            assert(publishes_changed(q));
            lemma_after_change(s2, rs.drop_first());
            assert forall|i: int| 0 <= i < t.len() && publishes_set_done(#[trigger] t[i]) implies exists|
                j: int,
            | 0 <= j < i && publishes_changed(#[trigger] t[j]) by {
                assert(publishes_changed(t[0]));
            }
            assert forall|i: int| 0 <= i < t.len() && publishes_set_failed(#[trigger] t[i]) implies forall|
                j: int,
            | 0 <= j < i ==> !publishes_changed(#[trigger] t[j]) by {
                assert(i > 0);
                assert(t[i] == rest[i - 1]);
            }
        }
    }
}

/// Events outside `bread.command.paper.` and verbs other than `set` and
/// `library` are ignored: nothing is requested. A `set` without a string
/// `path` publishes `bread.paper.set.failed` with the fixed message and the
/// command's `output`, if any, and sets nothing; with one, it runs `set` (no
/// output) or `set_on` (a string output) on that path. `library` first
/// starts the picker.
pub proof fn law_command_routing(
    event: Seq<char>,
    path: Option<Seq<char>>,
    output: Option<Seq<char>>,
)
    ensures
        command_verb(event) is None ==> command_start(event, path, output).1
            == RequestView::Finished(Ok(())),
        command_verb(event) matches Some(v) && v != "set"@ && v != "library"@ ==> command_start(
            event,
            path,
            output,
        ).1 == RequestView::Finished(Ok(())),
        command_verb(event) == Some("set"@) && path is None ==> command_start(event, path, output).1
            == RequestView::Emit(
            EventView::SetFailed { error: missing_path_message(), path: None, output },
        ),
        command_verb(event) == Some("library"@) ==> command_start(event, path, output).1
            == RequestView::SpawnLibrary,
        command_verb(event) == Some("set"@) && path is Some ==> ({
            let s = command_start(event, path, output).0;
            &&& s.inner == set_start(path->0, output).0
            &&& s.requested == path->0
            &&& s.output == output
        }),
{
    reveal_strlit("set");
    reveal_strlit("library");
    assert("library"@.len() != "set"@.len());
}

/// After the picker is started, `bread.paper.library.done` is published;
/// if it cannot be started, `bread.paper.library.failed` with the reason.
pub proof fn law_library_command(s: CommandView, m: Seq<char>)
    requires
        s.phase == CommandPhase::Spawning,
    ensures
        command_next(s, ReplyView::Done(Ok(()))).1 == RequestView::Emit(EventView::LibraryDone),
        command_next(s, ReplyView::Done(Err(m))).1 == RequestView::Emit(
            EventView::LibraryFailed { error: m },
        ),
{
}

/// What a `set` command publishes: on failure, `bread.paper.set.failed`
/// with the failure's message, the requested (not canonical) path and the
/// output the command named; on success, `bread.paper.set.done` with the
/// path resolved once more (the requested one if that fails) and the output.
pub proof fn law_set_command_payloads(s: CommandView, e: ErrorView, res: Result<Seq<char>, Seq<char>>)
    ensures
        after_set(s, Err(e)).1 == RequestView::Emit(
            EventView::SetFailed { error: error_message(e), path: Some(s.requested), output: s.output },
        ),
        after_set(s, Ok(())).1 == RequestView::Canonicalize(s.requested),
        s.phase == CommandPhase::Resolving ==> command_next(s, ReplyView::Resolved(res)).1
            == RequestView::Emit(
            EventView::SetDone {
                path: match res {
                    Ok(c) => c,
                    Err(_) => s.requested,
                },
                output: s.output,
            },
        ),
{
}

/// A command being honored.
pub struct CommandRun {
    phase: CommandPhase,
    requested: String,
    output: Option<String>,
    inner: SetRun,
}

impl View for CommandRun {
    type V = CommandView;

    closed spec fn view(&self) -> CommandView {
        CommandView {
            phase: self.phase,
            requested: self.requested@,
            output: opt_string(self.output),
            inner: self.inner@,
        }
    }
}

/// The verb of a command event in this app's namespace.
fn verb_of(event: &str) -> (r: Option<Vec<char>>)
    ensures
        crate::path::opt_chars(r) == command_verb(event@),
{
    let e = chars_of(event);
    let p = chars_of("bread.command.paper.");
    if e.len() < p.len() {
        return None;
    }
    let head = crate::text::sub_chars(e.as_slice(), 0, p.len());
    if !same_chars(head.as_slice(), p.as_slice()) {
        return None;
    }
    Some(crate::text::sub_chars(e.as_slice(), p.len(), e.len()))
}

/// Starts honoring a command event. `data` is the event's data, read as a
/// `set` command.
pub fn handle_command(event: &str, data: SetCommand) -> (r: (CommandRun, Request))
    ensures
        (r.0@, r.1@) == command_start(event@, opt_string(data.path), opt_string(data.output)),
{
    let empty = String::new();
    let (idle, _) = start_run(empty, None);
    let mut run = CommandRun {
        phase: CommandPhase::Finished,
        requested: String::new(),
        output: None,
        inner: idle,
    };
    let verb = match verb_of(event) {
        Some(v) => v,
        None => {
            return (run, Request::Finished(Ok(())));
        },
    };
    let set_word = chars_of("set");
    let library_word = chars_of("library");
    if same_chars(verb.as_slice(), set_word.as_slice()) {
        match data.path {
            None => {
                run.phase = CommandPhase::Emitting;
                let ev = Event::SetFailed {
                    error: "missing string \"path\"".to_string(),
                    path: None,
                    output: data.output,
                };
                (run, Request::Emit(ev))
            },
            Some(p) => {
                let (inner, req) = start_run(p.clone(), copy_opt(&data.output));
                run.phase = CommandPhase::Setting;
                run.requested = p;
                run.output = data.output;
                run.inner = inner;
                let req = run.forward(req);
                (run, req)
            },
        }
    } else if same_chars(verb.as_slice(), library_word.as_slice()) {
        run.phase = CommandPhase::Spawning;
        (run, Request::SpawnLibrary)
    } else {
        (run, Request::Finished(Ok(())))
    }
}

impl CommandRun {
    /// Whether the run is waiting for a reply of this kind.
    pub fn accepts(&self, reply: &Reply) -> (r: bool)
        ensures
            r == command_accepts(self@, reply@),
    {
        match self.phase {
            CommandPhase::Setting => self.inner.accepts(reply),
            CommandPhase::Resolving => matches!(reply, Reply::Resolved(_)),
            CommandPhase::Finished => false,
            _ => matches!(reply, Reply::Done(_)),
        }
    }

    fn forward(&mut self, req: Request) -> (r: Request)
        ensures
            (final(self)@, r@) == forward(
                CommandView { inner: old(self)@.inner, ..old(self)@ },
                (old(self)@.inner, req@),
            ),
    {
        match req {
            Request::Finished(Ok(())) => {
                self.phase = CommandPhase::Resolving;
                Request::Canonicalize(self.requested.clone())
            },
            Request::Finished(Err(e)) => {
                self.phase = CommandPhase::Emitting;
                Request::Emit(
                    Event::SetFailed {
                        error: e.message(),
                        path: Some(self.requested.clone()),
                        output: copy_opt(&self.output),
                    },
                )
            },
            other => other,
        }
    }

    /// Takes what came of the last request and names the next one.
    pub fn step(&mut self, reply: Reply) -> (r: Request)
        requires
            command_accepts(old(self)@, reply@),
        ensures
            (final(self)@, r@) == command_next(old(self)@, reply@),
            reply@ matches ReplyView::Resolved(Ok(c)) ==> (old(self)@.phase == CommandPhase::Setting
                && old(self)@.inner.phase == SetPhase::Resolving && is_ascii_chars(ext_or_empty(c))
                ==> lowered_extension(c) == ascii_lowercase(ext_or_empty(c))),
    {
        match self.phase {
            CommandPhase::Setting => {
                let req = self.inner.step(reply);
                self.forward(req)
            },
            CommandPhase::Resolving => {
                let applied = match reply {
                    Reply::Resolved(Ok(c)) => c,
                    _ => self.requested.clone(),
                };
                self.phase = CommandPhase::Emitting;
                Request::Emit(Event::SetDone { path: applied, output: copy_opt(&self.output) })
            },
            CommandPhase::Spawning => {
                let ev = match reply {
                    Reply::Done(Err(m)) => Event::LibraryFailed { error: m },
                    _ => Event::LibraryDone,
                };
                self.phase = CommandPhase::Emitting;
                Request::Emit(ev)
            },
            CommandPhase::Emitting => {
                self.phase = CommandPhase::Finished;
                Request::Finished(Ok(()))
            },
            CommandPhase::Finished => Request::Finished(Ok(())),
        }
    }
}

} // verus!
