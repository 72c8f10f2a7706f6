//! `apply_saved`: re-applying every saved wallpaper and per-output theme, in
//! output order, going on past failures and reporting the first.
use vstd::prelude::*;

use crate::current::Current;
use crate::error::{ErrorView, PaperError};
use crate::flow::{Event, EventView, Reply, ReplyView, Request, RequestView};
use crate::setting::{is_star, star};
use crate::text::{chars_of, same_chars};

verus! {

/// Where a restore stands.
#[derive(Debug, Clone, Copy, PartialEq, Eq, Structural)]
pub enum RestorePhase {
    Loading,
    Applying,
    Theming,
    Focus,
    Sharing,
    Emitting,
    Finished,
}

pub struct RestoreView {
    pub phase: RestorePhase,
    pub cur: Seq<(Seq<char>, Seq<char>)>,
    pub idx: nat,
    pub first_err: Option<ErrorView>,
}

pub open spec fn restore_start() -> (RestoreView, RequestView) {
    (
        RestoreView { phase: RestorePhase::Loading, cur: Seq::empty(), idx: 0, first_err: None },
        RequestView::LoadCurrent,
    )
}

/// Begins restoring saved entry `i`, or finishes after the last one with the
/// first failure, if any.
pub open spec fn restore_entry(s: RestoreView, i: nat) -> (RestoreView, RequestView) {
    if i >= s.cur.len() {
        (
            RestoreView { phase: RestorePhase::Finished, ..s },
            RequestView::Finished(
                match s.first_err {
                    Some(e) => Err(e),
                    None => Ok(()),
                },
            ),
        )
    } else {
        let (o, p) = s.cur[i as int];
        (
            RestoreView { phase: RestorePhase::Applying, idx: i, ..s },
            if o == star() {
                RequestView::ApplyAll(p)
            } else {
                RequestView::ApplyOn(p, o)
            },
        )
    }
}

/// Notes a failure of the current entry (keeping an earlier one) and moves
/// on to the next entry.
pub open spec fn restore_failed(s: RestoreView, m: Seq<char>) -> (RestoreView, RequestView) {
    let e = match s.first_err {
        Some(e) => e,
        None => ErrorView::Tool { message: m },
    };
    restore_entry(RestoreView { first_err: Some(e), ..s }, s.idx + 1)
}

pub open spec fn restore_accepts(phase: RestorePhase, r: ReplyView) -> bool {
    match phase {
        RestorePhase::Loading => r is Loaded,
        RestorePhase::Focus => r is Focused,
        RestorePhase::Finished => false,
        _ => r is Done,
    }
}

pub open spec fn restore_next(s: RestoreView, r: ReplyView) -> (RestoreView, RequestView) {
    let (o, p) = s.cur[s.idx as int];
    match s.phase {
        RestorePhase::Loading => match r {
            ReplyView::Loaded(c) => restore_entry(RestoreView { cur: c, ..s }, 0),
            _ => (s, RequestView::Finished(Ok(()))),
        },
        RestorePhase::Applying => match r {
            ReplyView::Done(Err(m)) => restore_failed(s, m),
            _ => if o == star() {
                (
                    RestoreView { phase: RestorePhase::Emitting, ..s },
                    RequestView::Emit(EventView::Changed { path: p, output: None }),
                )
            } else {
                (RestoreView { phase: RestorePhase::Theming, ..s }, RequestView::ThemeFor(o, p))
            },
        },
        RestorePhase::Theming => match r {
            ReplyView::Done(Err(m)) => restore_failed(s, m),
            _ => (RestoreView { phase: RestorePhase::Focus, ..s }, RequestView::FocusedMonitor),
        },
        RestorePhase::Focus => match r {
            ReplyView::Focused(Some(n)) => if n == o {
                (RestoreView { phase: RestorePhase::Sharing, ..s }, RequestView::WriteShared(o))
            } else {
                (
                    RestoreView { phase: RestorePhase::Emitting, ..s },
                    RequestView::Emit(EventView::Changed { path: p, output: Some(o) }),
                )
            },
            _ => (
                RestoreView { phase: RestorePhase::Emitting, ..s },
                RequestView::Emit(EventView::Changed { path: p, output: Some(o) }),
            ),
        },
        RestorePhase::Sharing => match r {
            ReplyView::Done(Err(m)) => restore_failed(s, m),
            _ => (
                RestoreView { phase: RestorePhase::Emitting, ..s },
                RequestView::Emit(EventView::Changed { path: p, output: Some(o) }),
            ),
        },
        RestorePhase::Emitting => restore_entry(s, s.idx + 1),
        RestorePhase::Finished => (s, RequestView::Finished(Ok(()))),
    }
}


/// The request that starts restoring a saved entry: `*` is re-applied on
/// every output, any other name on that output.
pub open spec fn apply_request(e: (Seq<char>, Seq<char>)) -> RequestView {
    if e.0 == star() {
        RequestView::ApplyAll(e.1)
    } else {
        RequestView::ApplyOn(e.1, e.0)
    }
}

/// A failing saved entry does not stop `apply_saved`: the next entry is
/// attempted at once or, after the last one, the run finishes with the
/// first failure; the first failure is the one kept.
pub proof fn law_restore_goes_on_after_failure(s: RestoreView, m: Seq<char>)
    requires
        s.phase == RestorePhase::Applying || s.phase == RestorePhase::Theming || s.phase
            == RestorePhase::Sharing,
        s.idx < s.cur.len(),
    ensures
        ({
            let (s2, q) = restore_next(s, ReplyView::Done(Err(m)));
            let kept = match s.first_err {
                Some(e) => e,
                None => ErrorView::Tool { message: m },
            };
            &&& s2.first_err == Some(kept)
            &&& s.idx + 1 < s.cur.len() ==> s2.idx == s.idx + 1 && s2.phase
                == RestorePhase::Applying && q == apply_request(s.cur[s.idx + 1int])
            &&& s.idx + 1 >= s.cur.len() ==> s2.phase == RestorePhase::Finished && q
                == RequestView::Finished(Err(kept))
        }),
{
}

/// Once a failure is noted it is never replaced, and when the run finishes
/// its result is the first failure, or success when there was none.
pub proof fn law_restore_reports_first_failure(s: RestoreView, r: ReplyView)
    requires
        restore_accepts(s.phase, r),
        s.phase != RestorePhase::Loading ==> s.idx < s.cur.len(),
    ensures
        s.first_err is Some ==> restore_next(s, r).0.first_err == s.first_err,
        restore_next(s, r).1 is Finished ==> restore_next(s, r).0.phase == RestorePhase::Finished
            && restore_next(s, r).1 == RequestView::Finished(
            match restore_next(s, r).0.first_err {
                Some(e) => Err(e),
                None => Ok(()),
            },
        ),
{
}

/// The saved entries are restored in order, from the first: loading the
/// saved outputs starts the first entry, and publishing one entry's change
/// starts the next (or finishes after the last).
pub proof fn law_restore_walks_entries_in_order(s: RestoreView, c: Seq<(Seq<char>, Seq<char>)>)
    ensures
        s.phase == RestorePhase::Loading && c.len() > 0 ==> restore_next(
            s,
            ReplyView::Loaded(c),
        ).1 == apply_request(c[0]) && restore_next(s, ReplyView::Loaded(c)).0.idx == 0,
        s.phase == RestorePhase::Emitting && s.idx + 1 < s.cur.len() ==> restore_next(
            s,
            ReplyView::Done(Ok(())),
        ).1 == apply_request(s.cur[s.idx + 1int]) && restore_next(s, ReplyView::Done(Ok(()))).0.idx
            == s.idx + 1,
{
}

/// A `*` entry, once re-applied, is published as a change on every output
/// (no output name); any other entry goes on to its per-output theme and is
/// published with its output name.
pub proof fn law_restore_publishes_entry(s: RestoreView, f: Option<Seq<char>>)
    requires
        s.idx < s.cur.len(),
    ensures
        ({
            let (o, p) = s.cur[s.idx as int];
            &&& s.phase == RestorePhase::Applying && o == star() ==> restore_next(
                s,
                ReplyView::Done(Ok(())),
            ).1 == RequestView::Emit(EventView::Changed { path: p, output: None })
            &&& s.phase == RestorePhase::Applying && o != star() ==> restore_next(
                s,
                ReplyView::Done(Ok(())),
            ).1 == RequestView::ThemeFor(o, p)
            &&& s.phase == RestorePhase::Focus && f != Some(o) ==> restore_next(
                s,
                ReplyView::Focused(f),
            ).1 == RequestView::Emit(EventView::Changed { path: p, output: Some(o) })
            &&& s.phase == RestorePhase::Focus && f == Some(o) ==> restore_next(
                s,
                ReplyView::Focused(f),
            ).1 == RequestView::WriteShared(o)
        }),
{
}


/// The requests an `apply_saved` run makes as it takes `rs`.
pub open spec fn restore_trace(s: RestoreView, rs: Seq<ReplyView>) -> Seq<RequestView>
    decreases rs.len(),
{
    if rs.len() == 0 {
        Seq::empty()
    } else {
        let (s2, q) = restore_next(s, rs[0]);
        seq![q] + restore_trace(s2, rs.drop_first())
    }
}

/// Each reply is one the run waits for at that point.
pub open spec fn restore_accepted(s: RestoreView, rs: Seq<ReplyView>) -> bool
    decreases rs.len(),
{
    rs.len() == 0 || (restore_accepts(s.phase, rs[0]) && restore_accepted(
        restore_next(s, rs[0]).0,
        rs.drop_first(),
    ))
}

/// The wallpaper applications among `t`, in order.
pub open spec fn applies(t: Seq<RequestView>) -> Seq<RequestView>
    decreases t.len(),
{
    if t.len() == 0 {
        Seq::empty()
    } else if t[0] is ApplyAll || t[0] is ApplyOn {
        seq![t[0]] + applies(t.drop_first())
    } else {
        applies(t.drop_first())
    }
}

pub open spec fn restoring(p: RestorePhase) -> bool {
    p != RestorePhase::Loading && p != RestorePhase::Finished
}

proof fn lemma_restore_applies(s: RestoreView, rs: Seq<ReplyView>)
    requires
        restoring(s.phase),
        s.idx < s.cur.len(),
        restore_accepted(s, rs),
        rs.len() > 0,
        restore_trace(s, rs).last() is Finished,
    ensures
        applies(restore_trace(s, rs)) == s.cur.subrange(s.idx + 1int, s.cur.len() as int).map_values(
            |e: (Seq<char>, Seq<char>)| apply_request(e),
        ),
    decreases rs.len(),
{
    let (s2, q) = restore_next(s, rs[0]);
    let rest = restore_trace(s2, rs.drop_first());
    let t = restore_trace(s, rs);
    assert(t == seq![q] + rest);
    assert(t.drop_first() =~= rest);
    assert(restore_accepted(s2, rs.drop_first()));
    let tail = s.cur.subrange(s.idx + 1int, s.cur.len() as int);
    let f = |e: (Seq<char>, Seq<char>)| apply_request(e);
    assert(s2.cur == s.cur);
    if s2.phase == RestorePhase::Finished {
        assert(rs.drop_first().len() == 0);
        assert(rest =~= Seq::<RequestView>::empty());
        assert(s.idx + 1 >= s.cur.len());
        assert(applies(rest) =~= Seq::<RequestView>::empty());
        assert(applies(t) =~= Seq::<RequestView>::empty());
        assert(tail.map_values(f) =~= Seq::<RequestView>::empty());
    } else if s2.idx == s.idx {
        assert(!(q is ApplyAll || q is ApplyOn));
        if rs.drop_first().len() == 0 {
            assert(rest =~= Seq::<RequestView>::empty());
            assert(t.last() == q);
            assert(false);
        }
        assert(rest.last() == t.last());
        lemma_restore_applies(s2, rs.drop_first());
        assert(applies(t) == applies(rest));
    } else {
        assert(s2.idx == s.idx + 1);
        assert(q == apply_request(s.cur[s.idx + 1int]));
        if rs.drop_first().len() == 0 {
            assert(rest =~= Seq::<RequestView>::empty());
            assert(t.last() == q);
            assert(false);
        }
        assert(rest.last() == t.last());
        lemma_restore_applies(s2, rs.drop_first());
        assert(applies(t) == seq![q] + applies(rest));
        assert(tail.map_values(f) =~= seq![q] + s.cur.subrange(
            s.idx + 2int,
            s.cur.len() as int,
        ).map_values(f));
    }
}

/// `apply_saved` attempts every saved entry exactly once, in order, each on
/// its own output (or everywhere for `*`), whatever fails along the way:
/// over a run that finishes, the wallpaper applications it requests are the
/// saved entries, one each.
pub proof fn law_restore_attempts_every_entry(c: Seq<(Seq<char>, Seq<char>)>, rs: Seq<ReplyView>)
    requires
        rs.len() > 0,
        rs[0] == ReplyView::Loaded(c),
        restore_accepted(restore_start().0, rs),
        restore_trace(restore_start().0, rs).last() is Finished,
    ensures
        applies(restore_trace(restore_start().0, rs)) == c.map_values(
            |e: (Seq<char>, Seq<char>)| apply_request(e),
        ),
{
    let s = restore_start().0;
    let (s2, q) = restore_next(s, rs[0]);
    let rest = restore_trace(s2, rs.drop_first());
    let t = restore_trace(s, rs);
    let f = |e: (Seq<char>, Seq<char>)| apply_request(e);
    assert(t == seq![q] + rest);
    assert(t.drop_first() =~= rest);
    assert(restore_accepted(s2, rs.drop_first()));
    if c.len() == 0 {
        assert(s2.phase == RestorePhase::Finished);
        assert(rs.drop_first().len() == 0);
        assert(rest =~= Seq::<RequestView>::empty());
        assert(applies(rest) =~= Seq::<RequestView>::empty());
        assert(applies(t) =~= Seq::<RequestView>::empty());
        assert(c.map_values(f) =~= Seq::<RequestView>::empty());
    } else {
        assert(q == apply_request(c[0]));
        if rs.drop_first().len() == 0 {
            assert(rest =~= Seq::<RequestView>::empty());
            assert(t.last() == q);
            assert(false);
        }
        assert(rest.last() == t.last());
        lemma_restore_applies(s2, rs.drop_first());
        assert(applies(t) == seq![q] + applies(rest));
        assert(c.map_values(f) =~= seq![q] + c.subrange(1, c.len() as int).map_values(f));
    }
}

/// An `apply_saved` in progress.
pub struct RestoreRun {
    phase: RestorePhase,
    cur: Current,
    idx: usize,
    first_err: Option<PaperError>,
}

impl View for RestoreRun {
    type V = RestoreView;

    closed spec fn view(&self) -> RestoreView {
        RestoreView {
            phase: self.phase,
            cur: self.cur@,
            idx: self.idx as nat,
            first_err: match self.first_err {
                Some(e) => Some(e@),
                None => None,
            },
        }
    }
}

/// Starts re-applying every saved wallpaper: the first request reads the
/// saved outputs.
pub fn apply_saved() -> (r: (RestoreRun, Request))
    ensures
        (r.0@, r.1@) == restore_start(),
{
    let run = RestoreRun {
        phase: RestorePhase::Loading,
        cur: Current::new(),
        idx: 0,
        first_err: None,
    };
    (run, Request::LoadCurrent)
}

impl RestoreRun {
    #[verifier::type_invariant]
    closed spec fn inv(self) -> bool {
        self.phase != RestorePhase::Loading && self.phase != RestorePhase::Finished ==> self.idx
            < self.cur@.len()
    }

    /// Whether the run is waiting for a reply of this kind.
    pub fn accepts(&self, reply: &Reply) -> (r: bool)
        ensures
            r == restore_accepts(self@.phase, reply@),
    {
        match self.phase {
            RestorePhase::Loading => matches!(reply, Reply::Loaded(_)),
            RestorePhase::Focus => matches!(reply, Reply::Focused(_)),
            RestorePhase::Finished => false,
            _ => matches!(reply, Reply::Done(_)),
        }
    }

    fn entry(&mut self, i: usize) -> (r: Request)
        ensures
            (final(self)@, r@) == restore_entry(old(self)@, i as nat),
    {
        proof {
            use_type_invariant(&*self);
        }
        let n = self.cur.all().len();
        if i >= n {
            self.phase = RestorePhase::Finished;
            let res = match &self.first_err {
                Some(e) => Err(e.duplicate()),
                None => Ok(()),
            };
            return Request::Finished(res);
        }
        let es = self.cur.all();
        let o = es[i].0.clone();
        let p = es[i].1.clone();
        let star = is_star(o.as_str());
        self.idx = i;
        self.phase = RestorePhase::Applying;
        if star {
            Request::ApplyAll(p)
        } else {
            Request::ApplyOn(p, o)
        }
    }

    fn next_entry(&mut self) -> (r: Request)
        ensures
            (final(self)@, r@) == restore_entry(old(self)@, old(self)@.idx + 1),
    {
        proof {
            use_type_invariant(&*self);
        }
        let n = self.cur.all().len();
        if n == 0 || self.idx >= n - 1 {
            self.phase = RestorePhase::Finished;
            let res = match &self.first_err {
                Some(e) => Err(e.duplicate()),
                None => Ok(()),
            };
            return Request::Finished(res);
        }
        let i = self.idx + 1;
        self.entry(i)
    }

    fn failed(&mut self, m: String) -> (r: Request)
        ensures
            (final(self)@, r@) == restore_failed(old(self)@, m@),
    {
        proof {
            use_type_invariant(&*self);
        }
        if self.first_err.is_none() {
            self.first_err = Some(PaperError::Tool { message: m });
        }
        self.next_entry()
    }

    fn current_entry(&self) -> (r: (String, String))
        requires
            self@.phase != RestorePhase::Loading,
            self@.phase != RestorePhase::Finished,
        ensures
            r.0@ == self@.cur[self@.idx as int].0,
            r.1@ == self@.cur[self@.idx as int].1,
    {
        proof {
            use_type_invariant(self);
        }
        let es = self.cur.all();
        assert(self@.cur[self@.idx as int] == (es@[self.idx as int].0@, es@[self.idx as int].1@));
        (es[self.idx].0.clone(), es[self.idx].1.clone())
    }

    /// Takes what came of the last request and names the next one.
    pub fn step(&mut self, reply: Reply) -> (r: Request)
        requires
            restore_accepts(old(self)@.phase, reply@),
        ensures
            (final(self)@, r@) == restore_next(old(self)@, reply@),
    {
        proof {
            use_type_invariant(&*self);
        }
        match self.phase {
            RestorePhase::Loading => match reply {
                Reply::Loaded(c) => {
                    self.cur = c;
                    self.entry(0)
                },
                _ => Request::Finished(Ok(())),
            },
            RestorePhase::Applying => match reply {
                Reply::Done(Err(m)) => self.failed(m),
                _ => {
                    let (o, p) = self.current_entry();
                    if is_star(o.as_str()) {
                        self.phase = RestorePhase::Emitting;
                        Request::Emit(Event::Changed { path: p, output: None })
                    } else {
                        self.phase = RestorePhase::Theming;
                        Request::ThemeFor(o, p)
                    }
                },
            },
            RestorePhase::Theming => match reply {
                Reply::Done(Err(m)) => self.failed(m),
                _ => {
                    self.phase = RestorePhase::Focus;
                    Request::FocusedMonitor
                },
            },
            RestorePhase::Focus => {
                let (o, p) = self.current_entry();
                let focused = match reply {
                    Reply::Focused(Some(n)) => same_chars(
                        chars_of(n.as_str()).as_slice(),
                        chars_of(o.as_str()).as_slice(),
                    ),
                    _ => false,
                };
                if focused {
                    self.phase = RestorePhase::Sharing;
                    Request::WriteShared(o)
                } else {
                    self.phase = RestorePhase::Emitting;
                    Request::Emit(Event::Changed { path: p, output: Some(o) })
                }
            },
            RestorePhase::Sharing => match reply {
                Reply::Done(Err(m)) => self.failed(m),
                _ => {
                    let (o, p) = self.current_entry();
                    self.phase = RestorePhase::Emitting;
                    Request::Emit(Event::Changed { path: p, output: Some(o) })
                },
            },
            RestorePhase::Emitting => self.next_entry(),
            RestorePhase::Finished => Request::Finished(Ok(())),
        }
    }
}

} // verus!
