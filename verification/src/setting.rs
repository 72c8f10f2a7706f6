//! `set` (a wallpaper on every output, the global palette, a theme reload)
//! and `set_on` (a wallpaper and its theme on one output), as one state
//! machine.
use vstd::prelude::*;

use crate::awww::{awww_names, parse_awww_query};
use crate::current::{entries_view, keys_sorted, law_put_then_lookup, lookup, put, Current};
use crate::error::{ErrorView, PaperError};
use crate::flow::{Event, EventView, Reply, ReplyView, Request, RequestView};
use crate::image::{
    ascii_lowercase, ext_or_empty, image_extensions, is_ascii_chars, is_listed_type, lowercase,
    lowered_extension, validate_canonical,
};
use crate::text::{chars_of, chars_order, copy_opt, lines, opt_string, same_chars, Order};

verus! {

/// Where a set stands.
#[derive(Debug, Clone, Copy, PartialEq, Eq, Structural)]
pub enum SetPhase {
    Resolving,
    Applying,
    Palette,
    Reloading,
    Loading,
    Hypr,
    Awww,
    Saving,
    Theming,
    Focus,
    Sharing,
    Emitting,
    Finished,
}

pub struct SetView {
    pub requested: Seq<char>,
    pub output: Option<Seq<char>>,
    pub phase: SetPhase,
    pub path: Seq<char>,
    pub cur: Seq<(Seq<char>, Seq<char>)>,
    pub idx: nat,
}

/// The output key that stands for every output.
pub open spec fn star() -> Seq<char> {
    seq!['*']
}

/// The first saved entry at or after `from` that names an output (not `*`).
pub open spec fn next_theme(cur: Seq<(Seq<char>, Seq<char>)>, from: int) -> Option<int>
    decreases cur.len() - from,
{
    if from < 0 || from >= cur.len() {
        None
    } else if cur[from].0 != star() {
        Some(from)
    } else {
        next_theme(cur, from + 1)
    }
}

/// `es` with `p` stored under each of `names`, in order.
pub open spec fn set_each(
    es: Seq<(Seq<char>, Seq<char>)>,
    names: Seq<Seq<char>>,
    p: Seq<char>,
) -> Seq<(Seq<char>, Seq<char>)>
    decreases names.len(),
{
    if names.len() == 0 {
        es
    } else {
        put(set_each(es, names.drop_last(), p), names.last(), p)
    }
}

/// Every saved output given `p`.
pub open spec fn all_to(es: Seq<(Seq<char>, Seq<char>)>, p: Seq<char>) -> Seq<
    (Seq<char>, Seq<char>),
> {
    es.map_values(|e: (Seq<char>, Seq<char>)| (e.0, p))
}

pub open spec fn set_fail(s: SetView, e: ErrorView) -> (SetView, RequestView) {
    (SetView { phase: SetPhase::Finished, ..s }, RequestView::Finished(Err(e)))
}

pub open spec fn step_done(r: ReplyView) -> Option<Seq<char>> {
    match r {
        ReplyView::Done(Err(m)) => Some(m),
        _ => None,
    }
}

/// Per-output themes for `set`, from the saved entry at `from` on; then the
/// change is published.
pub open spec fn theme_from(s: SetView, from: int) -> (SetView, RequestView) {
    match next_theme(s.cur, from) {
        Some(j) => (
            SetView { phase: SetPhase::Theming, idx: j as nat, ..s },
            RequestView::ThemeFor(s.cur[j].0, s.path),
        ),
        None => (
            SetView { phase: SetPhase::Emitting, ..s },
            RequestView::Emit(EventView::Changed { path: s.path, output: None }),
        ),
    }
}

pub open spec fn save_as(s: SetView, cur: Seq<(Seq<char>, Seq<char>)>) -> (SetView, RequestView) {
    (SetView { phase: SetPhase::Saving, cur, ..s }, RequestView::SaveCurrent(cur))
}

/// Where a `set`/`set_on` of `requested` starts.
pub open spec fn set_start(requested: Seq<char>, output: Option<Seq<char>>) -> (
    SetView,
    RequestView,
) {
    let s = SetView {
        requested,
        output,
        phase: SetPhase::Resolving,
        path: Seq::empty(),
        cur: Seq::empty(),
        idx: 0,
    };
    match output {
        Some(o) => if o.len() == 0 {
            set_fail(s, ErrorView::EmptyOutput)
        } else {
            (s, RequestView::Canonicalize(requested))
        },
        None => (s, RequestView::Canonicalize(requested)),
    }
}

/// Which reply each phase waits for.
pub open spec fn set_accepts(phase: SetPhase, r: ReplyView) -> bool {
    match phase {
        SetPhase::Resolving => r is Resolved,
        SetPhase::Loading => r is Loaded,
        SetPhase::Hypr => r is Monitors,
        SetPhase::Awww => r is Query,
        SetPhase::Focus => r is Focused,
        SetPhase::Finished => false,
        _ => r is Done,
    }
}

/// The output names `awww query` gives (none when it failed).
pub open spec fn queried_outputs(q: Option<Seq<char>>) -> Seq<Seq<char>> {
    match q {
        Some(t) => awww_names(lines(t)),
        None => Seq::empty(),
    }
}

/// The set machine's step on a reply it accepts.
pub open spec fn set_next(s: SetView, r: ReplyView) -> (SetView, RequestView) {
    match s.phase {
        SetPhase::Resolving => match r {
            ReplyView::Resolved(Err(cause)) => set_fail(
                s,
                ErrorView::NotFound { path: s.requested, cause },
            ),
            ReplyView::Resolved(Ok(c)) => if !image_extensions().contains(lowered_extension(c)) {
                set_fail(s, ErrorView::UnsupportedType { ext: lowered_extension(c) })
            } else {
                let s2 = SetView { path: c, phase: SetPhase::Applying, ..s };
                match s.output {
                    None => (s2, RequestView::ApplyAll(c)),
                    Some(o) => (s2, RequestView::ApplyOn(c, o)),
                }
            },
            _ => (s, RequestView::Finished(Ok(()))),
        },
        SetPhase::Applying => match step_done(r) {
            Some(m) => set_fail(s, ErrorView::Tool { message: m }),
            None => match s.output {
                None => (
                    SetView { phase: SetPhase::Palette, ..s },
                    RequestView::GeneratePalette(s.path),
                ),
                Some(o) => (
                    SetView { phase: SetPhase::Theming, ..s },
                    RequestView::ThemeFor(o, s.path),
                ),
            },
        },
        SetPhase::Palette => match step_done(r) {
            Some(m) => set_fail(s, ErrorView::Tool { message: m }),
            None => (SetView { phase: SetPhase::Reloading, ..s }, RequestView::ReloadTheme),
        },
        SetPhase::Reloading => match step_done(r) {
            Some(m) => set_fail(s, ErrorView::Tool { message: m }),
            None => (SetView { phase: SetPhase::Loading, ..s }, RequestView::LoadCurrent),
        },
        SetPhase::Loading => match r {
            ReplyView::Loaded(c) => match s.output {
                None => (
                    SetView { phase: SetPhase::Hypr, cur: all_to(c, s.path), ..s },
                    RequestView::HyprMonitors,
                ),
                Some(o) => save_as(s, put(c, o, s.path)),
            },
            _ => (s, RequestView::Finished(Ok(()))),
        },
        SetPhase::Hypr => match r {
            ReplyView::Monitors(Some(names)) => if names.len() > 0 {
                save_as(s, set_each(s.cur, names, s.path))
            } else {
                (SetView { phase: SetPhase::Awww, ..s }, RequestView::AwwwQuery)
            },
            _ => (SetView { phase: SetPhase::Awww, ..s }, RequestView::AwwwQuery),
        },
        SetPhase::Awww => match r {
            ReplyView::Query(q) => {
                let live = queried_outputs(q);
                if live.len() > 0 {
                    save_as(s, set_each(s.cur, live, s.path))
                } else if s.cur.len() > 0 {
                    save_as(s, s.cur)
                } else {
                    save_as(s, put(Seq::empty(), star(), s.path))
                }
            },
            _ => (s, RequestView::Finished(Ok(()))),
        },
        SetPhase::Saving => match step_done(r) {
            Some(m) => set_fail(s, ErrorView::Tool { message: m }),
            None => match s.output {
                None => theme_from(s, 0),
                Some(o) => (SetView { phase: SetPhase::Focus, ..s }, RequestView::FocusedMonitor),
            },
        },
        SetPhase::Theming => match step_done(r) {
            Some(m) => set_fail(s, ErrorView::Tool { message: m }),
            None => match s.output {
                None => theme_from(s, s.idx + 1int),
                Some(o) => (SetView { phase: SetPhase::Loading, ..s }, RequestView::LoadCurrent),
            },
        },
        SetPhase::Focus => match r {
            ReplyView::Focused(n) => if n is Some && n == s.output {
                (SetView { phase: SetPhase::Sharing, ..s }, RequestView::WriteShared(s.output->0))
            } else {
                (
                    SetView { phase: SetPhase::Emitting, ..s },
                    RequestView::Emit(EventView::Changed { path: s.path, output: s.output }),
                )
            },
            _ => (s, RequestView::Finished(Ok(()))),
        },
        SetPhase::Sharing => match step_done(r) {
            Some(m) => set_fail(s, ErrorView::Tool { message: m }),
            None => (
                SetView { phase: SetPhase::Emitting, ..s },
                RequestView::Emit(EventView::Changed { path: s.path, output: s.output }),
            ),
        },
        SetPhase::Emitting => (
            SetView { phase: SetPhase::Finished, ..s },
            RequestView::Finished(Ok(())),
        ),
        SetPhase::Finished => (s, RequestView::Finished(Ok(()))),
    }
}


/// The requests a set run makes as it takes `rs`, one reply after another.
pub open spec fn set_trace(s: SetView, rs: Seq<ReplyView>) -> Seq<RequestView>
    decreases rs.len(),
{
    if rs.len() == 0 {
        Seq::empty()
    } else {
        let (s2, q) = set_next(s, rs[0]);
        seq![q] + set_trace(s2, rs.drop_first())
    }
}

/// Each reply is one the run waits for at that point.
pub open spec fn set_accepted(s: SetView, rs: Seq<ReplyView>) -> bool
    decreases rs.len(),
{
    rs.len() == 0 || (set_accepts(s.phase, rs[0]) && set_accepted(set_next(s, rs[0]).0, rs.drop_first()))
}

/// The phases before anything is published.
pub open spec fn before_publish(p: SetPhase) -> bool {
    p != SetPhase::Emitting && p != SetPhase::Finished
}

pub open spec fn is_failure(q: RequestView) -> bool {
    q matches RequestView::Finished(Err(_))
}

pub proof fn lemma_set_next_shape(s: SetView, r: ReplyView)
    requires
        before_publish(s.phase),
        set_accepts(s.phase, r),
    ensures
        ({
            let (s2, q) = set_next(s, r);
            ||| (s2.phase == SetPhase::Finished && is_failure(q))
            ||| (s2.phase == SetPhase::Emitting && q == RequestView::Emit(
                EventView::Changed { path: s2.path, output: s.output },
            ))
            ||| (before_publish(s2.phase) && !(q is Emit) && !(q is Finished))
        }),
        set_next(s, r).0.output == s.output,
{
}

/// A set run publishes `bread.paper.changed` only on success: when it
/// reports a failure it has published nothing, and when it publishes the
/// change (for the path it applied, and the output it was asked for, if
/// any) its next request is to finish successfully.
pub proof fn law_set_publishes_only_on_success(s: SetView, rs: Seq<ReplyView>)
    requires
        before_publish(s.phase),
        set_accepted(s, rs),
    ensures
        forall|i: int|
            0 <= i < set_trace(s, rs).len() && is_failure(#[trigger] set_trace(s, rs)[i]) ==> forall|
                j: int,
            | 0 <= j < i ==> !(#[trigger] set_trace(s, rs)[j] is Emit),
        forall|i: int|
            0 <= i < set_trace(s, rs).len() && #[trigger] set_trace(s, rs)[i] is Emit ==> (
            set_trace(s, rs)[i]->Emit_0 matches EventView::Changed { output, .. } && output
                == s.output) && (i + 1 < set_trace(s, rs).len() ==> set_trace(s, rs)[i + 1]
                == RequestView::Finished(Ok(()))),
    decreases rs.len(),
{
    if rs.len() > 0 {
        let (s2, q) = set_next(s, rs[0]);
        let t = set_trace(s, rs);
        let rest = set_trace(s2, rs.drop_first());
        lemma_set_next_shape(s, rs[0]);
        assert(t == seq![q] + rest);
        if before_publish(s2.phase) {
            law_set_publishes_only_on_success(s2, rs.drop_first());
            assert forall|i: int| 0 <= i < t.len() && is_failure(#[trigger] t[i]) implies forall|
                j: int,
            | 0 <= j < i ==> !(#[trigger] t[j] is Emit) by {
                if i > 0 {
                    assert(t[i] == rest[i - 1]);
                    assert forall|j: int| 0 <= j < i implies !(#[trigger] t[j] is Emit) by {
                        if j > 0 {
                            assert(t[j] == rest[j - 1]);
                        }
                    }
                }
            }
            assert forall|i: int| 0 <= i < t.len() && #[trigger] t[i] is Emit implies (
            t[i]->Emit_0 matches EventView::Changed { output, .. } && output == s.output) && (i + 1
                < t.len() ==> t[i + 1] == RequestView::Finished(Ok(()))) by {
                assert(i > 0);
                assert(t[i] == rest[i - 1]);
                if i + 1 < t.len() {
                    assert(t[i + 1] == rest[i]);
                }
            }
        } else if s2.phase == SetPhase::Finished {
            assert(set_accepted(s2, rs.drop_first()));
            assert(rs.drop_first().len() == 0);
            assert(rest =~= Seq::<RequestView>::empty());
            assert(t =~= seq![q]);
        } else {
            let rs2 = rs.drop_first();
            assert(set_accepted(s2, rs2));
            if rs2.len() > 0 {
                let (s3, q3) = set_next(s2, rs2[0]);
                assert(q3 == RequestView::Finished(Ok(())));
                assert(s3.phase == SetPhase::Finished);
                assert(set_accepted(s3, rs2.drop_first()));
                assert(rs2.drop_first().len() == 0);
                assert(set_trace(s3, rs2.drop_first()) =~= Seq::<RequestView>::empty());
                assert(rest =~= seq![q3]);
            } else {
                assert(rest =~= Seq::<RequestView>::empty());
            }
        }
    }
}

/// A wallpaper of an unsupported type is refused right after its path is
/// resolved, before any tool runs; a path that cannot be resolved fails
/// there too; `set_on` with an empty output name fails before anything.
pub proof fn law_set_validates_first(requested: Seq<char>, output: Option<Seq<char>>, c: Seq<char>, cause: Seq<char>)
    ensures
        output == Some(Seq::<char>::empty()) ==> set_start(requested, output).1
            == RequestView::Finished(Err(ErrorView::EmptyOutput)),
        output != Some(Seq::<char>::empty()) ==> ({
            let s = set_start(requested, output).0;
            &&& set_start(requested, output).1 == RequestView::Canonicalize(requested)
            &&& set_next(s, ReplyView::Resolved(Err(cause))).1 == RequestView::Finished(
                Err(ErrorView::NotFound { path: requested, cause }),
            )
            &&& !image_extensions().contains(lowered_extension(c)) ==> set_next(
                s,
                ReplyView::Resolved(Ok(c)),
            ).1 == RequestView::Finished(
                Err(ErrorView::UnsupportedType { ext: lowered_extension(c) }),
            )
        }),
{
    if output == Some(Seq::<char>::empty()) {
        assert(output->0.len() == 0);
    } else if output is Some {
        assert(output->0.len() != 0) by {
            if output->0.len() == 0 {
                assert(output->0 =~= Seq::<char>::empty());
            }
        }
    }
}

proof fn lemma_all_to(c: Seq<(Seq<char>, Seq<char>)>, p: Seq<char>)
    requires
        keys_sorted(c),
    ensures
        keys_sorted(all_to(c, p)),
        forall|k: Seq<char>| #[trigger]
            lookup(all_to(c, p), k) == if lookup(c, k) is Some {
                Some(p)
            } else {
                None::<Seq<char>>
            },
    decreases c.len(),
{
    let a = all_to(c, p);
    assert forall|i: int, j: int| 0 <= i < j < a.len() implies chars_order(
        #[trigger] a[i].0,
        #[trigger] a[j].0,
    ) == Order::Less by {
        assert(a[i].0 == c[i].0 && a[j].0 == c[j].0);
    }
    if c.len() > 0 {
        let d = c.drop_last();
        assert(keys_sorted(d));
        lemma_all_to(d, p);
        assert(a.drop_last() =~= all_to(d, p));
        assert(a.last() == (c.last().0, p));
        assert forall|k: Seq<char>| #[trigger]
            lookup(a, k) == if lookup(c, k) is Some {
                Some(p)
            } else {
                None::<Seq<char>>
            } by {
            if a.last().0 != k {
                assert(lookup(a, k) == lookup(all_to(d, p), k));
                assert(lookup(c, k) == lookup(d, k));
            }
        }
    } else {
        assert forall|k: Seq<char>| #[trigger]
            lookup(a, k) == if lookup(c, k) is Some {
                Some(p)
            } else {
                None::<Seq<char>>
            } by {}
    }
}

proof fn lemma_set_each(es: Seq<(Seq<char>, Seq<char>)>, names: Seq<Seq<char>>, p: Seq<char>)
    requires
        keys_sorted(es),
    ensures
        keys_sorted(set_each(es, names, p)),
        forall|k: Seq<char>| names.contains(k) ==> #[trigger] lookup(set_each(es, names, p), k)
            == Some(p),
        forall|k: Seq<char>| !names.contains(k) ==> #[trigger] lookup(set_each(es, names, p), k)
            == lookup(es, k),
    decreases names.len(),
{
    if names.len() > 0 {
        let d = names.drop_last();
        lemma_set_each(es, d, p);
        law_put_then_lookup(set_each(es, d, p), names.last(), p);
        assert(set_each(es, names, p) == put(set_each(es, d, p), names.last(), p));
        let x = set_each(es, d, p);
        assert forall|k: Seq<char>| names.contains(k) implies #[trigger] lookup(
            set_each(es, names, p),
            k,
        ) == Some(p) by {
            if k != names.last() {
                let i = choose|i: int| 0 <= i < names.len() && names[i] == k;
                assert(i < names.len() - 1);
                assert(d[i] == k);
                assert(d.contains(k));
                assert(lookup(x, k) == Some(p));
                assert(lookup(put(x, names.last(), p), k) == lookup(x, k));
            }
        }
        assert forall|k: Seq<char>| !names.contains(k) implies #[trigger] lookup(
            set_each(es, names, p),
            k,
        ) == lookup(es, k) by {
            assert(k != names.last()) by {
                if k == names.last() {
                    assert(names[names.len() - 1] == k);
                }
            }
            assert(!d.contains(k)) by {
                if d.contains(k) {
                    let i = choose|i: int| 0 <= i < d.len() && d[i] == k;
                    assert(names[i] == k);
                }
            }
            assert(lookup(x, k) == lookup(es, k));
            assert(lookup(put(x, names.last(), p), k) == lookup(x, k));
        }
    }
}

/// Every saved output holds `p`.
pub open spec fn all_hold(es: Seq<(Seq<char>, Seq<char>)>, p: Seq<char>) -> bool {
    forall|k: Seq<char>| #[trigger] lookup(es, k) is Some ==> lookup(es, k) == Some(p)
}

/// A set on one output stores the path for that output, where `get_on`
/// reads it back, and keeps the others. A set on every output first gives
/// every output already saved the new path, then asks Hyprland for the live
/// outputs.
pub proof fn law_set_records_outputs(s: SetView, c: Seq<(Seq<char>, Seq<char>)>)
    requires
        s.phase == SetPhase::Loading,
        keys_sorted(c),
    ensures
        s.output is None ==> set_next(s, ReplyView::Loaded(c)).1 == RequestView::HyprMonitors
            && set_next(s, ReplyView::Loaded(c)).0.cur == all_to(c, s.path),
        s.output is None ==> keys_sorted(set_next(s, ReplyView::Loaded(c)).0.cur) && all_hold(
            set_next(s, ReplyView::Loaded(c)).0.cur,
            s.path,
        ) && forall|k: Seq<char>|
            lookup(c, k) is Some ==> #[trigger] lookup(set_next(s, ReplyView::Loaded(c)).0.cur, k)
                == Some(s.path),
        s.output is Some ==> set_next(s, ReplyView::Loaded(c)).0.cur == put(c, s.output->0, s.path),
        s.output is Some ==> lookup(set_next(s, ReplyView::Loaded(c)).0.cur, s.output->0) == Some(
            s.path,
        ),
        s.output is Some ==> forall|k: Seq<char>|
            k != s.output->0 ==> lookup(set_next(s, ReplyView::Loaded(c)).0.cur, k) == lookup(c, k),
{
    if s.output is Some {
        law_put_then_lookup(c, s.output->0, s.path);
    } else {
        lemma_all_to(c, s.path);
    }
}

/// A set on every output saves the new path for every output saved before
/// and for every live output (Hyprland's monitors, else the outputs `awww
/// query` lists), and for `*` when there is neither; every saved output
/// then holds the new path.
pub proof fn law_set_stores_every_output(s: SetView, r: ReplyView)
    requires
        s.output is None,
        s.phase == SetPhase::Hypr || s.phase == SetPhase::Awww,
        set_accepts(s.phase, r),
        keys_sorted(s.cur),
        all_hold(s.cur, s.path),
    ensures
        ({
            let (s2, q) = set_next(s, r);
            &&& s2.phase == SetPhase::Saving || (s2.phase == SetPhase::Awww && q
                == RequestView::AwwwQuery)
            &&& s2.phase == SetPhase::Saving ==> {
                &&& q == RequestView::SaveCurrent(s2.cur)
                &&& keys_sorted(s2.cur)
                &&& all_hold(s2.cur, s.path)
                &&& forall|k: Seq<char>| #[trigger]
                    lookup(s.cur, k) is Some ==> lookup(s2.cur, k) == Some(s.path)
                &&& r matches ReplyView::Monitors(Some(names)) ==> forall|k: Seq<char>|
                    names.contains(k) ==> #[trigger] lookup(s2.cur, k) == Some(s.path)
                &&& r matches ReplyView::Query(q) ==> forall|k: Seq<char>|
                    queried_outputs(q).contains(k) ==> #[trigger] lookup(s2.cur, k) == Some(
                        s.path,
                    )
                &&& s2.cur.len() > 0
            }
        }),
{
    let (s2, q) = set_next(s, r);
    let names: Seq<Seq<char>> = match r {
        ReplyView::Monitors(Some(n)) => n,
        ReplyView::Query(qq) => queried_outputs(qq),
        _ => Seq::empty(),
    };
    if s2.phase == SetPhase::Saving {
        if names.len() > 0 {
            assert(s2.cur == set_each(s.cur, names, s.path));
            lemma_set_each(s.cur, names, s.path);
            assert forall|k: Seq<char>| #[trigger] lookup(s2.cur, k) is Some implies lookup(
                s2.cur,
                k,
            ) == Some(s.path) by {
                if !names.contains(k) {
                    assert(lookup(s2.cur, k) == lookup(s.cur, k));
                }
            }
            assert forall|k: Seq<char>| #[trigger] lookup(s.cur, k) is Some implies lookup(
                s2.cur,
                k,
            ) == Some(s.path) by {
                if !names.contains(k) {
                    assert(lookup(s2.cur, k) == lookup(s.cur, k));
                }
            }
            assert(names.contains(names[0]));
            assert(lookup(s2.cur, names[0]) == Some(s.path));
        } else if s.cur.len() > 0 {
            assert(s2.cur == s.cur);
        } else {
            assert(s2.cur == put(Seq::<(Seq<char>, Seq<char>)>::empty(), star(), s.path));
            law_put_then_lookup(Seq::empty(), star(), s.path);
            assert forall|k: Seq<char>| #[trigger] lookup(s2.cur, k) is Some implies lookup(
                s2.cur,
                k,
            ) == Some(s.path) by {
                if k != star() {
                    assert(lookup(s2.cur, k) == lookup(Seq::<(Seq<char>, Seq<char>)>::empty(), k));
                }
            }
            assert(lookup(s2.cur, star()) == Some(s.path));
        }
    }
}

/// The requests only `set` (every output) makes: the global palette and the
/// theme reload.
pub open spec fn global_only(q: RequestView) -> bool {
    q is GeneratePalette || q is ReloadTheme || q is ApplyAll || q is HyprMonitors || q is AwwwQuery
}

/// The requests only `set_on` (one output) makes.
pub open spec fn single_only(q: RequestView) -> bool {
    q is ApplyOn || q is FocusedMonitor || q is WriteShared
}

/// The phases a run can be in: `set_on` never passes through the palette,
/// reload, Hyprland or awww-query phases, and `set` never through the
/// focus or shared-stylesheet phases.
pub open spec fn phase_fits(s: SetView) -> bool {
    &&& s.output is Some ==> s.phase != SetPhase::Palette && s.phase != SetPhase::Reloading
        && s.phase != SetPhase::Hypr && s.phase != SetPhase::Awww
    &&& s.output is None ==> s.phase != SetPhase::Focus && s.phase != SetPhase::Sharing
}

/// `set_on` never runs the global `wal -i`, the theme reload or an
/// every-output `awww img`; `set` never targets one output or touches the
/// shared stylesheet.
pub proof fn law_set_and_set_on_stay_apart(s: SetView, rs: Seq<ReplyView>)
    requires
        phase_fits(s),
    ensures
        phase_fits(set_start(s.requested, s.output).0),
        s.output is Some ==> forall|i: int|
            0 <= i < set_trace(s, rs).len() ==> !global_only(#[trigger] set_trace(s, rs)[i]),
        s.output is None ==> forall|i: int|
            0 <= i < set_trace(s, rs).len() ==> !single_only(#[trigger] set_trace(s, rs)[i]),
    decreases rs.len(),
{
    if rs.len() > 0 {
        let (s2, q) = set_next(s, rs[0]);
        let t = set_trace(s, rs);
        let rest = set_trace(s2, rs.drop_first());
        assert(t == seq![q] + rest);
        assert(s2.output == s.output);
        assert(phase_fits(s2));
        law_set_and_set_on_stay_apart(s2, rs.drop_first());
        assert forall|i: int| 0 <= i < t.len() implies (s.output is Some ==> !global_only(
            #[trigger] t[i],
        )) && (s.output is None ==> !single_only(t[i])) by {
            if i > 0 {
                assert(t[i] == rest[i - 1]);
            }
        }
    }
}

/// Which steps a run has asked for already, judged by its phase: the
/// wallpaper applied, the palette generated and themes reloaded (`set`),
/// the output's theme written (`set_on`), the outputs saved.
pub open spec fn applied(s: SetView) -> bool {
    s.phase != SetPhase::Resolving
}

pub open spec fn paletted(s: SetView) -> bool {
    s.output is Some || (s.phase != SetPhase::Resolving && s.phase != SetPhase::Applying)
}

pub open spec fn reloaded(s: SetView) -> bool {
    s.output is Some || (s.phase != SetPhase::Resolving && s.phase != SetPhase::Applying && s.phase
        != SetPhase::Palette)
}

pub open spec fn output_themed(s: SetView) -> bool {
    s.output is None || (s.phase != SetPhase::Resolving && s.phase != SetPhase::Applying)
}

pub open spec fn saved(s: SetView) -> bool {
    s.phase == SetPhase::Saving || s.phase == SetPhase::Focus || s.phase == SetPhase::Sharing
        || s.phase == SetPhase::Emitting || s.phase == SetPhase::Finished || (s.output is None
        && s.phase == SetPhase::Theming)
}

pub open spec fn publishes(q: RequestView) -> bool {
    q matches RequestView::Emit(EventView::Changed { .. })
}

/// Some request before index `i` of `t` satisfies `p`.
pub open spec fn asked_before(t: Seq<RequestView>, i: int, p: spec_fn(RequestView) -> bool) -> bool {
    exists|j: int| 0 <= j < i && #[trigger] p(t[j])
}

pub open spec fn is_apply(q: RequestView) -> bool {
    q is ApplyAll || q is ApplyOn
}

proof fn lemma_asked_shift(t: Seq<RequestView>, q: RequestView, i: int, p: spec_fn(RequestView) -> bool)
    requires
        0 < i <= t.len() + 1,
        asked_before(t, i - 1, p) || p(q),
    ensures
        asked_before(seq![q] + t, i, p),
{
    let u = seq![q] + t;
    if p(q) {
        assert(p(u[0]));
    } else {
        let j = choose|j: int| 0 <= j < i - 1 && #[trigger] p(t[j]);
        assert(u[j + 1] == t[j]);
        assert(p(u[j + 1]));
    }
}

/// The general form of `law_changed_after_every_step`, from any state.
proof fn lemma_changed_after_steps(s: SetView, rs: Seq<ReplyView>)
    requires
        set_accepted(s, rs),
    ensures
        forall|i: int|
            0 <= i < set_trace(s, rs).len() && publishes(#[trigger] set_trace(s, rs)[i]) ==> {
                let t = set_trace(s, rs);
                &&& applied(s) || asked_before(t, i, |q: RequestView| is_apply(q))
                &&& paletted(s) || asked_before(t, i, |q: RequestView| q is GeneratePalette)
                &&& reloaded(s) || asked_before(t, i, |q: RequestView| q is ReloadTheme)
                &&& output_themed(s) || asked_before(t, i, |q: RequestView| q is ThemeFor)
                &&& saved(s) || asked_before(t, i, |q: RequestView| q is SaveCurrent)
            },
    decreases rs.len(),
{
    if rs.len() > 0 {
        let (s2, q) = set_next(s, rs[0]);
        let t = set_trace(s, rs);
        let rest = set_trace(s2, rs.drop_first());
        assert(t == seq![q] + rest);
        assert(set_accepted(s2, rs.drop_first()));
        lemma_changed_after_steps(s2, rs.drop_first());
        assert forall|i: int| 0 <= i < t.len() && publishes(#[trigger] t[i]) implies {
            &&& applied(s) || asked_before(t, i, |q: RequestView| is_apply(q))
            &&& paletted(s) || asked_before(t, i, |q: RequestView| q is GeneratePalette)
            &&& reloaded(s) || asked_before(t, i, |q: RequestView| q is ReloadTheme)
            &&& output_themed(s) || asked_before(t, i, |q: RequestView| q is ThemeFor)
            &&& saved(s) || asked_before(t, i, |q: RequestView| q is SaveCurrent)
        } by {
            if i > 0 {
                assert(t[i] == rest[i - 1]);
                assert(publishes(rest[i - 1]));
                if !applied(s) {
                    lemma_asked_shift(rest, q, i, |q: RequestView| is_apply(q));
                }
                if !paletted(s) {
                    lemma_asked_shift(rest, q, i, |q: RequestView| q is GeneratePalette);
                }
                if !reloaded(s) {
                    lemma_asked_shift(rest, q, i, |q: RequestView| q is ReloadTheme);
                }
                if !output_themed(s) {
                    lemma_asked_shift(rest, q, i, |q: RequestView| q is ThemeFor);
                }
                if !saved(s) {
                    lemma_asked_shift(rest, q, i, |q: RequestView| q is SaveCurrent);
                }
            }
        }
    }
}

/// `bread.paper.changed` is published only after every step of the set was
/// asked for: the wallpaper applied and the outputs saved; for `set` also
/// the palette generated and the themes reloaded; for `set_on` also the
/// output's theme written.
pub proof fn law_changed_after_every_step(requested: Seq<char>, output: Option<Seq<char>>, rs: Seq<
    ReplyView,
>)
    requires
        set_accepted(set_start(requested, output).0, rs),
    ensures
        forall|i: int|
            0 <= i < set_trace(set_start(requested, output).0, rs).len() && publishes(
                #[trigger] set_trace(set_start(requested, output).0, rs)[i],
            ) ==> {
                let t = set_trace(set_start(requested, output).0, rs);
                &&& asked_before(t, i, |q: RequestView| is_apply(q))
                &&& asked_before(t, i, |q: RequestView| q is SaveCurrent)
                &&& output is None ==> asked_before(t, i, |q: RequestView| q is GeneratePalette)
                    && asked_before(t, i, |q: RequestView| q is ReloadTheme)
                &&& output is Some ==> asked_before(t, i, |q: RequestView| q is ThemeFor)
            },
{
    let s = set_start(requested, output).0;
    lemma_changed_after_steps(s, rs);
    if s.phase == SetPhase::Finished {
        assert(rs.len() == 0);
    }
}

/// One set names one wallpaper throughout: once its path is resolved it
/// never changes, and every application, palette, theme and change request
/// carries that canonical path (and `set_on`'s applications its output).
pub proof fn law_set_keeps_its_path(s: SetView, r: ReplyView)
    requires
        set_accepts(s.phase, r),
    ensures
        s.phase != SetPhase::Resolving ==> set_next(s, r).0.path == s.path,
        s.phase == SetPhase::Resolving && set_next(s, r).0.phase == SetPhase::Applying ==> r
            == ReplyView::Resolved(Ok(set_next(s, r).0.path)),
        match set_next(s, r).1 {
            RequestView::ApplyAll(p) => p == set_next(s, r).0.path && s.output is None,
            RequestView::ApplyOn(p, o) => p == set_next(s, r).0.path && s.output == Some(o),
            RequestView::GeneratePalette(p) => p == set_next(s, r).0.path,
            RequestView::ThemeFor(_, p) => p == set_next(s, r).0.path,
            RequestView::Emit(EventView::Changed { path, .. }) => path == set_next(s, r).0.path,
            _ => true,
        },
{
}

/// Once the wallpaper's path resolves to `c`, the run applies `c` (on every
/// output for `set`, on its output for `set_on`) exactly when the lowercased
/// extension of `c` is png, jpg, jpeg, webp, gif or bmp; otherwise it fails
/// with that lowercased extension as the unsupported type, before any tool
/// runs.
pub proof fn law_set_checks_lowercased_type(s: SetView, c: Seq<char>)
    requires
        s.phase == SetPhase::Resolving,
    ensures
        is_listed_type(lowercase(ext_or_empty(c))) ==> set_next(s, ReplyView::Resolved(Ok(c)))
            == (
            SetView { phase: SetPhase::Applying, path: c, ..s },
            match s.output {
                None => RequestView::ApplyAll(c),
                Some(o) => RequestView::ApplyOn(c, o),
            },
        ),
        !is_listed_type(lowercase(ext_or_empty(c))) ==> set_next(s, ReplyView::Resolved(Ok(c)))
            == (
            SetView { phase: SetPhase::Finished, ..s },
            RequestView::Finished(
                Err(ErrorView::UnsupportedType { ext: lowercase(ext_or_empty(c)) }),
            ),
        ),
{
    crate::image::law_supported_extensions(lowercase(ext_or_empty(c)), c);
}

/// A `set` or `set_on` in progress.
pub struct SetRun {
    requested: String,
    output: Option<String>,
    phase: SetPhase,
    path: String,
    cur: Current,
    idx: usize,
}

impl View for SetRun {
    type V = SetView;

    closed spec fn view(&self) -> SetView {
        SetView {
            requested: self.requested@,
            output: opt_string(self.output),
            phase: self.phase,
            path: self.path@,
            cur: self.cur@,
            idx: self.idx as nat,
        }
    }
}

pub(crate) fn start_run(requested: String, output: Option<String>) -> (r: (SetRun, Request))
    ensures
        (r.0@, r.1@) == set_start(requested@, opt_string(output)),
{
    let empty_output = match &output {
        Some(o) => o.as_str().is_empty(),
        None => false,
    };
    let run = SetRun {
        requested: requested.clone(),
        output,
        phase: SetPhase::Resolving,
        path: String::new(),
        cur: Current::new(),
        idx: 0,
    };
    if empty_output {
        let mut run = run;
        run.phase = SetPhase::Finished;
        (run, Request::Finished(Err(PaperError::EmptyOutput)))
    } else {
        (run, Request::Canonicalize(requested))
    }
}

/// Starts setting `requested` as the wallpaper of every output: the first
/// request resolves the path.
pub fn set(requested: String) -> (r: (SetRun, Request))
    ensures
        (r.0@, r.1@) == set_start(requested@, None),
{
    start_run(requested, None)
}

/// Starts setting `requested` as the wallpaper of `output` alone. An empty
/// output name fails at once.
pub fn set_on(requested: String, output: String) -> (r: (SetRun, Request))
    ensures
        (r.0@, r.1@) == set_start(requested@, Some(output@)),
{
    start_run(requested, Some(output))
}

pub(crate) fn is_star(k: &str) -> (r: bool)
    ensures
        r == (k@ == star()),
{
    let v = chars_of(k);
    let r = v.len() == 1 && v[0] == '*';
    proof {
        if v@.len() == 1 && v@[0] == '*' {
            assert(k@ =~= star());
        }
    }
    r
}

impl SetRun {
    /// Whether the run is waiting for a reply of this kind.
    pub fn accepts(&self, reply: &Reply) -> (r: bool)
        ensures
            r == set_accepts(self@.phase, reply@),
    {
        match self.phase {
            SetPhase::Resolving => matches!(reply, Reply::Resolved(_)),
            SetPhase::Loading => matches!(reply, Reply::Loaded(_)),
            SetPhase::Hypr => matches!(reply, Reply::Monitors(_)),
            SetPhase::Awww => matches!(reply, Reply::Query(_)),
            SetPhase::Focus => matches!(reply, Reply::Focused(_)),
            SetPhase::Finished => false,
            _ => matches!(reply, Reply::Done(_)),
        }
    }

    /// The saved outputs as the run last had them.
    pub fn current(&self) -> (r: &Current)
        ensures
            r@ == self@.cur,
    {
        &self.cur
    }

    fn fail(&mut self, e: PaperError) -> (r: Request)
        ensures
            (final(self)@, r@) == set_fail(old(self)@, e@),
    {
        self.phase = SetPhase::Finished;
        Request::Finished(Err(e))
    }

    fn save(&mut self, cur: Current) -> (r: Request)
        ensures
            (final(self)@, r@) == save_as(old(self)@, cur@),
    {
        let es = cur.entries();
        self.cur = cur;
        self.phase = SetPhase::Saving;
        Request::SaveCurrent(es)
    }

    fn themes_from(&mut self, after: bool) -> (r: Request)
        ensures
            (final(self)@, r@) == theme_from(
                old(self)@,
                if after {
                    old(self)@.idx + 1int
                } else {
                    0int
                },
            ),
    {
        let ghost s = self@;
        let ghost from: int = if after {
            s.idx + 1int
        } else {
            0int
        };
        let es = self.cur.all();
        let n = es.len();
        if after && self.idx >= n {
            self.phase = SetPhase::Emitting;
            return Request::Emit(Event::Changed { path: self.path.clone(), output: None });
        }
        let mut j = if after {
            self.idx + 1
        } else {
            0
        };
        while j < n
            invariant
                from <= j,
                old(self)@ == s,
                from == (if after {
                    s.idx + 1int
                } else {
                    0int
                }),
                self@ == s,
                n == es@.len(),
                entries_view(es@) == s.cur,
                next_theme(s.cur, from as int) == next_theme(s.cur, j as int),
            decreases n - j,
        {
            assert(s.cur[j as int].0 == es@[j as int].0@);
            if !is_star(es[j].0.as_str()) {
                let o = es[j].0.clone();
                let p = self.path.clone();
                assert(next_theme(s.cur, j as int) == Some(j as int));
                assert(o@ == s.cur[j as int].0);
                self.phase = SetPhase::Theming;
                self.idx = j;
                assert(self@ == SetView { phase: SetPhase::Theming, idx: j as nat, ..s });
                return Request::ThemeFor(o, p);
            }
            j = j + 1;
        }
        self.phase = SetPhase::Emitting;
        Request::Emit(Event::Changed { path: self.path.clone(), output: None })
    }

    /// Takes what came of the last request and names the next one.
    pub fn step(&mut self, reply: Reply) -> (r: Request)
        requires
            set_accepts(old(self)@.phase, reply@),
        ensures
            (final(self)@, r@) == set_next(old(self)@, reply@),
            reply@ matches ReplyView::Resolved(Ok(c)) ==> (old(self)@.phase == SetPhase::Resolving
                && is_ascii_chars(ext_or_empty(c)) ==> lowered_extension(c) == ascii_lowercase(
                ext_or_empty(c),
            )),
    {
        let ghost s = self@;
        match self.phase {
            SetPhase::Resolving => match reply {
                Reply::Resolved(Err(cause)) => {
                    let requested = self.requested.clone();
                    self.fail(PaperError::NotFound { path: requested, cause })
                },
                Reply::Resolved(Ok(c)) => match validate_canonical(c) {
                    Err(e) => self.fail(e),
                    Ok(c) => {
                        self.path = c.clone();
                        self.phase = SetPhase::Applying;
                        match &self.output {
                            None => Request::ApplyAll(c),
                            Some(o) => Request::ApplyOn(c, o.clone()),
                        }
                    },
                },
                _ => Request::Finished(Ok(())),
            },
            SetPhase::Applying => match reply {
                Reply::Done(Err(m)) => self.fail(PaperError::Tool { message: m }),
                _ => match &self.output {
                    None => {
                        self.phase = SetPhase::Palette;
                        Request::GeneratePalette(self.path.clone())
                    },
                    Some(o) => {
                        let o = o.clone();
                        self.phase = SetPhase::Theming;
                        Request::ThemeFor(o, self.path.clone())
                    },
                },
            },
            SetPhase::Palette => match reply {
                Reply::Done(Err(m)) => self.fail(PaperError::Tool { message: m }),
                _ => {
                    self.phase = SetPhase::Reloading;
                    Request::ReloadTheme
                },
            },
            SetPhase::Reloading => match reply {
                Reply::Done(Err(m)) => self.fail(PaperError::Tool { message: m }),
                _ => {
                    self.phase = SetPhase::Loading;
                    Request::LoadCurrent
                },
            },
            SetPhase::Loading => match reply {
                Reply::Loaded(c) => {
                    let mut c = c;
                    match &self.output {
                        None => {
                            let p = self.path.clone();
                            c.set_every(p.as_str());
                            self.cur = c;
                            self.phase = SetPhase::Hypr;
                            Request::HyprMonitors
                        },
                        Some(o) => {
                            let o = o.clone();
                            c.set_output(o, self.path.clone());
                            self.save(c)
                        },
                    }
                },
                _ => Request::Finished(Ok(())),
            },
            SetPhase::Hypr => {
                let names = match reply {
                    Reply::Monitors(Some(names)) => names,
                    _ => Vec::new(),
                };
                if names.len() > 0 {
                    let c = self.put_all(names);
                    self.save(c)
                } else {
                    self.phase = SetPhase::Awww;
                    Request::AwwwQuery
                }
            },
            SetPhase::Awww => match reply {
                Reply::Query(q) => {
                    let live = match q {
                        Some(t) => parse_awww_query(t.as_str()),
                        None => Vec::new(),
                    };
                    assert(live@.map_values(|x: String| x@) =~= queried_outputs(opt_string(q)));
                    if live.len() > 0 {
                        let c = self.put_all(live);
                        self.save(c)
                    } else if self.cur.all().len() > 0 {
                        let c = self.put_all(Vec::new());
                        assert(Seq::<String>::empty().map_values(|x: String| x@) =~= Seq::<
                            Seq<char>,
                        >::empty());
                        self.save(c)
                    } else {
                        let mut c = Current::new();
                        c.set_output("*".to_string(), self.path.clone());
                        proof {
                            reveal_strlit("*");
                            assert("*"@ =~= star());
                        }
                        self.save(c)
                    }
                },
                _ => Request::Finished(Ok(())),
            },
            SetPhase::Saving => match reply {
                Reply::Done(Err(m)) => self.fail(PaperError::Tool { message: m }),
                _ => match &self.output {
                    None => self.themes_from(false),
                    Some(_) => {
                        self.phase = SetPhase::Focus;
                        Request::FocusedMonitor
                    },
                },
            },
            SetPhase::Theming => match reply {
                Reply::Done(Err(m)) => self.fail(PaperError::Tool { message: m }),
                _ => match &self.output {
                    None => self.themes_from(true),
                    Some(_) => {
                        self.phase = SetPhase::Loading;
                        Request::LoadCurrent
                    },
                },
            },
            SetPhase::Focus => match reply {
                Reply::Focused(n) => {
                    let same = match (&n, &self.output) {
                        (Some(a), Some(b)) => same_chars(
                            chars_of(a.as_str()).as_slice(),
                            chars_of(b.as_str()).as_slice(),
                        ),
                        _ => false,
                    };
                    if same {
                        self.phase = SetPhase::Sharing;
                        let o = match &self.output {
                            Some(o) => o.clone(),
                            None => String::new(),
                        };
                        Request::WriteShared(o)
                    } else {
                        self.phase = SetPhase::Emitting;
                        Request::Emit(
                            Event::Changed { path: self.path.clone(), output: copy_opt(&self.output) },
                        )
                    }
                },
                _ => Request::Finished(Ok(())),
            },
            SetPhase::Sharing => match reply {
                Reply::Done(Err(m)) => self.fail(PaperError::Tool { message: m }),
                _ => {
                    self.phase = SetPhase::Emitting;
                    Request::Emit(
                        Event::Changed { path: self.path.clone(), output: copy_opt(&self.output) },
                    )
                },
            },
            SetPhase::Emitting => {
                self.phase = SetPhase::Finished;
                Request::Finished(Ok(()))
            },
            SetPhase::Finished => Request::Finished(Ok(())),
        }
    }

    /// Takes the saved outputs out of the run, with the path stored under
    /// each of `names`.
    fn put_all(&mut self, names: Vec<String>) -> (r: Current)
        ensures
            r@ == set_each(old(self)@.cur, names@.map_values(|x: String| x@), old(self)@.path),
            final(self)@ == (SetView { cur: Seq::empty(), ..old(self)@ }),
    {
        let ghost nv = names@.map_values(|x: String| x@);
        let ghost start = self@.cur;
        let mut c = Current::new();
        std::mem::swap(&mut c, &mut self.cur);
        let mut i: usize = 0;
        assert(nv.subrange(0, 0) =~= Seq::<Seq<char>>::empty());
        while i < names.len()
            invariant
                i <= names@.len(),
                nv == names@.map_values(|x: String| x@),
                c@ == set_each(start, nv.subrange(0, i as int), self@.path),
            decreases names@.len() - i,
        {
            assert(nv.subrange(0, i + 1).drop_last() =~= nv.subrange(0, i as int));
            c.set_output(names[i].clone(), self.path.clone());
            i = i + 1;
        }
        assert(nv.subrange(0, names@.len() as int) =~= nv);
        c
    }
}

} // verus!
