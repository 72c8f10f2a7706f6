//! Which directories the wallpaper library scans: the configured list, the
//! colon-separated environment override, the defaults, and `~` expansion.
use vstd::prelude::*;

use crate::path::{join, join_chars};
use crate::text::{chars_of, opt_string, split_on, string_of};

verus! {

/// User library directory, under the home directory, used when no config
/// file lists any.
pub const DEFAULT_USER_LIBRARY: &'static str = "Pictures/Wallpapers";

/// Packaged BOS backgrounds, scanned when the directory exists.
pub const DEFAULT_SYSTEM_LIBRARY: &'static str = "/usr/share/backgrounds/bos";

/// Colon-separated override of [`Config::library_dirs`]. Empty means "use
/// the config file / defaults".
pub const LIBRARY_DIRS_ENV: &'static str = "BREADPAPER_LIBRARY_DIRS";

/// The library directories to scan.
#[derive(Debug, Clone, PartialEq, Eq)]
pub struct Config {
    pub library_dirs: Vec<String>,
}

pub open spec fn strings_view(v: Seq<String>) -> Seq<Seq<char>> {
    v.map_values(|s: String| s@)
}

/// `~` alone becomes the home directory and `~/rest` becomes `rest` under
/// it; every other path is kept.
pub open spec fn tilde_expanded(p: Seq<char>, home: Seq<char>) -> Seq<char> {
    if p == seq!['~'] {
        home
    } else if p.len() >= 2 && p[0] == '~' && p[1] == '/' {
        join(home, p.subrange(2, p.len() as int))
    } else {
        p
    }
}

/// Expands a leading `~` against `home`.
pub fn expand_tilde(path: String, home: &str) -> (r: String)
    ensures
        r@ == tilde_expanded(path@, home@),
{
    let p = chars_of(path.as_str());
    if p.len() == 1 && p[0] == '~' {
        assert(path@ =~= seq!['~']);
        return home.to_string();
    }
    proof {
        if path@ == seq!['~'] {
            assert(p@[0] == '~');
        }
    }
    if p.len() >= 2 && p[0] == '~' && p[1] == '/' {
        let h = chars_of(home);
        let rest = crate::text::sub_chars(p.as_slice(), 2, p.len());
        let j = join_chars(h.as_slice(), rest.as_slice());
        return string_of(j.as_slice());
    }
    path
}

/// The default library directories for a home directory.
pub open spec fn default_dirs(home: Seq<char>) -> Seq<Seq<char>> {
    seq![join(home, DEFAULT_USER_LIBRARY@), DEFAULT_SYSTEM_LIBRARY@]
}

/// `~/Pictures/Wallpapers` and the packaged backgrounds.
pub fn default_library_dirs(home: &str) -> (r: Vec<String>)
    ensures
        strings_view(r@) == default_dirs(home@),
{
    let h = chars_of(home);
    let u = chars_of(DEFAULT_USER_LIBRARY);
    let user = string_of(join_chars(h.as_slice(), u.as_slice()).as_slice());
    let mut r: Vec<String> = Vec::new();
    r.push(user);
    r.push(DEFAULT_SYSTEM_LIBRARY.to_string());
    assert(strings_view(r@) =~= default_dirs(home@));
    r
}

/// The non-empty pieces of `s`, in order.
pub open spec fn nonempty_pieces(ps: Seq<Seq<char>>) -> Seq<Seq<char>>
    decreases ps.len(),
{
    if ps.len() == 0 {
        Seq::empty()
    } else {
        nonempty_pieces(ps.drop_last()) + if ps.last().len() == 0 {
            Seq::empty()
        } else {
            seq![ps.last()]
        }
    }
}

/// The directories the environment override names: its non-empty
/// colon-separated pieces, when the variable is set and there are any.
pub open spec fn env_dirs(raw: Option<Seq<char>>) -> Option<Seq<Seq<char>>> {
    match raw {
        Some(r) => {
            let ds = nonempty_pieces(split_on(r, ':'));
            if ds.len() == 0 {
                None
            } else {
                Some(ds)
            }
        },
        None => None,
    }
}

/// Reads the override variable's value.
pub fn env_library_dirs(raw: Option<String>) -> (r: Option<Vec<String>>)
    ensures
        match r {
            Some(v) => env_dirs(opt_string(raw)) == Some(strings_view(v@)),
            None => env_dirs(opt_string(raw)) is None,
        },
{
    match raw {
        None => None,
        Some(s) => {
            let v = chars_of(s.as_str());
            let mut out: Vec<String> = Vec::new();
            let mut cur: Vec<char> = Vec::new();
            let mut i: usize = 0;
            assert(v@.subrange(0, 0) =~= Seq::<char>::empty());
            while i < v.len()
                invariant
                    i <= v@.len(),
                    split_on(v@.subrange(0, i as int), ':').len() >= 1,
                    cur@ == split_on(v@.subrange(0, i as int), ':').last(),
                    strings_view(out@) == nonempty_pieces(
                        split_on(v@.subrange(0, i as int), ':').drop_last(),
                    ),
                decreases v@.len() - i,
            {
                let c = v[i];
                let ghost t = v@.subrange(0, i as int);
                let ghost ss = split_on(t, ':');
                assert(v@.subrange(0, i + 1).drop_last() =~= t);
                if c == ':' {
                    if cur.len() > 0 {
                        out.push(string_of(cur.as_slice()));
                    }
                    cur = Vec::new();
                    proof {
                        assert(ss.push(Seq::<char>::empty()).drop_last() =~= ss);
                        assert(ss =~= ss.drop_last().push(ss.last()));
                        assert(strings_view(out@) =~= nonempty_pieces(ss));
                        assert(cur@ =~= Seq::<char>::empty());
                    }
                } else {
                    cur.push(c);
                    proof {
                        assert(ss.update(ss.len() - 1, ss.last().push(c)).drop_last()
                            =~= ss.drop_last());
                    }
                }
                i = i + 1;
            }
            proof {
                assert(v@.subrange(0, v@.len() as int) =~= v@);
                let ss = split_on(v@, ':');
                assert(ss =~= ss.drop_last().push(ss.last()));
            }
            if cur.len() > 0 {
                out.push(string_of(cur.as_slice()));
            }
            assert(strings_view(out@) =~= nonempty_pieces(split_on(v@, ':')));
            if out.len() == 0 {
                None
            } else {
                Some(out)
            }
        },
    }
}


/// Each path `~`-expanded, and empty paths dropped.
pub open spec fn expanded_dirs(ds: Seq<Seq<char>>, home: Seq<char>) -> Seq<Seq<char>> {
    nonempty_pieces(ds.map_values(|p: Seq<char>| tilde_expanded(p, home)))
}

/// The library directories, given the list a config file holds (`None` when
/// the file is missing or does not parse), the override variable's value and
/// the home directory: the override when it names any directory, else the
/// file's list when it is non-empty, else the defaults; then expanded.
pub open spec fn resolved_dirs(
    file: Option<Seq<Seq<char>>>,
    env: Option<Seq<char>>,
    home: Seq<char>,
) -> Seq<Seq<char>> {
    let base = match env_dirs(env) {
        Some(e) => e,
        None => match file {
            Some(d) => if d.len() > 0 {
                d
            } else {
                default_dirs(home)
            },
            None => default_dirs(home),
        },
    };
    expanded_dirs(base, home)
}

pub open spec fn opt_strings(o: Option<Vec<String>>) -> Option<Seq<Seq<char>>> {
    match o {
        Some(v) => Some(strings_view(v@)),
        None => None,
    }
}

fn expand_all(ds: Vec<String>, home: &str) -> (r: Vec<String>)
    ensures
        strings_view(r@) == expanded_dirs(strings_view(ds@), home@),
{
    let ghost dv = strings_view(ds@);
    let ghost mv = dv.map_values(|p: Seq<char>| tilde_expanded(p, home@));
    let mut out: Vec<String> = Vec::new();
    let n = ds.len();
    let mut i: usize = 0;
    assert(mv.subrange(0, 0) =~= Seq::<Seq<char>>::empty());
    while i < n
        invariant
            n == ds@.len() == dv.len(),
            i <= n,
            dv == strings_view(ds@),
            mv == dv.map_values(|p: Seq<char>| tilde_expanded(p, home@)),
            strings_view(out@) == nonempty_pieces(mv.subrange(0, i as int)),
        decreases n - i,
    {
        let x = ds[i].clone();
        assert(x@ == dv[i as int]);
        let e = expand_tilde(x, home);
        assert(mv.subrange(0, i + 1).drop_last() =~= mv.subrange(0, i as int));
        let ghost before = strings_view(out@);
        if !e.as_str().is_empty() {
            out.push(e);
            assert(strings_view(out@) =~= before.push(e@));
        }
        assert(strings_view(out@) =~= nonempty_pieces(mv.subrange(0, i + 1)));
        i = i + 1;
    }
    assert(mv.subrange(0, n as int) =~= mv);
    out
}

impl Config {
    /// The default configuration for a home directory: the default library
    /// directories.
    pub fn default_for(home: &str) -> (r: Config)
        ensures
            strings_view(r.library_dirs@) == default_dirs(home@),
    {
        Config { library_dirs: default_library_dirs(home) }
    }

    /// The configuration, given the library list a config file holds
    /// (`None` when the file is missing or does not parse), the value of
    /// `BREADPAPER_LIBRARY_DIRS` and the home directory.
    pub fn load(file_dirs: Option<Vec<String>>, env: Option<String>, home: &str) -> (r: Config)
        ensures
            strings_view(r.library_dirs@) == resolved_dirs(opt_strings(file_dirs), opt_string(env), home@),
    {
        let base = match env_library_dirs(env) {
            Some(e) => e,
            None => match file_dirs {
                Some(d) => if d.len() > 0 {
                    d
                } else {
                    default_library_dirs(home)
                },
                None => default_library_dirs(home),
            },
        };
        Config { library_dirs: expand_all(base, home) }
    }

    /// Appends `extra`, each `~`-expanded, after the configured directories.
    pub fn with_extra_dirs(self, extra: Vec<String>, home: &str) -> (r: Config)
        ensures
            strings_view(r.library_dirs@) == strings_view(self.library_dirs@) + strings_view(
                extra@,
            ).map_values(|p: Seq<char>| tilde_expanded(p, home@)),
    {
        let mut dirs = self.library_dirs;
        let ghost start = strings_view(dirs@);
        let ghost ev = strings_view(extra@);
        let mut i: usize = 0;
        while i < extra.len()
            invariant
                i <= extra@.len(),
                ev == strings_view(extra@),
                strings_view(dirs@) == start + ev.subrange(0, i as int).map_values(
                    |p: Seq<char>| tilde_expanded(p, home@),
                ),
            decreases extra@.len() - i,
        {
            let x = extra[i].clone();
            assert(x@ == ev[i as int]);
            let e = expand_tilde(x, home);
            let ghost before = strings_view(dirs@);
            dirs.push(e);
            assert(ev.subrange(0, i + 1).map_values(|p: Seq<char>| tilde_expanded(p, home@))
                =~= ev.subrange(0, i as int).map_values(|p: Seq<char>| tilde_expanded(p, home@)).push(
                tilde_expanded(ev[i as int], home@),
            ));
            assert(strings_view(dirs@) =~= before.push(e@));
            assert(strings_view(dirs@) =~= start + ev.subrange(0, i + 1).map_values(
                |p: Seq<char>| tilde_expanded(p, home@),
            ));
            i = i + 1;
        }
        assert(ev.subrange(0, extra@.len() as int) =~= ev);
        Config { library_dirs: dirs }
    }
}

/// The directories the wallpaper picker scans: the configured ones, then
/// `extra`, each `~`-expanded.
pub fn library(cfg: Config, extra: Vec<String>, home: &str) -> (r: Vec<String>)
    ensures
        strings_view(r@) == strings_view(cfg.library_dirs@) + strings_view(extra@).map_values(
            |p: Seq<char>| tilde_expanded(p, home@),
        ),
{
    cfg.with_extra_dirs(extra, home).library_dirs
}


proof fn lemma_nonempty_pieces(ps: Seq<Seq<char>>)
    ensures
        forall|i: int| 0 <= i < nonempty_pieces(ps).len() ==> #[trigger] nonempty_pieces(ps)[i].len() > 0,
    decreases ps.len(),
{
    if ps.len() > 0 {
        lemma_nonempty_pieces(ps.drop_last());
        let a = nonempty_pieces(ps.drop_last());
        let b: Seq<Seq<char>> = if ps.last().len() == 0 {
            Seq::empty()
        } else {
            seq![ps.last()]
        };
        assert forall|i: int| 0 <= i < (a + b).len() implies #[trigger] (a + b)[i].len() > 0 by {
            if i < a.len() {
                assert((a + b)[i] == a[i]);
            } else {
                assert((a + b)[i] == b[i - a.len()]);
            }
        }
    }
}

proof fn lemma_split_without_sep(r: Seq<char>)
    requires
        forall|i: int| 0 <= i < r.len() ==> r[i] != ':',
    ensures
        split_on(r, ':') == seq![r],
    decreases r.len(),
{
    if r.len() > 0 {
        let d = r.drop_last();
        assert forall|i: int| 0 <= i < d.len() implies d[i] != ':' by {
            assert(d[i] == r[i]);
        }
        lemma_split_without_sep(d);
        assert(r.last() == r[r.len() - 1]);
        assert(d.push(r.last()) =~= r);
        assert(seq![d].update(0, d.push(r.last())) =~= seq![r]);
    } else {
        assert(r =~= Seq::<char>::empty());
    }
}

proof fn lemma_pieces_empty_iff_colons(r: Seq<char>)
    ensures
        nonempty_pieces(split_on(r, ':')).len() == 0 <==> forall|i: int|
            0 <= i < r.len() ==> r[i] == ':',
    decreases r.len(),
{
    crate::text::lemma_split_on_nonempty(r, ':');
    if r.len() > 0 {
        let d = r.drop_last();
        lemma_pieces_empty_iff_colons(d);
        crate::text::lemma_split_on_nonempty(d, ':');
        let prev = split_on(d, ':');
        let ps = split_on(r, ':');
        if r.last() == ':' {
            assert(ps == prev.push(Seq::<char>::empty()));
            assert(ps.drop_last() =~= prev);
            assert(nonempty_pieces(ps) =~= nonempty_pieces(prev));
            if forall|i: int| 0 <= i < d.len() ==> d[i] == ':' {
                assert forall|i: int| 0 <= i < r.len() implies r[i] == ':' by {
                    if i < d.len() {
                        assert(r[i] == d[i]);
                    }
                }
            }
            if forall|i: int| 0 <= i < r.len() ==> r[i] == ':' {
                assert forall|i: int| 0 <= i < d.len() implies d[i] == ':' by {
                    assert(r[i] == d[i]);
                }
            }
        } else {
            assert(ps == prev.update(prev.len() - 1, prev.last().push(r.last())));
            assert(ps.last().len() > 0);
            assert(nonempty_pieces(ps).len() > 0);
            assert(r[r.len() - 1] != ':');
        }
    } else {
        let ps = split_on(r, ':');
        assert(ps == seq![Seq::<char>::empty()]);
        assert(ps.drop_last() =~= Seq::<Seq<char>>::empty());
        assert(nonempty_pieces(ps.drop_last()) =~= Seq::<Seq<char>>::empty());
        assert(nonempty_pieces(ps) =~= Seq::<Seq<char>>::empty());
    }
}

/// The override names the directories between its `:`s: it is `None` for
/// an unset variable and for one made only of `:`s (the empty value
/// included), and otherwise holds non-empty pieces, none containing `:`; a
/// non-empty value without `:` names exactly that one directory, which then
/// replaces the configured ones.
pub proof fn law_env_override_pieces(
    raw: Seq<char>,
    file: Option<Seq<Seq<char>>>,
    home: Seq<char>,
)
    ensures
        env_dirs(None) is None,
        env_dirs(Some(raw)) is None <==> forall|i: int| 0 <= i < raw.len() ==> raw[i] == ':',
        raw.len() > 0 && (forall|i: int| 0 <= i < raw.len() ==> raw[i] != ':') ==> env_dirs(
            Some(raw),
        ) == Some(seq![raw]) && resolved_dirs(file, Some(raw), home) == if tilde_expanded(
            raw,
            home,
        ).len() > 0 {
            seq![tilde_expanded(raw, home)]
        } else {
            Seq::empty()
        },
{
    lemma_pieces_empty_iff_colons(raw);
    if raw.len() > 0 && (forall|i: int| 0 <= i < raw.len() ==> raw[i] != ':') {
        lemma_split_without_sep(raw);
        let one = seq![raw];
        assert(one.drop_last() =~= Seq::<Seq<char>>::empty());
        assert(nonempty_pieces(one.drop_last()) =~= Seq::<Seq<char>>::empty());
        assert(one.last() == raw);
        assert(nonempty_pieces(one) =~= seq![raw]);
        let m = one.map_values(|p: Seq<char>| tilde_expanded(p, home));
        assert(m =~= seq![tilde_expanded(raw, home)]);
        assert(m.drop_last() =~= Seq::<Seq<char>>::empty());
        assert(nonempty_pieces(m.drop_last()) =~= Seq::<Seq<char>>::empty());
        assert(m.last() == tilde_expanded(raw, home));
    }
}

proof fn lemma_split_concat(a: Seq<char>, b: Seq<char>)
    ensures
        split_on(a + seq![':'] + b, ':') == split_on(a, ':') + split_on(b, ':'),
    decreases b.len(),
{
    crate::text::lemma_split_on_nonempty(a, ':');
    let ab = a + seq![':'] + b;
    if b.len() == 0 {
        assert(ab.drop_last() =~= a);
        assert(ab.last() == ':');
        assert(split_on(b, ':') == seq![Seq::<char>::empty()]);
        assert(split_on(ab, ':') =~= split_on(a, ':') + split_on(b, ':'));
    } else {
        let b2 = b.drop_last();
        lemma_split_concat(a, b2);
        crate::text::lemma_split_on_nonempty(b2, ':');
        assert(ab.drop_last() =~= a + seq![':'] + b2);
        assert(ab.last() == b.last());
        let x = split_on(a, ':');
        let y = split_on(b2, ':');
        if b.last() == ':' {
            assert(split_on(ab, ':') =~= (x + y).push(Seq::<char>::empty()));
            assert((x + y).push(Seq::<char>::empty()) =~= x + y.push(Seq::<char>::empty()));
        } else {
            let xy = x + y;
            assert(xy.last() == y.last());
            assert(xy.update(xy.len() - 1, xy.last().push(b.last())) =~= x + y.update(
                y.len() - 1,
                y.last().push(b.last()),
            ));
        }
    }
}

proof fn lemma_nonempty_pieces_concat(x: Seq<Seq<char>>, y: Seq<Seq<char>>)
    ensures
        nonempty_pieces(x + y) == nonempty_pieces(x) + nonempty_pieces(y),
    decreases y.len(),
{
    if y.len() == 0 {
        assert(x + y =~= x);
        assert(nonempty_pieces(y) =~= Seq::<Seq<char>>::empty());
        assert(nonempty_pieces(x) + nonempty_pieces(y) =~= nonempty_pieces(x));
    } else {
        lemma_nonempty_pieces_concat(x, y.drop_last());
        assert((x + y).drop_last() =~= x + y.drop_last());
        assert((x + y).last() == y.last());
        let tail: Seq<Seq<char>> = if y.last().len() == 0 {
            Seq::empty()
        } else {
            seq![y.last()]
        };
        assert(nonempty_pieces(x) + nonempty_pieces(y.drop_last()) + tail =~= nonempty_pieces(x)
            + (nonempty_pieces(y.drop_last()) + tail));
    }
}

/// The directories a value of the override names, wherever it is set.
pub open spec fn override_pieces(raw: Seq<char>) -> Seq<Seq<char>> {
    nonempty_pieces(split_on(raw, ':'))
}

/// The override's directories come in order: the value `a:b` names the
/// directories `a` names, then those `b` names; a non-empty value without
/// `:` names itself alone, and an empty one names none. The override is set
/// exactly when it names some directory, and then it is that list.
pub proof fn law_env_override_in_order(a: Seq<char>, b: Seq<char>, raw: Seq<char>)
    ensures
        override_pieces(a + seq![':'] + b) == override_pieces(a) + override_pieces(b),
        override_pieces(Seq::empty()) == Seq::<Seq<char>>::empty(),
        raw.len() > 0 && (forall|i: int| 0 <= i < raw.len() ==> raw[i] != ':') ==> override_pieces(
            raw,
        ) == seq![raw],
        env_dirs(Some(raw)) == if override_pieces(raw).len() > 0 {
            Some(override_pieces(raw))
        } else {
            None
        },
{
    lemma_split_concat(a, b);
    lemma_nonempty_pieces_concat(split_on(a, ':'), split_on(b, ':'));
    lemma_pieces_empty_iff_colons(Seq::empty());
    if raw.len() > 0 && (forall|i: int| 0 <= i < raw.len() ==> raw[i] != ':') {
        law_env_override_pieces(raw, None, Seq::empty());
    }
}

/// When `BREADPAPER_LIBRARY_DIRS` names any directory, it alone decides the
/// library directories, whatever the config file holds.
pub proof fn law_env_overrides_config_file(
    file_a: Option<Seq<Seq<char>>>,
    file_b: Option<Seq<Seq<char>>>,
    env: Option<Seq<char>>,
    home: Seq<char>,
)
    requires
        env_dirs(env) is Some,
    ensures
        resolved_dirs(file_a, env, home) == resolved_dirs(file_b, env, home),
        resolved_dirs(file_a, env, home) == expanded_dirs(env_dirs(env)->0, home),
{
}

/// A config file whose `library_dirs` is empty counts as no config file:
/// the defaults apply.
pub proof fn law_empty_list_falls_back_to_defaults(env: Option<Seq<char>>, home: Seq<char>)
    ensures
        resolved_dirs(Some(Seq::empty()), env, home) == resolved_dirs(None, env, home),
        env_dirs(env) is None ==> resolved_dirs(None, env, home) == expanded_dirs(
            default_dirs(home),
            home,
        ),
{
}

/// No library directory is the empty path.
pub proof fn law_no_empty_library_dir(
    file: Option<Seq<Seq<char>>>,
    env: Option<Seq<char>>,
    home: Seq<char>,
)
    ensures
        forall|i: int|
            0 <= i < resolved_dirs(file, env, home).len() ==> #[trigger] resolved_dirs(
                file,
                env,
                home,
            )[i].len() > 0,
{
    let base = match env_dirs(env) {
        Some(e) => e,
        None => match file {
            Some(d) => if d.len() > 0 {
                d
            } else {
                default_dirs(home)
            },
            None => default_dirs(home),
        },
    };
    lemma_nonempty_pieces(base.map_values(|p: Seq<char>| tilde_expanded(p, home)));
}

} // verus!
