//! The wallpaper library scan. The walk over the library directories is a
//! state machine: it names the next directory to list, takes its entries,
//! and collects wallpapers, depth-first in file-name order, up to a depth and
//! an item limit, skipping hidden entries and files already found. The
//! result is sorted by lowercased name, then by path.
use vstd::prelude::*;

use crate::image::{
    ascii_lowercase, is_ascii_chars, is_wallpaper_file, is_wallpaper_path, lowercase, to_lowercase,
};
use crate::path::{
    extension, file_name, last_dot,
    file_stem, file_stem_of, join, join_chars, order_paths, path_order, same_path,
    same_path_chars,
};
use crate::sort::{lemma_insert_at, lemma_sort_by_step, sort_by};
use crate::text::{chars_of, chars_order, order_chars, string_of, Order};

verus! {

/// Caps how many files the picker ever lists. The library is organized in
/// subfolders (show/series), so the walk is recursive; without a bound a
/// huge Pictures tree would stall the window.
pub const MAX_LIBRARY_ITEMS: usize = 200;

/// How deep below a library directory the walk goes.
pub const MAX_SCAN_DEPTH: usize = 4;

/// A wallpaper found in the library.
#[derive(Debug, Clone, PartialEq, Eq)]
pub struct Wallpaper {
    pub path: String,
    pub name: String,
}

pub struct WallpaperView {
    pub path: Seq<char>,
    pub name: Seq<char>,
}

impl View for Wallpaper {
    type V = WallpaperView;

    open spec fn view(&self) -> WallpaperView {
        WallpaperView { path: self.path@, name: self.name@ }
    }
}

/// One entry of a listed directory: its file name, whether it is a
/// directory (following links), and its canonical path when that resolves.
#[derive(Debug)]
pub struct DirEntry {
    pub name: String,
    pub is_dir: bool,
    pub canonical: Option<String>,
}

pub struct EntryView {
    pub name: Seq<char>,
    pub is_dir: bool,
    pub canonical: Option<Seq<char>>,
}

impl View for DirEntry {
    type V = EntryView;

    open spec fn view(&self) -> EntryView {
        EntryView {
            name: self.name@,
            is_dir: self.is_dir,
            canonical: match self.canonical {
                Some(c) => Some(c@),
                None => None,
            },
        }
    }
}

/// Entries order by file name.
pub open spec fn entry_lt() -> spec_fn(EntryView, EntryView) -> bool {
    |a: EntryView, b: EntryView| chars_order(a.name, b.name) == Order::Less
}

/// Wallpapers order by lowercased name, then by path.
pub open spec fn wallpaper_lt() -> spec_fn(WallpaperView, WallpaperView) -> bool {
    |a: WallpaperView, b: WallpaperView|
        {
            let o = chars_order(lowercase(a.name), lowercase(b.name));
            o == Order::Less || (o == Order::Equal && path_order(a.path, b.path) == Order::Less)
        }
}

/// Wallpapers order by name with `A`-`Z` made lowercase, then by path:
/// the order `wallpaper_lt` gives when every name is ASCII.
pub open spec fn ascii_wallpaper_lt() -> spec_fn(WallpaperView, WallpaperView) -> bool {
    |a: WallpaperView, b: WallpaperView|
        {
            let o = chars_order(ascii_lowercase(a.name), ascii_lowercase(b.name));
            o == Order::Less || (o == Order::Equal && path_order(a.path, b.path) == Order::Less)
        }
}

/// Every name is ASCII text.
pub open spec fn all_ascii_names(ws: Seq<WallpaperView>) -> bool {
    forall|i: int| 0 <= i < ws.len() ==> is_ascii_chars(#[trigger] ws[i].name)
}

/// A directory being walked: its path, the depth it was entered with, its
/// entries in file-name order, and how many of them are done.
pub struct FrameView {
    pub dir: Seq<char>,
    pub depth: nat,
    pub entries: Seq<EntryView>,
    pub pos: nat,
}

/// The state of a scan.
pub struct ScanView {
    pub roots: Seq<Seq<char>>,
    pub next_root: nat,
    pub stack: Seq<FrameView>,
    pub found: Seq<WallpaperView>,
    pub pending: Option<(Seq<char>, nat)>,
}

/// What a scan asks for next.
pub enum ScanStep {
    /// List this directory and hand its entries to `feed`.
    List(String),
    /// Call `step` again.
    Busy,
    /// The walk is over; call `finish`.
    Done,
}

pub enum ScanStepView {
    List(Seq<char>),
    Busy,
    Done,
}

impl View for ScanStep {
    type V = ScanStepView;

    open spec fn view(&self) -> ScanStepView {
        match self {
            ScanStep::List(d) => ScanStepView::List(d@),
            ScanStep::Busy => ScanStepView::Busy,
            ScanStep::Done => ScanStepView::Done,
        }
    }
}

/// The name a wallpaper is shown with: its file stem (empty when there is none).
pub open spec fn shown_name(p: Seq<char>) -> Seq<char> {
    match file_stem(p) {
        Some(s) => s,
        None => Seq::empty(),
    }
}

pub open spec fn is_hidden(name: Seq<char>) -> bool {
    name.len() > 0 && name[0] == '.'
}

pub open spec fn already_found(found: Seq<WallpaperView>, c: Seq<char>) -> bool {
    exists|i: int| 0 <= i < found.len() && same_path(#[trigger] found[i].path, c)
}

/// One step of the walk (the scan must not be waiting for a listing).
pub open spec fn scan_next(s: ScanView) -> (ScanView, ScanStepView) {
    if s.found.len() >= MAX_LIBRARY_ITEMS {
        (s, ScanStepView::Done)
    } else if s.stack.len() > 0 {
        let top = s.stack.last();
        if top.pos >= top.entries.len() {
            (ScanView { stack: s.stack.drop_last(), ..s }, ScanStepView::Busy)
        } else {
            let e = top.entries[top.pos as int];
            let s2 = ScanView {
                stack: s.stack.update(
                    s.stack.len() - 1,
                    FrameView { pos: top.pos + 1, ..top },
                ),
                ..s
            };
            let p = join(top.dir, e.name);
            if is_hidden(e.name) {
                (s2, ScanStepView::Busy)
            } else if e.is_dir {
                if top.depth <= 1 {
                    (s2, ScanStepView::Busy)
                } else {
                    (
                        ScanView { pending: Some((p, (top.depth - 1) as nat)), ..s2 },
                        ScanStepView::List(p),
                    )
                }
            } else if !is_wallpaper_path(p) {
                (s2, ScanStepView::Busy)
            } else {
                let c = match e.canonical {
                    Some(c) => c,
                    None => p,
                };
                if already_found(s.found, c) {
                    (s2, ScanStepView::Busy)
                } else {
                    (
                        ScanView {
                            found: s.found.push(WallpaperView { name: shown_name(p), path: c }),
                            ..s2
                        },
                        ScanStepView::Busy,
                    )
                }
            }
        }
    } else if s.next_root < s.roots.len() {
        let r = s.roots[s.next_root as int];
        (
            ScanView {
                next_root: s.next_root + 1,
                pending: Some((r, MAX_SCAN_DEPTH as nat)),
                ..s
            },
            ScanStepView::List(r),
        )
    } else {
        (s, ScanStepView::Done)
    }
}

/// The scan after the pending directory's listing arrives (`None` when it
/// cannot be listed).
pub open spec fn scan_fed(s: ScanView, listing: Option<Seq<EntryView>>) -> ScanView {
    let (d, depth) = s.pending->0;
    match listing {
        Some(es) => ScanView {
            pending: None,
            stack: s.stack.push(
                FrameView { dir: d, depth, entries: sort_by(es, entry_lt()), pos: 0 },
            ),
            ..s
        },
        None => ScanView { pending: None, ..s },
    }
}

struct Frame {
    dir: String,
    depth: usize,
    entries: Vec<DirEntry>,
    pos: usize,
}

pub open spec fn entries_view(v: Seq<DirEntry>) -> Seq<EntryView> {
    v.map_values(|e: DirEntry| e@)
}

impl View for Frame {
    type V = FrameView;

    closed spec fn view(&self) -> FrameView {
        FrameView {
            dir: self.dir@,
            depth: self.depth as nat,
            entries: entries_view(self.entries@),
            pos: self.pos as nat,
        }
    }
}

/// A library scan in progress.
pub struct ScanRun {
    roots: Vec<String>,
    next_root: usize,
    stack: Vec<Frame>,
    found: Vec<Wallpaper>,
    pending: Option<(String, usize)>,
}

pub open spec fn found_view(v: Seq<Wallpaper>) -> Seq<WallpaperView> {
    v.map_values(|w: Wallpaper| w@)
}

impl View for ScanRun {
    type V = ScanView;

    closed spec fn view(&self) -> ScanView {
        ScanView {
            roots: self.roots@.map_values(|r: String| r@),
            next_root: self.next_root as nat,
            stack: self.stack@.map_values(|f: Frame| f@),
            found: found_view(self.found@),
            pending: match self.pending {
                Some((d, k)) => Some((d@, k as nat)),
                None => None,
            },
        }
    }
}

/// Starts a scan of the library directories `dirs`, in order.
pub fn scan(dirs: Vec<String>) -> (r: ScanRun)
    ensures
        r@ == (ScanView {
            roots: dirs@.map_values(|d: String| d@),
            next_root: 0,
            stack: Seq::empty(),
            found: Seq::empty(),
            pending: None,
        }),
{
    let r = ScanRun {
        roots: dirs,
        next_root: 0,
        stack: Vec::new(),
        found: Vec::new(),
        pending: None,
    };
    assert(r@.stack =~= Seq::<FrameView>::empty());
    assert(r@.found =~= Seq::<WallpaperView>::empty());
    r
}


fn sort_entries(es: Vec<DirEntry>) -> (r: Vec<DirEntry>)
    ensures
        entries_view(r@) == sort_by(entries_view(es@), entry_lt()),
{
    let ghost orig = entries_view(es@);
    let mut es = es;
    let mut out: Vec<DirEntry> = Vec::new();
    let ghost mut i: int = 0;
    assert(orig.subrange(0, 0) =~= Seq::<EntryView>::empty());
    assert(orig.subrange(0, orig.len() as int) =~= orig);
    while es.len() > 0
        invariant
            0 <= i <= orig.len(),
            entries_view(es@) == orig.subrange(i, orig.len() as int),
            entries_view(out@) == sort_by(orig.subrange(0, i), entry_lt()),
        decreases es@.len(),
    {
        let ghost ev = entries_view(es@);
        assert(ev.len() == es@.len());
        assert(ev[0] == orig.subrange(i, orig.len() as int)[0]);
        assert(ev[0] == es@[0]@);
        let x = es.remove(0);
        assert(x@ == orig[i]);
        assert(entries_view(es@) =~= ev.subrange(1, ev.len() as int));
        assert(ev.subrange(1, ev.len() as int) =~= orig.subrange(i + 1, orig.len() as int));
        let ghost sorted = entries_view(out@);
        let xn = chars_of(x.name.as_str());
        let mut k: usize = 0;
        while k < out.len() && order_chars(xn.as_slice(), chars_of(out[k].name.as_str()).as_slice())
            != Order::Less
            invariant
                k <= out@.len(),
                sorted == entries_view(out@),
                xn@ == x@.name,
                forall|j: int| 0 <= j < k ==> !(entry_lt())(x@, #[trigger] sorted[j]),
            decreases out@.len() - k,
        {
            k = k + 1;
        }
        proof {
            lemma_insert_at(x@, sorted, entry_lt(), k as int);
            lemma_sort_by_step(orig, entry_lt(), i);
        }
        let ghost xv = x@;
        out.insert(k, x);
        assert(entries_view(out@) =~= sorted.subrange(0, k as int).push(xv) + sorted.subrange(
            k as int,
            sorted.len() as int,
        ));
        assert(entries_view(es@) =~= orig.subrange(i + 1, orig.len() as int));
        proof {
            i = i + 1;
        }
    }
    assert(orig.subrange(0, i) =~= orig);
    out
}

/// Wallpapers paired with a sort key order by key, then by path.
pub open spec fn keyed_lt() -> spec_fn((Seq<char>, WallpaperView), (Seq<char>, WallpaperView)) -> bool {
    |a: (Seq<char>, WallpaperView), b: (Seq<char>, WallpaperView)|
        {
            let o = chars_order(a.0, b.0);
            o == Order::Less || (o == Order::Equal && path_order(a.1.path, b.1.path) == Order::Less)
        }
}

pub open spec fn keyed_view(v: Seq<(String, Wallpaper)>) -> Seq<(Seq<char>, WallpaperView)> {
    v.map_values(|e: (String, Wallpaper)| (e.0@, e.1@))
}

fn keyed_less(a: &(String, Wallpaper), b: &(String, Wallpaper)) -> (r: bool)
    ensures
        r == (keyed_lt())((a.0@, a.1@), (b.0@, b.1@)),
{
    let o = order_chars(chars_of(a.0.as_str()).as_slice(), chars_of(b.0.as_str()).as_slice());
    if o == Order::Less {
        return true;
    }
    if o == Order::Greater {
        return false;
    }
    order_paths(chars_of(a.1.path.as_str()).as_slice(), chars_of(b.1.path.as_str()).as_slice())
        == Order::Less
}

fn sort_keyed(ws: Vec<(String, Wallpaper)>) -> (r: Vec<(String, Wallpaper)>)
    ensures
        keyed_view(r@) == sort_by(keyed_view(ws@), keyed_lt()),
{
    let ghost orig = keyed_view(ws@);
    let mut ws = ws;
    let mut out: Vec<(String, Wallpaper)> = Vec::new();
    let ghost mut i: int = 0;
    assert(orig.subrange(0, 0) =~= Seq::<(Seq<char>, WallpaperView)>::empty());
    assert(orig.subrange(0, orig.len() as int) =~= orig);
    while ws.len() > 0
        invariant
            0 <= i <= orig.len(),
            keyed_view(ws@) == orig.subrange(i, orig.len() as int),
            keyed_view(out@) == sort_by(orig.subrange(0, i), keyed_lt()),
        decreases ws@.len(),
    {
        let ghost wv = keyed_view(ws@);
        assert(wv.len() == ws@.len());
        assert(wv[0] == orig.subrange(i, orig.len() as int)[0]);
        let x = ws.remove(0);
        let ghost xv = (x.0@, x.1@);
        assert(xv == orig[i]);
        assert(keyed_view(ws@) =~= wv.subrange(1, wv.len() as int));
        assert(wv.subrange(1, wv.len() as int) =~= orig.subrange(i + 1, orig.len() as int));
        let ghost sorted = keyed_view(out@);
        let mut k: usize = 0;
        while k < out.len() && !keyed_less(&x, &out[k])
            invariant
                k <= out@.len(),
                sorted == keyed_view(out@),
                xv == (x.0@, x.1@),
                forall|j: int| 0 <= j < k ==> !(keyed_lt())(xv, #[trigger] sorted[j]),
            decreases out@.len() - k,
        {
            k = k + 1;
        }
        proof {
            lemma_insert_at(xv, sorted, keyed_lt(), k as int);
            lemma_sort_by_step(orig, keyed_lt(), i);
        }
        out.insert(k, x);
        assert(keyed_view(out@) =~= sorted.subrange(0, k as int).push(xv) + sorted.subrange(
            k as int,
            sorted.len() as int,
        ));
        assert(keyed_view(ws@) =~= orig.subrange(i + 1, orig.len() as int));
        proof {
            i = i + 1;
        }
    }
    assert(orig.subrange(0, i) =~= orig);
    out
}

/// Orders wallpapers by the sort key given with each (their lowercased
/// name), then by path.
pub fn sort_by_keys(ws: Vec<(String, Wallpaper)>) -> (r: Vec<Wallpaper>)
    ensures
        found_view(r@) == sort_by(keyed_view(ws@), keyed_lt()).map_values(
            |e: (Seq<char>, WallpaperView)| e.1,
        ),
{
    let sorted = sort_keyed(ws);
    let ghost sv = keyed_view(sorted@);
    let mut rest = sorted;
    let mut out: Vec<Wallpaper> = Vec::new();
    let ghost mut i: int = 0;
    assert(sv.subrange(0, sv.len() as int) =~= sv);
    while rest.len() > 0
        invariant
            0 <= i <= sv.len(),
            keyed_view(rest@) == sv.subrange(i, sv.len() as int),
            found_view(out@) == sv.subrange(0, i).map_values(|e: (Seq<char>, WallpaperView)| e.1),
        decreases rest@.len(),
    {
        let ghost rv = keyed_view(rest@);
        assert(rv.len() == rest@.len());
        assert(rv[0] == sv.subrange(i, sv.len() as int)[0]);
        assert(rv[0] == (rest@[0].0@, rest@[0].1@));
        let x = rest.remove(0);
        assert((x.0@, x.1@) == sv[i]);
        assert(keyed_view(rest@) =~= rv.subrange(1, rv.len() as int));
        assert(rv.subrange(1, rv.len() as int) =~= sv.subrange(i + 1, sv.len() as int));
        let ghost before = found_view(out@);
        out.push(x.1);
        assert(found_view(out@) =~= before.push(sv[i].1));
        assert(sv.subrange(0, i + 1).map_values(|e: (Seq<char>, WallpaperView)| e.1)
            =~= sv.subrange(0, i).map_values(|e: (Seq<char>, WallpaperView)| e.1).push(sv[i].1));
        proof {
            i = i + 1;
        }
    }
    assert(sv.subrange(0, i) =~= sv);
    out
}

impl ScanRun {
    /// Hands over the entries of the directory `step` asked for (`None`
    /// when it cannot be listed).
    pub fn feed(&mut self, listing: Option<Vec<DirEntry>>)
        requires
            old(self)@.pending is Some,
        ensures
            final(self)@ == scan_fed(
                old(self)@,
                match listing {
                    Some(v) => Some(entries_view(v@)),
                    None => None,
                },
            ),
    {
        let ghost s = self@;
        let ghost pd = s.pending->0;
        let pending = self.pending.take();
        let (d, depth) = pending.unwrap();
        match listing {
            Some(es) => {
                let sorted = sort_entries(es);
                self.stack.push(Frame { dir: d, depth, entries: sorted, pos: 0 });
                assert(self@.stack =~= s.stack.push(
                    FrameView { dir: pd.0, depth: pd.1, entries: self.stack@.last()@.entries, pos: 0 },
                ));
            },
            None => {},
        }
    }

    /// The wallpapers found, sorted by lowercased name, then by path.
    pub fn finish(self) -> (r: Vec<Wallpaper>)
        ensures
            found_view(r@) == sort_by(self@.found, wallpaper_lt()),
            all_ascii_names(self@.found) ==> found_view(r@) == sort_by(
                self@.found,
                ascii_wallpaper_lt(),
            ),
    {
        let ghost fv = self@.found;
        let mut found = self.found;
        let mut keyed: Vec<(String, Wallpaper)> = Vec::new();
        let ghost mut i: int = 0;
        assert(fv.subrange(0, fv.len() as int) =~= fv);
        while found.len() > 0
            invariant
                0 <= i <= fv.len(),
                found_view(found@) == fv.subrange(i, fv.len() as int),
                keyed_view(keyed@) == fv.subrange(0, i).map_values(|w: WallpaperView| (lowercase(w.name), w)),
                forall|j: int|
                    0 <= j < i && is_ascii_chars(#[trigger] fv[j].name) ==> lowercase(fv[j].name)
                        == ascii_lowercase(fv[j].name),
            decreases found@.len(),
        {
            let ghost rv = found_view(found@);
            assert(rv.len() == found@.len());
            assert(rv[0] == fv.subrange(i, fv.len() as int)[0]);
            assert(rv[0] == found@[0]@);
            let w = found.remove(0);
            assert(w@ == fv[i]);
            assert(found_view(found@) =~= rv.subrange(1, rv.len() as int));
            assert(rv.subrange(1, rv.len() as int) =~= fv.subrange(i + 1, fv.len() as int));
            let k = to_lowercase(w.name.as_str());
            let ghost before = keyed_view(keyed@);
            keyed.push((k, w));
            assert(keyed_view(keyed@) =~= before.push((lowercase(fv[i].name), fv[i])));
            assert(fv.subrange(0, i + 1).map_values(|w: WallpaperView| (lowercase(w.name), w))
                =~= fv.subrange(0, i).map_values(|w: WallpaperView| (lowercase(w.name), w)).push(
                (lowercase(fv[i].name), fv[i]),
            ));
            proof {
                i = i + 1;
            }
        }
        assert(fv.subrange(0, i) =~= fv);
        let ghost kv = keyed_view(keyed@);
        let r = sort_by_keys(keyed);
        proof {
            let f = |e: (Seq<char>, WallpaperView)| e.1;
            assert forall|x: (Seq<char>, WallpaperView), y: (Seq<char>, WallpaperView)|
                kv.contains(x) && kv.contains(y) implies #[trigger] (keyed_lt())(x, y) == (
            wallpaper_lt())(f(x), f(y)) by {
                let a = choose|a: int| 0 <= a < kv.len() && kv[a] == x;
                let b = choose|b: int| 0 <= b < kv.len() && kv[b] == y;
                assert(x == (lowercase(fv[a].name), fv[a]) && y == (lowercase(fv[b].name), fv[b]));
            }
            crate::sort::lemma_sort_by_map(kv, keyed_lt(), f, wallpaper_lt());
            assert(kv.map_values(f) =~= fv);
            if all_ascii_names(fv) {
                let id = |w: WallpaperView| w;
                assert forall|x: WallpaperView, y: WallpaperView|
                    fv.contains(x) && fv.contains(y) implies #[trigger] (wallpaper_lt())(x, y) == (
                ascii_wallpaper_lt())(id(x), id(y)) by {
                    let a = choose|a: int| 0 <= a < fv.len() && fv[a] == x;
                    let b = choose|b: int| 0 <= b < fv.len() && fv[b] == y;
                    assert(is_ascii_chars(fv[a].name) && is_ascii_chars(fv[b].name));
                }
                crate::sort::lemma_sort_by_map(fv, wallpaper_lt(), id, ascii_wallpaper_lt());
                assert(fv.map_values(id) =~= fv);
                assert(sort_by(fv, wallpaper_lt()).map_values(id) =~= sort_by(fv, wallpaper_lt()));
            }
        }
        r
    }

    /// Whether the scan waits for a directory listing.
    pub fn is_waiting(&self) -> (r: bool)
        ensures
            r == self@.pending is Some,
    {
        self.pending.is_some()
    }

    fn has_found(&self, c: &str) -> (r: bool)
        ensures
            r == already_found(self@.found, c@),
    {
        let cc = chars_of(c);
        let mut i: usize = 0;
        while i < self.found.len()
            invariant
                i <= self.found@.len(),
                cc@ == c@,
                forall|j: int| 0 <= j < i ==> !same_path(#[trigger] self@.found[j].path, c@),
            decreases self.found@.len() - i,
        {
            let fc = chars_of(self.found[i].path.as_str());
            assert(self@.found[i as int].path == self.found@[i as int].path@);
            if same_path_chars(fc.as_slice(), cc.as_slice()) {
                return true;
            }
            i = i + 1;
        }
        false
    }

    /// One step of the walk.
    pub fn step(&mut self) -> (r: ScanStep)
        requires
            old(self)@.pending is None,
        ensures
            (final(self)@, r@) == scan_next(old(self)@),
    {
        let ghost s = self@;
        if self.found.len() >= MAX_LIBRARY_ITEMS {
            return ScanStep::Done;
        }
        if self.stack.len() > 0 {
            let mut top = self.stack.pop().unwrap();
            proof {
                assert(s.stack.last() == top@);
                assert(self@.stack =~= s.stack.drop_last());
            }
            if top.pos >= top.entries.len() {
                return ScanStep::Busy;
            }
            let i = top.pos;
            top.pos = i + 1;
            let ghost e = s.stack.last().entries[i as int];
            assert(top.entries@[i as int]@ == e);
            let name = chars_of(top.entries[i].name.as_str());
            let dir = chars_of(top.dir.as_str());
            let pc = join_chars(dir.as_slice(), name.as_slice());
            let ghost p = join(s.stack.last().dir, e.name);
            let ghost s2 = ScanView {
                stack: s.stack.update(
                    s.stack.len() - 1,
                    FrameView { pos: s.stack.last().pos + 1, ..s.stack.last() },
                ),
                ..s
            };
            assert(top@ == FrameView { pos: s.stack.last().pos + 1, ..s.stack.last() });
            if name.len() > 0 && name[0] == '.' {
                self.stack.push(top);
                assert(self@.stack =~= s2.stack);
                return ScanStep::Busy;
            }
            if top.entries[i].is_dir {
                if top.depth <= 1 {
                    self.stack.push(top);
                    assert(self@.stack =~= s2.stack);
                    return ScanStep::Busy;
                }
                let ps = string_of(pc.as_slice());
                let d = top.depth - 1;
                self.stack.push(top);
                assert(self@.stack =~= s2.stack);
                self.pending = Some((ps.clone(), d));
                return ScanStep::List(ps);
            }
            let ps = string_of(pc.as_slice());
            if !is_wallpaper_file(ps.as_str()) {
                self.stack.push(top);
                assert(self@.stack =~= s2.stack);
                return ScanStep::Busy;
            }
            let c: String = match &top.entries[i].canonical {
                Some(c) => c.clone(),
                None => ps.clone(),
            };
            if self.has_found(c.as_str()) {
                self.stack.push(top);
                assert(self@.stack =~= s2.stack);
                return ScanStep::Busy;
            }
            let stem = match file_stem_of(pc.as_slice()) {
                Some(st) => string_of(st.as_slice()),
                None => String::new(),
            };
            self.found.push(Wallpaper { path: c, name: stem });
            self.stack.push(top);
            assert(self@.stack =~= s2.stack);
            assert(self@.found =~= s.found.push(WallpaperView { name: shown_name(p), path: self.found@.last().path@ }));
            return ScanStep::Busy;
        }
        if self.next_root < self.roots.len() {
            let r = self.roots[self.next_root].clone();
            self.next_root = self.next_root + 1;
            self.pending = Some((r.clone(), MAX_SCAN_DEPTH));
            return ScanStep::List(r);
        }
        ScanStep::Done
    }
}


/// No two wallpapers found have the same path.
pub open spec fn distinct_paths(ws: Seq<WallpaperView>) -> bool {
    forall|i: int, j: int| 0 <= i < j < ws.len() ==> !same_path(#[trigger] ws[i].path, #[trigger] ws[j].path)
}

/// What every scan state keeps: at most `MAX_LIBRARY_ITEMS` wallpapers, and
/// no path twice.
pub open spec fn scan_ok(s: ScanView) -> bool {
    s.found.len() <= MAX_LIBRARY_ITEMS && distinct_paths(s.found)
}

/// A scan starts, steps and takes listings without ever holding more than
/// `MAX_LIBRARY_ITEMS` wallpapers or the same file twice (the same file
/// reached through two library directories is listed once).
pub proof fn law_scan_keeps_cap_and_dedup(s: ScanView, listing: Option<Seq<EntryView>>)
    requires
        scan_ok(s),
    ensures
        s.pending is None ==> scan_ok(scan_next(s).0),
        s.pending is Some ==> scan_ok(scan_fed(s, listing)),
{
    if s.pending is None && s.found.len() < MAX_LIBRARY_ITEMS && s.stack.len() > 0 {
        let n = scan_next(s).0;
        if n.found.len() == s.found.len() + 1 {
            let c = n.found.last().path;
            assert(!already_found(s.found, c));
            assert forall|i: int, j: int| 0 <= i < j < n.found.len() implies !same_path(
                #[trigger] n.found[i].path,
                #[trigger] n.found[j].path,
            ) by {
                if j == n.found.len() - 1 {
                    assert(n.found[i] == s.found[i]);
                    if same_path(n.found[i].path, c) {
                        assert(same_path(s.found[i].path, c));
                    }
                } else {
                    assert(n.found[i] == s.found[i] && n.found[j] == s.found[j]);
                }
            }
        } else {
            assert(n.found == s.found);
        }
    }
}

/// The first step of a new scan lists the first library directory, at the
/// full depth; a scan with no directories is done at once.
pub proof fn law_scan_starts_at_first_root(dirs: Seq<Seq<char>>)
    ensures
        ({
            let s = ScanView {
                roots: dirs,
                next_root: 0,
                stack: Seq::empty(),
                found: Seq::empty(),
                pending: None,
            };
            &&& scan_ok(s)
            &&& dirs.len() > 0 ==> scan_next(s).1 == ScanStepView::List(dirs[0])
                && scan_next(s).0.pending == Some((dirs[0], MAX_SCAN_DEPTH as nat))
            &&& dirs.len() == 0 ==> scan_next(s).1 == ScanStepView::Done
        }),
{
}

/// A directory that cannot be listed adds nothing to the walk.
pub proof fn law_unlisted_dir_is_skipped(s: ScanView)
    requires
        s.pending is Some,
    ensures
        scan_fed(s, None).stack == s.stack,
        scan_fed(s, None).found == s.found,
        scan_fed(s, None).pending is None,
{
}

/// Only wallpaper files are found: a step that adds a wallpaper took a
/// visible, non-directory entry whose path has a supported extension, and
/// names it by its file stem; hidden entries and other files add nothing.
pub proof fn law_scan_finds_only_wallpapers(s: ScanView)
    requires
        s.pending is None,
        s.found.len() < MAX_LIBRARY_ITEMS,
        s.stack.len() > 0,
        s.stack.last().pos < s.stack.last().entries.len(),
    ensures
        ({
            let top = s.stack.last();
            let e = top.entries[top.pos as int];
            let p = join(top.dir, e.name);
            let n = scan_next(s).0;
            &&& n.found.len() == s.found.len() || n.found.len() == s.found.len() + 1
            &&& n.found.len() == s.found.len() + 1 ==> !is_hidden(e.name) && !e.is_dir
                && is_wallpaper_path(p) && n.found.last().name == shown_name(p)
                && n.found.drop_last() == s.found
            &&& is_hidden(e.name) ==> n.found == s.found && scan_next(s).1 == ScanStepView::Busy
        }),
{
    let n = scan_next(s).0;
    if n.found.len() == s.found.len() + 1 {
        assert(n.found.drop_last() =~= s.found);
    }
}

/// Every directory being walked, or waiting to be listed, lies at most
/// `MAX_SCAN_DEPTH` levels into the walk: its depth budget is between 1 and
/// `MAX_SCAN_DEPTH`.
pub open spec fn depth_ok(s: ScanView) -> bool {
    &&& forall|i: int| 0 <= i < s.stack.len() ==> 1 <= #[trigger] s.stack[i].depth <= MAX_SCAN_DEPTH
    &&& s.pending matches Some((_, k)) ==> 1 <= k <= MAX_SCAN_DEPTH
}

/// The walk never goes deeper than `MAX_SCAN_DEPTH`: a new scan, each step
/// and each listing keep every depth budget within 1 and `MAX_SCAN_DEPTH`,
/// and a subdirectory is listed with one level less than its parent.
pub proof fn law_scan_depth_bounded(s: ScanView, listing: Option<Seq<EntryView>>)
    requires
        depth_ok(s),
    ensures
        s.pending is None ==> depth_ok(scan_next(s).0),
        s.pending is Some ==> depth_ok(scan_fed(s, listing)),
        s.pending is None && s.stack.len() > 0 && scan_next(s).0.pending is Some ==> scan_next(
            s,
        ).0.pending.unwrap().1 == s.stack.last().depth - 1,
        depth_ok(
            ScanView {
                roots: s.roots,
                next_root: 0,
                stack: Seq::empty(),
                found: Seq::empty(),
                pending: None,
            },
        ),
{
    if s.pending is None && s.found.len() < MAX_LIBRARY_ITEMS && s.stack.len() > 0 {
        let n = scan_next(s).0;
        let top = s.stack.last();
        if top.pos < top.entries.len() {
            assert forall|i: int| 0 <= i < n.stack.len() implies 1 <= #[trigger] n.stack[i].depth
                <= MAX_SCAN_DEPTH by {
                if i < s.stack.len() - 1 {
                    assert(n.stack[i] == s.stack[i]);
                } else {
                    assert(n.stack[i].depth == top.depth);
                }
            }
        } else {
            assert forall|i: int| 0 <= i < n.stack.len() implies 1 <= #[trigger] n.stack[i].depth
                <= MAX_SCAN_DEPTH by {
                assert(n.stack[i] == s.stack[i]);
            }
        }
    }
    if s.pending is Some {
        let n = scan_fed(s, listing);
        assert forall|i: int| 0 <= i < n.stack.len() implies 1 <= #[trigger] n.stack[i].depth
            <= MAX_SCAN_DEPTH by {
            if i < s.stack.len() {
                assert(n.stack[i] == s.stack[i]);
            }
        }
    }
}

proof fn lemma_wallpaper_lt_strict()
    ensures
        crate::sort::strict_order(wallpaper_lt()),
{
    let lt = wallpaper_lt();
    assert forall|a: WallpaperView| !#[trigger] lt(a, a) by {
        crate::text::lemma_chars_order_equal(lowercase(a.name), lowercase(a.name));
        crate::path::lemma_comps_order_equal(
            crate::path::components(a.path),
            crate::path::components(a.path),
        );
    }
    assert forall|a: WallpaperView, b: WallpaperView, c: WallpaperView|
        #![trigger lt(a, b), lt(b, c)]
        lt(a, b) && lt(b, c) implies lt(a, c) by {
        let (x, y, z) = (lowercase(a.name), lowercase(b.name), lowercase(c.name));
        crate::text::lemma_chars_order_equal(x, y);
        crate::text::lemma_chars_order_equal(y, z);
        if chars_order(x, y) == Order::Less && chars_order(y, z) == Order::Less {
            crate::text::lemma_chars_order_trans(x, y, z);
        }
        if chars_order(x, y) == Order::Equal && chars_order(y, z) == Order::Equal {
            crate::text::lemma_chars_order_equal(x, z);
            crate::path::lemma_comps_order_trans(
                crate::path::components(a.path),
                crate::path::components(b.path),
                crate::path::components(c.path),
            );
        }
    }
}

/// The finished list is the wallpapers found, each once, ordered by
/// lowercased name and then by path.
pub proof fn law_scan_result_sorted(found: Seq<WallpaperView>)
    ensures
        sort_by(found, wallpaper_lt()).to_multiset() == found.to_multiset(),
        crate::sort::sorted_by(sort_by(found, wallpaper_lt()), wallpaper_lt()),
{
    crate::sort::lemma_sort_by_multiset(found, wallpaper_lt());
    lemma_wallpaper_lt_strict();
    crate::sort::lemma_sort_by_sorted(found, wallpaper_lt());
}

/// The finished list depends only on which wallpapers the walk found, not
/// on the order in which it found them: library directories given in
/// another order that find the same wallpapers give the same list.
pub proof fn law_scan_result_ignores_find_order(a: Seq<WallpaperView>, b: Seq<WallpaperView>)
    requires
        distinct_paths(a),
        a.to_multiset() == b.to_multiset(),
    ensures
        sort_by(a, wallpaper_lt()) == sort_by(b, wallpaper_lt()),
{
    broadcast use vstd::seq_lib::group_to_multiset_ensures;

    let lt = wallpaper_lt();
    let x = sort_by(a, lt);
    let y = sort_by(b, lt);
    lemma_wallpaper_lt_strict();
    crate::sort::lemma_sort_by_sorted(a, lt);
    crate::sort::lemma_sort_by_sorted(b, lt);
    crate::sort::lemma_sort_by_multiset(a, lt);
    crate::sort::lemma_sort_by_multiset(b, lt);
    assert forall|u: WallpaperView, v: WallpaperView|
        x.contains(u) && x.contains(v) && u != v implies #[trigger] lt(u, v) || lt(v, u) by {
        assert(x.to_multiset().count(u) > 0 && x.to_multiset().count(v) > 0);
        assert(a.contains(u) && a.contains(v));
        let i = choose|i: int| 0 <= i < a.len() && a[i] == u;
        let j = choose|j: int| 0 <= j < a.len() && a[j] == v;
        assert(i != j);
        if i < j {
            assert(!same_path(a[i].path, a[j].path));
        } else {
            assert(!same_path(a[j].path, a[i].path));
        }
        let (nu, nv) = (lowercase(u.name), lowercase(v.name));
        crate::text::lemma_chars_order_equal(nu, nv);
        crate::text::lemma_chars_order_flip(nu, nv);
        crate::text::lemma_chars_order_flip(nv, nu);
        crate::path::lemma_comps_order_equal(
            crate::path::components(u.path),
            crate::path::components(v.path),
        );
        crate::path::lemma_comps_order_flip(
            crate::path::components(v.path),
            crate::path::components(u.path),
        );
        crate::path::lemma_comps_order_flip(
            crate::path::components(u.path),
            crate::path::components(v.path),
        );
        crate::text::lemma_chars_order_equal(nv, nu);
    }
    crate::sort::lemma_sorted_unique(x, y, lt);
}

/// A library directory that cannot be listed (missing, or not a directory)
/// leaves the scan as it was: after asking for it and getting no listing,
/// the scan differs only in having moved past it.
pub proof fn law_missing_root_adds_nothing(s: ScanView)
    requires
        s.pending is None,
        s.stack.len() == 0,
        s.found.len() < MAX_LIBRARY_ITEMS,
        s.next_root < s.roots.len(),
    ensures
        scan_next(s).1 == ScanStepView::List(s.roots[s.next_root as int]),
        scan_fed(scan_next(s).0, None) == (ScanView { next_root: s.next_root + 1, ..s }),
{
}

/// A directory tree to walk: the listing of each directory, `None` when it
/// cannot be listed.
pub type Listings = spec_fn(Seq<char>) -> Option<Seq<EntryView>>;

/// The wallpaper an entry of directory `d` stands for, when it is a file:
/// named by the stem of its path, kept under its canonical path.
pub open spec fn entry_paper(d: Seq<char>, e: EntryView) -> WallpaperView {
    let p = join(d, e.name);
    WallpaperView {
        name: shown_name(p),
        path: match e.canonical {
            Some(c) => c,
            None => p,
        },
    }
}

/// The wallpapers to be found among the entries `es` of directory `d`,
/// walked with depth budget `k`: visible files with a supported extension,
/// and what lies in visible subdirectories while the budget lasts.
pub open spec fn entries_papers(fs: Listings, d: Seq<char>, k: nat, es: Seq<EntryView>) -> Set<
    WallpaperView,
>
    decreases k, es.len(),
{
    if es.len() == 0 {
        Set::empty()
    } else {
        let e = es[0];
        let p = join(d, e.name);
        let here: Set<WallpaperView> = if is_hidden(e.name) {
            Set::empty()
        } else if e.is_dir {
            if k <= 1 {
                Set::empty()
            } else {
                match fs(p) {
                    Some(sub) => entries_papers(fs, p, (k - 1) as nat, sort_by(sub, entry_lt())),
                    None => Set::empty(),
                }
            }
        } else if !is_wallpaper_path(p) {
            Set::empty()
        } else {
            set![entry_paper(d, e)]
        };
        here.union(entries_papers(fs, d, k, es.drop_first()))
    }
}

/// The wallpapers to be found under directory `d` with depth budget `k`.
pub open spec fn dir_papers(fs: Listings, d: Seq<char>, k: nat) -> Set<WallpaperView> {
    match fs(d) {
        Some(es) => entries_papers(fs, d, k, sort_by(es, entry_lt())),
        None => Set::empty(),
    }
}

/// The wallpapers to be found under the library directories `roots`.
pub open spec fn roots_papers(fs: Listings, roots: Seq<Seq<char>>) -> Set<WallpaperView>
    decreases roots.len(),
{
    if roots.len() == 0 {
        Set::empty()
    } else {
        dir_papers(fs, roots[0], MAX_SCAN_DEPTH as nat).union(roots_papers(fs, roots.drop_first()))
    }
}

/// The wallpapers the rest of the walk of the directories on `stack` will
/// meet.
pub open spec fn stack_papers(fs: Listings, stack: Seq<FrameView>) -> Set<WallpaperView>
    decreases stack.len(),
{
    if stack.len() == 0 {
        Set::empty()
    } else {
        let f = stack.last();
        stack_papers(fs, stack.drop_last()).union(
            entries_papers(fs, f.dir, f.depth, f.entries.subrange(f.pos as int, f.entries.len() as int)),
        )
    }
}

/// The wallpapers the rest of a scan will meet: on its stack, in the
/// directory it waits for, and under the roots not yet started.
pub open spec fn ahead(fs: Listings, s: ScanView) -> Set<WallpaperView> {
    stack_papers(fs, s.stack).union(
        match s.pending {
            Some((d, k)) => dir_papers(fs, d, k),
            None => Set::empty(),
        },
    ).union(roots_papers(fs, s.roots.subrange(s.next_root as int, s.roots.len() as int)))
}

/// The directory a scan waits for.
pub open spec fn pending_dir(s: ScanView) -> Seq<char> {
    match s.pending {
        Some((d, _)) => d,
        None => Seq::empty(),
    }
}

/// A scan driven to its end (or for `fuel` steps): each directory it asks
/// for is handed the listing `fs` gives.
pub open spec fn scan_run(fs: Listings, s: ScanView, fuel: nat) -> ScanView
    decreases fuel,
{
    if fuel == 0 {
        s
    } else if s.pending is Some {
        scan_run(fs, scan_fed(s, fs(pending_dir(s))), (fuel - 1) as nat)
    } else if scan_next(s).1 == ScanStepView::Done {
        s
    } else {
        scan_run(fs, scan_next(s).0, (fuel - 1) as nat)
    }
}

/// A scan that has nothing more to do.
pub open spec fn scan_done(s: ScanView) -> bool {
    s.pending is None && scan_next(s).1 == ScanStepView::Done
}

/// Paths that name the same file are the same path text, and name the
/// wallpaper the same way (no two links to one file).
pub open spec fn consistent(ws: Set<WallpaperView>) -> bool {
    forall|u: WallpaperView, v: WallpaperView|
        ws.contains(u) && ws.contains(v) && same_path(u.path, v.path) ==> u == v
}

/// What holds along a scan of `roots` over `fs`: the wallpapers found and
/// those still ahead make up all there are, and every frame's position lies
/// within its entries.
pub open spec fn walk_inv(fs: Listings, s: ScanView) -> bool {
    &&& s.found.to_set().union(ahead(fs, s)) == roots_papers(fs, s.roots)
    &&& distinct_paths(s.found)
    &&& s.next_root <= s.roots.len()
    &&& forall|i: int| 0 <= i < s.stack.len() ==> #[trigger] s.stack[i].pos <= s.stack[i].entries.len()
}

proof fn lemma_walk_fed(fs: Listings, s: ScanView)
    requires
        walk_inv(fs, s),
        s.pending is Some,
    ensures
        walk_inv(fs, scan_fed(s, fs(pending_dir(s)))),
        scan_fed(s, fs(pending_dir(s))).roots == s.roots,
        scan_fed(s, fs(pending_dir(s))).found == s.found,
{
    let (d, k) = s.pending->0;
    let s2 = scan_fed(s, fs(d));
    match fs(d) {
        Some(es) => {
            let sorted = sort_by(es, entry_lt());
            let f = FrameView { dir: d, depth: k, entries: sorted, pos: 0 };
            assert(s2.stack == s.stack.push(f));
            assert(s2.stack.drop_last() =~= s.stack);
            assert(f.entries.subrange(0, f.entries.len() as int) =~= sorted);
            assert(stack_papers(fs, s2.stack) == stack_papers(fs, s.stack).union(
                dir_papers(fs, d, k),
            ));
            assert(ahead(fs, s2) =~= ahead(fs, s));
            assert forall|i: int| 0 <= i < s2.stack.len() implies #[trigger] s2.stack[i].pos
                <= s2.stack[i].entries.len() by {
                if i < s.stack.len() {
                    assert(s2.stack[i] == s.stack[i]);
                }
            }
        },
        None => {
            assert(dir_papers(fs, d, k) =~= Set::<WallpaperView>::empty());
            assert(ahead(fs, s2) =~= ahead(fs, s));
        },
    }
}

proof fn lemma_entries_first(fs: Listings, d: Seq<char>, k: nat, es: Seq<EntryView>, pos: int)
    requires
        0 <= pos < es.len(),
    ensures
        ({
            let e = es[pos];
            let p = join(d, e.name);
            let here: Set<WallpaperView> = if is_hidden(e.name) {
                Set::empty()
            } else if e.is_dir {
                if k <= 1 {
                    Set::empty()
                } else {
                    dir_papers(fs, p, (k - 1) as nat)
                }
            } else if !is_wallpaper_path(p) {
                Set::empty()
            } else {
                set![entry_paper(d, e)]
            };
            entries_papers(fs, d, k, es.subrange(pos, es.len() as int)) == here.union(
                entries_papers(fs, d, k, es.subrange(pos + 1, es.len() as int)),
            )
        }),
{
    let t = es.subrange(pos, es.len() as int);
    assert(t[0] == es[pos]);
    assert(t.drop_first() =~= es.subrange(pos + 1, es.len() as int));
}

proof fn lemma_roots_first(fs: Listings, roots: Seq<Seq<char>>, n: int)
    requires
        0 <= n < roots.len(),
    ensures
        roots_papers(fs, roots.subrange(n, roots.len() as int)) == dir_papers(
            fs,
            roots[n],
            MAX_SCAN_DEPTH as nat,
        ).union(roots_papers(fs, roots.subrange(n + 1, roots.len() as int))),
{
    let t = roots.subrange(n, roots.len() as int);
    assert(t[0] == roots[n]);
    assert(t.drop_first() =~= roots.subrange(n + 1, roots.len() as int));
}

proof fn lemma_walk_step(fs: Listings, s: ScanView)
    requires
        walk_inv(fs, s),
        s.pending is None,
        s.found.len() < MAX_LIBRARY_ITEMS,
        consistent(roots_papers(fs, s.roots)),
    ensures
        walk_inv(fs, scan_next(s).0),
        scan_next(s).0.roots == s.roots,
        scan_next(s).0.found.len() >= s.found.len(),
{
    let s2 = scan_next(s).0;
    let u = roots_papers(fs, s.roots);
    let pend: Set<WallpaperView> = Set::empty();
    let rest = roots_papers(fs, s.roots.subrange(s.next_root as int, s.roots.len() as int));
    law_scan_keeps_cap_and_dedup(s, None);
    if s.stack.len() > 0 {
        let top = s.stack.last();
        let dl = s.stack.drop_last();
        assert(s.stack[s.stack.len() - 1] == top);
        assert(top.pos <= top.entries.len());
        assert(stack_papers(fs, s.stack) == stack_papers(fs, dl).union(
            entries_papers(fs, top.dir, top.depth, top.entries.subrange(top.pos as int, top.entries.len() as int)),
        ));
        assert(ahead(fs, s) == stack_papers(fs, s.stack).union(pend).union(rest));
        if top.pos >= top.entries.len() {
            assert(top.entries.subrange(top.pos as int, top.entries.len() as int) =~= Seq::<
                EntryView,
            >::empty());
            assert(s2.stack == dl);
            assert(ahead(fs, s2) =~= ahead(fs, s));
            assert forall|i: int| 0 <= i < s2.stack.len() implies #[trigger] s2.stack[i].pos
                <= s2.stack[i].entries.len() by {
                assert(s2.stack[i] == s.stack[i]);
            }
        } else {
            let e = top.entries[top.pos as int];
            let p = join(top.dir, e.name);
            let v = entry_paper(top.dir, e);
            let top2 = FrameView { pos: top.pos + 1, ..top };
            let st2 = s.stack.update(s.stack.len() - 1, top2);
            assert(st2.drop_last() =~= dl);
            assert(st2.last() == top2);
            let later = entries_papers(
                fs,
                top.dir,
                top.depth,
                top.entries.subrange(top.pos + 1int, top.entries.len() as int),
            );
            assert(stack_papers(fs, st2) == stack_papers(fs, dl).union(later));
            lemma_entries_first(fs, top.dir, top.depth, top.entries, top.pos as int);
            assert(s2.stack == st2);
            assert forall|i: int| 0 <= i < s2.stack.len() implies #[trigger] s2.stack[i].pos
                <= s2.stack[i].entries.len() by {
                if i < s.stack.len() - 1 {
                    assert(s2.stack[i] == s.stack[i]);
                }
            }
            if is_hidden(e.name) || (e.is_dir && top.depth <= 1) || (!e.is_dir
                && !is_wallpaper_path(p)) {
                assert(s2.found == s.found);
                assert(s2.found.to_set().union(ahead(fs, s2)) =~= u);
            } else if e.is_dir {
                assert(s2.pending == Some((p, (top.depth - 1) as nat)));
                assert(s2.found == s.found);
                assert(s2.found.to_set().union(ahead(fs, s2)) =~= u);
            } else {
                let c = match e.canonical {
                    Some(c) => c,
                    None => p,
                };
                assert(v.path == c);
                assert(u.contains(v));
                if already_found(s.found, c) {
                    let i = choose|i: int| 0 <= i < s.found.len() && same_path(#[trigger] s.found[i].path, c);
                    assert(s.found.to_set().contains(s.found[i]));
                    assert(u.contains(s.found[i]));
                    assert(s.found[i] == v);
                    assert(s.found.to_set().contains(v));
                    assert(s2.found == s.found);
                    assert(s2.found.to_set().union(ahead(fs, s2)) =~= u);
                } else {
                    assert(s2.found == s.found.push(v));
                    assert(s2.found.to_set() =~= s.found.to_set().insert(v)) by {
                        assert forall|x: WallpaperView| s2.found.to_set().contains(x) implies s.found.to_set().insert(v).contains(x) by {
                            let j = choose|j: int| 0 <= j < s2.found.len() && s2.found[j] == x;
                            if j < s.found.len() {
                                assert(s.found[j] == x);
                            }
                        }
                        assert forall|x: WallpaperView| s.found.to_set().insert(v).contains(x) implies s2.found.to_set().contains(x) by {
                            if x == v {
                                assert(s2.found[s.found.len() as int] == v);
                            } else {
                                let j = choose|j: int| 0 <= j < s.found.len() && s.found[j] == x;
                                assert(s2.found[j] == x);
                            }
                        }
                    }
                    assert(s2.found.to_set().union(ahead(fs, s2)) =~= u);
                }
            }
        }
    } else if s.next_root < s.roots.len() {
        let r = s.roots[s.next_root as int];
        lemma_roots_first(fs, s.roots, s.next_root as int);
        assert(stack_papers(fs, s2.stack) =~= Set::<WallpaperView>::empty());
        assert(stack_papers(fs, s.stack) =~= Set::<WallpaperView>::empty());
        assert(s2.found.to_set().union(ahead(fs, s2)) =~= u);
    }
}

proof fn lemma_walk_run(fs: Listings, s: ScanView, fuel: nat)
    requires
        walk_inv(fs, s),
        consistent(roots_papers(fs, s.roots)),
        scan_run(fs, s, fuel).found.len() < MAX_LIBRARY_ITEMS,
    ensures
        walk_inv(fs, scan_run(fs, s, fuel)),
        scan_run(fs, s, fuel).roots == s.roots,
        scan_run(fs, s, fuel).found.len() >= s.found.len(),
    decreases fuel,
{
    if fuel > 0 {
        if s.pending is Some {
            lemma_walk_fed(fs, s);
            lemma_walk_run(fs, scan_fed(s, fs(pending_dir(s))), (fuel - 1) as nat);
        } else if scan_next(s).1 != ScanStepView::Done {
            assert(s.found.len() < MAX_LIBRARY_ITEMS);
            lemma_walk_step(fs, s);
            lemma_walk_run(fs, scan_next(s).0, (fuel - 1) as nat);
        }
    }
}

proof fn lemma_roots_papers_contains(fs: Listings, roots: Seq<Seq<char>>, v: WallpaperView)
    ensures
        roots_papers(fs, roots).contains(v) <==> exists|i: int|
            0 <= i < roots.len() && #[trigger] dir_papers(fs, roots[i], MAX_SCAN_DEPTH as nat).contains(
                v,
            ),
    decreases roots.len(),
{
    if roots.len() > 0 {
        let t = roots.drop_first();
        lemma_roots_papers_contains(fs, t, v);
        if roots_papers(fs, roots).contains(v) {
            if !dir_papers(fs, roots[0], MAX_SCAN_DEPTH as nat).contains(v) {
                let i = choose|i: int|
                    0 <= i < t.len() && #[trigger] dir_papers(fs, t[i], MAX_SCAN_DEPTH as nat).contains(
                        v,
                    );
                assert(t[i] == roots[i + 1]);
                assert(dir_papers(fs, roots[i + 1], MAX_SCAN_DEPTH as nat).contains(v));
            }
        }
        if exists|i: int|
            0 <= i < roots.len() && #[trigger] dir_papers(fs, roots[i], MAX_SCAN_DEPTH as nat).contains(
                v,
            ) {
            let i = choose|i: int|
                0 <= i < roots.len() && #[trigger] dir_papers(fs, roots[i], MAX_SCAN_DEPTH as nat).contains(
                    v,
                );
            if i > 0 {
                assert(t[i - 1] == roots[i]);
                assert(dir_papers(fs, t[i - 1], MAX_SCAN_DEPTH as nat).contains(v));
            }
        }
    }
}

/// A new scan of `roots`.
pub open spec fn scan_start(roots: Seq<Seq<char>>) -> ScanView {
    ScanView { roots, next_root: 0, stack: Seq::empty(), found: Seq::empty(), pending: None }
}

proof fn lemma_walk_finds_all(fs: Listings, roots: Seq<Seq<char>>, fuel: nat)
    requires
        consistent(roots_papers(fs, roots)),
        scan_done(scan_run(fs, scan_start(roots), fuel)),
        scan_run(fs, scan_start(roots), fuel).found.len() < MAX_LIBRARY_ITEMS,
    ensures
        scan_run(fs, scan_start(roots), fuel).found.to_set() == roots_papers(fs, roots),
        distinct_paths(scan_run(fs, scan_start(roots), fuel).found),
{
    let s0 = scan_start(roots);
    assert(roots.subrange(0, roots.len() as int) =~= roots);
    assert(stack_papers(fs, s0.stack) =~= Set::<WallpaperView>::empty());
    assert(s0.found.to_set() =~= Set::<WallpaperView>::empty());
    assert(s0.found.to_set().union(ahead(fs, s0)) =~= roots_papers(fs, roots));
    lemma_walk_run(fs, s0, fuel);
    let f = scan_run(fs, s0, fuel);
    assert(f.stack.len() == 0);
    assert(f.next_root == roots.len());
    assert(f.roots.subrange(f.next_root as int, f.roots.len() as int) =~= Seq::<Seq<char>>::empty());
    assert(stack_papers(fs, f.stack) =~= Set::<WallpaperView>::empty());
    assert(ahead(fs, f) =~= Set::<WallpaperView>::empty());
    assert(f.found.to_set() =~= f.found.to_set().union(ahead(fs, f)));
}

proof fn lemma_distinct_multiset(a: Seq<WallpaperView>, b: Seq<WallpaperView>)
    requires
        distinct_paths(a),
        distinct_paths(b),
        a.to_set() == b.to_set(),
    ensures
        a.to_multiset() == b.to_multiset(),
{
    broadcast use vstd::seq_lib::group_to_multiset_ensures;

    assert forall|i: int, j: int| 0 <= i < a.len() && 0 <= j < a.len() && i != j implies a[i] != a[j] by {
        crate::path::lemma_comps_order_equal(
            crate::path::components(a[i].path),
            crate::path::components(a[i].path),
        );
        if i < j {
            assert(!same_path(a[i].path, a[j].path));
        } else {
            assert(!same_path(a[j].path, a[i].path));
        }
    }
    assert forall|i: int, j: int| 0 <= i < b.len() && 0 <= j < b.len() && i != j implies b[i] != b[j] by {
        if i < j {
            assert(!same_path(b[i].path, b[j].path));
        } else {
            assert(!same_path(b[j].path, b[i].path));
        }
    }
    a.lemma_multiset_has_no_duplicates();
    b.lemma_multiset_has_no_duplicates();
    assert forall|x: WallpaperView| a.to_multiset().count(x) == b.to_multiset().count(x) by {
        assert(a.contains(x) == a.to_set().contains(x));
        assert(b.contains(x) == b.to_set().contains(x));
        if a.contains(x) {
            assert(a.to_multiset().contains(x));
            assert(b.to_multiset().contains(x));
        }
    }
    assert(a.to_multiset() =~= b.to_multiset());
}

/// The order of the library directories, a directory given twice, and a
/// directory that cannot be listed do not change the scan's result: two
/// scans over the same tree `fs`, whose roots name the same listable
/// directories, finish with the same list, as long as neither reaches
/// `MAX_LIBRARY_ITEMS` and no file is reached under two different path
/// texts (no links).
pub proof fn law_scan_result_ignores_roots(
    fs: Listings,
    roots1: Seq<Seq<char>>,
    roots2: Seq<Seq<char>>,
    fuel1: nat,
    fuel2: nat,
)
    requires
        forall|r: Seq<char>|
            (roots1.contains(r) && fs(r) is Some) <==> (roots2.contains(r) && #[trigger] fs(r) is Some),
        consistent(roots_papers(fs, roots1)),
        scan_done(scan_run(fs, scan_start(roots1), fuel1)),
        scan_done(scan_run(fs, scan_start(roots2), fuel2)),
        scan_run(fs, scan_start(roots1), fuel1).found.len() < MAX_LIBRARY_ITEMS,
        scan_run(fs, scan_start(roots2), fuel2).found.len() < MAX_LIBRARY_ITEMS,
    ensures
        sort_by(scan_run(fs, scan_start(roots1), fuel1).found, wallpaper_lt()) == sort_by(
            scan_run(fs, scan_start(roots2), fuel2).found,
            wallpaper_lt(),
        ),
{
    let u1 = roots_papers(fs, roots1);
    let u2 = roots_papers(fs, roots2);
    assert forall|v: WallpaperView| u1.contains(v) == u2.contains(v) by {
        lemma_roots_papers_contains(fs, roots1, v);
        lemma_roots_papers_contains(fs, roots2, v);
        if u1.contains(v) {
            let i = choose|i: int|
                0 <= i < roots1.len() && #[trigger] dir_papers(fs, roots1[i], MAX_SCAN_DEPTH as nat).contains(
                    v,
                );
            assert(fs(roots1[i]) is Some);
            assert(roots1.contains(roots1[i]));
            let j = choose|j: int| 0 <= j < roots2.len() && roots2[j] == roots1[i];
            assert(dir_papers(fs, roots2[j], MAX_SCAN_DEPTH as nat).contains(v));
        }
        if u2.contains(v) {
            let i = choose|i: int|
                0 <= i < roots2.len() && #[trigger] dir_papers(fs, roots2[i], MAX_SCAN_DEPTH as nat).contains(
                    v,
                );
            assert(fs(roots2[i]) is Some);
            assert(roots2.contains(roots2[i]));
            let j = choose|j: int| 0 <= j < roots1.len() && roots1[j] == roots2[i];
            assert(dir_papers(fs, roots1[j], MAX_SCAN_DEPTH as nat).contains(v));
        }
    }
    assert(u1 =~= u2);
    lemma_walk_finds_all(fs, roots1, fuel1);
    lemma_walk_finds_all(fs, roots2, fuel2);
    let a = scan_run(fs, scan_start(roots1), fuel1).found;
    let b = scan_run(fs, scan_start(roots2), fuel2).found;
    lemma_distinct_multiset(a, b);
    law_scan_result_ignores_find_order(a, b);
}

proof fn lemma_last_dot_is_last(n: Seq<char>)
    ensures
        last_dot(n) matches Some(i) ==> 0 <= i < n.len() && n[i] == '.' && forall|j: int|
            i < j < n.len() ==> n[j] != '.',
        last_dot(n) is None ==> forall|j: int| 0 <= j < n.len() ==> n[j] != '.',
    decreases n.len(),
{
    if n.len() > 0 && n.last() != '.' {
        let d = n.drop_last();
        lemma_last_dot_is_last(d);
        assert forall|j: int| 0 <= j < d.len() implies d[j] == n[j] by {}
        assert(n[n.len() - 1] == n.last());
    }
}

/// A wallpaper is named by its file name without the last extension: when
/// the file name `n` has its last `.` at index `i > 0`, the name is
/// `n[0..i]`, the path's extension is what follows that `.`, and the name,
/// a `.` and the extension give back `n`; a file name with no `.` after its
/// first character is the name itself, with no extension.
pub proof fn law_shown_name_drops_last_extension(p: Seq<char>, i: int)
    requires
        file_name(p) is Some,
    ensures
        ({
            let n = file_name(p)->0;
            &&& (0 < i < n.len() && n[i] == '.' && forall|j: int| i < j < n.len() ==> n[j] != '.')
                ==> shown_name(p) == n.subrange(0, i) && extension(p) == Some(
                n.subrange(i + 1, n.len() as int),
            ) && shown_name(p) + seq!['.'] + extension(p)->0 == n
            &&& (forall|j: int| 0 < j < n.len() ==> n[j] != '.') ==> shown_name(p) == n
                && extension(p) is None
        }),
{
    let n = file_name(p)->0;
    lemma_last_dot_is_last(n);
    if 0 < i < n.len() && n[i] == '.' && forall|j: int| i < j < n.len() ==> n[j] != '.' {
        let k = last_dot(n)->0;
        assert(last_dot(n) is Some);
        if k < i {
            assert(n[i] != '.');
        }
        if k > i {
            assert(n[k] != '.');
        }
        assert(k == i);
        assert(n.subrange(0, i) + seq!['.'] + n.subrange(i + 1, n.len() as int) =~= n);
    }
    if forall|j: int| 0 < j < n.len() ==> n[j] != '.' {
        if let Some(k) = last_dot(n) {
            assert(k == 0);
        }
    }
}

/// A listed directory's entries are walked in file-name order.
pub proof fn law_entries_walked_in_name_order(es: Seq<EntryView>)
    ensures
        sort_by(es, entry_lt()).to_multiset() == es.to_multiset(),
        crate::sort::sorted_by(sort_by(es, entry_lt()), entry_lt()),
{
    crate::sort::lemma_sort_by_multiset(es, entry_lt());
    let lt = entry_lt();
    assert forall|a: EntryView| !#[trigger] lt(a, a) by {
        crate::text::lemma_chars_order_equal(a.name, a.name);
    }
    assert forall|a: EntryView, b: EntryView, c: EntryView|
        #![trigger lt(a, b), lt(b, c)]
        lt(a, b) && lt(b, c) implies lt(a, c) by {
        crate::text::lemma_chars_order_trans(a.name, b.name, c.name);
    }
    crate::sort::lemma_sort_by_sorted(es, entry_lt());
}

} // verus!
