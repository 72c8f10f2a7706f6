use breadpaper::{
    is_wallpaper_file, scan, DirEntry, ScanStep, Wallpaper, MAX_LIBRARY_ITEMS, MAX_SCAN_DEPTH,
};

/// A directory tree held in memory: each directory with its entries (name,
/// whether it is a directory). Files resolve to their own path.
struct Tree {
    dirs: Vec<(String, Vec<(String, bool)>)>,
}

impl Tree {
    fn new() -> Tree {
        Tree { dirs: Vec::new() }
    }

    fn dir(mut self, path: &str, entries: &[(&str, bool)]) -> Tree {
        self.dirs.push((
            path.to_string(),
            entries.iter().map(|(n, d)| (n.to_string(), *d)).collect(),
        ));
        self
    }

    fn list(&self, path: &str) -> Option<Vec<DirEntry>> {
        let (_, es) = self.dirs.iter().find(|(p, _)| p == path)?;
        Some(
            es.iter()
                .map(|(n, d)| DirEntry {
                    name: n.clone(),
                    is_dir: *d,
                    canonical: if *d {
                        None
                    } else {
                        Some(format!("{path}/{n}"))
                    },
                })
                .collect(),
        )
    }
}

fn run_scan(dirs: &[&str], tree: &Tree) -> (Vec<Wallpaper>, Vec<String>) {
    let mut run = scan(dirs.iter().map(|d| d.to_string()).collect());
    let mut listed = Vec::new();
    loop {
        if run.is_waiting() {
            panic!("scan waits for a listing it was not asked for");
        }
        match run.step() {
            ScanStep::List(d) => {
                let l = tree.list(&d);
                listed.push(d);
                run.feed(l);
            }
            ScanStep::Busy => {}
            ScanStep::Done => return (run.finish(), listed),
        }
    }
}

fn names(found: &[Wallpaper]) -> Vec<&str> {
    found.iter().map(|w| w.name.as_str()).collect()
}

#[test]
fn is_wallpaper_file_accepts_known_extensions() {
    assert!(is_wallpaper_file("a.PNG"));
    assert!(is_wallpaper_file("b.jpeg"));
    assert!(is_wallpaper_file("c.webp"));
    assert!(!is_wallpaper_file("d.txt"));
    assert!(!is_wallpaper_file("noext"));
}

#[test]
fn is_wallpaper_file_edge_cases() {
    assert!(is_wallpaper_file("/walls/x.JpG"));
    assert!(is_wallpaper_file("/walls/x.tar.bmp"));
    assert!(!is_wallpaper_file(".png"));
    assert!(is_wallpaper_file("/walls/x.png/"));
    assert!(!is_wallpaper_file("/walls/x."));
    assert!(!is_wallpaper_file("/walls/x.pngg"));
}

#[test]
fn scan_skips_missing_dirs() {
    let (found, listed) = run_scan(&["/no/such/breadpaper-walls"], &Tree::new());
    assert!(found.is_empty());
    assert_eq!(listed, vec!["/no/such/breadpaper-walls".to_string()]);
}

#[test]
fn scan_finds_images_and_ignores_other_files() {
    let tree = Tree::new()
        .dir(
            "/w",
            &[
                ("keep.png", false),
                ("notes.txt", false),
                (".hidden.jpg", false),
                ("nested", true),
            ],
        )
        .dir("/w/nested", &[("deep.jpg", false)]);
    let (found, _) = run_scan(&["/w"], &tree);
    let names = names(&found);
    assert!(names.contains(&"keep"), "{names:?}");
    assert!(names.contains(&"deep"), "{names:?}");
    assert!(!names.iter().any(|n| n.contains("notes") || n.contains("hidden")));
    assert_eq!(found.len(), 2);
    assert_eq!(found[0].path, "/w/nested/deep.jpg");
    assert_eq!(found[1].path, "/w/keep.png");
}

#[test]
fn scan_dedups_the_same_file_via_two_roots() {
    let tree = Tree::new().dir("/w", &[("one.png", false)]);
    let (found, _) = run_scan(&["/w", "/w"], &tree);
    assert_eq!(found.len(), 1);
}

#[test]
fn scan_respects_item_cap() {
    let files: Vec<String> = (0..MAX_LIBRARY_ITEMS + 10).map(|i| format!("{i:04}.png")).collect();
    let entries: Vec<(&str, bool)> = files.iter().map(|f| (f.as_str(), false)).collect();
    let tree = Tree::new().dir("/w", &entries).dir("/v", &[("late.png", false)]);
    let (found, listed) = run_scan(&["/w", "/v"], &tree);
    assert_eq!(found.len(), MAX_LIBRARY_ITEMS);
    assert_eq!(found[0].name, "0000");
    assert_eq!(found[MAX_LIBRARY_ITEMS - 1].name, "0199");
    assert_eq!(listed, vec!["/w".to_string()]);
}

#[test]
fn scan_stops_at_max_depth() {
    assert_eq!(MAX_SCAN_DEPTH, 4);
    let tree = Tree::new()
        .dir("/w", &[("a", true), ("top.png", false)])
        .dir("/w/a", &[("b", true), ("one.png", false)])
        .dir("/w/a/b", &[("c", true), ("two.png", false)])
        .dir("/w/a/b/c", &[("d", true), ("three.png", false)])
        .dir("/w/a/b/c/d", &[("four.png", false)]);
    let (found, listed) = run_scan(&["/w"], &tree);
    assert_eq!(names(&found), vec!["one", "three", "top", "two"]);
    assert_eq!(
        listed,
        vec![
            "/w".to_string(),
            "/w/a".to_string(),
            "/w/a/b".to_string(),
            "/w/a/b/c".to_string()
        ]
    );
}

#[test]
fn scan_walks_entries_in_name_order() {
    let tree = Tree::new()
        .dir("/w", &[("z", true), ("b.png", false), ("a", true)])
        .dir("/w/a", &[])
        .dir("/w/z", &[]);
    let (_, listed) = run_scan(&["/w"], &tree);
    assert_eq!(
        listed,
        vec!["/w".to_string(), "/w/a".to_string(), "/w/z".to_string()]
    );
}

#[test]
fn scan_sorts_by_lowercased_name_then_path() {
    let tree = Tree::new()
        .dir("/w", &[("B.png", false), ("a.png", false), ("x", true)])
        .dir("/w/x", &[("a.jpg", false)]);
    let (found, _) = run_scan(&["/w"], &tree);
    let paths: Vec<&str> = found.iter().map(|w| w.path.as_str()).collect();
    assert_eq!(paths, vec!["/w/a.png", "/w/x/a.jpg", "/w/B.png"]);
    assert_eq!(names(&found), vec!["a", "a", "B"]);
}

#[test]
fn scan_with_no_dirs_is_done_at_once() {
    let (found, listed) = run_scan(&[], &Tree::new());
    assert!(found.is_empty());
    assert!(listed.is_empty());
}

fn paper(path: &str, name: &str) -> Wallpaper {
    Wallpaper {
        path: path.to_string(),
        name: name.to_string(),
    }
}

#[test]
fn sort_by_keys_orders_by_key_then_path() {
    let sorted = breadpaper::sort_by_keys(vec![
        ("b".to_string(), paper("/1", "A")),
        ("a".to_string(), paper("/z", "Z")),
        ("a".to_string(), paper("/m", "M")),
    ]);
    assert_eq!(
        sorted,
        vec![paper("/m", "M"), paper("/z", "Z"), paper("/1", "A")]
    );
}

#[test]
fn sort_by_keys_compares_paths_by_component() {
    let sorted = breadpaper::sort_by_keys(vec![
        ("k".to_string(), paper("/a/b", "k")),
        ("k".to_string(), paper("/a-b", "k")),
    ]);
    assert_eq!(sorted[0].path, "/a/b");
    assert_eq!(sorted[1].path, "/a-b");
}

#[test]
fn scan_result_ignores_root_order_repeats_and_missing_roots() {
    let tree = Tree::new()
        .dir("/w", &[("b.png", false), ("sub", true)])
        .dir("/w/sub", &[("c.jpg", false)])
        .dir("/v", &[("A.png", false), ("d.txt", false)]);
    let (one, _) = run_scan(&["/w", "/v"], &tree);
    let (two, _) = run_scan(&["/v", "/missing", "/w", "/v"], &tree);
    assert_eq!(one, two);
    assert_eq!(names(&one), vec!["A", "b", "c"]);
}
