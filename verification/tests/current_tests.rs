use breadpaper::{cached_wallpaper, file_in, get_on, Current, PaperError};

fn entries(c: &Current) -> Vec<(String, String)> {
    c.all().clone()
}

#[test]
fn new_current_is_empty() {
    let cur = Current::new();
    assert!(cur.all().is_empty());
}

#[test]
fn set_one_output_does_not_drop_others() {
    let mut cur = Current::new();
    cur.set_output("eDP-1".to_string(), "/abs/a.png".to_string());
    cur.set_output("HDMI-A-1".to_string(), "/abs/b.png".to_string());
    cur.set_output("eDP-1".to_string(), "/abs/c.png".to_string());
    assert_eq!(cur.get_output("eDP-1"), Some("/abs/c.png"));
    assert_eq!(cur.get_output("HDMI-A-1"), Some("/abs/b.png"));
    assert_eq!(cur.all().len(), 2);
}

#[test]
fn entries_stay_in_key_order() {
    let mut cur = Current::new();
    cur.set_output("eDP-1".to_string(), "/a".to_string());
    cur.set_output("HDMI-A-1".to_string(), "/b".to_string());
    cur.set_output("DP-1".to_string(), "/c".to_string());
    assert_eq!(
        entries(&cur),
        vec![
            ("DP-1".to_string(), "/c".to_string()),
            ("HDMI-A-1".to_string(), "/b".to_string()),
            ("eDP-1".to_string(), "/a".to_string()),
        ]
    );
    assert_eq!(cur.entries(), entries(&cur));
}

#[test]
fn set_every_replaces_each_path() {
    let mut cur = Current::new();
    cur.set_output("A".to_string(), "/a".to_string());
    cur.set_output("B".to_string(), "/b".to_string());
    cur.set_every("/new.png");
    assert_eq!(cur.get_output("A"), Some("/new.png"));
    assert_eq!(cur.get_output("B"), Some("/new.png"));
    assert_eq!(cur.all().len(), 2);
}

#[test]
fn get_on_reads_saved_output() {
    let mut cur = Current::new();
    cur.set_output("eDP-1".to_string(), "/abs/a.png".to_string());
    assert_eq!(get_on(&cur, "eDP-1"), Ok("/abs/a.png".to_string()));
    let err = get_on(&cur, "HDMI-A-1").unwrap_err();
    assert_eq!(
        err,
        PaperError::NoSavedOutput {
            output: "HDMI-A-1".to_string()
        }
    );
    assert_eq!(err.message(), "no wallpaper saved for output HDMI-A-1");
}

#[test]
fn cached_wallpaper_trims() {
    assert_eq!(cached_wallpaper("  /home/ada/w.png\n"), "/home/ada/w.png");
    assert_eq!(cached_wallpaper("\n\t \n"), "");
    assert_eq!(cached_wallpaper("/a b.png"), "/a b.png");
}

#[test]
fn file_in_joins() {
    assert_eq!(file_in("/home/ada", ".cache/wal/wal"), "/home/ada/.cache/wal/wal");
    assert_eq!(file_in("/home/ada/", "x"), "/home/ada/x");
    assert_eq!(file_in("/home/ada", "/etc/x"), "/etc/x");
    assert_eq!(file_in("", "x"), "x");
}
