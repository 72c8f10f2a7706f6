use breadpaper::{dirs_summary, empty_message};

#[test]
fn dirs_summary_marks_missing_dirs() {
    let dirs = vec![
        ("/home/ada/Pictures/Wallpapers".to_string(), true),
        ("/usr/share/backgrounds/bos".to_string(), false),
    ];
    assert_eq!(
        dirs_summary(&dirs, 12),
        "12 wallpaper(s) \u{b7} /home/ada/Pictures/Wallpapers \u{b7} /usr/share/backgrounds/bos (missing)"
    );
}

#[test]
fn dirs_summary_counts_in_decimal() {
    assert_eq!(dirs_summary(&Vec::new(), 0), "0 wallpaper(s) \u{b7} ");
    assert_eq!(
        dirs_summary(&vec![("/a".to_string(), true)], 200),
        "200 wallpaper(s) \u{b7} /a"
    );
    assert_eq!(
        dirs_summary(&vec![("/a".to_string(), false)], 1090),
        "1090 wallpaper(s) \u{b7} /a (missing)"
    );
}

#[test]
fn empty_message_lists_each_dir() {
    let dirs = vec!["/a".to_string(), "/b".to_string()];
    assert_eq!(
        empty_message(&dirs, "/home/ada/.config/breadpaper/config.toml"),
        "No wallpapers found.\nAdd png/jpg/webp/gif/bmp files under:\n/a\n/b\n\nOr set library_dirs in /home/ada/.config/breadpaper/config.toml"
    );
    assert_eq!(
        empty_message(&Vec::new(), "c.toml"),
        "No wallpapers found.\nAdd png/jpg/webp/gif/bmp files under:\n\n\nOr set library_dirs in c.toml"
    );
}
