use breadpaper::{
    default_library_dirs, env_library_dirs, expand_tilde, library, Config, DEFAULT_SYSTEM_LIBRARY,
    DEFAULT_USER_LIBRARY,
};

const HOME: &str = "/home/ada";

fn strings(v: &[&str]) -> Vec<String> {
    v.iter().map(|s| s.to_string()).collect()
}

#[test]
fn default_dirs_are_pictures_wallpapers_and_bos_backgrounds() {
    let dirs = Config::default_for(HOME).library_dirs;
    assert!(
        dirs.iter().any(|d| d.ends_with(DEFAULT_USER_LIBRARY)),
        "missing ~/{DEFAULT_USER_LIBRARY} in {dirs:?}"
    );
    assert!(
        dirs.iter().any(|d| d == DEFAULT_SYSTEM_LIBRARY),
        "missing {DEFAULT_SYSTEM_LIBRARY} in {dirs:?}"
    );
}

#[test]
fn default_dirs_exact() {
    assert_eq!(
        default_library_dirs(HOME),
        strings(&["/home/ada/Pictures/Wallpapers", "/usr/share/backgrounds/bos"])
    );
}

#[test]
fn expand_tilde_prefix() {
    let home = HOME;
    assert_eq!(
        expand_tilde("~/Pictures/Wallpapers".to_string(), home),
        "/home/ada/Pictures/Wallpapers"
    );
    assert_eq!(expand_tilde("~".to_string(), home), home);
    let abs = "/usr/share/backgrounds/bos".to_string();
    assert_eq!(expand_tilde(abs.clone(), home), abs);
}

#[test]
fn expand_tilde_keeps_other_tildes() {
    assert_eq!(expand_tilde("~ada/walls".to_string(), HOME), "~ada/walls");
    assert_eq!(expand_tilde("walls/~".to_string(), HOME), "walls/~");
    assert_eq!(expand_tilde("".to_string(), HOME), "");
}

#[test]
fn with_extra_dirs_appends() {
    let cfg = Config {
        library_dirs: strings(&["/a"]),
    }
    .with_extra_dirs(strings(&["/b"]), HOME);
    assert_eq!(cfg.library_dirs, strings(&["/a", "/b"]));
}

#[test]
fn with_extra_dirs_expands_tilde() {
    let cfg = Config {
        library_dirs: strings(&["/a"]),
    }
    .with_extra_dirs(strings(&["~/more", "/c"]), HOME);
    assert_eq!(cfg.library_dirs, strings(&["/a", "/home/ada/more", "/c"]));
}

#[test]
fn library_scans_configured_then_extra_dirs() {
    let cfg = Config {
        library_dirs: strings(&["/a", "/b"]),
    };
    assert_eq!(
        library(cfg, strings(&["~/x"]), HOME),
        strings(&["/a", "/b", "/home/ada/x"])
    );
}

#[test]
fn load_from_missing_file_uses_defaults() {
    let cfg = Config::load(None, None, HOME);
    assert_eq!(cfg.library_dirs, default_library_dirs(HOME));
}

#[test]
fn load_from_parses_library_dirs_and_expands_tilde() {
    let cfg = Config::load(Some(strings(&["~/custom/walls", "/opt/walls"])), None, HOME);
    assert_eq!(
        cfg.library_dirs,
        strings(&["/home/ada/custom/walls", "/opt/walls"])
    );
}

#[test]
fn empty_library_dirs_key_falls_back_to_defaults() {
    let cfg = Config::load(Some(Vec::new()), None, HOME);
    assert_eq!(cfg.library_dirs, default_library_dirs(HOME));
}

#[test]
fn env_overrides_config_file() {
    let cfg = Config::load(
        Some(strings(&["/from/file"])),
        Some("/tmp/a:/tmp/b".to_string()),
        HOME,
    );
    assert_eq!(cfg.library_dirs, strings(&["/tmp/a", "/tmp/b"]));
}

#[test]
fn empty_env_is_ignored() {
    let cfg = Config::load(Some(strings(&["/from/file"])), Some(String::new()), HOME);
    assert_eq!(cfg.library_dirs, strings(&["/from/file"]));
    let cfg = Config::load(Some(strings(&["/from/file"])), Some(":::".to_string()), HOME);
    assert_eq!(cfg.library_dirs, strings(&["/from/file"]));
}

#[test]
fn env_pieces_skip_empty_ones() {
    assert_eq!(
        env_library_dirs(Some("::/x::~/y:".to_string())),
        Some(strings(&["/x", "~/y"]))
    );
    assert_eq!(env_library_dirs(Some(String::new())), None);
    assert_eq!(env_library_dirs(None), None);
}

#[test]
fn env_dirs_are_expanded_and_empty_file_entries_dropped() {
    let cfg = Config::load(None, Some("~/y:/z".to_string()), HOME);
    assert_eq!(cfg.library_dirs, strings(&["/home/ada/y", "/z"]));
    let cfg = Config::load(Some(strings(&["", "/k"])), None, HOME);
    assert_eq!(cfg.library_dirs, strings(&["/k"]));
}
