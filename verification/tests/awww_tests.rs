use breadpaper::{parse_awww_query, parse_awww_query_line};

#[test]
fn parse_awww_query_names() {
    let sample = "\
: eDP-1: 1920x1080, scale: 1, currently displaying: image: /a.png
: HDMI-A-1: 2560x1440, scale: 1, currently displaying: image: /b.png
";
    assert_eq!(
        parse_awww_query(sample),
        vec!["eDP-1".to_string(), "HDMI-A-1".to_string()]
    );
}

#[test]
fn parse_awww_query_skips_blank() {
    assert!(parse_awww_query("\n  \n").is_empty());
}

#[test]
fn parse_awww_query_line_forms() {
    assert_eq!(parse_awww_query_line("  : DP-2: 800x600"), Some("DP-2".to_string()));
    assert_eq!(parse_awww_query_line("DP-3: 800x600"), Some("DP-3".to_string()));
    assert_eq!(parse_awww_query_line("  eDP-1  "), Some("eDP-1".to_string()));
    assert_eq!(parse_awww_query_line(": : x"), None);
    assert_eq!(parse_awww_query_line(":"), None);
    assert_eq!(parse_awww_query_line(""), None);
}

#[test]
fn parse_awww_query_crlf_and_no_trailing_newline() {
    assert_eq!(
        parse_awww_query(": A: 1\r\n\r\n: B: 2"),
        vec!["A".to_string(), "B".to_string()]
    );
}
