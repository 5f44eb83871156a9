use speedreader::config::{apply_config_line, color_from_lowercase, parse_color, parse_config, ColorName, Config};

#[test]
fn colors_are_named_in_any_case() {
    assert_eq!(parse_color("red"), ColorName::Red);
    assert_eq!(parse_color("Magenta"), ColorName::Magenta);
    assert_eq!(parse_color("CYAN"), ColorName::Cyan);
    assert_eq!(parse_color("gray"), ColorName::Gray);
    assert_eq!(parse_color("grey"), ColorName::White);
    assert_eq!(parse_color("purple"), ColorName::White);
    assert_eq!(color_from_lowercase("Yellow"), ColorName::White);
    assert_eq!(color_from_lowercase("yellow"), ColorName::Yellow);
}

#[test]
fn defaults_are_red_on_white() {
    let c = parse_config("");
    assert_eq!(c.h_color, ColorName::Red);
    assert_eq!(c.t_color, ColorName::White);
    assert!(c.wpm_values.is_empty());
    assert!(c.slow_wpm_values.is_empty());
    assert!(c.fast_wpm_values.is_empty());
}

#[test]
fn settings_are_read_line_by_line() {
    let c = parse_config("wpm = 450\nhighlight_color = cyan\ntext_color = white\n");
    assert_eq!(c.wpm_values, vec!["450".to_string()]);
    assert_eq!(c.h_color, ColorName::Cyan);
    assert_eq!(c.t_color, ColorName::White);
}

#[test]
fn later_settings_override_earlier_ones() {
    let c = parse_config("highlight_color=blue\nwpm=300\nhighlight_color = Green\nwpm = fast\nslow_wpm=200\nfast_wpm= 600 ");
    assert_eq!(c.h_color, ColorName::Green);
    assert_eq!(c.wpm_values, vec!["300".to_string(), "fast".to_string()]);
    assert_eq!(c.slow_wpm_values, vec!["200".to_string()]);
    assert_eq!(c.fast_wpm_values, vec!["600".to_string()]);
}

#[test]
fn malformed_and_unknown_lines_are_ignored() {
    let c = parse_config("# comment\nwpm\nwpm = 1 = 2\ncolour = red\n  text_color  =  yellow  \r\n\n");
    assert!(c.wpm_values.is_empty());
    assert_eq!(c.t_color, ColorName::Yellow);
    assert_eq!(c.h_color, ColorName::Red);
}

#[test]
fn windows_line_endings_are_accepted() {
    let c = parse_config("text_color = blue\r\nwpm = 500\r\n");
    assert_eq!(c.t_color, ColorName::Blue);
    assert_eq!(c.wpm_values, vec!["500".to_string()]);
}

#[test]
fn one_line_changes_one_setting() {
    let mut c = Config::defaults();
    apply_config_line(&mut c, "text_color = MAGENTA");
    assert_eq!(c.t_color, ColorName::Magenta);
    apply_config_line(&mut c, "=");
    assert_eq!(c.t_color, ColorName::Magenta);
    assert!(c.wpm_values.is_empty());
}
