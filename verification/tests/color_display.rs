#![allow(non_snake_case)]

use colored::Colorize;
use interactive_regex::color::collect_matches;
use interactive_regex::color::filter_matches;
use interactive_regex::color::split_on_matches;
use interactive_regex::color::ColorStyle;
use interactive_regex::color::Colorized;
use interactive_regex::capture::CaptureRange;
use interactive_regex::pattern::Pattern;

fn cs_normal(s: &str) -> ColorStyle {
    ColorStyle::Normal(s.to_string())
}

fn cs_highlight(s: &str) -> ColorStyle {
    ColorStyle::Highlight(s.to_string())
}

#[test]
fn display_colorstyle() {
    assert_eq!(
        "lala".red().to_string(),
        ColorStyle::Highlight("lala".to_string()).render()
    )
}

#[test]
fn color_display_colorstyle() {
    assert_eq!(
        "lala".red().to_string(),
        ColorStyle::Highlight("lala".to_string()).render()
    )
}

#[test]
fn format_vec_colorstyle() {
    let re = Pattern::compile(r".+(hello).+(world)").unwrap();
    let content = "lala hello bleble world";
    let rows = collect_matches(&vec![content.to_string()], &re);
    assert_eq!(1, rows.len());
    let actual = rows[0].highlight();
    assert_eq!(
        format!("lala {} bleble {}", "hello".red(), "world".red()),
        actual
    )
}

#[test]
fn color_format_vec_colorstyle() {
    let re = Pattern::compile(r".+(hello).+(world)").unwrap();
    let content = "lala hello bleble world";
    let rows = collect_matches(&vec![content.to_string()], &re);
    assert_eq!(1, rows.len());
    let actual = rows[0].highlight();
    assert_eq!(
        format!("lala {} bleble {}", "hello".red(), "world".red()),
        actual
    )
}

#[test]
fn test_pattern_matching_list() {
    let contents: Vec<String> = "\
hello world
hello blabla world
"
    .to_string()
    .split('\n')
    .map(|s| s.to_string())
    .collect();
    let re = Pattern::compile(r"(hello).+(world)").unwrap();
    let actual: Vec<String> = collect_matches(&contents, &re)
        .iter()
        .map(|v| v.highlight())
        .collect();
    assert_eq!(
        vec![
            format!("{} {}", "hello".red(), "world".red()),
            format!("{} blabla {}", "hello".red(), "world".red()),
        ],
        actual
    );
}

#[test]
fn color_test_pattern_matching_list() {
    let contents: Vec<String> = "\
hello world
hello blabla world
"
    .to_string()
    .split('\n')
    .map(|s| s.to_string())
    .collect();
    let re = Pattern::compile(r"(hello).+(world)").unwrap();
    let actual: Vec<String> = collect_matches(&contents, &re)
        .iter()
        .map(|v| v.highlight())
        .collect();
    assert_eq!(
        vec![
            format!("{} {}", "hello".red(), "world".red()),
            format!("{} blabla {}", "hello".red(), "world".red()),
        ],
        actual
    );
}

#[test]
fn capture_split_matches_return_wrappers() {
    let ranges = vec![CaptureRange { start: 5, end: 10 }, CaptureRange { start: 18, end: 23 }];
    let actual = split_on_matches("lala hello bleble world", &ranges);
    assert_eq!(
        vec![
            cs_normal("lala "),
            cs_highlight("hello"),
            cs_normal(" bleble "),
            cs_highlight("world"),
        ],
        actual
    );
}

#[test]
fn filter_keeps_only_matching_lines_in_order() {
    let re = Pattern::compile(r"^a").unwrap();
    let corpus = vec![
        "apple".to_string(),
        "banana".to_string(),
        "avocado".to_string(),
        "apple".to_string(),
    ];
    let actual = filter_matches(&corpus, &re);
    assert_eq!(
        vec!["apple".to_string(), "avocado".to_string(), "apple".to_string()],
        actual
    );
}

#[test]
fn highlight_wraps_text_when_colors_forced() {
    colored::control::set_override(true);
    let r = ColorStyle::Highlight("lala".to_string()).render();
    colored::control::unset_override();
    assert!(r.contains("lala"));
    assert_ne!("lala", r);
    assert!(r.contains("\u{1b}["));
}

#[test]
fn normal_segment_renders_as_itself() {
    assert_eq!("lala", ColorStyle::Normal("lala".to_string()).render());
}

#[test]
fn highlight_concatenates_segments_in_order() {
    colored::control::set_override(false);
    let items = vec![cs_normal("a"), cs_highlight("b"), cs_normal("c")];
    let actual = items.highlight();
    colored::control::unset_override();
    assert_eq!("abc", actual);
}
