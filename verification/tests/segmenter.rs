#![allow(non_snake_case)]

use interactive_regex::capture::into_matchset;
use interactive_regex::capture::into_matchsets;
use interactive_regex::capture::CaptureRange;
use interactive_regex::capture::MatchSet;
use interactive_regex::capture::MatchType;
use interactive_regex::pattern::Pattern;

fn normal(s: &str) -> MatchType {
    MatchType::Normal(s.to_string())
}

fn group(s: &str) -> MatchType {
    MatchType::Group(s.to_string())
}

fn segment_one(pattern: &str, content: &str) -> MatchSet {
    let re = Pattern::compile(pattern).unwrap();
    let mut sets = into_matchsets(&vec![content.to_string()], &re);
    assert_eq!(1, sets.len());
    sets.remove(0)
}

#[test]
fn into_match_set_basetest() {
    let actual = segment_one(r".+(hello).+(world)", "lala hello bleble world");
    assert_eq!(
        vec![normal("lala "), group("hello"), normal(" bleble "), group("world")],
        actual.items
    );
    assert_eq!("lala hello bleble world", &actual.full_text);
}

#[test]
fn givenNoCaptureGroups_thenFullTextAsSingleElement() {
    let actual = segment_one(r".*", "lala hello ");
    assert_eq!(vec![normal("lala hello ")], actual.items);
}

#[test]
fn givenEmptyPattern_thenReturnFullTextAsSingleElement() {
    let actual = segment_one(r"", "lala ");
    assert_eq!(vec![normal("lala ")], actual.items);
}

#[test]
fn givenPartialMatch_thenReturnRemainingSubstringsAsNormal() {
    let actual = segment_one(r".*(lala)", "1337 lala hey ho!");
    assert_eq!(vec![normal("1337 "), group("lala"), normal(" hey ho!")], actual.items);
}

#[test]
fn givenNonCapturingGroup_thenReturnNormal() {
    let actual = segment_one(r"(?:lala )(bleble)", "lala bleble");
    assert_eq!(vec![normal("lala "), group("bleble")], actual.items);
}

#[test]
fn given0or1MatchReturnsNone_thenDoNotReturnIt() {
    let actual = segment_one(r"(lala)?(bleble)", "bleble");
    assert_eq!(vec![group("bleble")], actual.items);
}

#[test]
fn segments_on_explicit_ranges() {
    let ranges = vec![CaptureRange { start: 5, end: 10 }, CaptureRange { start: 18, end: 23 }];
    let actual = into_matchset("lala hello bleble world", &ranges);
    assert_eq!(
        vec![normal("lala "), group("hello"), normal(" bleble "), group("world")],
        actual.items
    );
}

#[test]
fn adjacent_ranges_emit_no_empty_literal() {
    let ranges = vec![CaptureRange { start: 0, end: 2 }, CaptureRange { start: 2, end: 4 }];
    let actual = into_matchset("abcd", &ranges);
    assert_eq!(vec![group("ab"), group("cd")], actual.items);
}

#[test]
fn round_trip_rebuilds_the_line() {
    let line = "one two three four";
    let ranges = vec![CaptureRange { start: 4, end: 7 }, CaptureRange { start: 14, end: 18 }];
    let actual = into_matchset(line, &ranges);
    let rebuilt: String = actual
        .items
        .iter()
        .map(|m| match m {
            MatchType::Normal(s) => s.clone(),
            MatchType::Group(s) => s.clone(),
        })
        .collect::<Vec<String>>()
        .concat();
    assert_eq!(line, &rebuilt);
}

#[test]
fn repeated_calls_agree() {
    let line = "lala hello bleble world";
    let ranges = vec![CaptureRange { start: 5, end: 10 }, CaptureRange { start: 18, end: 23 }];
    let first = into_matchset(line, &ranges);
    let second = into_matchset(line, &ranges);
    assert_eq!(first, second);
}

#[test]
fn multibyte_line_segments_on_codepoints() {
    let actual = segment_one(r"(\u{f6})", "h\u{e9}llo w\u{f6}rld");
    assert_eq!(
        vec![normal("h\u{e9}llo w"), group("\u{f6}"), normal("rld")],
        actual.items
    );
}

#[test]
fn non_matching_lines_are_excluded() {
    let re = Pattern::compile(r"hello").unwrap();
    let corpus = vec![
        "hello world".to_string(),
        "goodbye".to_string(),
        "oh hello again".to_string(),
    ];
    let sets = into_matchsets(&corpus, &re);
    assert_eq!(2, sets.len());
    assert_eq!("hello world", &sets[0].full_text);
    assert_eq!("oh hello again", &sets[1].full_text);
}
