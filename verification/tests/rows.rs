use interactive_regex::capture::into_matchsets;
use interactive_regex::capture::MatchSet;
use interactive_regex::capture::MatchType;
use interactive_regex::pattern::Pattern;

fn normal(s: &str) -> MatchType {
    MatchType::Normal(s.to_string())
}

fn group(s: &str) -> MatchType {
    MatchType::Group(s.to_string())
}

#[test]
fn return_comma_separated_row() {
    let mut match_set = MatchSet::default();
    match_set.items = vec![normal("drop"), group("remain"), group("remain also")];
    assert_eq!("remain,remain also", &match_set.to_csv_row())
}

#[test]
fn return_tab_separated_row() {
    let mut match_set = MatchSet::default();
    match_set.items = vec![normal("drop"), group("remain"), group("remain also")];
    assert_eq!("remain\tremain also", &match_set.to_tsv_row())
}

#[test]
fn to_strings_keeps_group_texts_only() {
    let mut match_set = MatchSet::default();
    match_set.items = vec![normal("a"), group("b"), normal("c"), group("d")];
    assert_eq!(vec!["b".to_string(), "d".to_string()], match_set.to_strings());
}

#[test]
fn empty_row_for_no_groups() {
    let mut match_set = MatchSet::default();
    match_set.items = vec![normal("only literal")];
    assert_eq!("", &match_set.to_csv_row());
}

#[test]
fn two_group_row_through_the_pipeline() {
    let re = Pattern::compile(r".+(hello).+(world)").unwrap();
    let sets = into_matchsets(&vec!["lala hello bleble world".to_string()], &re);
    assert_eq!(1, sets.len());
    assert_eq!("hello,world", &sets[0].to_csv_row());
    assert_eq!("hello\tworld", &sets[0].to_tsv_row());
}
