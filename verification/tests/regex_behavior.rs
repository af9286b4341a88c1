use interactive_regex::capture::into_matchsets;
use interactive_regex::pattern::Pattern;
use regex::Regex;

#[test]
fn match_objects_location_end_is_exclusive_() {
    let re = Regex::new(r"(\w+)+").unwrap();
    let captures = re.captures("hello world").unwrap();

    let actual = captures.get(1).unwrap();
    assert_eq!(0, actual.start());
    assert_eq!(5, actual.end());
}

#[test]
fn expand_adds_replacement_to_end_of_dst() {
    let re = Regex::new(r"(\w+) (\w+)").unwrap();
    let captures = re.captures("hello world").unwrap();
    let mut dst = "what is this".to_string();
    captures.expand(" hihi $1 hoho $2", &mut dst);
    assert_eq!("what is this hihi hello hoho world", dst)
}

#[test]
fn first_match_wins_when_a_line_matches_twice() {
    let re = Pattern::compile(r"(ab)").unwrap();
    let corpus = vec!["ab then ab again".to_string()];
    let sets = into_matchsets(&corpus, &re);
    assert_eq!(1, sets.len());
    let texts: Vec<String> = sets[0]
        .items
        .iter()
        .map(|m| match m {
            interactive_regex::capture::MatchType::Normal(s) => format!("N:{}", s),
            interactive_regex::capture::MatchType::Group(s) => format!("G:{}", s),
        })
        .collect();
    assert_eq!(vec!["G:ab".to_string(), "N: then ab again".to_string()], texts);
}
