use interactive_regex::input::Editable;
use interactive_regex::input::Input;
use interactive_regex::input::InputMode;

fn make(text: &str, idx: usize) -> Input {
    Input { text: text.to_string(), mode: InputMode::Normal, idx }
}

#[test]
fn when_on_0_then_remain() {
    let mut input = make("", 0);
    input.left();
    assert_eq!(0, input.idx);
}

#[test]
fn decrement_idx_by_1() {
    let mut input = make("hello", 3);
    input.left();
    assert_eq!(2, input.idx);
}

#[test]
fn when_idx_equals_textlength_then_remain() {
    let mut input = make("hello", 5);
    input.right();
    assert_eq!(5, input.idx);
}

#[test]
fn increment_idx_by_1() {
    let mut input = make("hello", 3);
    input.right();
    assert_eq!(4, input.idx);
}

#[test]
fn jump_to_idx_0() {
    let mut input = make("hello", 3);
    input.home();
    assert_eq!(0, input.idx);
}

#[test]
fn jump_to_end_of_input() {
    let mut input = make("hello", 3);
    input.end();
    assert_eq!(5, input.idx);
}

#[test]
fn given_no_white_space_then_jump_to_end_of_input() {
    let mut input = make("hello", 1);
    input.next_boundary();
    assert_eq!(5, input.idx);
}

#[test]
fn given_multiple_words_then_jump_to_end_of_current_word() {
    let mut input = make("hello world", 1);
    input.next_boundary();
    assert_eq!(5, input.idx);
}

#[test]
fn given_already_at_end_then_remain() {
    let mut input = make("hello world", 11);
    input.next_boundary();
    assert_eq!(11, input.idx);
}

#[test]
fn given_current_idx_is_boundary_then_choose_next_boundary_match() {
    let mut input = make("hello world", 5);
    input.next_boundary();
    assert_eq!(11, input.idx);
}

#[test]
fn given_no_white_space_then_jump_to_start_of_input() {
    let mut input = make("hello", 3);
    input.previous_boundary();
    assert_eq!(0, input.idx);
}

#[test]
fn given_multiple_words_then_jump_to_start_of_current_word() {
    let mut input = make("hello world", 8);
    input.previous_boundary();
    assert_eq!(5, input.idx);
}

#[test]
fn given_already_at_start_then_remain() {
    let mut input = make("hello world", 0);
    input.previous_boundary();
    assert_eq!(0, input.idx);
}

#[test]
fn given_current_idx_is_boundary_then_choose_previous_boundary_match() {
    let mut input = make("hello world", 5);
    input.previous_boundary();
    assert_eq!(0, input.idx);
}

#[test]
fn never_go_negative() {
    let mut input = make("hello world", 5);
    input.previous_boundary();
    assert_eq!(0, input.idx);
}

#[test]
fn when_add_char_then_increment_idx_by_1() {
    let mut input = make("bolloc", 6);
    input.add('k');
    assert_eq!(7, input.idx);
    assert_eq!("bollock", &input.text);
}

#[test]
fn char_is_inserted_at_index() {
    let mut input = make("ollock", 0);
    input.add('b');
    assert_eq!(1, input.idx);
    assert_eq!("bollock", &input.text);
}

#[test]
fn delete_nothing_on_idx_0() {
    let mut input = Input { text: "bla".to_string(), mode: InputMode::Normal, idx: 0 };
    input.delete();
    assert_eq!("bla", &input.text);
}

#[test]
fn delete_char_and_decrement_idx() {
    let mut input = Input { text: "bla".to_string(), mode: InputMode::Normal, idx: 2 };
    input.delete();
    assert_eq!(1, *input.idx());
    assert_eq!("ba", &input.text);
}

#[test]
fn input_delete_nothing_on_idx_0() {
    let mut input = Input { text: "bla".to_string(), mode: InputMode::Normal, idx: 0 };
    input.delete();
    assert_eq!("bla", &input.text);
}

#[test]
fn input_delete_char_and_decrement_idx() {
    let mut input = Input { text: "bla".to_string(), mode: InputMode::Normal, idx: 2 };
    input.delete();
    assert_eq!(1, *input.idx());
    assert_eq!("ba", &input.text);
}

#[test]
fn add_multibyte_char_keeps_codepoint_cursor() {
    let mut input = make("ab", 1);
    input.add('\u{e9}');
    assert_eq!("a\u{e9}b", &input.text);
    assert_eq!(2, input.idx);
    input.delete();
    assert_eq!("ab", &input.text);
    assert_eq!(1, input.idx);
}

#[test]
fn forward_boundary_stops_at_a_tab() {
    let mut input = make("a\tb c", 0);
    input.next_boundary();
    assert_eq!(1, input.idx);
}

#[test]
fn backward_boundary_stops_at_a_tab() {
    let mut input = make("a\tbcd", 4);
    input.previous_boundary();
    assert_eq!(1, input.idx);
}
