use oxidoc::choice_stack::{next_index, prev_index, ChoiceStack};
use oxidoc::matcher::Matcher;
use oxidoc::score::{compute_match_length, match_range, to_ascii_lowercase};

fn lines(v: &[&str]) -> Vec<String> {
    v.iter().map(|s| s.to_string()).collect()
}

fn chars(s: &str) -> Vec<char> {
    s.chars().collect()
}

#[test]
fn matcher_starts_with_every_line() {
    let l = lines(&["crate::a", "crate::b"]);
    let m = Matcher::new(&l);
    assert_eq!(m.matches, vec![&l[0], &l[1]]);
    assert_eq!(m.input, "");
}

#[test]
fn matcher_keeps_lines_holding_the_typed_characters_in_order() {
    let l = lines(&["crate::vec::Vec", "crate::string", "crate::vec_deque", "other"]);
    let mut m = Matcher::new(&l);
    m.input("vc".to_string());
    let found: Vec<&str> = m.matches.iter().map(|s| s.as_str()).collect();
    assert_eq!(found, vec!["crate::vec::Vec", "crate::vec_deque"]);
    assert_eq!(m.input, "vc");
    m.input("".to_string());
    assert_eq!(m.matches.len(), 4);
}

#[test]
fn matcher_treats_meta_characters_literally() {
    let l = lines(&["a.b", "axb", "a+b", "(x)"]);
    let mut m = Matcher::new(&l);
    m.input(".".to_string());
    let found: Vec<&str> = m.matches.iter().map(|s| s.as_str()).collect();
    assert_eq!(found, vec!["a.b"]);
    assert!(m.try_input("(".to_string()));
    let found: Vec<&str> = m.matches.iter().map(|s| s.as_str()).collect();
    assert_eq!(found, vec!["(x)"]);
    assert_eq!(m.input, "(");
}

#[test]
fn match_length_finds_the_shortest_stretch() {
    // "ab" occurs from position 0 (length 5) and from position 3 (length 2)
    assert_eq!(compute_match_length(&chars("axxab"), &chars("ab")), Some((3, 2)));
    assert_eq!(compute_match_length(&chars("abc"), &chars("abc")), Some((0, 3)));
    assert_eq!(compute_match_length(&chars("abc"), &chars("d")), None);
    assert_eq!(compute_match_length(&chars("abc"), &chars("")), None);
    assert_eq!(compute_match_length(&chars(""), &chars("a")), None);
    assert_eq!(compute_match_length(&chars("cba"), &chars("ab")), None);
}

#[test]
fn match_start_is_the_last_beginning_that_matched() {
    // both beginnings match; the shorter match starts at 0, yet the last one (4) is kept
    assert_eq!(compute_match_length(&chars("ab..a...b"), &chars("ab")), Some((4, 2)));
}

#[test]
fn match_range_lower_cases_the_choice() {
    assert_eq!(match_range("Crate::Vec", "vec"), Some((7, 3)));
    assert_eq!(match_range("anything", ""), Some((0, 0)));
    assert_eq!(match_range("ABC", "ABC"), None);
    assert_eq!(to_ascii_lowercase("AbC-É"), "abc-É");
}

#[test]
fn choice_stack_narrows_and_widens() {
    let l = lines(&["a", "b", "c"]);
    let mut stack = ChoiceStack::new(&l);
    assert_eq!(stack.last_size(), 3);
    stack.push(vec![&l[1]]);
    assert_eq!(stack.last_size(), 1);
    assert_eq!(stack.peek()[0], "b");
    stack.pop();
    assert_eq!(stack.last_size(), 3);
    // the bottom frame stays
    stack.pop();
    assert_eq!(stack.last_size(), 3);
}

#[test]
fn selection_moves_wrap_around() {
    assert_eq!(next_index(0, 3), 1);
    assert_eq!(next_index(2, 3), 0);
    assert_eq!(prev_index(0, 3), 2);
    assert_eq!(prev_index(2, 3), 1);
    assert_eq!(prev_index(0, 0), 0);
    for c in 0..5 {
        assert_eq!(prev_index(next_index(c, 5), 5), c);
    }
}
