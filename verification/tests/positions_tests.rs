use rrgen::pattern::Pattern;
use rrgen::positions::{find_positions, MatchPositions};

fn lines(items: &[&str]) -> Vec<String> {
    items.iter().map(|s| s.to_string()).collect()
}

#[test]
fn all_finds_every_matching_line_in_ascending_order() {
    let pattern = Pattern::new("Hello").unwrap();
    let text = lines(&["Hello1", "x", "Hello2", "Hello3"]);
    assert_eq!(find_positions(&text, &pattern, &MatchPositions::All), vec![0, 2, 3]);
}

#[test]
fn first_finds_the_smallest_matching_index() {
    let pattern = Pattern::new("Hello").unwrap();
    let text = lines(&["x", "Hello1", "Hello2"]);
    assert_eq!(find_positions(&text, &pattern, &MatchPositions::First), vec![1]);
}

#[test]
fn last_finds_the_largest_matching_index() {
    let pattern = Pattern::new("Hello").unwrap();
    let text = lines(&["Hello1", "Hello2", "x"]);
    assert_eq!(find_positions(&text, &pattern, &MatchPositions::Last), vec![1]);
}

#[test]
fn no_match_gives_no_position() {
    let pattern = Pattern::new("Absent").unwrap();
    let text = lines(&["Hello1", "Hello2"]);
    assert!(find_positions(&text, &pattern, &MatchPositions::All).is_empty());
    assert!(find_positions(&text, &pattern, &MatchPositions::First).is_empty());
    assert!(find_positions(&text, &pattern, &MatchPositions::Last).is_empty());
}

#[test]
fn no_lines_give_no_position() {
    let pattern = Pattern::new("").unwrap();
    assert!(find_positions(&lines(&[]), &pattern, &MatchPositions::All).is_empty());
}

#[test]
fn pattern_is_matched_as_a_regular_expression() {
    let pattern = Pattern::new(r"^b\d+$").unwrap();
    let text = lines(&["ab1", "b12", "b", "b7"]);
    assert_eq!(find_positions(&text, &pattern, &MatchPositions::All), vec![1, 3]);
}
