use markdown_split::{find_split_points, slice_sections, split_outline, Element, SplitError};

fn heading(start: usize) -> Element {
    Element::Heading(Some(start))
}

#[test]
fn no_heading_gives_no_split_point() {
    let tree = Element::Root(vec![Element::Other, Element::Heading(None), Element::Other]);
    assert_eq!(find_split_points(&tree), Vec::<usize>::new());
}

#[test]
fn leading_zero_is_inserted() {
    let tree = Element::Root(vec![Element::Other, heading(6), Element::Other, heading(20)]);
    assert_eq!(find_split_points(&tree), vec![0, 6, 20]);
}

#[test]
fn heading_at_zero_adds_no_extra_point() {
    let tree = Element::Root(vec![heading(0), Element::Other, heading(9)]);
    assert_eq!(find_split_points(&tree), vec![0, 9]);
}

#[test]
fn headings_without_position_are_skipped() {
    let tree = Element::Root(vec![Element::Heading(None), heading(4), Element::Heading(None)]);
    assert_eq!(find_split_points(&tree), vec![0, 4]);
}

#[test]
fn nested_roots_are_walked_in_order() {
    let inner = Element::Root(vec![heading(3), Element::Other, heading(7)]);
    let tree = Element::Root(vec![heading(1), inner, heading(12)]);
    assert_eq!(find_split_points(&tree), vec![0, 1, 3, 7, 12]);
}

#[test]
fn lone_heading_node() {
    assert_eq!(find_split_points(&heading(0)), vec![0]);
    assert_eq!(find_split_points(&heading(5)), vec![0, 5]);
    assert_eq!(find_split_points(&Element::Other), Vec::<usize>::new());
}

#[test]
fn slicing_without_points_returns_whole_text() {
    let sections = slice_sections("abc", &vec![]).unwrap();
    assert_eq!(sections, vec!["abc"]);
}

#[test]
fn slicing_windows_over_points() {
    let sections = slice_sections("abcdef", &vec![0, 2, 5]).unwrap();
    assert_eq!(sections, vec!["ab", "cde", "f"]);
}

#[test]
fn slicing_allows_equal_points() {
    let sections = slice_sections("abcd", &vec![0, 2, 2]).unwrap();
    assert_eq!(sections, vec!["ab", "", "cd"]);
}

#[test]
fn slicing_rejects_points_out_of_order() {
    let result = slice_sections("abcdef", &vec![0, 4, 2]);
    assert!(matches!(result, Err(SplitError::MalformedPositions)));
}

#[test]
fn slicing_rejects_points_past_the_end() {
    let result = slice_sections("abc", &vec![0, 4]);
    assert!(matches!(result, Err(SplitError::MalformedPositions)));
    let result = slice_sections("abc", &vec![7]);
    assert!(matches!(result, Err(SplitError::MalformedPositions)));
}

#[test]
fn slicing_rejects_points_inside_a_character() {
    let result = slice_sections("aé", &vec![0, 2]);
    assert!(matches!(result, Err(SplitError::MalformedPositions)));
    let sections = slice_sections("aéb", &vec![0, 3]).unwrap();
    assert_eq!(sections, vec!["aé", "b"]);
}

#[test]
fn outline_split_of_scenario_tree() {
    let text = "# A\ntext1\n## B\ntext2\n";
    let tree = Element::Root(vec![heading(0), Element::Other, heading(10), Element::Other]);
    let sections = split_outline(text, &tree).unwrap();
    assert_eq!(sections, vec!["# A\ntext1\n", "## B\ntext2\n"]);
}

#[test]
fn outline_split_with_front_matter() {
    let text = "intro\n# A\nbody\n";
    let tree = Element::Root(vec![Element::Other, heading(6), Element::Other]);
    let sections = split_outline(text, &tree).unwrap();
    assert_eq!(sections, vec!["intro\n", "# A\nbody\n"]);
}

#[test]
fn outline_split_counts_sections() {
    let text = "0123456789";
    let leading = Element::Root(vec![heading(0), heading(3), heading(7)]);
    assert_eq!(split_outline(text, &leading).unwrap().len(), 3);
    let front = Element::Root(vec![heading(3), heading(7)]);
    assert_eq!(split_outline(text, &front).unwrap(), vec!["012", "3456", "789"]);
    let none = Element::Root(vec![Element::Other]);
    assert_eq!(split_outline(text, &none).unwrap(), vec![text]);
}

#[test]
fn outline_split_rejects_offsets_past_the_end() {
    let tree = Element::Root(vec![heading(0), heading(50)]);
    let result = split_outline("short", &tree);
    assert!(matches!(result, Err(SplitError::MalformedPositions)));
}
