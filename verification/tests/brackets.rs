use spl::brackets::is_balanced;

#[test]
fn test_is_balanced() {
    assert!(is_balanced("(hello) (world)"));
    assert!(is_balanced("(<{()}>)[]"));

    assert!(!is_balanced("static public void main(String args[]) {"));
    assert!(!is_balanced("(<{()>)[}]"));
}

#[test]
fn empty_and_bracket_free_texts_are_balanced() {
    assert!(is_balanced(""));
    assert!(is_balanced("no brackets at all"));
}

#[test]
fn a_closing_bracket_without_an_opening_one_is_unbalanced() {
    assert!(!is_balanced(")"));
    assert!(!is_balanced("()]"));
    assert!(!is_balanced(")("));
}

#[test]
fn an_opening_bracket_left_open_is_unbalanced() {
    assert!(!is_balanced("("));
    assert!(!is_balanced("[{}"));
}

#[test]
fn each_kind_of_bracket_closes_only_its_own() {
    assert!(is_balanced("()"));
    assert!(is_balanced("[]"));
    assert!(is_balanced("{}"));
    assert!(is_balanced("<>"));
    assert!(!is_balanced("(]"));
    assert!(!is_balanced("[}"));
    assert!(!is_balanced("{>"));
    assert!(!is_balanced("<)"));
}
