use glancelog::Filter;

#[test]
fn a_filter_without_rules_changes_nothing() {
    let f = Filter::new();
    assert_eq!(f.len(), 0);
    assert_eq!(f.scrub("port 8080 open"), "port 8080 open");
    assert!(!f.bleach("port 8080 open"));
    assert!(f.bleach("#"));
    assert_eq!(Filter::default().len(), 0);
}

#[test]
fn every_match_is_replaced_by_the_marker() {
    let (f, refused) = Filter::load_from_string("[0-9]+");
    assert!(refused.is_empty());
    assert_eq!(f.len(), 1);
    assert_eq!(f.scrub("port 8080 open, pid 17"), "port # open, pid #");
    assert_eq!(f.scrub("no digits"), "no digits");
    assert!(f.bleach("12345"));
    assert!(!f.bleach("12345 "));
}

#[test]
fn rules_apply_in_order_each_to_what_the_one_before_left() {
    let (f, _) = Filter::load_from_string("[0-9]+\nweb#");
    assert_eq!(f.scrub("web12 up"), "# up");
    let (g, _) = Filter::load_from_string("web#\n[0-9]+");
    assert_eq!(g.scrub("web12 up"), "web# up");
}

#[test]
fn blank_lines_are_passed_over_and_bad_rules_handed_back() {
    let (f, refused) = Filter::load_from_string("  [a-z]+@[a-z.]+  \r\n\n   \n(\n\t[0-9]{2}:[0-9]{2}\n*x\n");
    assert_eq!(f.len(), 2);
    assert_eq!(refused, vec!["(", "*x"]);
    assert_eq!(f.scrub("mail from bob@example.org at 10:45"), "mail from # at #");
    let (empty, none) = Filter::load_from_string("");
    assert_eq!(empty.len(), 0);
    assert!(none.is_empty());
}

#[test]
fn a_rule_that_matches_the_empty_text_still_replaces() {
    let (f, _) = Filter::load_from_string("^");
    assert_eq!(f.scrub("#"), "##");
    assert_eq!(f.scrub(""), "#");
    assert!(f.bleach(""));
}
