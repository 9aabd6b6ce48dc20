use besinveri::like::{like, pattern_for};
use besinveri::strings::chars_of;

fn matches(pattern: &str, text: &str) -> bool {
    like(&chars_of(pattern), &chars_of(text))
}

fn holds(text: &str, query: &str) -> bool {
    like(&pattern_for(&chars_of(query)), &chars_of(text))
}

#[test]
fn patterns_without_wildcards_match_themselves() {
    assert!(matches("", ""));
    assert!(!matches("", "a"));
    assert!(!matches("a", ""));
    assert!(matches("elma", "elma"));
    assert!(matches("elma", "ELMA"));
    assert!(matches("ELMA", "elma"));
    assert!(!matches("elma", "elmas"));
    assert!(!matches("elmas", "elma"));
    assert!(!matches("çay", "ÇAY"));
    assert!(matches("çay", "çAY"));
}

#[test]
fn percent_matches_any_run() {
    assert!(matches("%", ""));
    assert!(matches("%", "anything"));
    assert!(matches("%%", ""));
    assert!(matches("a%", "a"));
    assert!(matches("a%", "abc"));
    assert!(!matches("a%", "ba"));
    assert!(matches("%a", "bbba"));
    assert!(!matches("%a", "ab"));
    assert!(matches("a%c", "ac"));
    assert!(matches("a%c", "abbbc"));
    assert!(matches("a%c", "acbc"));
    assert!(!matches("a%c", "acb"));
    assert!(matches("%a%b%", "xxaxxbxx"));
    assert!(!matches("%a%b%", "xxbxxaxx"));
    assert!(matches("%a%a%a%", "aaa"));
    assert!(!matches("%a%a%a%", "aa"));
}

#[test]
fn underscore_matches_one_character() {
    assert!(matches("_", "a"));
    assert!(matches("_", "ç"));
    assert!(!matches("_", ""));
    assert!(!matches("_", "ab"));
    assert!(matches("a_c", "abc"));
    assert!(matches("a_c", "a_c"));
    assert!(!matches("a_c", "ac"));
    assert!(!matches("a_c", "abbc"));
    assert!(matches("_%", "a"));
    assert!(!matches("_%", ""));
    assert!(matches("%_", "abc"));
}

#[test]
fn a_query_is_looked_for_anywhere() {
    assert_eq!(pattern_for(&chars_of("ka")), vec!['%', 'k', 'a', '%']);
    assert_eq!(pattern_for(&chars_of("")), vec!['%', '%']);
    assert!(holds("Fuji Elma", "elma"));
    assert!(holds("Fuji Elma", "FUJI"));
    assert!(holds("Fuji Elma", "i e"));
    assert!(holds("Fuji Elma", ""));
    assert!(holds("", ""));
    assert!(!holds("Fuji Elma", "elmas"));
    assert!(!holds("", "a"));
    assert!(holds("Fuji Elma", "f%a"));
    assert!(holds("Fuji Elma", "u_i"));
    assert!(!holds("Fuji Elma", "u__i"));
    assert!(holds("%50 indirim", "%50"));
}

#[test]
fn long_patterns_are_matched_quickly() {
    let pattern = "%a".repeat(200) + "%b";
    let text = "a".repeat(2000);
    assert!(!matches(&pattern, &text));
    let text = "a".repeat(2000) + "b";
    assert!(matches(&pattern, &text));
}
