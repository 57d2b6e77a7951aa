use parasite::caption::parse_captions;
use parasite::model::MatchResult;
use parasite::query::{contains_all, filter_results, lower_words, matches_query, matches_words};

fn chars(s: &str) -> Vec<char> {
    s.chars().collect()
}

fn texts(found: &Vec<MatchResult>) -> Vec<String> {
    found.iter().map(|m| m.segment.text.clone()).collect()
}

fn sample() -> Vec<MatchResult> {
    parse_captions(
        "a.vtt",
        "WEBVTT\n\n00:00:01.000 --> 00:00:02.000\nHELLO, how LOUD\n\n00:00:02.000 --> 00:00:03.000\nhello quiet\n\n00:00:03.000 --> 00:00:04.000\nThe Category\n\n00:00:04.000 --> 00:00:05.000\nloud hello again\n",
    )
}

#[test]
fn every_word_of_the_query_must_be_found() {
    assert!(matches_query("HELLO, how LOUD", "hello loud"));
    assert!(!matches_query("hello quiet", "hello loud"));
}

#[test]
fn case_is_ignored_on_both_sides() {
    assert!(matches_query("hello", "HELLO"));
    assert!(matches_query("HELLO", "hello"));
    assert!(matches_query("\u{c9}COLE", "\u{e9}cole"));
    assert!(!matches_query("hello", "help"));
}

#[test]
fn words_are_found_inside_words() {
    assert!(matches_query("category", "cat"));
    assert!(matches_query("The Category", "cat gory"));
    assert!(!matches_query("cat", "category"));
}

#[test]
fn a_query_without_words_is_satisfied_by_every_text() {
    assert!(matches_query("anything", ""));
    assert!(matches_query("", ""));
    assert!(matches_query("anything", " \t "));
    assert!(!matches_query("", "x"));
}

#[test]
fn the_words_of_a_query_are_split_at_white_space_and_lowered() {
    assert_eq!(lower_words("  Hello\tLOUD\u{a0}World "), vec![chars("hello"), chars("loud"), chars("world")]);
    assert!(lower_words("").is_empty());
}

#[test]
fn given_words_are_taken_as_they_are() {
    assert!(matches_words("HELLO", &vec![chars("hello")]));
    assert!(!matches_words("HELLO", &vec![chars("HELLO")]));
    assert!(contains_all(&chars("hello"), &vec![chars("ell"), chars("lo")]));
    assert!(!contains_all(&chars("hello"), &vec![chars("ell"), chars("low")]));
    assert!(contains_all(&chars("hello"), &Vec::new()));
}

#[test]
fn the_filter_keeps_matching_segments_in_order() {
    let all = sample();
    assert_eq!(texts(&filter_results(&all, "hello loud")), vec!["HELLO, how LOUD", "loud hello again"]);
    assert_eq!(texts(&filter_results(&all, "cat")), vec!["The Category"]);
    assert!(filter_results(&all, "absent").is_empty());
}

#[test]
fn the_empty_query_keeps_everything() {
    let all = sample();
    assert_eq!(filter_results(&all, ""), all);
    assert_eq!(filter_results(&all, "   "), all);
}

#[test]
fn the_filter_keeps_the_context_of_a_segment() {
    let all = sample();
    let found = filter_results(&all, "quiet");
    assert_eq!(found.len(), 1);
    assert_eq!(found[0], all[1]);
    assert_eq!(found[0].context_before.len(), 1);
    assert_eq!(found[0].context_after.len(), 2);
}

#[test]
fn filtering_twice_gives_the_same_list() {
    let all = sample();
    let once = filter_results(&all, "hello");
    let again = filter_results(&all, "hello");
    assert_eq!(once, again);
    assert_eq!(filter_results(&once, "hello"), once);
}
