use parasite::caption::parse_captions;
use parasite::context::{flatten_results, is_also_match, is_same_segment};
use parasite::model::{ContextEntry, DisplayLine, MatchResult, Segment};
use parasite::query::filter_results;

fn entry(text: &str, start: u64, end: u64) -> ContextEntry {
    ContextEntry { text: text.to_string(), start, end }
}

fn found(text: &str, start: u64, end: u64, before: Vec<ContextEntry>, after: Vec<ContextEntry>) -> MatchResult {
    MatchResult {
        segment: Segment { file: "f.vtt".to_string(), text: text.to_string(), start, end },
        context_before: before,
        context_after: after,
    }
}

fn shown(lines: &Vec<DisplayLine>) -> Vec<(String, u64, u64, bool)> {
    lines.iter().map(|l| (l.text.clone(), l.start, l.end, l.is_match)).collect()
}

fn row(text: &str, start: u64, end: u64, is_match: bool) -> (String, u64, u64, bool) {
    (text.to_string(), start, end, is_match)
}

const THREE_BLOCKS: &str = "WEBVTT\n\n00:00:01.000 --> 00:00:02.000\nhello world\n\n00:00:02.000 --> 00:00:03.000\nfoo bar\n\n00:00:03.000 --> 00:00:04.000\nbaz hello\n";

#[test]
fn end_to_end_three_blocks_at_depth_one() {
    let all = parse_captions("talk.vtt", THREE_BLOCKS);
    let matches = filter_results(&all, "hello");
    let flat = flatten_results(&matches, 1);
    assert_eq!(
        shown(&flat),
        vec![
            row("hello world", 1000, 2000, true),
            row("\u{2193} foo bar", 2000, 3000, false),
            row("\u{2191} foo bar", 2000, 3000, false),
            row("baz hello", 3000, 4000, true),
        ]
    );
    for line in &flat {
        assert_eq!(line.file, "talk.vtt");
        assert_eq!(line.original_start, line.start);
        assert_eq!(line.original_end, line.end);
    }
}

#[test]
fn depth_zero_shows_the_matches_only() {
    let all = parse_captions("talk.vtt", THREE_BLOCKS);
    let matches = filter_results(&all, "hello");
    assert_eq!(
        shown(&flatten_results(&matches, 0)),
        vec![row("hello world", 1000, 2000, true), row("baz hello", 3000, 4000, true)]
    );
    assert!(flatten_results(&Vec::new(), 3).is_empty());
}

#[test]
fn context_that_is_a_match_is_left_out() {
    let all = parse_captions("talk.vtt", THREE_BLOCKS);
    let matches = filter_results(&all, "hello");
    assert_eq!(
        shown(&flatten_results(&matches, 2)),
        vec![
            row("hello world", 1000, 2000, true),
            row("\u{2193} foo bar", 2000, 3000, false),
            row("\u{2191} foo bar", 2000, 3000, false),
            row("baz hello", 3000, 4000, true),
        ]
    );
    let everything = flatten_results(&all, 5);
    assert_eq!(
        shown(&everything),
        vec![
            row("hello world", 1000, 2000, true),
            row("foo bar", 2000, 3000, true),
            row("baz hello", 3000, 4000, true),
        ]
    );
}

#[test]
fn context_before_is_shown_in_file_order() {
    let m = found(
        "here",
        5000,
        6000,
        vec![entry("near", 4000, 5000), entry("far", 3000, 4000), entry("farther", 2000, 3000)],
        vec![entry("next", 6000, 7000), entry("later", 7000, 8000), entry("latest", 8000, 9000)],
    );
    let flat = flatten_results(&vec![m], 2);
    assert_eq!(
        shown(&flat),
        vec![
            row("\u{2191} far", 3000, 4000, false),
            row("\u{2191} near", 4000, 5000, false),
            row("here", 5000, 6000, true),
            row("\u{2193} next", 6000, 7000, false),
            row("\u{2193} later", 7000, 8000, false),
        ]
    );
}

#[test]
fn a_depth_beyond_the_context_shows_all_of_it() {
    let m = found("here", 5000, 6000, vec![entry("near", 4000, 5000)], vec![]);
    let flat = flatten_results(&vec![m], 5);
    assert_eq!(
        shown(&flat),
        vec![row("\u{2191} near", 4000, 5000, false), row("here", 5000, 6000, true)]
    );
}

#[test]
fn a_deeper_list_holds_every_line_of_a_shallower_one() {
    let mut content = String::from("WEBVTT\n\n");
    let words = ["red", "green hello", "blue", "hello white", "black", "grey", "hello", "pink"];
    for (i, w) in words.iter().enumerate() {
        content.push_str(&format!("00:00:{:02}.000 --> 00:00:{:02}.000\n{}\n\n", i, i + 1, w));
    }
    let all = parse_captions("c.vtt", &content);
    let matches = filter_results(&all, "hello");
    for k in 0..6usize {
        let small = shown(&flatten_results(&matches, k));
        let mut large = shown(&flatten_results(&matches, k + 1));
        for line in &small {
            let at = large.iter().position(|l| l == line);
            assert!(at.is_some(), "depth {} lost {:?}", k + 1, line);
            large.remove(at.unwrap());
        }
        let kept: Vec<_> = flatten_results(&matches, k).into_iter().filter(|l| l.is_match).collect();
        assert_eq!(
            kept.iter().map(|l| l.text.clone()).collect::<Vec<_>>(),
            vec!["green hello", "hello white", "hello"]
        );
    }
}

#[test]
fn no_context_line_repeats_a_match() {
    let mut content = String::from("WEBVTT\n\n");
    let words = ["hello", "x", "hello", "y", "hello there", "z"];
    for (i, w) in words.iter().enumerate() {
        content.push_str(&format!("00:00:{:02}.000 --> 00:00:{:02}.000\n{}\n\n", i, i + 1, w));
    }
    let all = parse_captions("c.vtt", &content);
    let matches = filter_results(&all, "hello");
    let flat = flatten_results(&matches, 5);
    for c in flat.iter().filter(|l| !l.is_match) {
        for m in flat.iter().filter(|l| l.is_match) {
            let same_text = c.text == format!("\u{2191} {}", m.text) || c.text == format!("\u{2193} {}", m.text);
            let close = c.start.abs_diff(m.start) < 10 && c.end.abs_diff(m.end) < 10;
            assert!(!(same_text && close));
        }
    }
    assert_eq!(flat.iter().filter(|l| l.is_match).count(), 3);
}

#[test]
fn times_within_ten_milliseconds_count_as_the_same() {
    let near = found("a", 1000, 2000, vec![], vec![entry("b", 2009, 3009)]);
    let other = found("b", 2000, 3000, vec![], vec![]);
    let flat = flatten_results(&vec![near, other], 1);
    assert_eq!(shown(&flat), vec![row("a", 1000, 2000, true), row("b", 2000, 3000, true)]);

    let near = found("a", 1000, 2000, vec![], vec![entry("b", 2010, 3000)]);
    let other = found("b", 2000, 3000, vec![], vec![]);
    let flat = flatten_results(&vec![near, other], 1);
    assert_eq!(
        shown(&flat),
        vec![
            row("a", 1000, 2000, true),
            row("\u{2193} b", 2010, 3000, false),
            row("b", 2000, 3000, true),
        ]
    );
}

#[test]
fn same_segment_needs_equal_text_and_close_times() {
    let a = "a".to_string();
    let b = "b".to_string();
    assert!(is_same_segment(&a, 100, 200, &a, 100, 200));
    assert!(is_same_segment(&a, 100, 200, &a, 109, 191));
    assert!(is_same_segment(&a, 109, 191, &a, 100, 200));
    assert!(!is_same_segment(&a, 100, 200, &a, 110, 200));
    assert!(!is_same_segment(&a, 100, 200, &a, 100, 210));
    assert!(!is_same_segment(&a, 100, 200, &a, 90, 200));
    assert!(!is_same_segment(&a, 100, 200, &b, 100, 200));
    assert!(is_same_segment(&a, 0, u64::MAX, &a, 9, u64::MAX - 9));
}

#[test]
fn also_match_looks_at_every_match() {
    let matches = vec![found("a", 1000, 2000, vec![], vec![]), found("b", 2000, 3000, vec![], vec![])];
    assert!(is_also_match(&matches, &entry("b", 2001, 3001)));
    assert!(is_also_match(&matches, &entry("a", 1000, 2000)));
    assert!(!is_also_match(&matches, &entry("c", 1000, 2000)));
    assert!(!is_also_match(&matches, &entry("a", 2000, 3000)));
    assert!(!is_also_match(&Vec::new(), &entry("a", 1000, 2000)));
}
