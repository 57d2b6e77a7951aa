use parasite::clip::{output_name, output_path, plan_clip, stem_of, Clip, ClipError};
use parasite::model::DisplayLine;

fn line(text: &str, start: u64, end: u64) -> DisplayLine {
    DisplayLine {
        text: text.to_string(),
        file: "dir/talk.vtt".to_string(),
        start,
        end,
        is_match: false,
        original_start: start,
        original_end: end,
    }
}

#[test]
fn the_name_is_the_first_three_words_lowered_and_joined() {
    assert_eq!(output_name("Hello Big  World again"), "hello_big_world");
    assert_eq!(output_name("  Two Words "), "two_words");
    assert_eq!(output_name("ONE"), "one");
    assert_eq!(output_name(""), "");
    assert_eq!(output_name("\u{2191} Foo Bar baz"), "\u{2191}_foo_bar");
    assert_eq!(output_name("\u{c9}t\u{c9} ici"), "\u{e9}t\u{e9}_ici");
}

#[test]
fn the_stem_keeps_the_case() {
    let stem: String = stem_of("Hello Big World again").iter().collect();
    assert_eq!(stem, "Hello_Big_World");
}

#[test]
fn the_path_is_directory_name_and_ending() {
    assert_eq!(output_path("output", "hello_big_world"), "output/hello_big_world.wav");
    assert_eq!(output_path("", ""), "/.wav");
    assert_eq!(output_path("out/", "x"), "out//x.wav");
}

#[test]
fn a_clip_is_planned_for_a_valid_line() {
    let lines = vec![line("Hello there", 1500, 4000)];
    assert_eq!(
        plan_clip(&lines, 0, true),
        Ok(Clip {
            file: "dir/talk.vtt".to_string(),
            start: 1500,
            duration: 2500,
            name: "hello_there".to_string(),
        })
    );
}

#[test]
fn no_line_is_reported_first() {
    let lines = vec![line("a", 2000, 1000)];
    assert_eq!(plan_clip(&lines, 1, false), Err(ClipError::NoLine));
    assert_eq!(plan_clip(&lines, 1, true), Err(ClipError::NoLine));
    assert_eq!(plan_clip(&Vec::new(), 0, true), Err(ClipError::NoLine));
}

#[test]
fn missing_audio_is_reported_before_the_range() {
    let lines = vec![line("a", 2000, 1000), line("b", 1000, 2000)];
    assert_eq!(plan_clip(&lines, 0, false), Err(ClipError::AudioMissing));
    assert_eq!(plan_clip(&lines, 1, false), Err(ClipError::AudioMissing));
}

#[test]
fn an_empty_or_inverted_range_is_refused() {
    let lines = vec![line("a", 2000, 1000), line("b", 1000, 1000), line("c", 1000, 1001)];
    assert_eq!(plan_clip(&lines, 0, true), Err(ClipError::InvalidRange));
    assert_eq!(plan_clip(&lines, 1, true), Err(ClipError::InvalidRange));
    assert_eq!(plan_clip(&lines, 2, true).map(|c| c.duration), Ok(1));
}
