use parasite::clip::ClipError;
use parasite::editor::Adjustment;
use parasite::index::{CaptionFile, LoadError};
use parasite::session::{command, App, Command, Key, Outcome};

const THREE_BLOCKS: &str = "WEBVTT\n\n00:00:01.000 --> 00:00:02.000\nhello world\n\n00:00:02.000 --> 00:00:03.000\nfoo bar\n\n00:00:03.000 --> 00:00:04.000\nbaz hello\n";

fn files() -> Vec<Option<CaptionFile>> {
    vec![Some(CaptionFile { path: "talk.vtt".to_string(), content: THREE_BLOCKS.to_string() })]
}

fn session() -> App {
    App::new(&files()).unwrap()
}

fn texts(app: &App) -> Vec<String> {
    app.flat_results.iter().map(|l| l.text.clone()).collect()
}

fn type_text(app: &mut App, text: &str) -> Outcome {
    let mut last = Outcome::Nothing;
    for c in text.chars() {
        last = app.handle_key(Key::Char(c));
    }
    last
}

#[test]
fn keys_stand_for_commands() {
    assert_eq!(command(Key::Char('q')), Command::Quit);
    assert_eq!(command(Key::Char('+')), Command::MoreContext);
    assert_eq!(command(Key::Char('-')), Command::LessContext);
    assert_eq!(command(Key::Char(',')), Command::MoveStart(-100));
    assert_eq!(command(Key::Char('.')), Command::MoveStart(100));
    assert_eq!(command(Key::Char('<')), Command::MoveStart(-25));
    assert_eq!(command(Key::Char('>')), Command::MoveStart(25));
    assert_eq!(command(Key::Char('[')), Command::MoveEnd(-100));
    assert_eq!(command(Key::Char(']')), Command::MoveEnd(100));
    assert_eq!(command(Key::Char('{')), Command::MoveEnd(-25));
    assert_eq!(command(Key::Char('}')), Command::MoveEnd(25));
    assert_eq!(command(Key::Char('a')), Command::Type('a'));
    assert_eq!(command(Key::Char(' ')), Command::Type(' '));
    assert_eq!(command(Key::Char('Q')), Command::Type('Q'));
    assert_eq!(command(Key::Backspace), Command::Erase);
    assert_eq!(command(Key::Enter), Command::Extract);
    assert_eq!(command(Key::Tab), Command::Preview);
    assert_eq!(command(Key::Esc), Command::Reset);
    assert_eq!(command(Key::Up), Command::Up);
    assert_eq!(command(Key::Down), Command::Down);
    assert_eq!(command(Key::Other), Command::Idle);
}

#[test]
fn a_new_session_shows_everything() {
    let app = session();
    assert_eq!(app.search_query, "");
    assert_eq!(app.context_lines, 0);
    assert_eq!(app.all_results.len(), 3);
    assert_eq!(app.filtered_results, app.all_results);
    assert_eq!(texts(&app), vec!["hello world", "foo bar", "baz hello"]);
    assert_eq!(app.selected_idx, Some(0));
}

#[test]
fn a_new_session_over_nothing_selects_nothing() {
    let mut app = App::new(&Vec::new()).unwrap();
    assert!(app.flat_results.is_empty());
    assert_eq!(app.selected_idx, None);
    assert_eq!(app.handle_key(Key::Up), Outcome::Nothing);
    assert_eq!(app.selected_idx, None);
    assert_eq!(app.handle_key(Key::Down), Outcome::Nothing);
    assert_eq!(app.selected_idx, None);
    assert_eq!(app.handle_key(Key::Esc), Outcome::NoLineSelected);
    assert_eq!(app.handle_key(Key::Tab), Outcome::NoLineSelected);
    assert_eq!(app.handle_key(Key::Enter), Outcome::NoLineSelected);
    assert_eq!(app.handle_key(Key::Char('.')), Outcome::StartMoved(100, Adjustment::NoLine));
    assert_eq!(app.handle_key(Key::Char('{')), Outcome::EndMoved(-25, Adjustment::NoLine));
}

#[test]
fn typing_filters_and_selects_the_first_line() {
    let mut app = session();
    app.handle_key(Key::Down);
    assert_eq!(app.selected_idx, Some(1));
    assert_eq!(type_text(&mut app, "hello"), Outcome::Filtered(2, 2));
    assert_eq!(app.search_query, "hello");
    assert_eq!(texts(&app), vec!["hello world", "baz hello"]);
    assert_eq!(app.selected_idx, Some(0));
    assert_eq!(type_text(&mut app, "x"), Outcome::Filtered(0, 0));
    assert_eq!(app.selected_idx, None);
    assert_eq!(app.handle_key(Key::Backspace), Outcome::Filtered(2, 2));
    assert_eq!(app.search_query, "hello");
    assert_eq!(app.selected_idx, Some(0));
}

#[test]
fn erasing_an_empty_query_keeps_it_empty() {
    let mut app = session();
    assert_eq!(app.handle_key(Key::Backspace), Outcome::Filtered(3, 3));
    assert_eq!(app.search_query, "");
    assert_eq!(type_text(&mut app, "fo"), Outcome::Filtered(1, 1));
    assert_eq!(app.handle_key(Key::Backspace), Outcome::Filtered(1, 1));
    assert_eq!(app.search_query, "f");
}

#[test]
fn the_depth_moves_between_zero_and_five() {
    let mut app = session();
    type_text(&mut app, "hello");
    assert_eq!(app.handle_key(Key::Char('-')), Outcome::ContextAtMinimum);
    assert_eq!(app.context_lines, 0);
    assert_eq!(app.handle_key(Key::Char('+')), Outcome::ContextSet(1));
    assert_eq!(
        texts(&app),
        vec!["hello world", "\u{2193} foo bar", "\u{2191} foo bar", "baz hello"]
    );
    for want in 2..=5usize {
        assert_eq!(app.handle_key(Key::Char('+')), Outcome::ContextSet(want));
    }
    assert_eq!(app.handle_key(Key::Char('+')), Outcome::ContextAtMaximum);
    assert_eq!(app.context_lines, 5);
    assert_eq!(app.handle_key(Key::Char('-')), Outcome::ContextSet(4));
    assert_eq!(app.search_query, "hello");
    assert_eq!(app.filtered_results.len(), 2);
}

#[test]
fn a_change_of_depth_keeps_the_selection_and_drops_the_edits() {
    let mut app = session();
    type_text(&mut app, "hello");
    app.handle_key(Key::Char('+'));
    app.handle_key(Key::Down);
    app.handle_key(Key::Down);
    app.handle_key(Key::Down);
    assert_eq!(app.selected_idx, Some(3));
    assert_eq!(app.handle_key(Key::Char('.')), Outcome::StartMoved(100, Adjustment::Adjusted));
    assert_eq!(app.flat_results[3].start, 3100);
    assert_eq!(app.handle_key(Key::Char('-')), Outcome::ContextSet(0));
    assert_eq!(app.selected_idx, Some(3));
    assert_eq!(app.flat_results.len(), 2);
    assert_eq!(app.flat_results[1].start, 3000);
    assert_eq!(app.handle_key(Key::Char('.')), Outcome::StartMoved(100, Adjustment::NoLine));
    assert_eq!(app.handle_key(Key::Esc), Outcome::Nothing);
    assert_eq!(app.handle_key(Key::Tab), Outcome::Preview(3));
    assert_eq!(app.preview_flat_line(3, true), Err(ClipError::NoLine));
    assert_eq!(app.handle_key(Key::Down), Outcome::Nothing);
    assert_eq!(app.selected_idx, Some(3));
    app.handle_key(Key::Up);
    assert_eq!(app.selected_idx, Some(2));
}

#[test]
fn the_selection_stops_at_both_ends() {
    let mut app = session();
    app.handle_key(Key::Up);
    assert_eq!(app.selected_idx, Some(0));
    app.handle_key(Key::Down);
    app.handle_key(Key::Down);
    assert_eq!(app.selected_idx, Some(2));
    app.handle_key(Key::Down);
    assert_eq!(app.selected_idx, Some(2));
    app.handle_key(Key::Up);
    assert_eq!(app.selected_idx, Some(1));
    app.selected_idx = None;
    app.handle_key(Key::Down);
    assert_eq!(app.selected_idx, Some(0));
    app.selected_idx = None;
    app.handle_key(Key::Up);
    assert_eq!(app.selected_idx, Some(0));
}

#[test]
fn the_keys_move_the_times_of_the_selected_line() {
    let mut app = session();
    assert_eq!(app.handle_key(Key::Char('>')), Outcome::StartMoved(25, Adjustment::Adjusted));
    assert_eq!(app.handle_key(Key::Char(',')), Outcome::StartMoved(-100, Adjustment::Adjusted));
    assert_eq!(app.flat_results[0].start, 925);
    assert_eq!(app.handle_key(Key::Char(']')), Outcome::EndMoved(100, Adjustment::WouldExceedMaximum(2000)));
    assert_eq!(app.handle_key(Key::Char('[')), Outcome::EndMoved(-100, Adjustment::Adjusted));
    assert_eq!(app.handle_key(Key::Char('}')), Outcome::EndMoved(25, Adjustment::Adjusted));
    assert_eq!(app.flat_results[0].end, 1925);
    assert_eq!(app.handle_key(Key::Char('<')), Outcome::StartMoved(-25, Adjustment::Adjusted));
    assert_eq!(app.flat_results[0].start, 900);
    assert_eq!(app.flat_results[1].start, 2000);
    assert_eq!(app.handle_key(Key::Esc), Outcome::TimesReset);
    assert_eq!((app.flat_results[0].start, app.flat_results[0].end), (1000, 2000));
    assert_eq!(app.search_query, "");
}

#[test]
fn the_methods_move_the_times_too() {
    let mut app = session();
    app.selected_idx = Some(2);
    assert_eq!(app.adjust_start_time(-3000), Adjustment::Adjusted);
    assert_eq!(app.adjust_start_time(-25), Adjustment::BelowZero);
    assert_eq!(app.adjust_end_time(30_001), Adjustment::WouldExceedMaximum(34_000));
    assert_eq!(app.adjust_end_time(-3990), Adjustment::Adjusted);
    assert_eq!(app.adjust_end_time(-1), Adjustment::WouldPrecedeStart);
    assert_eq!(app.adjust_start_time(1), Adjustment::WouldExceedEnd);
    assert_eq!((app.flat_results[2].start, app.flat_results[2].end), (0, 10));
}

#[test]
fn preview_and_extract_ask_for_the_selected_line() {
    let mut app = session();
    app.handle_key(Key::Down);
    assert_eq!(app.handle_key(Key::Tab), Outcome::Preview(1));
    assert_eq!(app.handle_key(Key::Enter), Outcome::Extract(1));
    let clip = app.extract_flat_line(1, true).unwrap();
    assert_eq!(clip.file, "talk.vtt");
    assert_eq!((clip.start, clip.duration), (2000, 1000));
    assert_eq!(clip.name, "foo_bar");
    assert_eq!(app.preview_flat_line(1, false), Err(ClipError::AudioMissing));
    assert_eq!(app.extract_flat_line(9, true), Err(ClipError::NoLine));
}

#[test]
fn quit_and_idle_change_nothing() {
    let mut app = session();
    let before = format!("{:?}", app);
    assert_eq!(app.handle_key(Key::Char('q')), Outcome::Quit);
    assert_eq!(app.handle_key(Key::Other), Outcome::Nothing);
    assert_eq!(app.apply(Command::Idle), Outcome::Nothing);
    assert_eq!(format!("{:?}", app), before);
}

#[test]
fn loading_replaces_the_index() {
    let mut app = session();
    let other = vec![Some(CaptionFile {
        path: "other.vtt".to_string(),
        content: "00:00:09.000 --> 00:00:10.000\nnew\n".to_string(),
    })];
    assert_eq!(app.load_all_results(&other), Ok(()));
    assert_eq!(app.all_results.len(), 1);
    assert_eq!(texts(&app), vec!["hello world", "foo bar", "baz hello"]);
    app.filter_results();
    assert_eq!(texts(&app), vec!["new"]);
    assert_eq!(app.load_all_results(&Vec::new()), Ok(()));
    app.filter_results();
    assert!(app.flat_results.is_empty());
    assert_eq!(app.selected_idx, None);
}

#[test]
fn a_failed_read_leaves_no_session_and_no_change() {
    let mut reads = files();
    reads.push(None);
    reads.push(Some(CaptionFile { path: "late.vtt".to_string(), content: String::new() }));
    reads.push(None);
    assert_eq!(App::new(&reads).err(), Some(LoadError::ReadFailed(1)));
    let mut app = session();
    let before = format!("{:?}", app);
    assert_eq!(app.load_all_results(&reads), Err(LoadError::ReadFailed(1)));
    assert_eq!(format!("{:?}", app), before);
    assert_eq!(app.load_all_results(&vec![None]), Err(LoadError::ReadFailed(0)));
    assert_eq!(format!("{:?}", app), before);
}

#[test]
fn filtering_twice_leaves_the_same_state() {
    let mut app = session();
    type_text(&mut app, "hello");
    app.handle_key(Key::Char('+'));
    app.filter_results();
    let once = format!("{:?}", app);
    app.filter_results();
    assert_eq!(format!("{:?}", app), once);
    app.flatten_results();
    assert_eq!(format!("{:?}", app), once);
}
