use rura::completable_input::CompletableInput;
use rura::completion::{CompletionResult, Completer, CompletionType};
use rura::file_saver::{FileSaver, FileSavers, FileWriter, OpenPlan, UnixFileSaver};
use rura::help_widget::{help_lines, HelpWidget};
use rura::history::History;
use rura::rura_widget::{RuraWidget, UiCmd};
use rura::save_to_file_widget::SaveToFileWidget;
use rura::search_widget::SearchWidget;
use rura::text_input::{Key, KeyPress};
use std::cell::RefCell;
use std::collections::VecDeque;
use std::rc::Rc;

struct TestCompleter;

impl Completer for TestCompleter {
    fn completions(&self, _input: &str, _cursor_pos: usize) -> Option<CompletionResult> {
        Some(CompletionResult {
            completions: vec!["command".to_string(), "command_other".to_string()],
            word_start: 0,
        })
    }
}

struct NoCompleter;

impl Completer for NoCompleter {
    fn completions(&self, _input: &str, _cursor_pos: usize) -> Option<CompletionResult> {
        None
    }
}

fn widget(value: &str, cursor: usize) -> RuraWidget {
    let mut w = RuraWidget::new(History::with_items(VecDeque::new()));
    w.edited(value.to_string(), cursor);
    w
}

fn press(key: Key) -> KeyPress {
    KeyPress { key, ctrl: false, alt: false, shift: false, meta: false }
}

fn ctrl(c: char) -> KeyPress {
    KeyPress { key: Key::Char(c), ctrl: true, alt: false, shift: false, meta: false }
}

fn input_text(w: &mut RuraWidget, text: &str) {
    for c in text.chars() {
        w.handle_key(press(Key::Char(c)));
    }
}

#[test]
fn insert_newline_at_cursor() {
    let mut w = widget("lswc -l", 2);
    w.multiline = true;

    w.insert_newline();

    assert_eq!(w.value, "ls\nwc -l");
    assert_eq!(w.cursor, 3);
}

#[test]
fn cursor_position_across_newline() {
    let mut w = widget("ls\nfoo", 4);
    w.multiline = true;

    assert_eq!(w.cursor(20), (1, 1));
}

#[test]
fn height_counts_logical_lines() {
    let w = widget("ls\nfoo\nbar", 0);

    assert_eq!(w.height(20), 3);
}

#[test]
fn height_wraps_long_lines_and_zero_width_is_one_row() {
    let w = widget("ls -la | grep a | sort | uniq", 0);
    // 29 bytes at 20 columns: two rows
    assert_eq!(w.height(20), 2);
    assert_eq!(w.height(0), 1);
    // a line of exactly the width takes an extra row
    assert_eq!(widget("12345", 0).height(5), 2);
}

#[test]
fn cursor_wraps_and_counts_bytes() {
    // the cursor is at the 25th character of one line: row 1, column 5
    let w = widget("ls -la | grep a | sort | uniq", 25);
    assert_eq!(w.cursor(20), (5, 1));
    assert_eq!(w.cursor(0), (0, 0));
    // columns count bytes: "é" takes two
    let w = widget("é\nab", 3);
    assert_eq!(w.cursor(20), (1, 1));
    let w = widget("éa", 2);
    assert_eq!(w.cursor(20), (3, 0));
}

#[test]
fn insert_newline_in_multibyte_text_and_past_the_end() {
    let mut w = widget("日本", 1);
    w.insert_newline();
    assert_eq!(w.value, "日\n本");
    assert_eq!(w.cursor, 2);

    let mut w = widget("ab", 7);
    w.insert_newline();
    assert_eq!(w.value, "ab\n");
    assert_eq!(w.cursor, 3);
}

#[test]
fn history_recall_enables_multiline() {
    let mut w = widget("", 0);
    w.history.push("ls -la");
    w.history.push("for i in 1 2 3\ndo echo $i\ndone");

    w.handle_ui_command(UiCmd::HistoryPrev, &TestCompleter);
    assert!(w.multiline);

    w.handle_ui_command(UiCmd::HistoryPrev, &TestCompleter);
    assert!(!w.multiline);
}

#[test]
fn execute_add_to_history() {
    let mut w = widget("", 0);

    input_text(&mut w, "cmd1");
    w.history.push("cmd1");

    input_text(&mut w, " | cmd2");
    w.history.push("cmd1 | cmd2");

    assert_eq!(w.value, "cmd1 | cmd2");

    w.handle_ui_command(UiCmd::HistoryPrev, &TestCompleter);
    assert_eq!(w.value, "cmd1");

    w.handle_ui_command(UiCmd::HistoryNext, &TestCompleter);
    assert_eq!(w.value, "cmd1 | cmd2");
}

#[test]
fn rura_widget_completer() {
    let mut w = widget("", 0);

    input_text(&mut w, "co");

    w.handle_ui_command(UiCmd::Complete, &TestCompleter);
    assert_eq!(w.value, "command");

    w.handle_ui_command(UiCmd::Complete, &TestCompleter);
    assert_eq!(w.value, "command_other");

    w.handle_ui_command(UiCmd::CompletePrev, &TestCompleter);
    assert_eq!(w.value, "command");
}

#[test]
fn completion_places_cursor_after_candidate_and_editing_stops_cycling() {
    let mut w = widget("co | wc", 2);
    w.complete(true, &TestCompleter);
    assert_eq!(w.value, "command | wc");
    assert_eq!(w.cursor, 7);
    assert!(w.completions.is_some());
    w.edited("command | wc -l".to_string(), 15);
    assert!(w.completions.is_none());
    // previous from a fresh start picks the last candidate
    let mut w = widget("co", 2);
    w.complete(false, &TestCompleter);
    assert_eq!(w.value, "command_other");
    // no candidates: nothing changes
    let mut w = widget("co", 2);
    assert!(w.complete(true, &NoCompleter));
    assert_eq!(w.value, "co");
    assert_eq!(w.cursor, 2);
}

#[test]
fn completion_cuts_at_the_display_width_taken_as_a_byte_offset() {
    // "é" is one column wide and two bytes long: at character 2 the display
    // cursor is 2, which cuts the text after "é"
    let mut w = widget("éa", 2);
    w.complete(true, &TestCompleter);
    assert_eq!(w.value, "commanda");
    assert_eq!(w.cursor, 7);
    // "日" is two columns wide and three bytes long: the display cursor 2
    // falls inside it, and nothing changes
    let mut w = widget("日本", 1);
    w.complete(true, &TestCompleter);
    assert_eq!(w.value, "日本");
    assert!(w.completions.is_none());
}

#[test]
fn toggle_multiline_flips() {
    let mut w = widget("ls", 2);
    w.toggle_multiline();
    assert!(w.multiline);
    w.toggle_multiline();
    assert!(!w.multiline);
    assert_eq!(w.value, "ls");
}

#[test]
fn completable_input_completer() {
    let mut input = CompletableInput::from("");

    for c in "co".chars() {
        input.handle_key(press(Key::Char(c)));
    }

    input.complete(true, &TestCompleter);
    assert_eq!(input.value(), "command");

    input.complete(true, &TestCompleter);
    assert_eq!(input.value(), "command_other");

    input.complete(false, &TestCompleter);
    assert_eq!(input.value(), "command");
}

#[test]
fn completable_input_kinds_and_cursor() {
    let input = CompletableInput::file_only("a.txt");
    assert!(matches!(input.kind, CompletionType::File));
    assert_eq!(input.cursor(), 5);
    let owned = CompletableInput::from("日本".to_string());
    assert_eq!(owned.cursor(), 2);
    assert!(matches!(owned.kind, CompletionType::Command));
    let mut input = CompletableInput::from("日本");
    assert!(matches!(input.kind, CompletionType::Command));
    input.edited("日本".to_string(), 1);
    assert_eq!(input.visual_cursor(), 2);
    input.edited("ab".to_string(), 1);
    input.complete(true, &TestCompleter);
    assert_eq!(input.value(), "commandb");
    assert!(input.completions.is_some());
    input.clear_completions();
    assert!(input.completions.is_none());
}

/// Fails with "File exists" for a path containing "exists", unless
/// overwriting.
struct MockFileSaver {
    paths: Rc<RefCell<Vec<String>>>,
}

impl FileSaver for MockFileSaver {
    fn save(&self, path: String, _content: Vec<u8>, _executable: bool, overwrite: bool) -> Result<(), String> {
        self.paths.borrow_mut().push(path.clone());
        if path.contains("exists") {
            if overwrite {
                Ok(())
            } else {
                Err("File exists".to_string())
            }
        } else {
            Ok(())
        }
    }
}

fn dialog() -> (SaveToFileWidget<MockFileSaver>, Rc<RefCell<Vec<String>>>) {
    let paths = Rc::new(RefCell::new(vec![]));
    (SaveToFileWidget::new(MockFileSaver { paths: paths.clone() }, " Test ".into()), paths)
}

fn type_path(w: &mut SaveToFileWidget<MockFileSaver>, text: &str) {
    for c in text.chars() {
        w.handle_key(press(Key::Char(c)));
    }
}

#[test]
fn open_dialog() {
    let (mut w, _) = dialog();

    type_path(&mut w, "test.txt");

    assert_eq!(w.title, " Test ");
    assert_eq!(w.file_path_input.value(), "test.txt");
    assert_eq!(w.file_path_input.cursor(), 8);
    assert!(w.error_message.is_none());
    assert!(!w.overwrite_confirm());
}

#[test]
fn save_success() {
    let (mut w, paths) = dialog();

    type_path(&mut w, "test.txt");

    assert!(w.confirm(vec![], false, false));
    assert!(w.error_message.is_none());
    assert!(!w.overwrite_confirm());
    assert_eq!(*paths.borrow(), vec!["test.txt".to_string()]);
}

#[test]
fn save_exists_show_overwrite_confirm() {
    let (mut w, _) = dialog();

    type_path(&mut w, "test-exists.txt");

    assert!(!w.confirm(vec![], false, false));
    assert!(w.overwrite_confirm());
    assert_eq!(w.error_message.as_deref(), Some("File exists"));
}

#[test]
fn save_exists_cancel_overwrite() {
    let (mut w, _) = dialog();

    type_path(&mut w, "test-exists.txt");

    w.confirm(vec![], false, false);

    w.cancel();

    assert!(!w.overwrite_confirm());
    assert!(w.error_message.is_none());
    assert_eq!(w.file_path_input.value(), "test-exists.txt");
}

#[test]
fn save_exists_confirm_overwrite() {
    let (mut w, _) = dialog();

    type_path(&mut w, "test-exists.txt");

    w.confirm(vec![], false, false);

    assert!(w.confirm(vec![], false, true));
    assert!(!w.overwrite_confirm());
    assert!(w.error_message.is_none());
}

#[test]
fn save_trims_path_and_other_errors_do_not_ask_to_overwrite() {
    let (mut w, paths) = dialog();
    type_path(&mut w, "  out.sh \t");
    assert!(w.confirm(vec![1, 2], true, false));
    assert_eq!(*paths.borrow(), vec!["out.sh".to_string()]);

    let (mut w, _) = dialog();
    assert!(!w.apply_save_outcome(Err("Permission denied".to_string())));
    assert!(!w.overwrite_confirm());
    assert_eq!(w.error_message.as_deref(), Some("Permission denied"));
    assert!(!w.apply_save_outcome(Err("File exists (os error 17)".to_string())));
    assert!(w.overwrite_confirm());
    assert_eq!(w.save_path(), "");
}

#[test]
fn path_is_not_edited_while_asking_to_overwrite() {
    let (mut w, _) = dialog();
    type_path(&mut w, "test-exists.txt");
    w.confirm(vec![], false, false);
    type_path(&mut w, "x");
    assert_eq!(w.file_path_input.value(), "test-exists.txt");
    w.cancel();
    type_path(&mut w, "x");
    assert_eq!(w.file_path_input.value(), "test-exists.txtx");
}

struct RecordingWriter {
    plans: Rc<RefCell<Vec<(String, OpenPlan)>>>,
}

impl FileWriter for RecordingWriter {
    fn write(&self, path: String, plan: OpenPlan, _content: Vec<u8>) -> Result<(), String> {
        self.plans.borrow_mut().push((path, plan));
        Ok(())
    }
}

#[test]
fn unix_saver_opens_files_by_plan() {
    assert_eq!(
        UnixFileSaver::<RecordingWriter>::open_plan(true, false),
        OpenPlan { create_new: true, truncate: false, mode: 0o755 }
    );
    assert_eq!(
        UnixFileSaver::<RecordingWriter>::open_plan(false, true),
        OpenPlan { create_new: false, truncate: true, mode: 0o644 }
    );
    let plans = Rc::new(RefCell::new(vec![]));
    let saver = FileSavers::new(RecordingWriter { plans: plans.clone() });
    assert!(saver.save("f".to_string(), vec![], false, false).is_ok());
    assert_eq!(
        *plans.borrow(),
        vec![("f".to_string(), OpenPlan { create_new: true, truncate: false, mode: 0o644 })]
    );
}

#[test]
fn search_title_shows_position_and_case() {
    let mut s = SearchWidget::default();
    assert_eq!(s.title(), " Search: 0 / 0 | Cc ");
    s.update_highlight_info((2, 15));
    assert_eq!(s.title(), " Search: 3 / 15 | Cc ");
    s.toggle_case_sensitive();
    assert_eq!(s.title(), " Search: 3 / 15 | [Cc] ");
    s.update_highlight_info((4, 0));
    assert_eq!(s.title(), " Search: 0 / 0 | [Cc] ");
    s.edited("foo".to_string(), 3);
    assert_eq!(s.query, "foo");
}

#[test]
fn help_scrolls_within_text() {
    let mut h = HelpWidget::new(30);
    assert_eq!(h.visible_content_height(), 20);
    // a 12-row area: 8 lines with arrows
    let l = h.layout(12);
    assert_eq!((l.content_height, l.show_arrows, l.start, l.end), (8, true, 0, 8));
    h.scroll_page_down();
    assert_eq!(h.scroll, 8);
    h.scroll_page_down();
    h.scroll_page_down();
    assert_eq!(h.scroll, 22);
    h.scroll_down();
    assert_eq!(h.scroll, 22);
    h.scroll_up();
    assert_eq!(h.scroll, 21);
    h.scroll_page_up();
    assert_eq!(h.scroll, 13);
    h.scroll_page_up();
    h.scroll_page_up();
    assert_eq!(h.scroll, 0);
    h.scroll_up();
    assert_eq!(h.scroll, 0);
    // everything fits in a tall area: no arrows
    let l = h.layout(40);
    assert_eq!((l.content_height, l.show_arrows, l.start, l.end), (30, false, 0, 30));
    // a tiny area still shows one line
    let mut h = HelpWidget::new(30);
    h.scroll = 29;
    let l = h.layout(3);
    assert_eq!((l.content_height, l.show_arrows, l.start, l.end), (1, true, 29, 30));
}

#[test]
fn save_dialog_layout() {
    let (mut w, _) = dialog();
    type_path(&mut w, "a-long-file-name.txt");
    assert_eq!(w.popup_height(), 6);
    assert_eq!(w.input_shift(10), 10);
    assert_eq!(w.input_shift(30), 0);
    assert_eq!(w.cursor_position(5, 3, 40, 4), Some((25, 3)));
    assert_eq!(w.cursor_position(5, 3, 10, 4), Some((14, 3)));
    w.handle_edit("test-exists.txt".to_string(), 15);
    w.confirm(vec![], false, false);
    assert_eq!(w.popup_height(), 7);
    assert_eq!(w.cursor_position(5, 3, 40, 4), None);
}

#[test]
fn save_dialog_completes_the_path() {
    let (mut w, _) = dialog();
    type_path(&mut w, "co");
    w.complete_prev(&TestCompleter);
    assert_eq!(w.file_path_input.value(), "command_other");
    w.complete(&TestCompleter);
    assert_eq!(w.file_path_input.value(), "command");
}

#[test]
fn search_alt_c_switches_case_other_keys_edit() {
    let mut s = SearchWidget::default();
    let alt_c = KeyPress { key: Key::Char('c'), ctrl: false, alt: true, shift: false, meta: false };
    s.handle_key(alt_c);
    assert!(s.case_sensitive);
    assert_eq!(s.query, "");
    s.handle_key(press(Key::Char('c')));
    s.handle_key(press(Key::Char('x')));
    assert_eq!((s.query.as_str(), s.cursor), ("cx", 2));
    s.handle_key(press(Key::Backspace));
    assert_eq!((s.query.as_str(), s.cursor), ("c", 1));
    s.handle_key(alt_c);
    assert!(!s.case_sensitive);
    assert_eq!(s.query, "c");
}

fn found(words: &[&str], word_start: usize) -> Option<CompletionResult> {
    Some(CompletionResult { completions: words.iter().map(|w| w.to_string()).collect(), word_start })
}

#[test]
fn accepting_candidates_shows_first_or_last() {
    let mut w = widget("ls co", 5);
    w.accept_completions(found(&["cat", "cut"], 3), true, 5);
    assert_eq!(w.value, "ls cat");
    assert_eq!(w.cursor, 6);
    let mut w = widget("ls co", 5);
    w.accept_completions(found(&["cat", "cut"], 3), false, 5);
    assert_eq!(w.value, "ls cut");
    // nothing usable: unchanged, nothing kept
    let mut w = widget("ls co", 5);
    w.accept_completions(found(&[], 3), true, 5);
    assert_eq!((w.value.as_str(), w.cursor), ("ls co", 5));
    assert!(w.completions.is_none());
    w.accept_completions(None, true, 5);
    assert_eq!((w.value.as_str(), w.cursor), ("ls co", 5));
    w.accept_completions(found(&["x"], 9), true, 5);
    assert_eq!((w.value.as_str(), w.cursor), ("ls co", 5));

    let mut input = CompletableInput::from("ls co");
    input.accept_completions(found(&["cat", "cut"], 3), false, 5);
    assert_eq!(input.value(), "ls cut");
    assert_eq!(input.cursor(), 6);
}

#[test]
fn keys_edit_the_line() {
    let mut input = CompletableInput::from("");
    assert!(input.handle_key(press(Key::Char('a'))));
    assert!(input.handle_key(press(Key::Char('é'))));
    assert!(input.handle_key(press(Key::Char('b'))));
    assert_eq!((input.value(), input.cursor()), ("aéb", 3));
    // moving changes no text
    assert!(!input.handle_key(press(Key::Left)));
    assert_eq!(input.cursor(), 2);
    assert!(input.handle_key(press(Key::Backspace)));
    assert_eq!((input.value(), input.cursor()), ("ab", 1));
    assert!(!input.handle_key(press(Key::Home)));
    assert_eq!(input.cursor(), 0);
    assert!(input.handle_key(press(Key::Delete)));
    assert_eq!((input.value(), input.cursor()), ("b", 0));
    assert!(!input.handle_key(press(Key::End)));
    assert_eq!(input.cursor(), 1);
    // backspace at the start does nothing
    let mut start = CompletableInput::from("x");
    start.handle_key(press(Key::Home));
    assert!(!start.handle_key(press(Key::Backspace)));
    assert_eq!(start.value(), "x");
    // ctrl-u deletes the line, other keys do nothing
    assert!(input.handle_key(ctrl('u')));
    assert_eq!((input.value(), input.cursor()), ("", 0));
    assert!(!input.handle_key(press(Key::Other)));
    // shifted characters are typed
    let shifted = KeyPress { key: Key::Char('A'), ctrl: false, alt: false, shift: true, meta: false };
    assert!(input.handle_key(shifted));
    assert_eq!(input.value(), "A");
}

#[test]
fn key_editing_drops_candidates() {
    let mut w = widget("co", 2);
    w.complete(true, &TestCompleter);
    assert!(w.completions.is_some());
    assert!(w.handle_key(press(Key::Char('x'))));
    assert!(w.completions.is_none());
    assert_eq!(w.value, "commandx");
    assert!(!w.handle_key(press(Key::Left)));
    assert_eq!(w.cursor, 7);
}

#[test]
fn yank_puts_back_what_was_cut() {
    let mut input = CompletableInput::from("");
    for c in "hello world".chars() {
        input.handle_key(press(Key::Char(c)));
    }
    assert!(input.handle_key(ctrl('w')));
    assert_eq!((input.value(), input.cursor()), ("hello ", 6));
    assert!(input.handle_key(ctrl('y')));
    assert_eq!((input.value(), input.cursor()), ("hello world", 11));
}

#[test]
fn consecutive_cuts_are_yanked_together() {
    let mut w = widget("", 0);
    input_text(&mut w, "hello world");
    assert!(w.handle_key(ctrl('w')));
    assert!(w.handle_key(ctrl('w')));
    assert_eq!((w.value.as_str(), w.cursor), ("", 0));
    assert!(w.handle_key(ctrl('y')));
    assert_eq!((w.value.as_str(), w.cursor), ("hello world", 11));
}

#[test]
fn yank_with_nothing_cut_changes_nothing() {
    let mut input = CompletableInput::from("ab");
    assert!(!input.handle_key(ctrl('y')));
    assert_eq!((input.value(), input.cursor()), ("ab", 2));
}

#[test]
fn cutting_to_the_end_reports_a_change_even_at_the_end() {
    let mut input = CompletableInput::from("abc");
    assert!(input.handle_key(ctrl('k')));
    assert_eq!((input.value(), input.cursor()), ("abc", 3));
    input.handle_key(ctrl('a'));
    assert!(input.handle_key(ctrl('k')));
    assert_eq!((input.value(), input.cursor()), ("", 0));
}

#[test]
fn help_lists_each_key_with_what_it_does() {
    let mut keys: Vec<String> = (0..30).map(|i| format!("f{}", i + 1)).collect();
    keys[0] = "enter".to_string();
    keys[29] = "ctrl+alt+shift+f".to_string();
    let lines = help_lines(&keys);
    assert_eq!(lines.len(), 56);
    assert_eq!(lines[0].text, "Commands");
    assert!(lines[0].heading);
    assert_eq!(lines[1].text, "enter        - Execute full command");
    assert!(!lines[1].heading);
    assert_eq!(lines[5].text, "");
    assert_eq!(lines[29].text, "ctrl+n       - Create new preset");
    assert_eq!(lines[46].text, "alt+x        - Toggle regex mode");
    assert_eq!(lines[53].text, "Stdin");
    assert!(lines[53].heading);
    assert_eq!(lines[55].text, "ctrl+alt+shift+f - Toggle stdin follow");
    let widget = HelpWidget::new(lines.len());
    assert_eq!(widget.total_lines, 56);
}
