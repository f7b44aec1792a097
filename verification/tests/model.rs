use rura::completion::{completion_flag, completions_from_output, cycle_index, splice_completion, CompletionType};
use rura::rura::Rura;
use rura::state::CachedState;
use rura::stdin::{stdin_controller_task, ControllerEvent, ControllerOutput, StdinController, StdinControllerAction};
use rura::text::{codepoint_to_byte, line_count, str_trim, text_contains};
use rura::text_input::EditingMode;

fn update_bytes(out: &[ControllerOutput]) -> Vec<Vec<u8>> {
    out.iter()
        .filter_map(|o| match o {
            ControllerOutput::UpdateStdin(b) => Some(b.clone()),
            _ => None,
        })
        .collect()
}

fn is_hold(o: &ControllerOutput) -> bool {
    matches!(o, ControllerOutput::Hold)
}

fn is_continue(o: &ControllerOutput) -> bool {
    matches!(o, ControllerOutput::Continue)
}

#[test]
fn stdin_updates_only_after_new_data_and_ends_with_everything() {
    let mut c = StdinController::new(false);
    assert!(stdin_controller_task(&mut c, ControllerEvent::IntervalElapsed).is_empty());
    assert!(stdin_controller_task(&mut c, ControllerEvent::Read(b"ab".to_vec())).is_empty());
    assert!(stdin_controller_task(&mut c, ControllerEvent::Read(b"c".to_vec())).is_empty());
    let out = stdin_controller_task(&mut c, ControllerEvent::IntervalElapsed);
    assert_eq!(update_bytes(&out), vec![b"abc".to_vec()]);
    // nothing new: no update
    assert!(stdin_controller_task(&mut c, ControllerEvent::IntervalElapsed).is_empty());
    stdin_controller_task(&mut c, ControllerEvent::Read(b"d".to_vec()));
    let out = stdin_controller_task(&mut c, ControllerEvent::ReaderCompleted);
    assert_eq!(out.len(), 2);
    assert!(matches!(out[0], ControllerOutput::StdinCompleted));
    assert_eq!(update_bytes(&out), vec![b"abcd".to_vec()]);
    // after the end nothing happens
    assert!(stdin_controller_task(&mut c, ControllerEvent::Read(b"e".to_vec())).is_empty());
    assert!(stdin_controller_task(&mut c, ControllerEvent::ReaderCompleted).is_empty());
    assert_eq!(c.bytes, b"abcd".to_vec());
}

#[test]
fn stdin_toggle_pauses_and_resumes() {
    let mut c = StdinController::new(false);
    let out = stdin_controller_task(&mut c, ControllerEvent::Control(StdinControllerAction::Toggle));
    assert_eq!(out.len(), 1);
    assert!(is_hold(&out[0]));
    stdin_controller_task(&mut c, ControllerEvent::Read(b"x".to_vec()));
    // paused: no update even with new data
    assert!(stdin_controller_task(&mut c, ControllerEvent::IntervalElapsed).is_empty());
    let out = stdin_controller_task(&mut c, ControllerEvent::Control(StdinControllerAction::Toggle));
    assert_eq!(out.len(), 1);
    assert!(is_continue(&out[0]));
    let out = stdin_controller_task(&mut c, ControllerEvent::IntervalElapsed);
    assert_eq!(update_bytes(&out), vec![b"x".to_vec()]);
}

#[test]
fn stdin_pauses_after_first_update_when_asked() {
    let mut c = StdinController::new(true);
    stdin_controller_task(&mut c, ControllerEvent::Read(b"1".to_vec()));
    let out = stdin_controller_task(&mut c, ControllerEvent::IntervalElapsed);
    assert_eq!(out.len(), 2);
    assert_eq!(update_bytes(&out), vec![b"1".to_vec()]);
    assert!(is_hold(&out[1]));
    assert!(c.paused);
    stdin_controller_task(&mut c, ControllerEvent::Control(StdinControllerAction::Toggle));
    stdin_controller_task(&mut c, ControllerEvent::Read(b"2".to_vec()));
    // only the first update pauses
    let out = stdin_controller_task(&mut c, ControllerEvent::IntervalElapsed);
    assert_eq!(out.len(), 1);
    assert_eq!(update_bytes(&out), vec![b"12".to_vec()]);
}

#[test]
fn stdin_all_input_reaches_the_pipeline() {
    // whatever happens in between, the last update carries every byte read;
    // reading is paused when the input ends, so the end is taken on resuming
    let mut c = StdinController::new(true);
    let events = vec![
        ControllerEvent::Read(b"one ".to_vec()),
        ControllerEvent::IntervalElapsed,
        ControllerEvent::Read(b"two ".to_vec()),
        ControllerEvent::Control(StdinControllerAction::Toggle),
        ControllerEvent::Read(b"three".to_vec()),
        ControllerEvent::IntervalElapsed,
        ControllerEvent::Control(StdinControllerAction::Toggle),
    ];
    for e in events {
        stdin_controller_task(&mut c, e);
    }
    assert!(c.paused);
    assert!(stdin_controller_task(&mut c, ControllerEvent::ReaderCompleted).is_empty());
    let out = stdin_controller_task(&mut c, ControllerEvent::Control(StdinControllerAction::Toggle));
    assert_eq!(update_bytes(&out).last().unwrap(), &b"one two three".to_vec());
    assert!(c.finished);
}

#[test]
fn text_contains_finds_runs() {
    assert!(text_contains("File exists (os error 17)", "File exists"));
    assert!(text_contains("abc", ""));
    assert!(text_contains("", ""));
    assert!(!text_contains("", "a"));
    assert!(!text_contains("File exist", "File exists"));
    assert!(text_contains("ééb", "éb"));
    assert!(!text_contains("abab", "ba b"));
}

#[test]
fn completion_candidates_from_compgen_output() {
    assert_eq!(completions_from_output("ls\nlsblk\r\nlsof\n"), vec!["ls", "lsblk", "lsof"]);
    assert_eq!(completions_from_output("a\n\nb"), vec!["a", "", "b"]);
    assert_eq!(completions_from_output(""), Vec::<String>::new());
    assert_eq!(completions_from_output("x\r"), vec!["x\r"]);
    assert_eq!(completion_flag(&CompletionType::Command), "-c");
    assert_eq!(completion_flag(&CompletionType::File), "-f");
}

#[test]
fn cycling_wraps_both_ways() {
    assert_eq!(cycle_index(0, 3, true), 1);
    assert_eq!(cycle_index(2, 3, true), 0);
    assert_eq!(cycle_index(0, 3, false), 2);
    assert_eq!(cycle_index(2, 3, false), 1);
}

#[test]
fn splice_replaces_word_and_clamps_cursor() {
    assert_eq!(splice_completion("git ch x", 4, "checkout", 6), ("git checkout x".to_string(), 12));
    // the cursor counts bytes, but cannot pass the end of the text
    assert_eq!(splice_completion("é", 0, "éé", 2), ("éé".to_string(), 2));
}

#[test]
fn rura_joins_and_trims_steps() {
    let r = Rura::from(vec![" ls ".to_string(), "grep a\t".to_string(), "wc".to_string()]);
    assert_eq!(r.len(), 3);
    assert!(!r.is_empty());
    assert_eq!(r.to_string(), " ls |grep a\t|wc");
    assert_eq!(r.trimmed(), vec!["ls", "grep a", "wc"]);
    let e = Rura::empty();
    assert!(e.is_empty());
    assert_eq!(e.to_string(), "");
    let one = Rura::from("echo hi");
    assert_eq!(one.len(), 1);
    assert_eq!(one.to_string(), "echo hi");
}

#[test]
fn text_helpers() {
    assert_eq!(str_trim("  a b \n"), "a b");
    assert_eq!(str_trim("\u{3000}x\u{a0}"), "x");
    assert_eq!(line_count(b""), 0);
    assert_eq!(line_count(b"abc"), 1);
    assert_eq!(line_count(b"a\nb\n"), 2);
    assert_eq!(line_count(b"a\nb"), 1);
    assert_eq!(codepoint_to_byte("aéb", 2), 3);
    assert_eq!(codepoint_to_byte("aéb", 9), 4);
}

#[test]
fn defaults() {
    assert!(!CachedState::default().multiline);
    assert_eq!(EditingMode::default(), EditingMode::Std);
}

#[test]
fn stdin_end_while_paused_is_taken_on_resume() {
    let mut c = StdinController::new(false);
    stdin_controller_task(&mut c, ControllerEvent::Read(b"ab".to_vec()));
    stdin_controller_task(&mut c, ControllerEvent::Control(StdinControllerAction::Toggle));
    assert!(stdin_controller_task(&mut c, ControllerEvent::ReaderCompleted).is_empty());
    assert!(!c.finished);
    let out = stdin_controller_task(&mut c, ControllerEvent::Control(StdinControllerAction::Toggle));
    assert_eq!(out.len(), 3);
    assert!(is_continue(&out[0]));
    assert!(matches!(out[1], ControllerOutput::StdinCompleted));
    assert_eq!(update_bytes(&out), vec![b"ab".to_vec()]);
    assert!(c.finished);
}

#[test]
fn splitting_the_command_gives_the_steps() {
    let steps = vec!["ls -la ".to_string(), " grep a".to_string(), "".to_string()];
    let r = Rura::from(steps.clone());
    assert_eq!(r.to_string(), "ls -la | grep a|");
    assert_eq!(r.to_string().split('|').map(String::from).collect::<Vec<_>>(), steps);
}
