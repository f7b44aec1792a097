use rura::history::History;
use std::collections::VecDeque;

fn history_of(items: Vec<&str>) -> History {
    History::with_items(VecDeque::from(items.into_iter().map(String::from).collect::<Vec<_>>()))
}

#[test]
fn test_empty_history() {
    let mut history = history_of(vec![]);

    assert_eq!(history.previous("current"), "current");
    assert_eq!(history.next("current"), "current");
}

#[test]
fn test_history_init() {
    let mut history = history_of(vec!["test1", "test2", "test3"]);

    assert_eq!(history.len(), 3);

    let item = history.next("current");
    assert_eq!(item, "current");

    let item = history.previous(&item);
    assert_eq!(item, "test1");

    let item = history.previous(&item);
    assert_eq!(item, "test2");

    let item = history.previous(&item);
    assert_eq!(item, "test3");

    let item = history.previous(&item);
    assert_eq!(item, "test3"); // stays on the oldest value

    let item = history.next(&item);
    assert_eq!(item, "test2");

    let item = history.next(&format!("{item} edited")); // edit for non-current item will be ignored
    assert_eq!(item, "test1");

    let item = history.next(&item);
    assert_eq!(item, "current");

    let item = history.previous("current edited");
    assert_eq!(item, "test1");

    let item = history.next(&item);
    assert_eq!(item, "current edited");

    let _item = history.push(&item);

    let item = history.previous(&item);
    assert_eq!(item, "test1");

    let item = history.previous(&item);
    assert_eq!(item, "test2");

    let item = history.next(&item);
    assert_eq!(item, "test1");

    let item = history.next(&item);
    assert_eq!(item, "current edited");

    let item = history.next(&item);
    assert_eq!(item, "current edited");
}

#[test]
fn history_previous_skips_most_recent_equal_to_current() {
    let mut history = history_of(vec!["ls", "cat x"]);
    assert_eq!(history.previous("ls"), "cat x");
    // forward once gives the most recent entry, which equals the edited text
    assert_eq!(history.next("cat x"), "ls");
    assert_eq!(history.next("ls"), "ls");
}

#[test]
fn history_single_entry_equal_to_current_is_shown() {
    let mut history = history_of(vec!["ls"]);
    assert_eq!(history.previous("ls"), "ls");
    assert_eq!(history.next("ls"), "ls");
}

#[test]
fn history_push_skips_duplicate_after_trim() {
    let mut history = history_of(vec!["ls -la"]);
    assert!(!history.push("  ls -la \t"));
    assert_eq!(history.len(), 1);
    assert!(history.push("ls -la | wc"));
    assert_eq!(history.len(), 2);
    assert_eq!(history.previous(""), "ls -la | wc");
}

#[test]
fn history_push_into_empty_adds() {
    let mut history = history_of(vec![]);
    assert!(history.push("echo"));
    assert_eq!(history.len(), 1);
    // pushing sets the kept text to empty: going back and forth returns ""
    assert_eq!(history.next("x"), "x");
}

#[test]
fn history_next_after_push_returns_empty_kept_text() {
    let mut history = history_of(vec!["a", "b"]);
    history.push("c");
    assert_eq!(history.previous("typed"), "c");
    assert_eq!(history.next("c"), "typed");
}

#[test]
fn history_from_file_content_most_recent_first() {
    let mut history = History::from_content("first\n\nsecond\r\nthird\n");
    assert_eq!(history.len(), 3);
    assert_eq!(history.previous(""), "third");
    assert_eq!(history.previous("third"), "second");
    assert_eq!(history.previous("second"), "first");
    assert_eq!(History::from_content("").len(), 0);
}
