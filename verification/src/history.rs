//! The command history: earlier commands, most recent first, browsed with
//! "previous" and "next" while the text being edited is kept aside.
use crate::text::{lines_of, split_lines, str_trim, strings_view, to_owned_string, trim_chars};
use std::collections::VecDeque;
use vstd::prelude::*;
use vstd::string::*;

verus! {

/// Earlier commands, most recent first; the position being shown while
/// browsing; and the text that was being edited when browsing started.
pub struct History {
    history: VecDeque<String>,
    position: Option<usize>,
    current: Option<String>,
}

/// A history as plain values.
pub struct HistoryState {
    pub items: Seq<Seq<char>>,
    pub position: Option<int>,
    pub current: Option<Seq<char>>,
}

impl HistoryState {
    /// The position, when there is one, is an entry of the history.
    pub open spec fn wf(self) -> bool {
        self.position matches Some(p) ==> 0 <= p < self.items.len()
    }
}

impl View for History {
    type V = HistoryState;

    closed spec fn view(&self) -> HistoryState {
        HistoryState {
            items: self.history@.map_values(|s: String| s@),
            position: match self.position {
                Some(p) => Some(p as int),
                None => None,
            },
            current: match self.current {
                Some(s) => Some(s@),
                None => None,
            },
        }
    }
}

/// Going back one entry from `s` while editing `current`: the first step
/// keeps `current` aside and shows the most recent entry, or the one before
/// it when the most recent one is `current` itself; later steps go one entry
/// further back, and stay on the oldest one. An empty history gives
/// `current` back.
pub open spec fn previous_spec(s: HistoryState, current: Seq<char>) -> (HistoryState, Seq<char>) {
    if s.items.len() == 0 {
        (s, current)
    } else {
        match s.position {
            None => {
                let p = if s.items[0] == current && s.items.len() > 1 { 1int } else { 0int };
                (HistoryState { items: s.items, position: Some(p), current: Some(current) }, s.items[p])
            },
            Some(p) => {
                let q = if p + 1 < s.items.len() { p + 1 } else { s.items.len() - 1 };
                (HistoryState { items: s.items, position: Some(q), current: s.current }, s.items[q])
            },
        }
    }
}

/// Going forward one entry from `s`: from the most recent entry back to the
/// text kept aside (empty when none was), which ends browsing; when not
/// browsing, `current` is given back.
pub open spec fn next_spec(s: HistoryState, current: Seq<char>) -> (HistoryState, Seq<char>) {
    match s.position {
        None => (s, current),
        Some(p) => if p == 0 {
            (
                HistoryState { items: s.items, position: None, current: None },
                match s.current {
                    Some(c) => c,
                    None => Seq::empty(),
                },
            )
        } else {
            (HistoryState { items: s.items, position: Some(p - 1), current: s.current }, s.items[p - 1])
        },
    }
}

/// Whether `value` becomes a new entry: it does unless it equals the most
/// recent entry once both are trimmed.
pub open spec fn push_adds(s: HistoryState, value: Seq<char>) -> bool {
    s.items.len() == 0 || trim_chars(s.items[0]) != trim_chars(value)
}

/// Recording `value`: browsing ends, the text kept aside becomes empty, and
/// `value` becomes the most recent entry unless it repeats it.
pub open spec fn push_spec(s: HistoryState, value: Seq<char>) -> HistoryState {
    HistoryState {
        items: if push_adds(s, value) { seq![value] + s.items } else { s.items },
        position: None,
        current: Some(Seq::empty()),
    }
}

/// The entries of a history file of these lines, most recent first: its
/// non-empty lines, the last one first.
pub open spec fn stored_items(lines: Seq<Seq<char>>) -> Seq<Seq<char>>
    decreases lines.len(),
{
    if lines.len() == 0 {
        Seq::empty()
    } else {
        let rest = stored_items(lines.drop_last());
        if lines.last().len() == 0 {
            rest
        } else {
            seq![lines.last()] + rest
        }
    }
}

/// Going back once from the text being edited and then forward once gives
/// that text back.
pub proof fn law_previous_then_next_restores_edited_text(s: HistoryState, current: Seq<char>)
    requires
        s.wf(),
        s.position is None,
    ensures
        ({
            let (s1, r1) = previous_spec(s, current);
            next_spec(s1, r1).1 == current
        }),
{
}

/// While browsing, going forward undoes going back, unless going back stayed
/// on the oldest entry.
pub proof fn law_next_undoes_previous(s: HistoryState, shown: Seq<char>, edited: Seq<char>)
    requires
        s.wf(),
        s.position matches Some(p) && p + 1 < s.items.len(),
    ensures
        ({
            let p = s.position->0;
            next_spec(previous_spec(s, shown).0, edited) == (s, s.items[p])
        }),
{
}

/// Going back from the oldest entry stays on it.
pub proof fn law_previous_stays_on_oldest(s: HistoryState, shown: Seq<char>)
    requires
        s.wf(),
        s.position == Some(s.items.len() - 1),
    ensures
        previous_spec(s, shown) == (s, s.items[s.items.len() - 1]),
{
}

/// After recording a value, the most recent entry is that value up to
/// surrounding white space, and recording the same value again adds nothing.
pub proof fn law_push_is_idempotent(s: HistoryState, value: Seq<char>)
    ensures
        trim_chars(push_spec(s, value).items[0]) == trim_chars(value),
        push_spec(push_spec(s, value), value) == push_spec(s, value),
{
    let s1 = push_spec(s, value);
    if push_adds(s, value) {
        assert(s1.items[0] == value);
    }
    assert(!push_adds(s1, value));
}

/// Recording ends browsing, so the next step back starts from the most
/// recent entry again.
pub proof fn law_push_restarts_browsing(s: HistoryState, value: Seq<char>, current: Seq<char>)
    requires
        s.wf(),
        push_spec(s, value).items.len() > 1 ==> push_spec(s, value).items[0] != current,
    ensures
        previous_spec(push_spec(s, value), current).1 == push_spec(s, value).items[0],
{
    let s1 = push_spec(s, value);
    if push_adds(s, value) {
        assert(s1.items.len() > 0);
    }
}

impl History {
    /// A history of `items`, most recent first, not being browsed.
    pub fn with_items(items: VecDeque<String>) -> (h: History)
        ensures
            h@.items == items@.map_values(|s: String| s@),
            h@.position is None,
            h@.current is None,
            h@.wf(),
    {
        History { history: items, position: None, current: None }
    }

    /// The history kept in a file with this content: one command per line,
    /// oldest first; empty lines are skipped.
    pub fn from_content(content: &str) -> (h: History)
        ensures
            h@.items == stored_items(lines_of(content@)),
            h@.position is None,
            h@.current is None,
            h@.wf(),
    {
        let lines = split_lines(content);
        let mut items: VecDeque<String> = VecDeque::new();
        let mut i: usize = 0;
        while i < lines.len()
            invariant
                i <= lines@.len(),
                strings_view(lines@) == lines_of(content@),
                items@.map_values(|s: String| s@) == stored_items(strings_view(lines@).take(i as int)),
            decreases lines@.len() - i,
        {
            let ghost all = strings_view(lines@);
            let ghost before = items@.map_values(|s: String| s@);
            proof {
                assert(all.take(i + 1).drop_last() =~= all.take(i as int));
                assert(all.take(i + 1).last() == lines@[i as int]@);
            }
            let line = to_owned_string(lines[i].as_str());
            if line.as_str().unicode_len() > 0 {
                items.push_front(line);
                assert(items@.map_values(|s: String| s@) =~= seq![all[i as int]] + before);
            }
            i = i + 1;
        }
        assert(strings_view(lines@).take(lines@.len() as int) =~= strings_view(lines@));
        History { history: items, position: None, current: None }
    }

    /// Number of entries.
    pub fn len(&self) -> (n: usize)
        ensures
            n == self@.items.len(),
    {
        self.history.len()
    }

    /// The entry shown after going back one step while `current` is being
    /// edited; see `previous_spec`.
    pub fn previous(&mut self, current: &str) -> (r: String)
        requires
            old(self)@.wf(),
        ensures
            final(self)@.wf(),
            (final(self)@, r@) == previous_spec(old(self)@, current@),
    {
        if self.history.len() == 0 {
            return to_owned_string(current);
        }
        match self.position {
            None => {
                let cur = to_owned_string(current);
                let mut new_pos: usize = 0;
                if self.history[0] == cur && self.history.len() > 1 {
                    new_pos = 1;
                }
                self.current = Some(cur);
                self.position = Some(new_pos);
                let r = self.history[new_pos].clone();
                proof {
                    assert(self@.items =~= old(self)@.items);
                }
                r
            },
            Some(pos) => {
                let new_pos = if pos + 1 < self.history.len() { pos + 1 } else { self.history.len() - 1 };
                self.position = Some(new_pos);
                let r = self.history[new_pos].clone();
                proof {
                    assert(self@.items =~= old(self)@.items);
                }
                r
            },
        }
    }

    /// The entry shown after going forward one step; see `next_spec`.
    pub fn next(&mut self, current: &str) -> (r: String)
        requires
            old(self)@.wf(),
        ensures
            final(self)@.wf(),
            (final(self)@, r@) == next_spec(old(self)@, current@),
    {
        match self.position {
            None => to_owned_string(current),
            Some(pos) => {
                if pos == 0 {
                    self.position = None;
                    let kept = self.current.take();
                    proof {
                        assert(self@.items =~= old(self)@.items);
                    }
                    match kept {
                        Some(c) => c,
                        None => String::new(),
                    }
                } else {
                    let new_pos = pos - 1;
                    self.position = Some(new_pos);
                    let r = self.history[new_pos].clone();
                    proof {
                        assert(self@.items =~= old(self)@.items);
                    }
                    r
                }
            },
        }
    }

    /// Records `value`; see `push_spec`. Returns whether it became a new
    /// entry, which the caller then persists.
    pub fn push(&mut self, value: &str) -> (added: bool)
        requires
            old(self)@.wf(),
        ensures
            final(self)@.wf(),
            final(self)@ == push_spec(old(self)@, value@),
            added == push_adds(old(self)@, value@),
    {
        self.position = None;
        self.current = Some(String::new());
        let added = if self.history.len() == 0 {
            true
        } else {
            let most_recent = str_trim(self.history[0].as_str());
            let new_value = str_trim(value);
            let a = to_owned_string(most_recent);
            let b = to_owned_string(new_value);
            !(a == b)
        };
        if added {
            self.history.push_front(to_owned_string(value));
        }
        proof {
            let old_items = old(self)@.items;
            if added {
                assert(self@.items =~= seq![value@] + old_items);
            } else {
                assert(self@.items =~= old_items);
            }
        }
        added
    }
}

} // verus!
