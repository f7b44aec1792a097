//! The search bar over the output: the query, case sensitivity, and which
//! match of how many is highlighted.
use crate::text::{decimal, push_decimal, push_str};
use crate::text_input::{edit_line, fresh_line, key_edits, modifier_bits, Key, KeyPress};
use tui_input::Input;
use vstd::prelude::*;

verus! {

/// The query with its cursor (a character position), whether the search is
/// case sensitive, the highlighted match (counted from 0) and the number of
/// matches.
pub struct SearchWidget {
    pub query: String,
    pub cursor: usize,
    pub case_sensitive: bool,
    pub current: usize,
    pub total: usize,
    /// The line editor behind the query, which keeps what cutting keys cut.
    pub line: Input,
}

/// The title of the search bar: the highlighted match counted from 1 (0
/// when there is none), the number of matches, and `[Cc]` when the search
/// is case sensitive, `Cc` otherwise.
pub open spec fn search_title(current: nat, total: nat, case_sensitive: bool) -> Seq<char> {
    " Search: "@ + decimal(if total == 0 { 0 } else { current + 1 }) + " / "@ + decimal(total) + " | "@
        + (if case_sensitive { "[Cc]"@ } else { "Cc"@ }) + " "@
}

impl Default for SearchWidget {
    /// An empty, case-insensitive search with no match.
    fn default() -> (w: SearchWidget)
        ensures
            w.query@.len() == 0,
            w.cursor == 0,
            !w.case_sensitive,
            w.current == 0,
            w.total == 0,
    {
        SearchWidget { query: String::new(), cursor: 0, case_sensitive: false, current: 0, total: 0, line: fresh_line() }
    }
}

impl SearchWidget {
    /// Switches case sensitivity.
    pub fn toggle_case_sensitive(&mut self)
        ensures
            final(self).case_sensitive == !old(self).case_sensitive,
            final(self).query == old(self).query,
            final(self).cursor == old(self).cursor,
            final(self).current == old(self).current,
            final(self).total == old(self).total,
    {
        self.case_sensitive = !self.case_sensitive;
    }

    /// Handles a key press: `c` with Alt alone switches case sensitivity;
    /// any other key edits the query (see `key_edits`).
    pub fn handle_key(&mut self, key: KeyPress)
        ensures
            final(self).current == old(self).current,
            final(self).total == old(self).total,
            key.key == Key::Char('c') && modifier_bits(key) == 4 ==> {
                &&& final(self).case_sensitive == !old(self).case_sensitive
                &&& final(self).query == old(self).query
                &&& final(self).cursor == old(self).cursor
            },
            !(key.key == Key::Char('c') && modifier_bits(key) == 4) ==> {
                &&& final(self).case_sensitive == old(self).case_sensitive
                &&& exists|changed: bool|
                    key_edits(old(self).query@, old(self).cursor as nat, key, final(self).query@, final(self).cursor as nat, changed)
            },
    {
        let bits = key.bits();
        if key.key == Key::Char('c') && bits == 4 {
            self.toggle_case_sensitive();
            return;
        }
        let query = self.query.clone();
        let (v, c, changed) = edit_line(&mut self.line, query, self.cursor, key);
        self.query = v;
        self.cursor = c;
        assert(key_edits(old(self).query@, old(self).cursor as nat, key, self.query@, self.cursor as nat, changed));
    }

    /// Takes an edit of the query.
    pub fn edited(&mut self, query: String, cursor: usize)
        ensures
            final(self).query == query,
            final(self).cursor == cursor,
            final(self).case_sensitive == old(self).case_sensitive,
            final(self).current == old(self).current,
            final(self).total == old(self).total,
    {
        self.query = query;
        self.cursor = cursor;
    }

    /// Records which match is highlighted (`info.0`) among how many
    /// (`info.1`).
    pub fn update_highlight_info(&mut self, info: (usize, usize))
        ensures
            final(self).current == info.0,
            final(self).total == info.1,
            final(self).query == old(self).query,
            final(self).cursor == old(self).cursor,
            final(self).case_sensitive == old(self).case_sensitive,
    {
        self.current = info.0;
        self.total = info.1;
    }

    /// The title of the search bar.
    pub fn title(&self) -> (t: String)
        requires
            self.total == 0 || self.current < usize::MAX,
        ensures
            t@ == search_title(self.current as nat, self.total as nat, self.case_sensitive),
    {
        let mut t = String::new();
        push_str(&mut t, " Search: ");
        let shown: usize = if self.total == 0 { 0 } else { self.current + 1 };
        push_decimal(&mut t, shown as u128);
        push_str(&mut t, " / ");
        push_decimal(&mut t, self.total as u128);
        push_str(&mut t, " | ");
        if self.case_sensitive {
            push_str(&mut t, "[Cc]");
        } else {
            push_str(&mut t, "Cc");
        }
        push_str(&mut t, " ");
        t
    }
}

} // verus!
