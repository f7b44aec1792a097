//! A one-line text input that completes the word before its cursor with
//! candidates from the shell, cycling through them on repeated requests.
use crate::completion::{
    cycle_index, cycled, splice_completion, spliced_bytes, Completer, CompletionQuery, CompletionResult, CompletionType,
};
use crate::text::to_owned_string;
use crate::text_input::{edit_line, fresh_line, key_edits, KeyPress};
use tui_input::Input;
use crate::rura_widget::{check_splice, completion_usable, visual_cursor, visual_cursor_of};
use vstd::prelude::*;
use vstd::string::*;
use vstd::utf8::encode_utf8;

verus! {

/// The text, the cursor (a character position), the candidates being cycled
/// through with the one shown, and what kind of candidates to ask for.
pub struct CompletableInput {
    pub value: String,
    pub cursor: usize,
    pub completions: Option<(CompletionResult, usize)>,
    pub kind: CompletionType,
    /// The line editor behind the text, which keeps what cutting keys cut.
    pub line: Input,
    /// Every request made to the completer, in order.
    pub queries: Ghost<Seq<CompletionQuery>>,
}

/// The text and cursor after showing candidate `index` of `res` in `value`:
/// the word before the display cursor `cursor_pos` is replaced by it, and
/// the cursor follows it.
pub open spec fn shows_candidate_text(
    new_value: Seq<char>,
    new_cursor: nat,
    value: Seq<char>,
    res: CompletionResult,
    index: int,
    cursor_pos: nat,
) -> bool {
    let c = res.completions@[index]@;
    &&& encode_utf8(new_value) == spliced_bytes(value, res.word_start as nat, c, cursor_pos)
    &&& new_cursor as int == if res.word_start + encode_utf8(c).len() <= new_value.len() {
        res.word_start + encode_utf8(c).len()
    } else {
        new_value.len() as int
    }
}

/// The text, cursor and candidates after taking the candidates `found`
/// that the completer gave for the display cursor `cursor_pos` in `old`: the
/// first (`next`) or the last one is shown when it can replace the word;
/// otherwise nothing changes and no candidates are kept.
pub open spec fn accepts_in(old: CompletableInput, new: CompletableInput, found: Option<CompletionResult>, next: bool, cursor_pos: nat) -> bool {
    let unchanged = new.value == old.value && new.cursor == old.cursor && new.completions is None;
    match found {
        Some(res) => {
            let i = if next { 0 } else { res.completions@.len() - 1 };
            if res.completions@.len() > 0 && completion_usable(old.value@, res, i, cursor_pos) {
                &&& shows_candidate_text(new.value@, new.cursor as nat, old.value@, res, i, cursor_pos)
                &&& new.completions matches Some((r, j)) && r == res && j == i
            } else {
                unchanged
            }
        },
        None => unchanged,
    }
}

/// `new` is `old` after a request for the next (`next`) or previous
/// completion candidate: while cycling, the kept candidates are used;
/// otherwise the candidates come from the completer (`new.completions`
/// tells which), and the first (or last) is shown; nothing changes when no
/// candidate is usable.
pub open spec fn input_completes(old: CompletableInput, new: CompletableInput, next: bool) -> bool {
    let cursor_pos = visual_cursor_of(old.value@, old.cursor as nat) as nat;
    match old.completions {
        Some((res, index)) => {
            let n = res.completions@.len() as int;
            let i = cycled(index as int, n, next);
            if index < n && completion_usable(old.value@, res, i, cursor_pos) {
                &&& shows_candidate_text(new.value@, new.cursor as nat, old.value@, res, i, cursor_pos)
                &&& new.completions == Some((res, i as usize))
            } else {
                &&& new.value == old.value
                &&& new.cursor == old.cursor
                &&& new.completions == old.completions
            }
        },
        None => match new.completions {
            Some((res, i)) => {
                &&& i == if next { 0 } else { res.completions@.len() - 1 }
                &&& completion_usable(old.value@, res, i as int, cursor_pos)
                &&& shows_candidate_text(new.value@, new.cursor as nat, old.value@, res, i as int, cursor_pos)
            },
            None => {
                &&& new.value == old.value
                &&& new.cursor == old.cursor
            },
        },
    }
}

/// `new` is `old` after a request for the next (`next`) or previous
/// candidate, with the completer's part: while cycling it is not asked;
/// otherwise it is asked once, with the text and the display cursor, and
/// its answer is taken as `accepts_in` says.
pub open spec fn input_completion_request(old: CompletableInput, new: CompletableInput, next: bool) -> bool {
    let cursor_pos = visual_cursor_of(old.value@, old.cursor as nat);
    &&& input_completes(old, new, next)
    &&& match old.completions {
        Some(_) => new.queries == old.queries,
        None => {
            &&& new.queries@.len() == old.queries@.len() + 1
            &&& new.queries@.drop_last() == old.queries@
            &&& new.queries@.last().input == old.value@
            &&& new.queries@.last().cursor_pos == cursor_pos
            &&& accepts_in(old, new, new.queries@.last().found, next, cursor_pos as nat)
        },
    }
}

impl CompletableInput {
    /// An input holding `value`, with the cursor at its end, that completes
    /// file names only.
    pub fn file_only(value: &str) -> (r: CompletableInput)
        ensures
            r.value@ == value@,
            r.cursor == value@.len(),
            r.completions is None,
            r.kind is File,
            r.queries@.len() == 0,
    {
        CompletableInput {
            value: to_owned_string(value),
            cursor: value.unicode_len(),
            completions: None,
            kind: CompletionType::File,
            line: fresh_line(),
            queries: Ghost(Seq::empty()),
        }
    }

    /// The cursor, as a character position.
    pub fn cursor(&self) -> (c: usize)
        ensures
            c == self.cursor,
    {
        self.cursor
    }

    /// The text.
    pub fn value(&self) -> (v: &str)
        ensures
            v@ == self.value@,
    {
        self.value.as_str()
    }

    /// The display width of the text before the cursor.
    pub fn visual_cursor(&self) -> (c: usize)
        ensures
            c == visual_cursor_of(self.value@, self.cursor as nat),
    {
        visual_cursor(self.value.as_str(), self.cursor)
    }

    /// Forgets the candidates.
    pub fn clear_completions(&mut self)
        ensures
            final(self).completions is None,
            final(self).value == old(self).value,
            final(self).cursor == old(self).cursor,
            final(self).kind == old(self).kind,
            final(self).queries == old(self).queries,
    {
        self.completions = None;
    }

    /// Edits the text by a key press (see `key_edits`); the candidates are
    /// forgotten. Returns whether the edit touched the text, as the line
    /// editor reports it.
    pub fn handle_key(&mut self, key: KeyPress) -> (changed: bool)
        ensures
            final(self).completions is None,
            final(self).kind == old(self).kind,
            final(self).queries == old(self).queries,
            key_edits(old(self).value@, old(self).cursor as nat, key, final(self).value@, final(self).cursor as nat, changed),
    {
        self.completions = None;
        let value = self.value.clone();
        let (v, c, changed) = edit_line(&mut self.line, value, self.cursor, key);
        self.value = v;
        self.cursor = c;
        changed
    }


    /// Takes an edit of the text: the candidates are forgotten.
    pub fn edited(&mut self, value: String, cursor: usize)
        ensures
            final(self).value == value,
            final(self).cursor == cursor,
            final(self).completions is None,
            final(self).kind == old(self).kind,
            final(self).queries == old(self).queries,
    {
        self.value = value;
        self.cursor = cursor;
        self.completions = None;
    }

    fn show_candidate(&mut self, res: CompletionResult, index: usize, cursor_pos: usize)
        requires
            completion_usable(old(self).value@, res, index as int, cursor_pos as nat),
        ensures
            shows_candidate_text(final(self).value@, final(self).cursor as nat, old(self).value@, res, index as int, cursor_pos as nat),
            final(self).completions == Some((res, index)),
            final(self).kind == old(self).kind,
            final(self).queries == old(self).queries,
    {
        let (v, c) = splice_completion(self.value.as_str(), res.word_start, res.completions[index].as_str(), cursor_pos);
        self.value = v;
        self.cursor = c;
        self.line = fresh_line();
        self.completions = Some((res, index));
    }

    /// Shows the next candidate (`next`) or the previous one. While cycling,
    /// the candidates kept are used; otherwise `completer` is asked for
    /// candidates at the display cursor, and the first (or last) is shown.
    /// Nothing changes when there is no usable candidate.
    pub fn complete<C: Completer>(&mut self, next: bool, completer: &C)
        ensures
            final(self).kind == old(self).kind,
            input_completion_request(*old(self), *final(self), next),
    {
        let cursor_pos = visual_cursor(self.value.as_str(), self.cursor);
        match self.completions.take() {
            Some((res, index)) => {
                let n = res.completions.len();
                if index < n {
                    let i = cycle_index(index, n, next);
                    if check_splice(self.value.as_str(), res.word_start, res.completions[i].as_str(), cursor_pos) {
                        self.show_candidate(res, i, cursor_pos);
                        return;
                    }
                }
                self.completions = Some((res, index));
            },
            None => {
                let found = completer.completions(self.value.as_str(), cursor_pos);
                let ghost query = CompletionQuery { input: self.value@, cursor_pos, found };
                self.queries = Ghost(self.queries@.push(query));
                proof {
                    assert(self.queries@.drop_last() =~= old(self).queries@);
                }
                self.accept_completions(found, next, cursor_pos);
            },
        }
    }

    /// Takes the candidates `found` that the completer gave for the display
    /// cursor `cursor_pos`; see `accepts_in`.
    pub fn accept_completions(&mut self, found: Option<CompletionResult>, next: bool, cursor_pos: usize)
        ensures
            accepts_in(*old(self), *final(self), found, next, cursor_pos as nat),
            final(self).kind == old(self).kind,
            final(self).queries == old(self).queries,
    {
        self.completions = None;
        match found {
            Some(res) => {
                let n = res.completions.len();
                if n > 0 {
                    let i = if next { 0 } else { n - 1 };
                    if check_splice(self.value.as_str(), res.word_start, res.completions[i].as_str(), cursor_pos) {
                        self.show_candidate(res, i, cursor_pos);
                    }
                }
            },
            None => {},
        }
    }
}

impl From<String> for CompletableInput {
    /// An input holding `value`, with the cursor at its end, that completes
    /// commands.
    fn from(value: String) -> (r: Self)
        ensures
            r.value == value,
            r.cursor == value@.len(),
            r.completions is None,
            r.kind is Command,
            r.queries@.len() == 0,
    {
        let cursor = value.as_str().unicode_len();
        CompletableInput { value, cursor, completions: None, kind: CompletionType::Command, line: fresh_line(), queries: Ghost(Seq::empty()) }
    }
}

impl vstd::std_specs::convert::FromSpecImpl<String> for CompletableInput {
    /// The line editor inside is made by an outside call, so the result is
    /// stated by the `ensures` of `from` instead.
    open spec fn obeys_from_spec() -> bool {
        false
    }

    open spec fn from_spec(v: String) -> Self {
        arbitrary()
    }
}

impl From<&str> for CompletableInput {
    /// An input holding `value`, with the cursor at its end, that completes
    /// commands.
    fn from(value: &str) -> (r: Self)
        ensures
            r.value@ == value@,
            r.cursor == value@.len(),
            r.completions is None,
            r.kind is Command,
            r.queries@.len() == 0,
    {
        CompletableInput {
            value: to_owned_string(value),
            cursor: value.unicode_len(),
            completions: None,
            kind: CompletionType::Command,
            line: fresh_line(),
            queries: Ghost(Seq::empty()),
        }
    }
}

impl vstd::std_specs::convert::FromSpecImpl<&str> for CompletableInput {
    /// A `String` cannot be built from a `&str` in a specification, so the
    /// result is stated by the `ensures` of `from` instead.
    open spec fn obeys_from_spec() -> bool {
        false
    }

    open spec fn from_spec(v: &str) -> Self {
        arbitrary()
    }
}

} // verus!
