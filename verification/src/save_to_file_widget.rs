//! The dialog that saves the command to a file: the path input, the error
//! shown, and the question whether to overwrite an existing file.
use crate::completable_input::{input_completion_request, CompletableInput};
use crate::completion::Completer;
use crate::text_input::{key_edits, KeyPress};
use crate::file_saver::{FileSaver, SaveRequest};
use crate::text::{contains_text, str_trim, text_contains, to_owned_string, trim_chars};
use vstd::prelude::*;

verus! {

/// The dialog: the saver, its title, the path input, the error of the last
/// attempt, and whether it asks to overwrite an existing file.
pub struct SaveToFileWidget<F> {
    pub file_saver: F,
    pub title: String,
    pub file_path_input: CompletableInput,
    pub error_message: Option<String>,
    pub overwrite_confirm: bool,
    /// Every request made to the saver, in order.
    pub save_requests: Ghost<Seq<SaveRequest>>,
}

/// The part of a saver's error message that tells that the file exists.
pub open spec fn file_exists_text() -> Seq<char> {
    seq!['F', 'i', 'l', 'e', ' ', 'e', 'x', 'i', 's', 't', 's']
}

/// A saver's answer as plain values: none when it saved, the error's
/// message otherwise.
pub open spec fn save_answer(outcome: Result<(), String>) -> Option<Seq<char>> {
    match outcome {
        Ok(()) => None,
        Err(e) => Some(e@),
    }
}

impl<F: FileSaver> SaveToFileWidget<F> {
    /// A dialog with an empty path that completes file names.
    pub fn new(file_saver: F, title: String) -> (w: Self)
        ensures
            w.file_saver == file_saver,
            w.title == title,
            w.file_path_input.value@.len() == 0,
            w.file_path_input.cursor == 0,
            w.file_path_input.completions is None,
            w.file_path_input.kind is File,
            w.error_message is None,
            !w.overwrite_confirm,
            w.save_requests@.len() == 0,
    {
        let empty = "";
        proof {
            reveal_strlit("");
        }
        SaveToFileWidget {
            file_saver,
            title,
            file_path_input: CompletableInput::file_only(empty),
            error_message: None,
            overwrite_confirm: false,
            save_requests: Ghost(Seq::empty()),
        }
    }

    /// Whether the dialog asks to overwrite an existing file.
    pub fn overwrite_confirm(&self) -> (b: bool)
        ensures
            b == self.overwrite_confirm,
    {
        self.overwrite_confirm
    }

    /// Drops the question and the error; the path stays.
    pub fn cancel(&mut self)
        ensures
            !final(self).overwrite_confirm,
            final(self).error_message is None,
            final(self).file_path_input == old(self).file_path_input,
            final(self).title == old(self).title,
    {
        self.clear();
    }

    /// Completes the path with the next candidate.
    pub fn complete<C: Completer>(&mut self, completer: &C)
        ensures
            input_completion_request(old(self).file_path_input, final(self).file_path_input, true),
            final(self).file_path_input.kind == old(self).file_path_input.kind,
            final(self).overwrite_confirm == old(self).overwrite_confirm,
            final(self).error_message == old(self).error_message,
    {
        self.file_path_input.complete(true, completer)
    }

    /// Completes the path with the previous candidate.
    pub fn complete_prev<C: Completer>(&mut self, completer: &C)
        ensures
            input_completion_request(old(self).file_path_input, final(self).file_path_input, false),
            final(self).file_path_input.kind == old(self).file_path_input.kind,
            final(self).overwrite_confirm == old(self).overwrite_confirm,
            final(self).error_message == old(self).error_message,
    {
        self.file_path_input.complete(false, completer)
    }

    /// Edits the path by a key press (see `CompletableInput::handle_key`),
    /// unless the dialog asks to overwrite, when the path is left as it is.
    pub fn handle_key(&mut self, key: KeyPress)
        ensures
            old(self).overwrite_confirm ==> final(self).file_path_input == old(self).file_path_input,
            !old(self).overwrite_confirm ==> {
                &&& final(self).file_path_input.completions is None
                &&& final(self).file_path_input.kind == old(self).file_path_input.kind
                &&& exists|changed: bool|
                    key_edits(
                        old(self).file_path_input.value@,
                        old(self).file_path_input.cursor as nat,
                        key,
                        final(self).file_path_input.value@,
                        final(self).file_path_input.cursor as nat,
                        changed,
                    )
            },
            final(self).overwrite_confirm == old(self).overwrite_confirm,
            final(self).error_message == old(self).error_message,
    {
        if !self.overwrite_confirm {
            self.file_path_input.handle_key(key);
        }
    }

    /// Takes an edit of the path, unless the dialog asks to overwrite, when
    /// the path is left as it is.
    pub fn handle_edit(&mut self, value: String, cursor: usize)
        ensures
            old(self).overwrite_confirm ==> final(self).file_path_input == old(self).file_path_input,
            !old(self).overwrite_confirm ==> {
                &&& final(self).file_path_input.value == value
                &&& final(self).file_path_input.cursor == cursor
                &&& final(self).file_path_input.completions is None
            },
            final(self).overwrite_confirm == old(self).overwrite_confirm,
            final(self).error_message == old(self).error_message,
    {
        if !self.overwrite_confirm {
            self.file_path_input.edited(value, cursor);
        }
    }

    /// The path that a save uses: the input without surrounding white space.
    pub fn save_path(&self) -> (p: String)
        ensures
            p@ == trim_chars(self.file_path_input.value@),
    {
        to_owned_string(str_trim(self.file_path_input.value.as_str()))
    }

    /// Saves `content` to the path of the input. On success the question
    /// and the error are dropped and `true` is returned; on failure the
    /// error is shown, and the dialog asks to overwrite when the file exists.
    pub fn confirm(&mut self, content: Vec<u8>, executable: bool, overwrite: bool) -> (saved: bool)
        ensures
            final(self).file_path_input == old(self).file_path_input,
            final(self).save_requests@.len() == old(self).save_requests@.len() + 1,
            final(self).save_requests@.drop_last() == old(self).save_requests@,
            ({
                let req = final(self).save_requests@.last();
                &&& req.path == trim_chars(old(self).file_path_input.value@)
                &&& req.content == content@
                &&& req.executable == executable
                &&& req.overwrite == overwrite
                &&& exists|p: String, out: Result<(), String>|
                    p@ == req.path && save_answer(out) == req.answer && #[trigger] call_ensures(
                        F::save,
                        (&old(self).file_saver, p, content, executable, overwrite),
                        out,
                    )
                &&& saved == (req.answer is None)
                &&& match req.answer {
                    None => !final(self).overwrite_confirm && final(self).error_message is None,
                    Some(m) => {
                        &&& final(self).error_message matches Some(e) && e@ == m
                        &&& final(self).overwrite_confirm == (old(self).overwrite_confirm || contains_text(m, file_exists_text()))
                    },
                }
            }),
    {
        let path = self.save_path();
        let ghost request = (path@, content@);
        let outcome = self.file_saver.save(path, content, executable, overwrite);
        let ghost answer = save_answer(outcome);
        self.save_requests = Ghost(self.save_requests@.push(SaveRequest {
            path: request.0,
            content: request.1,
            executable,
            overwrite,
            answer,
        }));
        proof {
            assert(self.save_requests@.drop_last() =~= old(self).save_requests@);
        }
        self.apply_save_outcome(outcome)
    }

    /// Takes the outcome of a save: see `confirm`.
    pub fn apply_save_outcome(&mut self, outcome: Result<(), String>) -> (saved: bool)
        ensures
            final(self).file_path_input == old(self).file_path_input,
            final(self).save_requests == old(self).save_requests,
            saved == outcome is Ok,
            match outcome {
                Ok(()) => !final(self).overwrite_confirm && final(self).error_message is None,
                Err(e) => {
                    &&& final(self).error_message == Some(e)
                    &&& final(self).overwrite_confirm == (old(self).overwrite_confirm || contains_text(e@, file_exists_text()))
                },
            },
    {
        match outcome {
            Ok(()) => {
                self.clear();
                true
            },
            Err(e) => {
                let marker = "File exists";
                proof {
                    reveal_strlit("File exists");
                    assert(marker@ =~= file_exists_text());
                }
                if text_contains(e.as_str(), marker) {
                    self.overwrite_confirm = true;
                }
                self.error_message = Some(e);
                false
            },
        }
    }

    /// Rows of the popup: one more when an error is shown.
    pub fn popup_height(&self) -> (h: u16)
        ensures
            h == if self.error_message is Some { 7u16 } else { 6u16 },
    {
        if self.error_message.is_some() {
            7
        } else {
            6
        }
    }

    /// How far the path is scrolled left in a field `width` columns wide:
    /// the cursor's excess over the width (as a 16-bit value).
    pub fn input_shift(&self, width: u16) -> (s: u16)
        ensures
            s == (if self.file_path_input.cursor >= width { (self.file_path_input.cursor - width) as usize } else { 0usize }) as u16,
    {
        let c = self.file_path_input.cursor;
        let w = width as usize;
        let shift: usize = if c >= w { c - w } else { 0 };
        shift as u16
    }

    /// Where the terminal cursor goes for a path field whose text starts at
    /// column `x` of row `y` and is `width` columns wide, inside a box
    /// starting at column `box_x`: after the text before the cursor, but not
    /// past the field; none while the dialog asks to overwrite.
    pub fn cursor_position(&self, x: u16, y: u16, width: u16, box_x: u16) -> (p: Option<(u16, u16)>)
        requires
            x + (self.file_path_input.cursor as u16) <= u16::MAX,
            width + box_x <= u16::MAX,
        ensures
            self.overwrite_confirm ==> p is None,
            !self.overwrite_confirm ==> p == Some((
                if x + (self.file_path_input.cursor as u16) <= width + box_x {
                    (x + (self.file_path_input.cursor as u16)) as u16
                } else {
                    (width + box_x) as u16
                },
                y,
            )),
    {
        if self.overwrite_confirm {
            None
        } else {
            let at = x + (self.file_path_input.cursor as u16);
            let limit = width + box_x;
            Some((if at <= limit { at } else { limit }, y))
        }
    }

    fn clear(&mut self)
        ensures
            !final(self).overwrite_confirm,
            final(self).error_message is None,
            final(self).file_path_input == old(self).file_path_input,
            final(self).title == old(self).title,
            final(self).save_requests == old(self).save_requests,
    {
        self.overwrite_confirm = false;
        self.error_message = None;
    }
}

} // verus!
