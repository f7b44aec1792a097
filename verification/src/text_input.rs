//! Editing a line of text with the keyboard, and the editing styles of the
//! command input.
use crossterm::event::{Event, KeyCode, KeyEvent, KeyModifiers};
use tui_input::backend::crossterm::to_input_request;
use tui_input::Input;
use vstd::prelude::*;

verus! {

/// How keys edit the command: the standard way, or as in Vim.
#[derive(Clone, Copy, Debug, PartialEq, Eq, Structural)]
pub enum EditingMode {
    Std,
    Vim,
}

impl Default for EditingMode {
    /// The standard way.
    fn default() -> (m: EditingMode)
        ensures
            m == EditingMode::Std,
    {
        EditingMode::Std
    }
}

/// The mode of a modal input: typing text, or giving commands.
#[derive(Clone, Copy, Debug, PartialEq, Eq, Structural)]
pub enum ModalInputMode {
    Insert,
    Normal,
}

/// A key, as line editing reads it: a character, an editing or moving key,
/// or any other key.
#[derive(Clone, Copy, Debug, PartialEq, Eq, Structural)]
pub enum Key {
    Char(char),
    Backspace,
    Delete,
    Left,
    Right,
    Home,
    End,
    Other,
}

/// A key pressed with the modifiers held.
#[derive(Clone, Copy, Debug, PartialEq, Eq, Structural)]
pub struct KeyPress {
    pub key: Key,
    pub ctrl: bool,
    pub alt: bool,
    pub shift: bool,
    pub meta: bool,
}

/// The modifiers of a key press as the terminal library's bits: shift 1,
/// control 2, alt 4, meta 32.
pub open spec fn modifier_bits(k: KeyPress) -> u8 {
    ((if k.shift { 1int } else { 0 }) + (if k.ctrl { 2int } else { 0 }) + (if k.alt { 4int } else { 0 }) + (if k.meta {
        32int
    } else {
        0
    })) as u8
}

impl KeyPress {
    /// The modifiers as bits; see `modifier_bits`.
    pub fn bits(&self) -> (b: u8)
        ensures
            b == modifier_bits(*self),
    {
        let shift: u8 = if self.shift { 1 } else { 0 };
        let ctrl: u8 = if self.ctrl { 2 } else { 0 };
        let alt: u8 = if self.alt { 4 } else { 0 };
        let meta: u8 = if self.meta { 32 } else { 0 };
        shift + ctrl + alt + meta
    }
}

#[verifier::external_type_specification]
#[verifier::external_body]
pub struct ExInput(Input);

/// A new `tui_input` line (`Input::default`): it carries the yank buffer
/// that cutting keys fill and the yank key empties into the text. Its state
/// is opaque here, and nothing is claimed of it.
#[verifier::external_body]
pub(crate) fn fresh_line() -> Input {
    Input::default()
}

/// Whether the key press is the one `tui_input` turns into a yank: `y` with
/// Control alone.
pub open spec fn yanks(key: Key, modifiers: u8) -> bool {
    key == Key::Char('y') && modifiers == 2
}

/// Whether `new_value`, with its cursor at `new_cursor`, is `value` with
/// some non-empty text inserted at the cursor `cursor` (taken at most at the
/// end of the text), the cursor following it.
pub open spec fn inserted_at_cursor(value: Seq<char>, cursor: nat, new_value: Seq<char>, new_cursor: nat) -> bool {
    let at = if cursor <= value.len() { cursor as int } else { value.len() as int };
    exists|y: Seq<char>|
        y.len() > 0 && #[trigger] (value.take(at) + y + value.skip(at)) == new_value && new_cursor == at + y.len()
}

/// `tui_input`'s editing of a line holding `value`, with its cursor at
/// character `cursor`, by the key `key` with the modifier bits `modifiers`,
/// for any key but the yank key: the text, the cursor and whether the edit
/// touched the text; none when the key is no edit or has nothing to do.
pub uninterp spec fn edit_by_key(value: Seq<char>, cursor: nat, key: Key, modifiers: u8) -> Option<(Seq<char>, nat, bool)>;

/// `tui_input`'s line editing: `line` is set to `value` with its cursor at
/// `cursor` (`with_value`, `with_cursor`, which keep its yank buffer), then
/// `backend::crossterm::to_input_request` turns the key press into an edit
/// request and `Input::handle` applies it. Except for the yank key, the
/// result depends on the text, the cursor and the key alone, and is named
/// `edit_by_key`. The yank key inserts the yank buffer, when it holds
/// something, at the cursor (taken at most at the end of the text), which
/// then follows it; what the buffer holds is not claimed.
#[verifier::external_body]
pub(crate) fn tui_edit(line: &mut Input, value: &str, cursor: usize, key: Key, modifiers: u8) -> (r: Option<(String, usize, bool)>)
    ensures
        !yanks(key, modifiers) ==> match r {
            Some((v, c, changed)) => edit_by_key(value@, cursor as nat, key, modifiers) == Some((v@, c as nat, changed)),
            None => edit_by_key(value@, cursor as nat, key, modifiers) is None,
        },
        yanks(key, modifiers) ==> (r matches Some((v, c, changed)) ==> changed && inserted_at_cursor(
            value@,
            cursor as nat,
            v@,
            c as nat,
        )),
{
    let code = match key {
        Key::Char(c) => KeyCode::Char(c),
        Key::Backspace => KeyCode::Backspace,
        Key::Delete => KeyCode::Delete,
        Key::Left => KeyCode::Left,
        Key::Right => KeyCode::Right,
        Key::Home => KeyCode::Home,
        Key::End => KeyCode::End,
        Key::Other => KeyCode::Null,
    };
    let event = Event::Key(KeyEvent::new(code, KeyModifiers::from_bits_truncate(modifiers)));
    *line = line.clone().with_value(value.to_owned()).with_cursor(cursor);
    let handled = match to_input_request(&event) { Some(req) => line.handle(req), None => None };
    match handled { Some(s) => Some((line.value().to_owned(), line.cursor(), s.value)), None => None }
}

/// The text and cursor after a key press edits a line holding `value` with
/// its cursor at `cursor`, and whether the text was touched (`changed`);
/// `changed` is false and nothing moves when the key does nothing. For the
/// yank key, the yank buffer is inserted at the cursor.
pub open spec fn key_edits(value: Seq<char>, cursor: nat, key: KeyPress, new_value: Seq<char>, new_cursor: nat, changed: bool) -> bool {
    if yanks(key.key, modifier_bits(key)) {
        if changed {
            inserted_at_cursor(value, cursor, new_value, new_cursor)
        } else {
            new_value == value && new_cursor == cursor
        }
    } else {
        match edit_by_key(value, cursor, key.key, modifier_bits(key)) {
            Some((v, c, ch)) => new_value == v && new_cursor == c && changed == ch,
            None => new_value == value && new_cursor == cursor && !changed,
        }
    }
}

/// Edits the text `value` with its cursor at `cursor` by a key press, with
/// the yank state of `line`: the text, the cursor, and whether the text was
/// touched; see `key_edits`.
pub fn edit_line(line: &mut Input, value: String, cursor: usize, key: KeyPress) -> (r: (String, usize, bool))
    ensures
        key_edits(value@, cursor as nat, key, r.0@, r.1 as nat, r.2),
{
    match tui_edit(line, value.as_str(), cursor, key.key, key.bits()) {
        Some((v, c, changed)) => (v, c, changed),
        None => (value, cursor, false),
    }
}

} // verus!
