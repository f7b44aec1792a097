//! The computations behind the command input: how many rows the command
//! takes when wrapped, where its cursor goes, and inserting a line break.
use crate::completion::{
    cycle_index, cycled, splice_completion, splice_fits, spliced_bytes, Completer, CompletionQuery, CompletionResult,
};
use crate::history::{next_spec, previous_spec, History, HistoryState};
use crate::text::{codepoint_to_byte, push_char};
use crate::text_input::{edit_line, fresh_line, key_edits, KeyPress};
use tui_input::Input;
use vstd::prelude::*;
use vstd::string::*;
use vstd::utf8::encode_utf8;

verus! {

/// Lengths, in bytes, of the lines of `b` (split at every newline byte;
/// a text of `k` newlines has `k + 1` lines).
pub open spec fn line_lengths(b: Seq<u8>) -> Seq<nat>
    decreases b.len(),
{
    if b.len() == 0 {
        seq![0nat]
    } else {
        let ls = line_lengths(b.drop_last());
        if b.last() == 10u8 {
            ls.push(0nat)
        } else {
            ls.update(ls.len() - 1, ls.last() + 1)
        }
    }
}

pub proof fn lemma_line_lengths_nonempty(b: Seq<u8>)
    ensures
        line_lengths(b).len() >= 1,
    decreases b.len(),
{
    if b.len() > 0 {
        lemma_line_lengths_nonempty(b.drop_last());
    }
}

/// The lines of a prefix of `b` agree with those of `b`, except that the
/// last one may be cut short.
pub proof fn lemma_line_lengths_prefix(b: Seq<u8>, i: int)
    requires
        0 <= i <= b.len(),
    ensures
        line_lengths(b.take(i)).len() <= line_lengths(b).len(),
        forall|j: int| 0 <= j < line_lengths(b.take(i)).len() - 1 ==> line_lengths(b.take(i))[j] == line_lengths(b)[j],
        line_lengths(b.take(i)).last() <= line_lengths(b)[line_lengths(b.take(i)).len() - 1],
    decreases b.len(),
{
    lemma_line_lengths_nonempty(b.take(i));
    lemma_line_lengths_nonempty(b);
    if i == b.len() {
        assert(b.take(i) =~= b);
    } else {
        let d = b.drop_last();
        assert(b.take(i) =~= d.take(i));
        lemma_line_lengths_prefix(d, i);
        lemma_line_lengths_nonempty(d);
    }
}

/// Rows of a line of `len` bytes wrapped at `width` columns, with the length
/// taken as a 16-bit value: a full last row counts as one more row.
pub open spec fn line_rows(len: nat, width: nat) -> nat {
    ((len as u16) as nat) / width + 1
}

/// `x` capped at the largest 16-bit value.
pub open spec fn saturate16(x: nat) -> nat {
    if x > 65535 {
        65535
    } else {
        x
    }
}

/// Rows of lines of the given lengths, added with saturation.
pub open spec fn rows_sum(lens: Seq<nat>, width: nat) -> nat
    decreases lens.len(),
{
    if lens.len() == 0 {
        0
    } else {
        saturate16(rows_sum(lens.drop_last(), width) + line_rows(lens.last(), width))
    }
}

/// The row count of every line fits in 16 bits before one is added (it can
/// fail only for one-column rows).
pub open spec fn rows_fit(lens: Seq<nat>, width: nat) -> bool {
    forall|i: int| 0 <= i < lens.len() ==> ((lens[i] as u16) as nat) / width < 65535
}

/// Rows the command text `b` takes at `width` columns (one for no column).
pub open spec fn input_height_spec(b: Seq<u8>, width: nat) -> nat {
    if width == 0 {
        1
    } else {
        rows_sum(line_lengths(b), width)
    }
}

/// Where the cursor at byte `c` of the text `b` shows at `width` columns:
/// the column in its row, and the row (rows of the lines before it, plus
/// the wrapped rows of its line before it).
pub open spec fn input_cursor_spec(b: Seq<u8>, c: nat, width: nat) -> (nat, nat) {
    if width == 0 {
        (0, 0)
    } else {
        let lens = line_lengths(b.take(c as int));
        let col = (lens.last() as u16) as nat;
        (col % width, saturate16(rows_sum(lens.drop_last(), width) + col / width))
    }
}

/// The lines of a text that ends `c - s - 1` bytes after a newline at `s`
/// are those before the newline and then that last stretch.
proof fn lemma_lines_after_newline(b: Seq<u8>, s: nat, c: nat)
    requires
        s < c <= b.len(),
        b[s as int] == 10u8,
        forall|j: int| s < j < c ==> b[j] != 10u8,
    ensures
        line_lengths(b.take(c as int)) == line_lengths(b.take(s as int)).push((c - s - 1) as nat),
    decreases c,
{
    assert(b.take(c as int).drop_last() =~= b.take(c - 1));
    if c == s + 1 {
        assert(b.take(c as int).last() == b[s as int]);
    } else {
        lemma_lines_after_newline(b, s, (c - 1) as nat);
        assert(b.take(c as int).last() == b[c - 1]);
        let ls = line_lengths(b.take(c - 1));
        assert(ls.update(ls.len() - 1, ls.last() + 1) =~= line_lengths(b.take(s as int)).push((c - s - 1) as nat));
    }
}

/// A text without a newline is one line.
proof fn lemma_one_line(b: Seq<u8>, c: nat)
    requires
        c <= b.len(),
        forall|j: int| 0 <= j < c ==> b[j] != 10u8,
    ensures
        line_lengths(b.take(c as int)) == seq![c],
    decreases c,
{
    if c == 0 {
        assert(b.take(0) =~= Seq::<u8>::empty());
    } else {
        assert(b.take(c as int).drop_last() =~= b.take(c - 1));
        assert(b.take(c as int).last() == b[c - 1]);
        lemma_one_line(b, (c - 1) as nat);
        assert(seq![(c - 1) as nat].update(0, (c - 1) as nat + 1) =~= seq![c]);
    }
}

/// The cursor sits below the lines above its own: on a line that starts
/// after a newline at byte `s`, its row is the number of rows that `height`
/// gives the text before that newline, plus the rows its line wraps onto
/// before it, and its column is its place in the row it wrapped to.
pub proof fn law_cursor_row_follows_the_lines_above(b: Seq<u8>, c: nat, s: nat, width: nat)
    requires
        width > 0,
        s < c <= b.len(),
        b[s as int] == 10u8,
        forall|j: int| s < j < c ==> b[j] != 10u8,
    ensures
        input_cursor_spec(b, c, width) == (
            (((c - s - 1) as nat) as u16) as nat % width,
            saturate16(input_height_spec(b.take(s as int), width) + (((c - s - 1) as nat) as u16) as nat / width),
        ),
{
    lemma_lines_after_newline(b, s, c);
    let lens = line_lengths(b.take(c as int));
    assert(lens.drop_last() =~= line_lengths(b.take(s as int)));
}

/// On the first line the cursor's row is only the rows its line wraps onto
/// before it.
pub proof fn law_cursor_on_the_first_line(b: Seq<u8>, c: nat, width: nat)
    requires
        width > 0,
        c <= b.len(),
        forall|j: int| 0 <= j < c ==> b[j] != 10u8,
    ensures
        input_cursor_spec(b, c, width) == ((c as u16) as nat % width, saturate16((c as u16) as nat / width)),
{
    lemma_one_line(b, c);
    assert(line_lengths(b.take(c as int)).drop_last() =~= Seq::<nat>::empty());
}

/// Rows of a line of `len` bytes at `width` columns, as 16-bit arithmetic
/// gives them.
fn rows_of_line(len: usize, width: u16) -> (r: u16)
    requires
        width > 0,
        ((len as u16) as nat) / (width as nat) < 65535,
    ensures
        r == line_rows(len as nat, width as nat),
{
    (#[verifier::truncate] (len as u16)) / width + 1
}

/// A row count below the 16-bit limit, for widths of two and more.
proof fn lemma_rows_below_limit(x: nat, width: nat)
    requires
        x <= 65535,
        width >= 2,
    ensures
        x / width < 65535,
{
    assert(x / width <= x / 2) by (nonlinear_arith)
        requires
            width >= 2,
    ;
}

fn add_saturating(a: u16, b: u16) -> (r: u16)
    ensures
        r == saturate16((a + b) as nat),
{
    if (a as u32) + (b as u32) > 65535 {
        65535
    } else {
        a + b
    }
}

/// Rows the command `value` takes at `width` columns; see
/// `input_height_spec`.
pub fn input_height(value: &str, width: u16) -> (h: u16)
    requires
        width != 1 || rows_fit(line_lengths(encode_utf8(value@)), 1),
    ensures
        h == input_height_spec(encode_utf8(value@), width as nat),
{
    if width == 0 {
        return 1;
    }
    let b = value.as_bytes();
    let ghost bs = b@;
    let ghost full = line_lengths(bs);
    let mut rows: u16 = 0;
    let mut cur: usize = 0;
    let mut i: usize = 0;
    proof {
        lemma_line_lengths_nonempty(bs);
        assert(bs.take(0) =~= Seq::<u8>::empty());
        assert(line_lengths(bs.take(0)).drop_last() =~= Seq::<nat>::empty());
    }
    while i < b.len()
        invariant
            bs == b@,
            bs == encode_utf8(value@),
            full == line_lengths(bs),
            width > 0,
            width != 1 || rows_fit(full, 1),
            i <= bs.len(),
            cur <= i,
            ({
                let ls = line_lengths(bs.take(i as int));
                &&& ls.len() >= 1
                &&& cur == ls.last()
                &&& rows == rows_sum(ls.drop_last(), width as nat)
            }),
        decreases bs.len() - i,
    {
        let ghost ls = line_lengths(bs.take(i as int));
        assert(bs.take(i as int + 1).drop_last() =~= bs.take(i as int));
        proof {
            lemma_line_lengths_nonempty(bs.take(i as int));
        }
        if b[i] == 10u8 {
            proof {
                let next = line_lengths(bs.take(i as int + 1));
                assert(next == ls.push(0nat));
                lemma_line_lengths_prefix(bs, i as int + 1);
                assert(next[ls.len() - 1] == full[ls.len() - 1]);
                assert(next.drop_last() =~= ls);
                if width == 1 {
                    assert(((full[ls.len() - 1] as u16) as nat) / 1 < 65535);
                } else {
                    lemma_rows_below_limit(((cur as u16) as nat), width as nat);
                }
            }
            rows = add_saturating(rows, rows_of_line(cur, width));
            cur = 0;
            proof {
                let next = line_lengths(bs.take(i as int + 1));
                assert(next.drop_last() =~= ls);
                assert(ls.drop_last().push(ls.last()) =~= ls);
            }
        } else {
            cur = cur + 1;
            proof {
                let next = line_lengths(bs.take(i as int + 1));
                assert(next.drop_last() =~= ls.drop_last());
            }
        }
        i = i + 1;
    }
    proof {
        assert(bs.take(i as int) =~= bs);
        let ls = line_lengths(bs);
        assert(ls.drop_last().push(ls.last()) =~= ls);
        if width == 1 {
            assert(((full[full.len() - 1] as u16) as nat) / 1 < 65535);
        } else {
            lemma_rows_below_limit(((cur as u16) as nat), width as nat);
        }
    }
    add_saturating(rows, rows_of_line(cur, width))
}

/// The byte offset of the character position `cursor` in `value` (its end
/// when past it).
pub open spec fn cursor_byte(value: Seq<char>, cursor: nat) -> nat {
    encode_utf8(value.take(if cursor < value.len() { cursor as int } else { value.len() as int })).len()
}

/// Where the cursor at character `cursor` of the command `value` shows at
/// `width` columns: column and row; see `input_cursor_spec`.
pub fn input_cursor(value: &str, cursor: usize, width: u16) -> (r: (u16, u16))
    requires
        width != 1 || rows_fit(
            line_lengths(encode_utf8(value@).take(cursor_byte(value@, cursor as nat) as int)).drop_last(),
            1,
        ),
    ensures
        (r.0 as nat, r.1 as nat) == input_cursor_spec(
            encode_utf8(value@),
            cursor_byte(value@, cursor as nat),
            width as nat,
        ),
{
    if width == 0 {
        return (0, 0);
    }
    let b = value.as_bytes();
    let ghost bs = b@;
    let bc = codepoint_to_byte(value, cursor);
    proof {
        let k = if cursor < value@.len() { cursor as int } else { value@.len() as int };
        crate::text::lemma_encode_utf8_prefix(value@, k);
        assert(bs == encode_utf8(value@));
    }
    let ghost pre = bs.take(bc as int);
    let ghost full = line_lengths(pre);
    let mut y: u16 = 0;
    let mut start: usize = 0;
    let mut i: usize = 0;
    proof {
        lemma_line_lengths_nonempty(pre);
        assert(pre.take(0) =~= Seq::<u8>::empty());
        assert(line_lengths(pre.take(0)).drop_last() =~= Seq::<nat>::empty());
    }
    while i < bc
        invariant
            bs == b@,
            bs == encode_utf8(value@),
            bc <= bs.len(),
            pre == bs.take(bc as int),
            full == line_lengths(pre),
            width > 0,
            width != 1 || rows_fit(full.drop_last(), 1),
            i <= bc,
            start <= i,
            ({
                let ls = line_lengths(pre.take(i as int));
                &&& ls.len() >= 1
                &&& i - start == ls.last()
                &&& y == rows_sum(ls.drop_last(), width as nat)
            }),
        decreases bc - i,
    {
        let ghost ls = line_lengths(pre.take(i as int));
        assert(pre.take(i as int + 1).drop_last() =~= pre.take(i as int));
        assert(pre[i as int] == b@[i as int]);
        proof {
            lemma_line_lengths_nonempty(pre.take(i as int));
        }
        if b[i] == 10u8 {
            proof {
                let next = line_lengths(pre.take(i as int + 1));
                assert(next == ls.push(0nat));
                lemma_line_lengths_prefix(pre, i as int + 1);
                assert(next[ls.len() - 1] == full[ls.len() - 1]);
                assert(next.drop_last() =~= ls);
                lemma_line_lengths_nonempty(pre);
                assert(ls.len() - 1 < full.len() - 1);
                assert(full.drop_last()[ls.len() - 1] == full[ls.len() - 1]);
                if width == 1 {
                    assert(((full.drop_last()[ls.len() - 1] as u16) as nat) / 1 < 65535);
                } else {
                    lemma_rows_below_limit((((i - start) as u16) as nat), width as nat);
                }
            }
            y = add_saturating(y, rows_of_line(i - start, width));
            start = i + 1;
            proof {
                assert(ls.drop_last().push(ls.last()) =~= ls);
            }
        } else {
            proof {
                let next = line_lengths(pre.take(i as int + 1));
                assert(next.drop_last() =~= ls.drop_last());
            }
        }
        i = i + 1;
    }
    proof {
        assert(pre.take(i as int) =~= pre);
    }
    let col = #[verifier::truncate] ((bc - start) as u16);
    (col % width, add_saturating(y, col / width))
}

/// `value` with a line break inserted at character position `cursor` (at the
/// end when past it).
pub open spec fn with_newline_at(value: Seq<char>, cursor: nat) -> Seq<char> {
    let p = if cursor < value.len() { cursor as int } else { value.len() as int };
    value.take(p) + seq!['\n'] + value.skip(p)
}

/// Inserts a line break at the character position `cursor` of `value`;
/// returns the new text and the cursor just after the break.
pub fn insert_newline(value: &str, cursor: usize) -> (r: (String, usize))
    requires
        cursor < usize::MAX,
    ensures
        r.0@ == with_newline_at(value@, cursor as nat),
        r.1 as int == if cursor + 1 <= value@.len() + 1 { cursor + 1 } else { value@.len() + 1int },
{
    broadcast use vstd::string::group_string_axioms;
    let total = value.as_bytes().len();
    proof {
        crate::text::lemma_encode_utf8_len(value@);
    }
    let mut out = String::new();
    let mut i: usize = 0;
    for c in iter: value.chars()
        invariant
            iter.seq() == value@,
            i == iter.index(),
            value@.len() <= total,
            cursor < i ==> out@ == value@.take(cursor as int) + seq!['\n'] + value@.subrange(cursor as int, i as int),
            i <= cursor ==> out@ == value@.take(i as int),
    {
        if i == cursor {
            push_char(&mut out, '\n');
        }
        push_char(&mut out, c);
        proof {
            if cursor <= i {
                assert(out@ =~= value@.take(cursor as int) + seq!['\n'] + value@.subrange(cursor as int, i as int + 1));
            } else {
                assert(out@ =~= value@.take(i as int + 1));
            }
        }
        i = i + 1;
    }
    if i <= cursor {
        push_char(&mut out, '\n');
    }
    proof {
        assert(value@.take(value@.len() as int) =~= value@);
        assert(value@.skip(value@.len() as int) =~= Seq::<char>::empty());
        if cursor < value@.len() {
            assert(value@.subrange(cursor as int, value@.len() as int) =~= value@.skip(cursor as int));
        }
        assert(out@ =~= with_newline_at(value@, cursor as nat));
    }
    let new_cursor = if cursor < i { cursor + 1 } else { i + 1 };
    (out, new_cursor)
}

/// The display width of the first `cursor` characters of `value`, as the
/// `tui_input` crate computes it for its cursor (`Input::visual_cursor`).
pub uninterp spec fn visual_cursor_of(value: Seq<char>, cursor: nat) -> usize;

/// `tui_input::Input::visual_cursor` of an input holding `value` with its
/// cursor at character `cursor`: it depends on these alone, and is named
/// `visual_cursor_of`; nothing more is claimed of its value.
#[verifier::external_body]
pub(crate) fn visual_cursor(value: &str, cursor: usize) -> (r: usize)
    ensures
        r == visual_cursor_of(value@, cursor as nat),
{
    tui_input::Input::new(value.to_owned()).with_cursor(cursor).visual_cursor()
}

/// Whether `value` has a line break.
pub fn has_newline(value: &str) -> (b: bool)
    ensures
        b == value@.contains('\n'),
{
    broadcast use vstd::string::group_string_axioms;
    let mut found = false;
    for c in iter: value.chars()
        invariant
            iter.seq() == value@,
            found == value@.take(iter.index() as int).contains('\n'),
    {
        proof {
            assert(value@.take(iter.index() + 1) =~= value@.take(iter.index() as int).push(c));
            if value@.take(iter.index() as int).contains('\n') {
                let k = choose|k: int| 0 <= k < iter.index() && value@.take(iter.index() as int)[k] == '\n';
                assert(value@.take(iter.index() + 1)[k] == '\n');
            }
            if c == '\n' {
                assert(value@.take(iter.index() + 1)[iter.index() as int] == '\n');
            }
        }
        if c == '\n' {
            found = true;
        }
    }
    assert(value@.take(value@.len() as int) =~= value@);
    found
}

/// The command input: its text, the cursor (a character position), the
/// subcommand highlighted by the last execution, the history, the
/// completion candidates being cycled through with the one shown, and
/// whether the input shows several lines.
pub struct RuraWidget {
    pub value: String,
    pub cursor: usize,
    pub highlight_until: Option<usize>,
    pub history: History,
    pub completions: Option<(CompletionResult, usize)>,
    pub multiline: bool,
    /// The line editor behind the command, which keeps what cutting keys
    /// cut.
    pub line: Input,
    /// Every request made to the completer, in order.
    pub queries: Ghost<Seq<CompletionQuery>>,
}

/// Whether candidate `index` of `res` can replace the word before the
/// display cursor `cursor_pos` of `value`.
pub open spec fn completion_usable(value: Seq<char>, res: CompletionResult, index: int, cursor_pos: nat) -> bool {
    &&& 0 <= index < res.completions@.len()
    &&& splice_fits(value, res.word_start as nat, res.completions@[index]@, cursor_pos)
}

/// The input after showing candidate `index` of `res` in `value`: the word
/// is replaced by it and the cursor follows it.
pub open spec fn shows_candidate(w: RuraWidget, value: Seq<char>, res: CompletionResult, index: int, cursor_pos: nat) -> bool {
    let c = res.completions@[index]@;
    &&& encode_utf8(w.value@) == spliced_bytes(value, res.word_start as nat, c, cursor_pos)
    &&& w.cursor as int == if res.word_start + encode_utf8(c).len() <= w.value@.len() {
        res.word_start + encode_utf8(c).len()
    } else {
        w.value@.len() as int
    }
}

/// `new` is `old` after a request for the next (`next`) or previous
/// completion candidate: while cycling, the kept candidates are used;
/// otherwise the candidates come from the completer (`new.completions`
/// tells which), and the first (or last) is shown; nothing changes when no
/// candidate is usable.
pub open spec fn completes(old: RuraWidget, new: RuraWidget, next: bool) -> bool {
    let cursor_pos = visual_cursor_of(old.value@, old.cursor as nat) as nat;
    match old.completions {
        Some((res, index)) => {
            let i = cycled(index as int, res.completions@.len() as int, next);
            if index < res.completions@.len() && completion_usable(old.value@, res, i, cursor_pos) {
                &&& shows_candidate(new, old.value@, res, i, cursor_pos)
                &&& new.completions == Some((res, i as usize))
            } else {
                &&& new.value == old.value
                &&& new.cursor == old.cursor
                &&& new.completions == old.completions
            }
        },
        None => match new.completions {
            Some((res, i)) => {
                &&& i == if next { 0 } else { res.completions@.len() - 1 }
                &&& completion_usable(old.value@, res, i as int, cursor_pos)
                &&& shows_candidate(new, old.value@, res, i as int, cursor_pos)
            },
            None => {
                &&& new.value == old.value
                &&& new.cursor == old.cursor
            },
        },
    }
}

/// `new` is `old` after a request for the next (`next`) or previous
/// candidate, with the completer's part: while cycling it is not asked;
/// otherwise it is asked once, with the text and the display cursor, and
/// its answer is taken as `accepts` says.
pub open spec fn completion_request(old: RuraWidget, new: RuraWidget, next: bool) -> bool {
    let cursor_pos = visual_cursor_of(old.value@, old.cursor as nat);
    &&& completes(old, new, next)
    &&& match old.completions {
        Some(_) => new.queries == old.queries,
        None => {
            &&& new.queries@.len() == old.queries@.len() + 1
            &&& new.queries@.drop_last() == old.queries@
            &&& new.queries@.last().input == old.value@
            &&& new.queries@.last().cursor_pos == cursor_pos
            &&& accepts(old, new, new.queries@.last().found, next, cursor_pos as nat)
        },
    }
}

/// `new` is `old` after taking the candidates `found` that the completer
/// gave for the display cursor `cursor_pos`: the first (`next`) or the last
/// one is shown when it can replace the word; otherwise nothing changes and
/// no candidates are kept.
pub open spec fn accepts(old: RuraWidget, new: RuraWidget, found: Option<CompletionResult>, next: bool, cursor_pos: nat) -> bool {
    let unchanged = new.value == old.value && new.cursor == old.cursor && new.completions is None;
    match found {
        Some(res) => {
            let i = if next { 0 } else { res.completions@.len() - 1 };
            if res.completions@.len() > 0 && completion_usable(old.value@, res, i, cursor_pos) {
                &&& shows_candidate(new, old.value@, res, i, cursor_pos)
                &&& new.completions matches Some((r, j)) && r == res && j == i
            } else {
                unchanged
            }
        },
        None => unchanged,
    }
}

/// The commands of the command input that act on its text: completing the
/// word before the cursor with the next or the previous candidate, and
/// showing the previous or the next command of the history.
pub enum UiCmd {
    Complete,
    CompletePrev,
    HistoryPrev,
    HistoryNext,
}

/// `new` shows `value` recalled from the history, which is now `hist`: the
/// cursor at its end, several lines when it has a line break, and no
/// candidates.
pub open spec fn shows_recalled(new: RuraWidget, recalled: (HistoryState, Seq<char>)) -> bool {
    &&& new.history@ == recalled.0
    &&& new.value@ == recalled.1
    &&& new.cursor == recalled.1.len()
    &&& new.multiline == recalled.1.contains('\n')
    &&& new.completions is None
}

impl RuraWidget {
    /// An empty command input, on one line, with `history`.
    pub fn new(history: History) -> (w: RuraWidget)
        ensures
            w.value@.len() == 0,
            w.cursor == 0,
            w.highlight_until is None,
            w.history == history,
            w.completions is None,
            !w.multiline,
            w.queries@.len() == 0,
    {
        RuraWidget {
            value: String::new(),
            cursor: 0,
            highlight_until: None,
            history,
            completions: None,
            multiline: false,
            line: fresh_line(),
            queries: Ghost(Seq::empty()),
        }
    }

    /// Rows the command takes at `width` columns.
    pub fn height(&self, width: u16) -> (h: u16)
        requires
            width != 1 || rows_fit(line_lengths(encode_utf8(self.value@)), 1),
        ensures
            h == input_height_spec(encode_utf8(self.value@), width as nat),
    {
        input_height(self.value.as_str(), width)
    }

    /// Where the cursor shows at `width` columns: column and row.
    pub fn cursor(&self, width: u16) -> (r: (u16, u16))
        requires
            width != 1 || rows_fit(
                line_lengths(encode_utf8(self.value@).take(cursor_byte(self.value@, self.cursor as nat) as int)).drop_last(),
                1,
            ),
        ensures
            (r.0 as nat, r.1 as nat) == input_cursor_spec(
                encode_utf8(self.value@),
                cursor_byte(self.value@, self.cursor as nat),
                width as nat,
            ),
    {
        input_cursor(self.value.as_str(), self.cursor, width)
    }

    /// Breaks the line at the cursor, which moves past the break; the
    /// candidates are dropped.
    pub fn insert_newline(&mut self)
        requires
            old(self).cursor < usize::MAX,
        ensures
            final(self).value@ == with_newline_at(old(self).value@, old(self).cursor as nat),
            final(self).cursor as int == if old(self).cursor + 1 <= old(self).value@.len() + 1 {
                old(self).cursor + 1
            } else {
                old(self).value@.len() + 1int
            },
            final(self).completions is None,
            final(self).multiline == old(self).multiline,
            final(self).history == old(self).history,
    {
        let (v, c) = insert_newline(self.value.as_str(), self.cursor);
        self.value = v;
        self.cursor = c;
        self.line = fresh_line();
        self.completions = None;
    }

    /// Edits the command by a key press that no command is bound to (see
    /// `key_edits`); the candidates are dropped. Returns whether the edit
    /// touched the command, as the line editor reports it.
    pub fn handle_key(&mut self, key: KeyPress) -> (changed: bool)
        ensures
            final(self).completions is None,
            final(self).history == old(self).history,
            final(self).multiline == old(self).multiline,
            final(self).highlight_until == old(self).highlight_until,
            final(self).queries == old(self).queries,
            key_edits(old(self).value@, old(self).cursor as nat, key, final(self).value@, final(self).cursor as nat, changed),
    {
        self.completions = None;
        let value = self.value.clone();
        let (v, c, changed) = edit_line(&mut self.line, value, self.cursor, key);
        self.value = v;
        self.cursor = c;
        changed
    }


    /// Takes an edit of the command: the candidates are dropped.
    pub fn edited(&mut self, value: String, cursor: usize)
        ensures
            final(self).value == value,
            final(self).cursor == cursor,
            final(self).completions is None,
            final(self).history == old(self).history,
            final(self).multiline == old(self).multiline,
            final(self).highlight_until == old(self).highlight_until,
    {
        self.value = value;
        self.cursor = cursor;
        self.completions = None;
    }

    /// Switches between one line and several.
    pub fn toggle_multiline(&mut self)
        ensures
            final(self).multiline == !old(self).multiline,
            final(self).value == old(self).value,
            final(self).cursor == old(self).cursor,
    {
        self.multiline = !self.multiline;
    }

    /// Replaces the text by `value`, with the cursor at its end, as a recalled
    /// command is shown; several lines are shown when it has a line break.
    fn show_recalled(&mut self, value: String)
        ensures
            final(self).value@ == value@,
            final(self).cursor == value@.len(),
            final(self).multiline == value@.contains('\n'),
            final(self).completions is None,
            final(self).history == old(self).history,
            final(self).highlight_until == old(self).highlight_until,
    {
        self.multiline = has_newline(value.as_str());
        self.cursor = value.as_str().unicode_len();
        self.value = value;
        self.line = fresh_line();
        self.completions = None;
    }

    /// Shows the previous command of the history.
    pub fn recall_previous(&mut self) -> (changed: bool)
        requires
            old(self).history@.wf(),
        ensures
            final(self).history@.wf(),
            (final(self).history@, final(self).value@) == previous_spec(old(self).history@, old(self).value@),
            final(self).cursor == final(self).value@.len(),
            final(self).multiline == final(self).value@.contains('\n'),
            final(self).completions is None,
            !changed,
    {
        let v = self.history.previous(self.value.as_str());
        self.show_recalled(v);
        false
    }

    /// Shows the next command of the history.
    pub fn recall_next(&mut self) -> (changed: bool)
        requires
            old(self).history@.wf(),
        ensures
            final(self).history@.wf(),
            (final(self).history@, final(self).value@) == next_spec(old(self).history@, old(self).value@),
            final(self).cursor == final(self).value@.len(),
            final(self).multiline == final(self).value@.contains('\n'),
            final(self).completions is None,
            !changed,
    {
        let v = self.history.next(self.value.as_str());
        self.show_recalled(v);
        false
    }

    /// Shows the candidate at `index` of `res` in place of the word before
    /// the display cursor `cursor_pos`.
    fn show_candidate(&mut self, res: CompletionResult, index: usize, cursor_pos: usize)
        requires
            completion_usable(old(self).value@, res, index as int, cursor_pos as nat),
        ensures
            shows_candidate(*final(self), old(self).value@, res, index as int, cursor_pos as nat),
            final(self).completions == Some((res, index)),
            final(self).history == old(self).history,
            final(self).multiline == old(self).multiline,
            final(self).queries == old(self).queries,
    {
        let (v, c) = splice_completion(
            self.value.as_str(),
            res.word_start,
            res.completions[index].as_str(),
            cursor_pos,
        );
        self.value = v;
        self.cursor = c;
        self.line = fresh_line();
        self.completions = Some((res, index));
    }

    /// Shows the next candidate (`next`) or the previous one. While cycling,
    /// the candidates kept are used; otherwise `completer` is asked for
    /// candidates at the display cursor, and the first (or last) is shown.
    /// Nothing changes when there is no usable candidate.
    pub fn complete<C: Completer>(&mut self, next: bool, completer: &C) -> (changed: bool)
        ensures
            changed,
            final(self).history == old(self).history,
            final(self).multiline == old(self).multiline,
            completion_request(*old(self), *final(self), next),
    {
        let cursor_pos = visual_cursor(self.value.as_str(), self.cursor);
        match self.completions.take() {
            Some((res, index)) => {
                let n = res.completions.len();
                if index < n {
                    let i = cycle_index(index, n, next);
                    let c = res.completions[i].as_str();
                    if check_splice(self.value.as_str(), res.word_start, c, cursor_pos) {
                        self.show_candidate(res, i, cursor_pos);
                        return true;
                    }
                }
                self.completions = Some((res, index));
                true
            },
            None => {
                let found = completer.completions(self.value.as_str(), cursor_pos);
                let ghost query = CompletionQuery { input: self.value@, cursor_pos, found };
                self.queries = Ghost(self.queries@.push(query));
                proof {
                    assert(self.queries@.drop_last() =~= old(self).queries@);
                }
                self.accept_completions(found, next, cursor_pos);
                true
            },
        }
    }

    /// Takes the candidates `found` that the completer gave for the display
    /// cursor `cursor_pos`; see `accepts`.
    pub fn accept_completions(&mut self, found: Option<CompletionResult>, next: bool, cursor_pos: usize)
        ensures
            accepts(*old(self), *final(self), found, next, cursor_pos as nat),
            final(self).history == old(self).history,
            final(self).multiline == old(self).multiline,
            final(self).queries == old(self).queries,
    {
        self.completions = None;
        match found {
            Some(res) => {
                let n = res.completions.len();
                if n > 0 {
                    let i = if next { 0 } else { n - 1 };
                    if check_splice(self.value.as_str(), res.word_start, res.completions[i].as_str(), cursor_pos) {
                        self.show_candidate(res, i, cursor_pos);
                    }
                }
            },
            None => {},
        }
    }

    /// Carries out a command; returns whether it changed the command in a
    /// way that calls for running it again (completion does).
    pub fn handle_ui_command<C: Completer>(&mut self, ui_cmd: UiCmd, completer: &C) -> (changed: bool)
        requires
            old(self).history@.wf(),
        ensures
            final(self).history@.wf(),
            match ui_cmd {
                UiCmd::Complete => {
                    &&& changed
                    &&& completion_request(*old(self), *final(self), true)
                    &&& final(self).history == old(self).history
                    &&& final(self).multiline == old(self).multiline
                },
                UiCmd::CompletePrev => {
                    &&& changed
                    &&& completion_request(*old(self), *final(self), false)
                    &&& final(self).history == old(self).history
                    &&& final(self).multiline == old(self).multiline
                },
                UiCmd::HistoryPrev => !changed && shows_recalled(*final(self), previous_spec(old(self).history@, old(self).value@)),
                UiCmd::HistoryNext => !changed && shows_recalled(*final(self), next_spec(old(self).history@, old(self).value@)),
            },
    {
        match ui_cmd {
            UiCmd::Complete => self.complete(true, completer),
            UiCmd::CompletePrev => self.complete(false, completer),
            UiCmd::HistoryPrev => self.recall_previous(),
            UiCmd::HistoryNext => self.recall_next(),
        }
    }
}

/// Whether `completion` can replace the bytes of `value` from `word_start`
/// to `cursor_pos`; see `splice_fits`.
pub fn check_splice(value: &str, word_start: usize, completion: &str, cursor_pos: usize) -> (b: bool)
    ensures
        b == splice_fits(value@, word_start as nat, completion@, cursor_pos as nat),
{
    let n = completion.as_bytes().len();
    value.is_char_boundary(word_start) && value.is_char_boundary(cursor_pos) && word_start <= usize::MAX - n
}

} // verus!
