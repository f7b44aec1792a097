//! Shell completions: which `compgen` listing to ask for, and the candidates
//! in what it prints.
use crate::text::{lemma_encode_utf8_append, lines_of, split_lines, strings_view};
use vstd::utf8::{encode_utf8, is_char_boundary};
use vstd::arithmetic::div_mod::lemma_small_mod;
use vstd::prelude::*;
use vstd::string::*;

verus! {

broadcast use vstd::string::group_string_axioms;

/// What to complete.
pub enum CompletionType {
    /// Command names.
    Command,
    /// File names.
    File,
}

/// The `compgen` option that lists candidates of `kind`.
pub fn completion_flag(kind: &CompletionType) -> (flag: &'static str)
    ensures
        flag@ == match kind {
            CompletionType::Command => seq!['-', 'c'],
            CompletionType::File => seq!['-', 'f'],
        },
{
    match kind {
        CompletionType::Command => {
            let f = "-c";
            proof {
                reveal_strlit("-c");
            }
            f
        },
        CompletionType::File => {
            let f = "-f";
            proof {
                reveal_strlit("-f");
            }
            f
        },
    }
}

/// The candidates that `compgen` printed, one per line.
pub fn completions_from_output(stdout: &str) -> (r: Vec<String>)
    ensures
        strings_view(r@) == lines_of(stdout@),
{
    split_lines(stdout)
}

/// Candidates for the word that starts at byte `word_start` of the input.
pub struct CompletionResult {
    pub completions: Vec<String>,
    pub word_start: usize,
}

/// One request to the completer: the text, the display cursor, and what it
/// answered.
pub struct CompletionQuery {
    pub input: Seq<char>,
    pub cursor_pos: usize,
    pub found: Option<CompletionResult>,
}

/// Finds completion candidates for an input and a cursor position: the
/// shell in the application, a fixed list in tests.
pub trait Completer {
    fn completions(&self, input: &str, cursor_pos: usize) -> Option<CompletionResult>;
}

/// The candidate that a request for the next (`next`) or previous one picks
/// while cycling at `index` among `len`: the one after it (wrapping to the
/// first) or before it (wrapping to the last).
pub open spec fn cycled(index: int, len: int, next: bool) -> int {
    if next {
        (index + 1) % len
    } else if index == 0 {
        len - 1
    } else {
        index - 1
    }
}

/// The candidate after `index` or before it among `len`; see `cycled`.
pub fn cycle_index(index: usize, len: usize, next: bool) -> (r: usize)
    requires
        index < len,
    ensures
        r < len,
        r == cycled(index as int, len as int, next),
{
    if next {
        (index + 1) % len
    } else if index == 0 {
        len - 1
    } else {
        index - 1
    }
}

/// Asking for the next candidate and then the previous one (or the other way
/// round) comes back to the candidate shown before.
pub proof fn law_cycling_back_and_forth(index: int, len: int, next: bool)
    requires
        0 <= index < len,
    ensures
        0 <= cycled(index, len, next) < len,
        cycled(cycled(index, len, next), len, !next) == index,
{
    if next {
        if index + 1 < len {
            lemma_small_mod((index + 1) as nat, len as nat);
        } else {
            assert((index + 1) % len == 0);
        }
    } else if index == 0 {
        lemma_small_mod(0, len as nat);
        assert(len % len == 0);
    } else {
        lemma_small_mod(index as nat, len as nat);
    }
}

/// Cycling moves by one candidate: the next request shows the candidate
/// just after the one shown (the first after the last), the previous
/// request the one just before it (the last before the first).
pub proof fn law_cycling_moves_by_one(index: int, len: int)
    requires
        0 <= index < len,
    ensures
        cycled(index, len, true) == if index + 1 < len { index + 1 } else { 0 },
        cycled(index, len, false) == if index > 0 { index - 1 } else { len - 1 },
{
    if index + 1 < len {
        lemma_small_mod((index + 1) as nat, len as nat);
    } else {
        vstd::arithmetic::div_mod::lemma_mod_self_0(len);
    }
}

/// The candidate shown after `k` requests for the next one, starting at
/// `index`.
pub open spec fn cycled_times(index: int, len: int, k: nat) -> int
    decreases k,
{
    if k == 0 {
        index
    } else {
        cycled(cycled_times(index, len, (k - 1) as nat), len, true)
    }
}

/// Repeated requests for the next candidate visit the candidates in order:
/// after `k` of them, starting at `index`, the one shown is `k` places on,
/// wrapping around; so every candidate is shown within `len` requests.
pub proof fn law_cycling_visits_every_candidate(index: int, len: int, k: nat)
    requires
        0 <= index < len,
    ensures
        cycled_times(index, len, k) == (index + k) % len,
    decreases k,
{
    if k == 0 {
        lemma_small_mod(index as nat, len as nat);
    } else {
        law_cycling_visits_every_candidate(index, len, (k - 1) as nat);
        vstd::arithmetic::div_mod::lemma_add_mod_noop_right(1, index + k - 1, len);
    }
}

/// `value` with the bytes from `word_start` to `cursor_pos` replaced by
/// `completion`, as UTF-8.
pub open spec fn spliced_bytes(value: Seq<char>, word_start: nat, completion: Seq<char>, cursor_pos: nat) -> Seq<u8> {
    encode_utf8(value).take(word_start as int) + encode_utf8(completion) + encode_utf8(value).skip(cursor_pos as int)
}

/// Whether `completion` can replace the bytes from `word_start` to
/// `cursor_pos` of `value`: both are character boundaries, and the cursor
/// after the completion is a `usize`.
pub open spec fn splice_fits(value: Seq<char>, word_start: nat, completion: Seq<char>, cursor_pos: nat) -> bool {
    &&& is_char_boundary(encode_utf8(value), word_start as int)
    &&& is_char_boundary(encode_utf8(value), cursor_pos as int)
    &&& word_start + encode_utf8(completion).len() <= usize::MAX
}

/// Replaces the bytes of `value` from `word_start` to `cursor_pos` by
/// `completion`; returns the new text and its cursor: just after the
/// completion, counted as `word_start` plus the completion's bytes, but not
/// past the end of the text.
pub fn splice_completion(value: &str, word_start: usize, completion: &str, cursor_pos: usize) -> (r: (String, usize))
    requires
        splice_fits(value@, word_start as nat, completion@, cursor_pos as nat),
    ensures
        encode_utf8(r.0@) == spliced_bytes(value@, word_start as nat, completion@, cursor_pos as nat),
        r.1 as int == if word_start + encode_utf8(completion@).len() <= r.0@.len() {
            word_start + encode_utf8(completion@).len()
        } else {
            r.0@.len() as int
        },
{
    let (head, _) = value.split_at(word_start);
    let (_, tail) = value.split_at(cursor_pos);
    let mut out = String::new();
    out.append(head);
    out.append(completion);
    out.append(tail);
    proof {
        lemma_encode_utf8_append(head@, completion@);
        lemma_encode_utf8_append(head@ + completion@, tail@);
        assert(out@ == head@ + completion@ + tail@);
    }
    let target = word_start + completion.as_bytes().len();
    let len = out.as_str().unicode_len();
    let cursor = if target <= len { target } else { len };
    (out, cursor)
}

} // verus!
