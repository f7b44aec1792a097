//! The key help popup: its text, its scrolling, and which of its lines fit
//! the screen.
use crate::text::{push_char, push_str, strings_view, to_owned_string};
use vstd::prelude::*;
use vstd::string::*;

verus! {

/// One line of the key help: its text, and whether it heads a section
/// (shown reversed and centered).
pub struct HelpLine {
    pub text: String,
    pub heading: bool,
}

impl View for HelpLine {
    type V = (Seq<char>, bool);

    open spec fn view(&self) -> (Seq<char>, bool) {
        (self.text@, self.heading)
    }
}

/// The lines as plain values.
pub open spec fn help_views(v: Seq<HelpLine>) -> Seq<(Seq<char>, bool)> {
    v.map_values(|l: HelpLine| l@)
}

/// `key` padded with spaces to twelve characters (a longer one is kept
/// whole).
pub open spec fn padded_key(key: Seq<char>) -> Seq<char> {
    if key.len() >= 12 {
        key
    } else {
        key + Seq::new((12 - key.len()) as nat, |_i: int| ' ')
    }
}

/// The help line for a key: the key padded to twelve characters, a dash,
/// and what the key does.
pub open spec fn key_line(key: Seq<char>, what: Seq<char>) -> Seq<char> {
    padded_key(key) + " - "@ + what
}

/// The key help, given the names of the keys bound to, in order: executing
/// the full command, until the cursor, before the cursor; resetting the
/// input; the two live modes; the previous, next, copied, cut and pasted
/// subcommand; scrolling up, down, a page up, a page down, right and left;
/// wrapping lines; line numbers; the presets popup; completing forward and
/// backward; the previous and next history item; the next and previous
/// search match; saving the output and the command; reading and following
/// standard input.
pub open spec fn help_text(keys: Seq<Seq<char>>) -> Seq<(Seq<char>, bool)> {
    seq![
        ("Commands"@, true),
        (key_line(keys[0], "Execute full command"@), false),
        (key_line(keys[1], "Execute until cursor"@), false),
        (key_line(keys[2], "Execute before cursor"@), false),
        (key_line(keys[3], "Reset input"@), false),
        (""@, false),
        (key_line(keys[4], "Toggle Live mode"@), false),
        (key_line(keys[5], "Toggle Live Until Cursor mode"@), false),
        (""@, false),
        ("Subcommand edit"@, true),
        (key_line(keys[6], "Go to previous subcommand"@), false),
        (key_line(keys[7], "Go to next subcommand"@), false),
        (key_line(keys[8], "Copy current subcommand"@), false),
        (key_line(keys[9], "Cut current subcommand"@), false),
        (key_line(keys[10], "Paste subcommand after"@), false),
        (""@, false),
        ("Navigation"@, true),
        (key_line(keys[11], "Scroll up"@), false),
        (key_line(keys[12], "Scroll down"@), false),
        (key_line(keys[13], "Scroll page up"@), false),
        (key_line(keys[14], "Scroll page down"@), false),
        (key_line(keys[15], "Scroll right"@), false),
        (key_line(keys[16], "Scroll left"@), false),
        (""@, false),
        (key_line(keys[17], "Wrap output lines"@), false),
        (key_line(keys[18], "Toggle line numbers"@), false),
        (""@, false),
        ("Presets"@, true),
        (key_line(keys[19], "Show presets popup"@), false),
        ("ctrl+n       - Create new preset"@, false),
        ("ctrl+t       - Create new preset from current command"@, false),
        ("ctrl+d       - Delete preset"@, false),
        ("ctrl+e       - Edit preset"@, false),
        ("ctrl+k       - Clone preset"@, false),
        (""@, false),
        ("Completion"@, true),
        (key_line(keys[20], "Complete forward"@), false),
        (key_line(keys[21], "Complete backward"@), false),
        (""@, false),
        ("History"@, true),
        (key_line(keys[22], "History previous item"@), false),
        (key_line(keys[23], "History next item"@), false),
        (""@, false),
        ("Search"@, true),
        (key_line(keys[24], "Search next"@), false),
        (key_line(keys[25], "Search previous"@), false),
        (key_line("alt+x"@, "Toggle regex mode"@), false),
        (key_line("alt+c"@, "Toggle case sensitivity"@), false),
        (""@, false),
        ("Saving to file"@, true),
        (key_line(keys[26], "Save output to file"@), false),
        (key_line(keys[27], "Save command to file"@), false),
        (""@, false),
        ("Stdin"@, true),
        (key_line(keys[28], "Toggle stdin reading"@), false),
        (key_line(keys[29], "Toggle stdin follow"@), false),
    ]
}

/// Appends the help line for `key`: see `key_line`.
fn push_key_line(r: &mut Vec<HelpLine>, key: &str, what: &str)
    ensures
        help_views(final(r)@) == help_views(old(r)@).push((key_line(key@, what@), false)),
{
    let mut text = to_owned_string(key);
    let mut n = key.unicode_len();
    while n < 12
        invariant
            n <= 12 || n == key@.len(),
            key@.len() <= n,
            text@ == key@ + Seq::new((n - key@.len()) as nat, |_i: int| ' '),
        decreases 12 - n,
    {
        push_char(&mut text, ' ');
        n = n + 1;
        assert(text@ =~= key@ + Seq::new((n - key@.len()) as nat, |_i: int| ' '));
    }
    assert(text@ =~= padded_key(key@));
    push_str(&mut text, " - ");
    push_str(&mut text, what);
    let ghost before = r@;
    r.push(HelpLine { text, heading: false });
    assert(help_views(r@) =~= help_views(before).push((key_line(key@, what@), false)));
}

/// Appends a line of fixed text.
fn push_help_line(r: &mut Vec<HelpLine>, text: &str, heading: bool)
    ensures
        help_views(final(r)@) == help_views(old(r)@).push((text@, heading)),
{
    let ghost before = r@;
    r.push(HelpLine { text: to_owned_string(text), heading });
    assert(help_views(r@) =~= help_views(before).push((text@, heading)));
}

/// The lines of the key help for the names of the bound keys, in the order
/// that `help_text` lists them.
#[verifier::rlimit(40)]
pub fn help_lines(keys: &Vec<String>) -> (r: Vec<HelpLine>)
    requires
        keys@.len() == 30,
    ensures
        help_views(r@) == help_text(strings_view(keys@)),
        r@.len() == 56,
{
    let ghost names = strings_view(keys@);
    let mut r: Vec<HelpLine> = Vec::new();
    assert(help_views(r@) =~= Seq::<(Seq<char>, bool)>::empty());
    push_help_line(&mut r, "Commands", true);
    push_key_line(&mut r, keys[0].as_str(), "Execute full command");
    push_key_line(&mut r, keys[1].as_str(), "Execute until cursor");
    push_key_line(&mut r, keys[2].as_str(), "Execute before cursor");
    push_key_line(&mut r, keys[3].as_str(), "Reset input");
    push_help_line(&mut r, "", false);
    push_key_line(&mut r, keys[4].as_str(), "Toggle Live mode");
    push_key_line(&mut r, keys[5].as_str(), "Toggle Live Until Cursor mode");
    push_help_line(&mut r, "", false);
    push_help_line(&mut r, "Subcommand edit", true);
    push_key_line(&mut r, keys[6].as_str(), "Go to previous subcommand");
    push_key_line(&mut r, keys[7].as_str(), "Go to next subcommand");
    push_key_line(&mut r, keys[8].as_str(), "Copy current subcommand");
    push_key_line(&mut r, keys[9].as_str(), "Cut current subcommand");
    push_key_line(&mut r, keys[10].as_str(), "Paste subcommand after");
    push_help_line(&mut r, "", false);
    push_help_line(&mut r, "Navigation", true);
    push_key_line(&mut r, keys[11].as_str(), "Scroll up");
    push_key_line(&mut r, keys[12].as_str(), "Scroll down");
    push_key_line(&mut r, keys[13].as_str(), "Scroll page up");
    push_key_line(&mut r, keys[14].as_str(), "Scroll page down");
    push_key_line(&mut r, keys[15].as_str(), "Scroll right");
    push_key_line(&mut r, keys[16].as_str(), "Scroll left");
    push_help_line(&mut r, "", false);
    push_key_line(&mut r, keys[17].as_str(), "Wrap output lines");
    push_key_line(&mut r, keys[18].as_str(), "Toggle line numbers");
    push_help_line(&mut r, "", false);
    push_help_line(&mut r, "Presets", true);
    push_key_line(&mut r, keys[19].as_str(), "Show presets popup");
    push_help_line(&mut r, "ctrl+n       - Create new preset", false);
    push_help_line(&mut r, "ctrl+t       - Create new preset from current command", false);
    push_help_line(&mut r, "ctrl+d       - Delete preset", false);
    push_help_line(&mut r, "ctrl+e       - Edit preset", false);
    push_help_line(&mut r, "ctrl+k       - Clone preset", false);
    push_help_line(&mut r, "", false);
    push_help_line(&mut r, "Completion", true);
    push_key_line(&mut r, keys[20].as_str(), "Complete forward");
    push_key_line(&mut r, keys[21].as_str(), "Complete backward");
    push_help_line(&mut r, "", false);
    push_help_line(&mut r, "History", true);
    push_key_line(&mut r, keys[22].as_str(), "History previous item");
    push_key_line(&mut r, keys[23].as_str(), "History next item");
    push_help_line(&mut r, "", false);
    push_help_line(&mut r, "Search", true);
    push_key_line(&mut r, keys[24].as_str(), "Search next");
    push_key_line(&mut r, keys[25].as_str(), "Search previous");
    push_key_line(&mut r, "alt+x", "Toggle regex mode");
    push_key_line(&mut r, "alt+c", "Toggle case sensitivity");
    push_help_line(&mut r, "", false);
    push_help_line(&mut r, "Saving to file", true);
    push_key_line(&mut r, keys[26].as_str(), "Save output to file");
    push_key_line(&mut r, keys[27].as_str(), "Save command to file");
    push_help_line(&mut r, "", false);
    push_help_line(&mut r, "Stdin", true);
    push_key_line(&mut r, keys[28].as_str(), "Toggle stdin reading");
    push_key_line(&mut r, keys[29].as_str(), "Toggle stdin follow");
    assert(help_views(r@) =~= help_text(names));
    r
}

/// The help popup's scroll state: the first line shown, how many lines the
/// last drawing could show, and how many lines the help text has.
pub struct HelpWidget {
    pub scroll: usize,
    pub content_height: usize,
    pub total_lines: usize,
}

/// Which lines of the help text a drawing shows.
pub struct HelpLayout {
    /// Lines of text the popup shows.
    pub content_height: usize,
    /// Whether the popup adds a row above and below for scroll arrows.
    pub show_arrows: bool,
    /// The first line shown.
    pub start: usize,
    /// One past the last line shown.
    pub end: usize,
}

/// The lines shown for a text of `total` lines in an area `height` rows high
/// scrolled to `scroll`: all of them when they fit inside the border (two
/// rows); otherwise the rows left by the border and the two arrow rows (at
/// least one), starting at `scroll` but not past the last page.
pub open spec fn layout_spec(total: nat, height: nat, scroll: nat) -> (nat, bool, nat, nat) {
    let no_arrows = if height >= 2 { (height - 2) as nat } else { 0nat };
    let with_arrows = if height >= 4 { (height - 4) as nat } else { 0nat };
    let (content, arrows) = if total <= no_arrows {
        (total, false)
    } else {
        (if with_arrows >= 1 { with_arrows } else { 1nat }, true)
    };
    let last_start = if total >= content { (total - content) as nat } else { 0nat };
    let start = if scroll <= last_start { scroll } else { last_start };
    let end = if start + content <= total { start + content } else { total };
    (content, arrows, start, end)
}

/// Where the last page of the text starts.
pub open spec fn last_page_start(w: HelpWidget) -> int {
    if w.total_lines >= w.content_height {
        w.total_lines - w.content_height
    } else {
        0
    }
}

impl HelpWidget {
    /// A help popup for a text of `total_lines` lines, at its top, assuming
    /// twenty visible lines until it is drawn.
    pub fn new(total_lines: usize) -> (w: HelpWidget)
        ensures
            w.scroll == 0,
            w.content_height == 20,
            w.total_lines == total_lines,
    {
        HelpWidget { scroll: 0, content_height: 20, total_lines }
    }

    /// Lines the last drawing could show.
    pub fn visible_content_height(&self) -> (h: usize)
        ensures
            h == self.content_height,
    {
        self.content_height
    }

    /// One line up, stopping at the top.
    pub fn scroll_up(&mut self)
        ensures
            final(self).scroll == if old(self).scroll > 0 { old(self).scroll - 1 } else { 0 },
            final(self).content_height == old(self).content_height,
            final(self).total_lines == old(self).total_lines,
            old(self).scroll <= last_page_start(*old(self)) ==> final(self).scroll <= last_page_start(*final(self)),
    {
        self.scroll = if self.scroll > 0 { self.scroll - 1 } else { 0 };
    }

    /// One line down, unless the last line is already shown.
    pub fn scroll_down(&mut self)
        requires
            old(self).scroll + old(self).content_height <= usize::MAX,
        ensures
            final(self).scroll == if old(self).scroll + old(self).content_height < old(self).total_lines {
                old(self).scroll + 1
            } else {
                old(self).scroll as int
            },
            final(self).content_height == old(self).content_height,
            final(self).total_lines == old(self).total_lines,
            old(self).scroll <= last_page_start(*old(self)) ==> final(self).scroll <= last_page_start(*final(self)),
    {
        let visible = self.visible_content_height();
        if self.scroll + visible < self.total_lines {
            self.scroll = self.scroll + 1;
        }
    }

    /// One page up, stopping at the top.
    pub fn scroll_page_up(&mut self)
        ensures
            final(self).scroll == if old(self).scroll >= old(self).content_height {
                old(self).scroll - old(self).content_height
            } else {
                0
            },
            final(self).content_height == old(self).content_height,
            final(self).total_lines == old(self).total_lines,
            old(self).scroll <= last_page_start(*old(self)) ==> final(self).scroll <= last_page_start(*final(self)),
    {
        let visible = self.visible_content_height();
        self.scroll = if self.scroll >= visible { self.scroll - visible } else { 0 };
    }

    /// One page down, stopping where the last page starts.
    pub fn scroll_page_down(&mut self)
        requires
            old(self).scroll + old(self).content_height <= usize::MAX,
        ensures
            ({
                let last_start = if old(self).total_lines >= old(self).content_height {
                    old(self).total_lines - old(self).content_height
                } else {
                    0
                };
                let next = old(self).scroll + old(self).content_height;
                final(self).scroll == if next <= last_start { next } else { last_start }
            }),
            final(self).content_height == old(self).content_height,
            final(self).total_lines == old(self).total_lines,
            old(self).scroll <= last_page_start(*old(self)) ==> final(self).scroll <= last_page_start(*final(self)),
    {
        let visible = self.visible_content_height();
        let last_start = if self.total_lines >= visible { self.total_lines - visible } else { 0 };
        let next = self.scroll + visible;
        self.scroll = if next <= last_start { next } else { last_start };
    }

    /// The lines a drawing in an area `height` rows high shows; the number of
    /// visible lines is kept for the page moves.
    pub fn layout(&mut self, height: u16) -> (l: HelpLayout)
        ensures
            (l.content_height as nat, l.show_arrows, l.start as nat, l.end as nat) == layout_spec(
                old(self).total_lines as nat,
                height as nat,
                old(self).scroll as nat,
            ),
            final(self).content_height == l.content_height,
            final(self).scroll == old(self).scroll,
            final(self).total_lines == old(self).total_lines,
    {
        let h = height as usize;
        let no_arrows = if h >= 2 { h - 2 } else { 0 };
        let with_arrows = if h >= 4 { h - 4 } else { 0 };
        let total = self.total_lines;
        let (content, arrows) = if total <= no_arrows {
            (total, false)
        } else {
            (if with_arrows >= 1 { with_arrows } else { 1 }, true)
        };
        self.content_height = content;
        let last_start = if total >= content { total - content } else { 0 };
        let start = if self.scroll <= last_start { self.scroll } else { last_start };
        let end = if start + content <= total { start + content } else { total };
        HelpLayout { content_height: content, show_arrows: arrows, start, end }
    }
}

/// The lines a drawing shows are lines of the text, at most as many as fit,
/// and, whenever the text does not fit, exactly as many as fit.
pub proof fn law_layout_within_text(total: nat, height: nat, scroll: nat)
    ensures
        ({
            let (content, arrows, start, end) = layout_spec(total, height, scroll);
            &&& start <= end <= total
            &&& end - start <= content
            &&& content <= total ==> end - start == content
            &&& !arrows ==> start == 0 && end == total
        }),
{
}

} // verus!
