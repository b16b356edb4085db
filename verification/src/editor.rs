//! The Markdown formatting actions of the note editor, on a model of the
//! editor: its text, its newest selection, the language at the cursor and
//! whether it is read-only.

use vstd::prelude::*;
use crate::lines::{join_lines, join_nl, line_views, split_lines_exact, split_nl};
use crate::markdown::{code_block_lines, code_block_spec, heading_lines, heading_spec, numbered_lines, numbered_spec, task_lines, task_spec, toggle_prefix_lines, toggle_prefix_spec};
use crate::text::{chars_of, concat, string_eq_str, ends_with, extend, has_prefix, has_suffix, lead, lemma_trail_bound, slice, starts_with, trail, CharClass};

verus! {

/// What toggling inline markup does to the selected text: markup around it is
/// removed, an empty selection gets an empty pair, anything else is wrapped.
/// The second component is where the cursor goes, counted from the start of
/// the replacement.
pub open spec fn inline_toggle(sel: Seq<char>, open: Seq<char>, close: Seq<char>) -> (Seq<char>, nat) {
    if starts_with(sel, open) && ends_with(sel, close) && sel.len() >= open.len() + close.len() {
        let inner = sel.subrange(open.len() as int, sel.len() - close.len());
        (inner, inner.len())
    } else if sel.len() == 0 {
        (open + close, open.len())
    } else {
        (open + sel + close, open.len() + sel.len())
    }
}

/// Inline markup toggle of a selected text (see [`inline_toggle`]).
pub fn toggle_inline_markup(selected: &Vec<char>, open: &Vec<char>, close: &Vec<char>) -> (r: (
    Vec<char>,
    usize,
))
    ensures
        (r.0@, r.1 as nat) == inline_toggle(selected@, open@, close@),
{
    if has_prefix(selected, open) && has_suffix(selected, close) && open.len() <= selected.len()
        && close.len() <= selected.len() - open.len() {
        let inner = slice(selected, open.len(), selected.len() - close.len());
        let n = inner.len();
        (inner, n)
    } else if selected.len() == 0 {
        (concat(open, close), open.len())
    } else {
        let r = concat(&concat(open, selected), close);
        let n = r.len() - close.len();
        (r, n)
    }
}

/// Toggling the same markup twice gives back a selection that was not
/// already wrapped in it.
pub proof fn lemma_inline_toggle_twice(sel: Seq<char>, open: Seq<char>, close: Seq<char>)
    requires
        !(starts_with(sel, open) && ends_with(sel, close) && sel.len() >= open.len() + close.len()),
    ensures
        inline_toggle(inline_toggle(sel, open, close).0, open, close).0 == sel,
{
    let w = inline_toggle(sel, open, close).0;
    if sel.len() == 0 {
        assert(w.take(open.len() as int) =~= open);
        assert(w.skip(w.len() - close.len()) =~= close);
        assert(w.subrange(open.len() as int, w.len() - close.len()) =~= sel);
    } else {
        assert(w.take(open.len() as int) =~= open);
        assert(w.skip(w.len() - close.len()) =~= close);
        assert(w.subrange(open.len() as int, w.len() - close.len()) =~= sel);
    }
}

/// Where the cursor lands after an inline toggle: a selection wrapped in
/// the markup loses it and the cursor goes to the end of the inner text;
/// any other selection (an empty one too) is wrapped, and the cursor goes
/// right before the closing marker, so that what is typed next goes inside
/// the markup.
pub proof fn lemma_inline_toggle_cursor(sel: Seq<char>, open: Seq<char>, close: Seq<char>)
    ensures
        ({
            let (t, c) = inline_toggle(sel, open, close);
            &&& c <= t.len()
            &&& (starts_with(sel, open) && ends_with(sel, close) && sel.len() >= open.len() + close.len())
                ==> t == sel.subrange(open.len() as int, sel.len() - close.len()) && c == t.len()
            &&& !(starts_with(sel, open) && ends_with(sel, close) && sel.len() >= open.len() + close.len())
                ==> t.take(c as int) == open + sel && t.skip(c as int) == close
        }),
{
    let (t, c) = inline_toggle(sel, open, close);
    if !(starts_with(sel, open) && ends_with(sel, close) && sel.len() >= open.len() + close.len()) {
        if sel.len() == 0 {
            assert(open + sel =~= open);
        }
        assert(t.take(c as int) =~= open + sel);
        assert(t.skip(c as int) =~= close);
    }
}

/// The text a link insertion puts in place of the selection.
pub open spec fn link_text(sel: Seq<char>) -> Seq<char> {
    if sel.len() == 0 {
        "[text](url)"@
    } else {
        "["@ + sel + "](url)"@
    }
}

/// The text an image insertion puts in place of the selection.
pub open spec fn image_text(sel: Seq<char>) -> Seq<char> {
    if sel.len() == 0 {
        "![alt](url)"@
    } else {
        "!["@ + sel + "](url)"@
    }
}

/// The table skeleton that the table action inserts.
pub open spec fn table_text() -> Seq<char> {
    "| Column 1 | Column 2 |\n| --- | --- |\n|  |  |\n"@
}

/// The rule that the horizontal-rule action inserts.
pub open spec fn rule_text() -> Seq<char> {
    "\n---\n"@
}

/// A whole-line edit.
pub enum LineEdit {
    /// Toggle a line prefix: add `add`, recognise any of `matches`.
    Prefix { add: Vec<char>, matches: Vec<Vec<char>> },
    /// Toggle a heading of the given level.
    Heading(u8),
    /// Toggle numbering.
    Numbered,
    /// Toggle task markers.
    Task,
    /// Toggle a code fence.
    CodeBlock,
}

/// The lines a line edit produces.
pub open spec fn line_edit_spec(lines: Seq<Seq<char>>, edit: LineEdit) -> Seq<Seq<char>> {
    match edit {
        LineEdit::Prefix { add, matches } => toggle_prefix_spec(lines, add@, line_views(matches@)),
        LineEdit::Heading(level) => heading_spec(lines, level as nat),
        LineEdit::Numbered => numbered_spec(lines),
        LineEdit::Task => task_spec(lines),
        LineEdit::CodeBlock => code_block_spec(lines),
    }
}

fn apply_line_edit(lines: &Vec<Vec<char>>, edit: &LineEdit) -> (r: Vec<Vec<char>>)
    ensures
        line_views(r@) == line_edit_spec(line_views(lines@), *edit),
{
    match edit {
        LineEdit::Prefix { add, matches } => toggle_prefix_lines(lines, add, matches),
        LineEdit::Heading(level) => heading_lines(lines, *level),
        LineEdit::Numbered => numbered_lines(lines),
        LineEdit::Task => task_lines(lines),
        LineEdit::CodeBlock => code_block_lines(lines),
    }
}

/// A model of the note editor: the buffer text, the newest selection
/// (`selection_end` is the cursor), the name of the language at the cursor
/// (`None` for plain text) and whether the editor is read-only.
pub struct Editor {
    pub text: Vec<char>,
    pub selection_start: usize,
    pub selection_end: usize,
    pub language: Option<String>,
    pub read_only: bool,
}

/// Two editors hold the same state.
pub open spec fn same_editor(a: Editor, b: Editor) -> bool {
    &&& a.text@ == b.text@
    &&& a.selection_start == b.selection_start
    &&& a.selection_end == b.selection_end
    &&& a.language == b.language
    &&& a.read_only == b.read_only
}

impl Editor {
    /// The selection lies within the text.
    pub open spec fn wf(self) -> bool {
        self.selection_start <= self.selection_end <= self.text.len()
    }

    /// The cursor is in Markdown (or in text without a language).
    pub open spec fn in_markdown(self) -> bool {
        match self.language {
            None => true,
            Some(l) => l@ == "Markdown"@,
        }
    }

    /// Start of the first line the selection touches.
    pub open spec fn span_start(self) -> int {
        self.selection_start - trail(self.text@.take(self.selection_start as int), CharClass::Not('\n'))
    }

    /// End of the last line the selection covers: a selection that ends at
    /// the very start of a line does not take that line.
    pub open spec fn span_end(self) -> int {
        let t = self.text@;
        let e = self.selection_end as int;
        if self.selection_start == self.selection_end || (e > 0 && t[e - 1] != '\n') {
            e + lead(t.skip(e), CharClass::Not('\n'))
        } else {
            e - 1
        }
    }

    /// The lines the selection covers.
    pub open spec fn selected_lines(self) -> Seq<Seq<char>> {
        split_nl(self.text@.subrange(self.span_start(), self.span_end()))
    }

    /// The selected text.
    pub open spec fn selected_text(self) -> Seq<char> {
        self.text@.subrange(self.selection_start as int, self.selection_end as int)
    }

    /// `new` is `old` with its selected lines replaced by `ls`, which end up
    /// selected.
    pub open spec fn lines_replaced(old: Editor, new: Editor, ls: Seq<Seq<char>>) -> bool {
        let a = old.span_start();
        let b = old.span_end();
        &&& new.text@ == old.text@.take(a) + join_nl(ls) + old.text@.skip(b)
        &&& new.selection_start == a
        &&& new.selection_end == a + join_nl(ls).len()
        &&& new.language == old.language
        &&& new.read_only == old.read_only
    }

    /// `new` is `old` with its selection replaced by `s` and the cursor put
    /// `cursor` characters after the start of `s`.
    pub open spec fn selection_replaced(old: Editor, new: Editor, s: Seq<char>, cursor: nat) -> bool {
        let a = old.selection_start as int;
        &&& new.text@ == old.text@.take(a) + s + old.text@.skip(old.selection_end as int)
        &&& new.selection_start == a + cursor
        &&& new.selection_end == a + cursor
        &&& new.language == old.language
        &&& new.read_only == old.read_only
    }

    fn is_in_markdown_language(&self) -> (r: bool)
        ensures
            r == self.in_markdown(),
    {
        match &self.language {
            None => true,
            Some(l) => string_eq_str(l, "Markdown"),
        }
    }

    fn line_span(&self) -> (r: (usize, usize))
        requires
            self.wf(),
        ensures
            r.0 == self.span_start(),
            r.1 == self.span_end(),
            r.0 <= self.selection_start,
            r.0 <= r.1 <= self.text.len(),
    {
        let s = self.selection_start;
        let e = self.selection_end;
        let before = slice(&self.text, 0, s);
        let back = crate::text::count_trail(&before, CharClass::Not('\n'));
        proof {
            lemma_trail_bound(before@, CharClass::Not('\n'));
        }
        let end = if s == e || (e > 0 && self.text[e - 1] != '\n') {
            let fwd = crate::text::count_lead_at(&self.text, e, CharClass::Not('\n'));
            e + fwd
        } else {
            e - 1
        };
        (s - back, end)
    }

    /// Replaces the lines the selection covers by what `edit` makes of them
    /// and selects the result.
    fn manipulate_mutable_lines(&mut self, edit: &LineEdit)
        requires
            old(self).wf(),
        ensures
            final(self).wf(),
            Editor::lines_replaced(
                *old(self),
                *final(self),
                line_edit_spec(old(self).selected_lines(), *edit),
            ),
    {
        let (a, b) = self.line_span();
        let segment = slice(&self.text, a, b);
        let lines = split_lines_exact(&segment);
        let new_lines = apply_line_edit(&lines, edit);
        let joined = join_lines(&new_lines);
        let head = slice(&self.text, 0, a);
        let tail = slice(&self.text, b, self.text.len());
        let mut text = concat(&head, &joined);
        extend(&mut text, &tail);
        proof {
            assert(head@ =~= old(self).text@.take(a as int));
            assert(tail@ =~= old(self).text@.skip(b as int));
        }
        let total = text.len();
        assert(total == head@.len() + joined@.len() + tail@.len());
        self.text = text;
        self.selection_start = a;
        self.selection_end = a + joined.len();
    }

    /// Replaces the selection by `s` and puts the cursor `cursor` characters
    /// into it.
    fn replace_selection(&mut self, s: &Vec<char>, cursor: usize)
        requires
            old(self).wf(),
            cursor <= s.len(),
        ensures
            final(self).wf(),
            Editor::selection_replaced(*old(self), *final(self), s@, cursor as nat),
    {
        let a = self.selection_start;
        let head = slice(&self.text, 0, a);
        let tail = slice(&self.text, self.selection_end, self.text.len());
        let mut text = concat(&head, s);
        extend(&mut text, &tail);
        proof {
            assert(head@ =~= old(self).text@.take(a as int));
            assert(tail@ =~= old(self).text@.skip(old(self).selection_end as int));
        }
        let total = text.len();
        assert(total == head@.len() + s@.len() + tail@.len());
        self.text = text;
        self.selection_start = a + cursor;
        self.selection_end = a + cursor;
    }

    /// Inserts `s` in place of the selection, with the cursor after it.
    pub fn insert(&mut self, s: &str)
        requires
            old(self).wf(),
        ensures
            final(self).wf(),
            Editor::selection_replaced(*old(self), *final(self), s@, s@.len()),
    {
        let v = chars_of(s);
        self.replace_selection(&v, v.len());
    }

    fn toggle_markdown_line_prefix(&mut self, add_prefix: &str, match_prefixes: &Vec<Vec<char>>)
        requires
            old(self).wf(),
        ensures
            final(self).wf(),
            if old(self).in_markdown() {
                Editor::lines_replaced(
                    *old(self),
                    *final(self),
                    toggle_prefix_spec(old(self).selected_lines(), add_prefix@, line_views(match_prefixes@)),
                )
            } else {
                same_editor(*final(self), *old(self))
            },
    {
        if !self.is_in_markdown_language() {
            return;
        }
        let edit = LineEdit::Prefix { add: chars_of(add_prefix), matches: clone_lines(match_prefixes) };
        self.manipulate_mutable_lines(&edit);
    }

    /// Toggles a block quote (`> `) on the selected lines.
    pub fn toggle_markdown_block_quote(&mut self)
        requires
            old(self).wf(),
        ensures
            final(self).wf(),
            if old(self).in_markdown() {
                Editor::lines_replaced(
                    *old(self),
                    *final(self),
                    toggle_prefix_spec(old(self).selected_lines(), "> "@, seq!["> "@, ">"@]),
                )
            } else {
                same_editor(*final(self), *old(self))
            },
    {
        let mut ps: Vec<Vec<char>> = Vec::new();
        ps.push(chars_of("> "));
        ps.push(chars_of(">"));
        assert(line_views(ps@) =~= seq!["> "@, ">"@]);
        self.toggle_markdown_line_prefix("> ", &ps);
    }

    /// Toggles a bullet list (`- `, recognising `- `, `* ` and `+ `) on the
    /// selected lines.
    pub fn toggle_markdown_unordered_list(&mut self)
        requires
            old(self).wf(),
        ensures
            final(self).wf(),
            if old(self).in_markdown() {
                Editor::lines_replaced(
                    *old(self),
                    *final(self),
                    toggle_prefix_spec(old(self).selected_lines(), "- "@, seq!["- "@, "* "@, "+ "@]),
                )
            } else {
                same_editor(*final(self), *old(self))
            },
    {
        let mut ps: Vec<Vec<char>> = Vec::new();
        ps.push(chars_of("- "));
        ps.push(chars_of("* "));
        ps.push(chars_of("+ "));
        assert(line_views(ps@) =~= seq!["- "@, "* "@, "+ "@]);
        self.toggle_markdown_line_prefix("- ", &ps);
    }

    fn set_markdown_heading(&mut self, level: u8)
        requires
            old(self).wf(),
        ensures
            final(self).wf(),
            if old(self).in_markdown() {
                Editor::lines_replaced(
                    *old(self),
                    *final(self),
                    heading_spec(old(self).selected_lines(), level as nat),
                )
            } else {
                same_editor(*final(self), *old(self))
            },
    {
        if !self.is_in_markdown_language() {
            return;
        }
        self.manipulate_mutable_lines(&LineEdit::Heading(level));
    }

    /// Toggles a level-1 heading on the selected lines.
    pub fn toggle_markdown_heading_1(&mut self)
        requires
            old(self).wf(),
        ensures
            final(self).wf(),
            if old(self).in_markdown() {
                Editor::lines_replaced(*old(self), *final(self), heading_spec(old(self).selected_lines(), 1))
            } else {
                same_editor(*final(self), *old(self))
            },
    {
        self.set_markdown_heading(1);
    }

    /// Toggles a level-2 heading on the selected lines.
    pub fn toggle_markdown_heading_2(&mut self)
        requires
            old(self).wf(),
        ensures
            final(self).wf(),
            if old(self).in_markdown() {
                Editor::lines_replaced(*old(self), *final(self), heading_spec(old(self).selected_lines(), 2))
            } else {
                same_editor(*final(self), *old(self))
            },
    {
        self.set_markdown_heading(2);
    }

    /// Toggles a level-3 heading on the selected lines.
    pub fn toggle_markdown_heading_3(&mut self)
        requires
            old(self).wf(),
        ensures
            final(self).wf(),
            if old(self).in_markdown() {
                Editor::lines_replaced(*old(self), *final(self), heading_spec(old(self).selected_lines(), 3))
            } else {
                same_editor(*final(self), *old(self))
            },
    {
        self.set_markdown_heading(3);
    }

    /// Toggles a level-4 heading on the selected lines.
    pub fn toggle_markdown_heading_4(&mut self)
        requires
            old(self).wf(),
        ensures
            final(self).wf(),
            if old(self).in_markdown() {
                Editor::lines_replaced(*old(self), *final(self), heading_spec(old(self).selected_lines(), 4))
            } else {
                same_editor(*final(self), *old(self))
            },
    {
        self.set_markdown_heading(4);
    }

    /// Toggles a level-5 heading on the selected lines.
    pub fn toggle_markdown_heading_5(&mut self)
        requires
            old(self).wf(),
        ensures
            final(self).wf(),
            if old(self).in_markdown() {
                Editor::lines_replaced(*old(self), *final(self), heading_spec(old(self).selected_lines(), 5))
            } else {
                same_editor(*final(self), *old(self))
            },
    {
        self.set_markdown_heading(5);
    }

    /// Toggles a level-6 heading on the selected lines.
    pub fn toggle_markdown_heading_6(&mut self)
        requires
            old(self).wf(),
        ensures
            final(self).wf(),
            if old(self).in_markdown() {
                Editor::lines_replaced(*old(self), *final(self), heading_spec(old(self).selected_lines(), 6))
            } else {
                same_editor(*final(self), *old(self))
            },
    {
        self.set_markdown_heading(6);
    }

    /// Toggles numbering on the selected lines.
    pub fn toggle_markdown_ordered_list(&mut self)
        requires
            old(self).wf(),
        ensures
            final(self).wf(),
            if old(self).in_markdown() {
                Editor::lines_replaced(*old(self), *final(self), numbered_spec(old(self).selected_lines()))
            } else {
                same_editor(*final(self), *old(self))
            },
    {
        if !self.is_in_markdown_language() {
            return;
        }
        self.manipulate_mutable_lines(&LineEdit::Numbered);
    }

    /// Toggles task markers on the selected lines.
    pub fn toggle_markdown_task_list(&mut self)
        requires
            old(self).wf(),
        ensures
            final(self).wf(),
            if old(self).in_markdown() {
                Editor::lines_replaced(*old(self), *final(self), task_spec(old(self).selected_lines()))
            } else {
                same_editor(*final(self), *old(self))
            },
    {
        if !self.is_in_markdown_language() {
            return;
        }
        self.manipulate_mutable_lines(&LineEdit::Task);
    }

    /// Toggles a code fence around the selected lines (not in a read-only
    /// editor).
    pub fn toggle_markdown_code_block(&mut self)
        requires
            old(self).wf(),
        ensures
            final(self).wf(),
            if old(self).in_markdown() && !old(self).read_only {
                Editor::lines_replaced(*old(self), *final(self), code_block_spec(old(self).selected_lines()))
            } else {
                same_editor(*final(self), *old(self))
            },
    {
        if !self.is_in_markdown_language() || self.read_only {
            return;
        }
        self.manipulate_mutable_lines(&LineEdit::CodeBlock);
    }

    fn wrap_or_unwrap_markdown_inline(&mut self, open: &str, close: &str)
        requires
            old(self).wf(),
        ensures
            final(self).wf(),
            if old(self).in_markdown() && !old(self).read_only {
                Editor::selection_replaced(
                    *old(self),
                    *final(self),
                    inline_toggle(old(self).selected_text(), open@, close@).0,
                    inline_toggle(old(self).selected_text(), open@, close@).1,
                )
            } else {
                same_editor(*final(self), *old(self))
            },
    {
        if !self.is_in_markdown_language() || self.read_only {
            return;
        }
        let selected = slice(&self.text, self.selection_start, self.selection_end);
        let (replacement, cursor) = toggle_inline_markup(&selected, &chars_of(open), &chars_of(close));
        proof {
            if starts_with(selected@, open@) && ends_with(selected@, close@) && selected@.len()
                >= open@.len() + close@.len() {
                assert(cursor <= replacement.len());
            }
        }
        self.replace_selection(&replacement, cursor);
    }

    /// Toggles `**bold**` around the selection.
    pub fn toggle_markdown_bold(&mut self)
        requires
            old(self).wf(),
        ensures
            final(self).wf(),
            if old(self).in_markdown() && !old(self).read_only {
                Editor::selection_replaced(
                    *old(self),
                    *final(self),
                    inline_toggle(old(self).selected_text(), "**"@, "**"@).0,
                    inline_toggle(old(self).selected_text(), "**"@, "**"@).1,
                )
            } else {
                same_editor(*final(self), *old(self))
            },
    {
        self.wrap_or_unwrap_markdown_inline("**", "**");
    }

    /// Toggles `*italic*` around the selection.
    pub fn toggle_markdown_italic(&mut self)
        requires
            old(self).wf(),
        ensures
            final(self).wf(),
            if old(self).in_markdown() && !old(self).read_only {
                Editor::selection_replaced(
                    *old(self),
                    *final(self),
                    inline_toggle(old(self).selected_text(), "*"@, "*"@).0,
                    inline_toggle(old(self).selected_text(), "*"@, "*"@).1,
                )
            } else {
                same_editor(*final(self), *old(self))
            },
    {
        self.wrap_or_unwrap_markdown_inline("*", "*");
    }

    /// Toggles `~~strikethrough~~` around the selection.
    pub fn toggle_markdown_strikethrough(&mut self)
        requires
            old(self).wf(),
        ensures
            final(self).wf(),
            if old(self).in_markdown() && !old(self).read_only {
                Editor::selection_replaced(
                    *old(self),
                    *final(self),
                    inline_toggle(old(self).selected_text(), "~~"@, "~~"@).0,
                    inline_toggle(old(self).selected_text(), "~~"@, "~~"@).1,
                )
            } else {
                same_editor(*final(self), *old(self))
            },
    {
        self.wrap_or_unwrap_markdown_inline("~~", "~~");
    }

    /// Toggles `` `inline code` `` around the selection.
    pub fn toggle_markdown_inline_code(&mut self)
        requires
            old(self).wf(),
        ensures
            final(self).wf(),
            if old(self).in_markdown() && !old(self).read_only {
                Editor::selection_replaced(
                    *old(self),
                    *final(self),
                    inline_toggle(old(self).selected_text(), "`"@, "`"@).0,
                    inline_toggle(old(self).selected_text(), "`"@, "`"@).1,
                )
            } else {
                same_editor(*final(self), *old(self))
            },
    {
        self.wrap_or_unwrap_markdown_inline("`", "`");
    }

    /// Replaces the selection by a Markdown link to it.
    pub fn insert_markdown_link(&mut self)
        requires
            old(self).wf(),
        ensures
            final(self).wf(),
            if old(self).in_markdown() && !old(self).read_only {
                Editor::selection_replaced(
                    *old(self),
                    *final(self),
                    link_text(old(self).selected_text()),
                    link_text(old(self).selected_text()).len(),
                )
            } else {
                same_editor(*final(self), *old(self))
            },
    {
        if !self.is_in_markdown_language() || self.read_only {
            return;
        }
        let selected = slice(&self.text, self.selection_start, self.selection_end);
        let replacement = if selected.len() == 0 {
            chars_of("[text](url)")
        } else {
            let mut r = chars_of("[");
            extend(&mut r, &selected);
            extend(&mut r, &chars_of("](url)"));
            r
        };
        self.replace_selection(&replacement, replacement.len());
    }

    /// Replaces the selection by a Markdown image whose alt text it is.
    pub fn insert_markdown_image(&mut self)
        requires
            old(self).wf(),
        ensures
            final(self).wf(),
            if old(self).in_markdown() && !old(self).read_only {
                Editor::selection_replaced(
                    *old(self),
                    *final(self),
                    image_text(old(self).selected_text()),
                    image_text(old(self).selected_text()).len(),
                )
            } else {
                same_editor(*final(self), *old(self))
            },
    {
        if !self.is_in_markdown_language() || self.read_only {
            return;
        }
        let selected = slice(&self.text, self.selection_start, self.selection_end);
        let replacement = if selected.len() == 0 {
            chars_of("![alt](url)")
        } else {
            let mut r = chars_of("![");
            extend(&mut r, &selected);
            extend(&mut r, &chars_of("](url)"));
            r
        };
        self.replace_selection(&replacement, replacement.len());
    }

    /// Inserts a two-column table skeleton in place of the selection.
    pub fn insert_markdown_table(&mut self)
        requires
            old(self).wf(),
        ensures
            final(self).wf(),
            if old(self).in_markdown() && !old(self).read_only {
                Editor::selection_replaced(*old(self), *final(self), table_text(), table_text().len())
            } else {
                same_editor(*final(self), *old(self))
            },
    {
        if !self.is_in_markdown_language() || self.read_only {
            return;
        }
        self.insert("| Column 1 | Column 2 |\n| --- | --- |\n|  |  |\n");
    }

    /// Inserts a horizontal rule in place of the selection.
    pub fn insert_markdown_horizontal_rule(&mut self)
        requires
            old(self).wf(),
        ensures
            final(self).wf(),
            if old(self).in_markdown() && !old(self).read_only {
                Editor::selection_replaced(*old(self), *final(self), rule_text(), rule_text().len())
            } else {
                same_editor(*final(self), *old(self))
            },
    {
        if !self.is_in_markdown_language() || self.read_only {
            return;
        }
        self.insert("\n---\n");
    }
}

/// Copies a list of lines.
fn clone_lines(v: &Vec<Vec<char>>) -> (r: Vec<Vec<char>>)
    ensures
        line_views(r@) == line_views(v@),
{
    let mut r: Vec<Vec<char>> = Vec::new();
    let mut i: usize = 0;
    while i < v.len()
        invariant
            i <= v.len(),
            line_views(r@) == line_views(v@).take(i as int),
        decreases v.len() - i,
    {
        let ghost before = r@;
        let l = slice(&v[i], 0, v[i].len());
        r.push(l);
        proof {
            assert(l@ =~= v@[i as int]@);
            crate::lines::lemma_line_views_push(before, l);
            assert(line_views(r@) =~= line_views(v@).take(i + 1));
        }
        i += 1;
    }
    assert(line_views(v@).take(v.len() as int) =~= line_views(v@));
    r
}

} // verus!
