//! The editor's command types.
//!
//! Each command is a small value the keymap or the registry hands to the
//! dispatcher. What a command decides on its own — which span a delete
//! removes, which line a new caret lands on, the text an insert types,
//! which theme comes next — is computed here from plain values the
//! buffer and the theme store report.

use vstd::prelude::*;

use crate::commands::registry::str_eq;
use crate::text::push_char;

verus! {

/// Undo the last edit of the active document.
pub struct Undo;

/// Redo the last undone edit of the active document.
pub struct Redo;

/// Select the whole active document.
pub struct SelectAll;

/// Replace each selection with a line break.
pub struct InsertNewline;

/// Replace each selection with a four-space indent.
pub struct InsertTab;

/// Delete the character (or word) before each caret.
pub struct DeleteBack {
    pub word: bool,
}

/// Delete the character (or word) after each caret.
pub struct DeleteForward {
    pub word: bool,
}

/// Add a point caret one line above the primary head, at the same
/// column clamped to the new line's width.
pub struct AddCursorAbove;

/// Add a point caret one line below the primary head.
pub struct AddCursorBelow;

/// Drop secondary carets back to the primary; a single non-empty range
/// collapses to a point at its head.
pub struct CollapseSelection;

/// Replace each selection with one character.
pub struct InsertChar(pub char);

/// Quit the editor.
pub struct Quit;

/// Save the active document.
pub struct Save;

/// Keep the buffer as it is and forget the pending disk change.
pub struct KeepBufferIgnoreDisk;

/// Open a file in place of the active frame's document.
pub struct OpenPath(pub String);

/// Reload the active document from disk.
pub struct ReloadFromDisk;

/// Open the command palette.
pub struct OpenPalette;

/// Close the command palette if it is the open modal.
pub struct ClosePalette;

/// Close whatever modal is open.
pub struct CloseModal;

/// Move the palette selection by a signed number of rows.
pub struct PaletteMove(pub isize);

/// Replace the palette query.
pub struct PaletteSetQuery(pub String);

/// Run the palette's selected command and close the palette.
pub struct PaletteAccept;

/// Activate the theme with this id (no-op when it isn't registered).
pub struct SetTheme(pub String);

/// Activate the next registered theme, wrapping around.
pub struct CycleTheme;

impl InsertNewline {
    /// The text typed in place of each selection.
    pub fn text(&self) -> (r: &'static str)
        ensures
            r@ == seq!['\n'],
    {
        proof {
            reveal_strlit("\n");
        }
        "\n"
    }
}

impl InsertTab {
    /// The text typed in place of each selection: four spaces.
    pub fn text(&self) -> (r: &'static str)
        ensures
            r@ == seq![' ', ' ', ' ', ' '],
    {
        proof {
            reveal_strlit("    ");
        }
        "    "
    }
}

impl InsertChar {
    /// The text typed in place of each selection: the one character.
    pub fn text(&self) -> (r: String)
        ensures
            r@ == seq![self.0],
    {
        let mut s = String::new();
        push_char(&mut s, self.0);
        proof {
            assert(s@ =~= seq![self.0]);
        }
        s
    }
}

/// The char span `(start, end)` a backward delete at `head` removes:
/// nothing at the start of the buffer, else the previous character, or
/// back to `word_left` (the buffer's word boundary left of `head`).
pub open spec fn back_span(word: bool, head: int, word_left: int) -> Option<(int, int)> {
    if head == 0 {
        None
    } else if word {
        Some((word_left, head))
    } else {
        Some((head - 1, head))
    }
}

/// The char span a forward delete at `head` removes in a buffer of
/// `len` chars: nothing at or past the end, else the next character, or
/// up to `word_right` (the buffer's word boundary right of `head`).
pub open spec fn forward_span(word: bool, head: int, len: int, word_right: int) -> Option<(int, int)> {
    if head >= len {
        None
    } else if word {
        Some((head, word_right))
    } else {
        Some((head, head + 1))
    }
}

/// Widen a span of `usize` to one of `int`.
pub open spec fn span_view(s: Option<(usize, usize)>) -> Option<(int, int)> {
    match s {
        Some((a, b)) => Some((a as int, b as int)),
        None => None,
    }
}

impl DeleteBack {
    /// The span this delete removes at caret `head`; `word_left` is the
    /// buffer's word boundary left of `head`.
    pub fn span(&self, head: usize, word_left: usize) -> (r: Option<(usize, usize)>)
        ensures
            span_view(r) == back_span(self.word, head as int, word_left as int),
    {
        if head == 0 {
            None
        } else if self.word {
            Some((word_left, head))
        } else {
            Some((head - 1, head))
        }
    }
}

impl DeleteForward {
    /// The span this delete removes at caret `head` in a buffer of `len`
    /// chars; `word_right` is the buffer's word boundary right of `head`.
    pub fn span(&self, head: usize, len: usize, word_right: usize) -> (r: Option<(usize, usize)>)
        ensures
            span_view(r) == forward_span(self.word, head as int, len as int, word_right as int),
    {
        if head >= len {
            None
        } else if self.word {
            Some((head, word_right))
        } else {
            Some((head, head + 1))
        }
    }
}

impl AddCursorAbove {
    /// The line the new caret goes on, given the primary head's line:
    /// none from the first line.
    pub fn target_line(&self, line: usize) -> (r: Option<usize>)
        ensures
            r == (if line == 0 { None } else { Some((line - 1) as usize) }),
    {
        if line == 0 {
            None
        } else {
            Some(line - 1)
        }
    }
}

impl AddCursorBelow {
    /// The line the new caret goes on, given the primary head's line and
    /// the buffer's line count: none from the last line.
    pub fn target_line(&self, line: usize, line_count: usize) -> (r: Option<usize>)
        ensures
            r == (if line + 1 >= line_count { None } else { Some((line + 1) as usize) }),
    {
        let max_line = line_count.saturating_sub(1);
        if line >= max_line {
            None
        } else {
            Some(line + 1)
        }
    }
}

/// The char index of column `col` on a line that starts at `line_start`
/// and holds `line_len` chars: the column is clamped to the line's width.
pub fn caret_on_line(col: usize, line_len: usize, line_start: usize) -> (r: usize)
    requires
        line_start + line_len <= usize::MAX,
    ensures
        r == line_start + (if col < line_len { col } else { line_len }),
{
    let c = if col < line_len { col } else { line_len };
    line_start + c
}

/// `i` is the first index of `ids` whose text is `a`.
pub open spec fn first_index_of(ids: Seq<String>, a: Seq<char>, i: int) -> bool {
    &&& 0 <= i < ids.len()
    &&& ids[i]@ == a
    &&& forall|j: int| 0 <= j < i ==> ids[j]@ != a
}

/// The theme that follows `active` in `ids`, as an index: the one after
/// its first occurrence, wrapping to the front; the first theme when
/// nothing (or an unregistered id) is active; none with no themes.
pub open spec fn cycle_next(ids: Seq<String>, active: Option<Seq<char>>) -> Option<int> {
    if ids.len() == 0 {
        None
    } else {
        match active {
            Some(a) => if exists|i: int| first_index_of(ids, a, i) {
                Some(((choose|i: int| first_index_of(ids, a, i)) + 1) % (ids.len() as int))
            } else {
                Some(0)
            },
            None => Some(0),
        }
    }
}

/// A first index is unique.
proof fn lemma_first_index_unique(ids: Seq<String>, a: Seq<char>, i: int, k: int)
    requires
        first_index_of(ids, a, i),
        first_index_of(ids, a, k),
    ensures
        i == k,
{
    if i < k {
        assert(ids[i]@ != a);
    } else if k < i {
        assert(ids[k]@ != a);
    }
}

impl CycleTheme {
    /// Index into `ids` (the registered theme ids, in registration
    /// order) of the theme to activate after `active`.
    pub fn next(&self, ids: &[String], active: Option<&str>) -> (r: Option<usize>)
        ensures
            match r {
                Some(n) => cycle_next(ids@, crate::commands::registry::opt_str(active)) == Some(
                    n as int,
                ),
                None => cycle_next(ids@, crate::commands::registry::opt_str(active)) is None,
            },
    {
        if ids.len() == 0 {
            return None;
        }
        let a = match active {
            Some(a) => a,
            None => {
                return Some(0);
            },
        };
        let mut i: usize = 0;
        while i < ids.len()
            invariant
                i <= ids@.len(),
                ids@.len() > 0,
                active == Some(a),
                forall|j: int| 0 <= j < i ==> ids@[j]@ != a@,
            decreases ids@.len() - i,
        {
            if str_eq(ids[i].as_str(), a) {
                proof {
                    assert(first_index_of(ids@, a@, i as int));
                    let k = choose|k: int| first_index_of(ids@, a@, k);
                    lemma_first_index_unique(ids@, a@, i as int, k);
                    assert(crate::commands::registry::opt_str(active) == Some(a@));
                    assert(cycle_next(ids@, Some(a@)) == Some(((i + 1) as int) % (ids@.len() as int)));
                }
                return Some((i + 1) % ids.len());
            }
            i = i + 1;
        }
        proof {
            assert(!exists|k: int| first_index_of(ids@, a@, k)) by {
                if exists|k: int| first_index_of(ids@, a@, k) {
                    let k = choose|k: int| first_index_of(ids@, a@, k);
                    assert(ids@[k]@ == a@);
                }
            }
        }
        Some(0)
    }
}

} // verus!
