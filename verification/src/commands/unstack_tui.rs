//! State of the split-point picker of `gg unstack`: entries at and above the
//! cursor move to the new stack, those below stay.
use vstd::prelude::*;
use crate::commands::split_tui::Key;
use crate::text::{dec, dec_string, pad_right, push_padded, push_str};

verus! {

/// A stack entry as the picker shows it.
#[derive(Debug, Clone)]
pub struct UnstackEntry {
    /// Short SHA for display.
    pub short_sha: String,
    /// Commit title (first line).
    pub title: String,
}

/// State of the picker.
pub struct UnstackTuiState {
    /// Stack entries, bottom of the stack first.
    pub entries: Vec<UnstackEntry>,
    /// The split point: entries at and above it move to the new stack.
    pub cursor: usize,
    pub confirmed: bool,
    pub aborted: bool,
}

impl UnstackTuiState {
    /// A picker with the cursor at `initial`, kept on the last entry at most.
    pub fn new(entries: Vec<UnstackEntry>, initial: usize) -> (s: Self)
        ensures
            s.entries@ == entries@,
            s.cursor == (if entries@.len() == 0 {
                0
            } else if initial < entries@.len() {
                initial as int
            } else {
                entries@.len() - 1
            }),
            !s.confirmed,
            !s.aborted,
    {
        let n = entries.len();
        let last = if n == 0 { 0 } else { n - 1 };
        let cursor = if initial < last { initial } else { last };
        UnstackTuiState { entries, cursor, confirmed: false, aborted: false }
    }

    /// Up, but never above the second entry (splitting off everything is refused).
    pub fn cursor_up(&mut self)
        ensures
            final(self).cursor == (if old(self).cursor > 1 { old(self).cursor - 1 } else { old(self).cursor as int }),
            final(self).entries == old(self).entries,
            final(self).confirmed == old(self).confirmed,
            final(self).aborted == old(self).aborted,
    {
        if self.cursor > 1 {
            self.cursor = self.cursor - 1;
        }
    }

    /// Down, but never past the last entry.
    pub fn cursor_down(&mut self)
        ensures
            final(self).cursor == (if old(self).cursor + 1 < old(self).entries@.len() {
                old(self).cursor + 1
            } else {
                old(self).cursor as int
            }),
            final(self).entries == old(self).entries,
            final(self).confirmed == old(self).confirmed,
            final(self).aborted == old(self).aborted,
    {
        let n = self.entries.len();
        if n > 0 && self.cursor < n - 1 {
            self.cursor = self.cursor + 1;
        }
    }

    /// The split position, counted from 1.
    pub fn split_position(&self) -> (r: usize)
        requires
            self.cursor < usize::MAX,
        ensures
            r == self.cursor + 1,
    {
        self.cursor + 1
    }
}

/// Reacts to a key: Ctrl+C, `q` and Esc cancel; Enter and `s` confirm;
/// Up/`k` and Down/`j` move; other keys do nothing.
pub fn handle_key(state: &mut UnstackTuiState, code: Key, ctrl: bool)
    ensures
        final(state).entries == old(state).entries,
        (ctrl && code == Key::Char('c')) || code == Key::Char('q') || code == Key::Esc ==> {
            &&& final(state).aborted
            &&& final(state).cursor == old(state).cursor
            &&& final(state).confirmed == old(state).confirmed
        },
        !(ctrl && code == Key::Char('c')) && (code == Key::Enter || code == Key::Char('s')) ==> {
            &&& final(state).confirmed
            &&& final(state).cursor == old(state).cursor
            &&& final(state).aborted == old(state).aborted
        },
        !(ctrl && code == Key::Char('c')) && (code == Key::Up || code == Key::Char('k')) ==> {
            &&& final(state).cursor == (if old(state).cursor > 1 { old(state).cursor - 1 } else { old(state).cursor as int })
            &&& final(state).confirmed == old(state).confirmed
            &&& final(state).aborted == old(state).aborted
        },
        !(ctrl && code == Key::Char('c')) && (code == Key::Down || code == Key::Char('j')) ==> {
            &&& final(state).cursor == (if old(state).cursor + 1 < old(state).entries@.len() {
                old(state).cursor + 1
            } else {
                old(state).cursor as int
            })
            &&& final(state).confirmed == old(state).confirmed
            &&& final(state).aborted == old(state).aborted
        },
        !(ctrl && code == Key::Char('c')) && !(code == Key::Up || code == Key::Char('k') || code == Key::Down
            || code == Key::Char('j') || code == Key::Enter || code == Key::Char('s') || code == Key::Char('q')
            || code == Key::Esc) ==> {
            &&& final(state).cursor == old(state).cursor
            &&& final(state).confirmed == old(state).confirmed
            &&& final(state).aborted == old(state).aborted
        },
{
    if ctrl && code == Key::Char('c') {
        state.aborted = true;
        return;
    }
    match code {
        Key::Up | Key::Char('k') => state.cursor_up(),
        Key::Down | Key::Char('j') => state.cursor_down(),
        Key::Enter | Key::Char('s') => state.confirmed = true,
        Key::Char('q') | Key::Esc => state.aborted = true,
        _ => {},
    }
}

/// One row of the entry list.
#[derive(Debug)]
pub struct UnstackRow {
    /// The row is under the cursor (drawn with `▸` and highlighted).
    pub cursor: bool,
    /// The entry moves to the new stack (drawn with emphasis).
    pub moves: bool,
    /// `[MOVE] ` or `[stay] `, the position padded to 3, the short SHA and
    /// the title.
    pub text: String,
}

/// The text of the row of entry `i` (0-based) for a split at `cursor`.
pub open spec fn row_text(e: UnstackEntry, i: int, cursor: int) -> Seq<char> {
    (if i >= cursor { "[MOVE] "@ } else { "[stay] "@ }) + pad_right(dec((i + 1) as nat), 3) + e.short_sha@ + " "@
        + e.title@
}

impl UnstackTuiState {
    /// The rows of the entry list, bottom of the stack first.
    pub fn entry_rows(&self) -> (r: Vec<UnstackRow>)
        ensures
            r@.len() == self.entries@.len(),
            forall|i: int| 0 <= i < r@.len() ==> {
                &&& (#[trigger] r@[i]).cursor == (i == self.cursor)
                &&& r@[i].moves == (i >= self.cursor)
                &&& r@[i].text@ == row_text(self.entries@[i], i, self.cursor as int)
            },
    {
        let mut rows: Vec<UnstackRow> = Vec::new();
        let mut i: usize = 0;
        while i < self.entries.len()
            invariant
                i <= self.entries@.len(),
                rows@.len() == i,
                forall|k: int| 0 <= k < i ==> {
                    &&& (#[trigger] rows@[k]).cursor == (k == self.cursor)
                    &&& rows@[k].moves == (k >= self.cursor)
                    &&& rows@[k].text@ == row_text(self.entries@[k], k, self.cursor as int)
                },
            decreases self.entries.len() - i,
        {
            let e = &self.entries[i];
            let moves = i >= self.cursor;
            let mut t = String::new();
            push_str(&mut t, if moves { "[MOVE] " } else { "[stay] " });
            push_padded(&mut t, dec_string((i + 1) as u64).as_str(), 3);
            push_str(&mut t, e.short_sha.as_str());
            push_str(&mut t, " ");
            push_str(&mut t, e.title.as_str());
            assert(t@ =~= row_text(self.entries@[i as int], i as int, self.cursor as int));
            rows.push(UnstackRow { cursor: i == self.cursor, moves, text: t });
            i = i + 1;
        }
        rows
    }

    /// The list's title: how many entries remain and how many move.
    pub fn list_title(&self) -> (r: String)
        requires
            self.cursor <= self.entries@.len(),
        ensures
            r@ == " Unstack — "@ + dec(self.cursor as nat) + " remain, "@ + dec((self.entries@.len() - self.cursor) as nat)
                + " move to new stack "@,
    {
        let mut t = String::new();
        push_str(&mut t, " Unstack — ");
        push_str(&mut t, dec_string(self.cursor as u64).as_str());
        push_str(&mut t, " remain, ");
        push_str(&mut t, dec_string((self.entries.len() - self.cursor) as u64).as_str());
        push_str(&mut t, " move to new stack ");
        t
    }
}

} // verus!
