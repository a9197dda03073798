//! State of the interactive hunk picker of `gg split`: files and hunks to
//! choose from, the selection, the cursors, and the two commit messages being
//! typed. Drawing and reading keys belong to the terminal front end.
use vstd::prelude::*;
use crate::commands::split::{DiffHunk, DiffLine};
use crate::line_edit::{
    backspace_at, cursor_parts, cursor_split, backspaced, char_at_byte, clear_after, clear_before, delete_at, deleted,
    insert_at, inserted, is_boundary, lemma_char_at_byte, left_of, moved_left, moved_right,
    right_of, str_byte_len,
};
use crate::text::{chars_of, copy_str, dec, dec_string, push_char, push_range, push_str, str_eq, string_of, trim, trim_bounds, utf8_len};

verus! {

/// Result of the hunk selection and the inline commit messages.
#[derive(Debug, Clone)]
pub struct TuiResult {
    /// Indices of the selected hunks.
    pub selected_indices: Vec<usize>,
    /// Message of the new commit.
    pub commit_message: String,
    /// Message of the remainder commit (`None` with `--no-edit`).
    pub remainder_message: Option<String>,
}

/// The panel that has the focus.
#[derive(Debug, Clone, Copy, PartialEq, Eq, Structural)]
pub enum Panel {
    Files,
    Diff,
}

/// What the keys currently do.
#[derive(Debug, Clone, Copy, PartialEq, Eq, Structural)]
pub enum TuiMode {
    /// Choosing hunks.
    HunkSelection,
    /// Typing the message of the new commit.
    MessageInput,
    /// Typing the message of the remainder commit.
    RemainderInput,
}

/// A file of the list: its path and the indices of its hunks.
#[derive(Debug, Clone)]
pub struct TuiFile {
    pub path: String,
    pub hunk_indices: Vec<usize>,
}

/// State of the picker.
pub struct SplitTuiState {
    /// All hunks.
    pub hunks: Vec<DiffHunk>,
    /// Whether each hunk is selected.
    pub selected: Vec<bool>,
    /// The hunks grouped by file.
    pub files: Vec<TuiFile>,
    pub active_panel: Panel,
    pub mode: TuiMode,
    /// Index of the file under the cursor.
    pub file_cursor: usize,
    /// Index, within the current file, of the hunk under the cursor.
    pub hunk_cursor: usize,
    /// First visible line of the diff panel.
    pub diff_scroll: usize,
    pub confirmed: bool,
    pub aborted: bool,
    /// The new commit's message and its cursor (a byte offset).
    pub message_text: String,
    pub message_cursor: usize,
    pub default_message: String,
    /// The remainder commit's message and its cursor (a byte offset).
    pub remainder_text: String,
    pub remainder_cursor: usize,
    pub original_message: String,
    /// Skip the remainder message (`--no-edit`).
    pub no_edit: bool,
}

/// A key, as the picker reads it.
#[derive(Debug, Clone, Copy, PartialEq, Eq, Structural)]
pub enum Key {
    Up,
    Down,
    Left,
    Right,
    Tab,
    Enter,
    Esc,
    Backspace,
    Delete,
    Home,
    End,
    Char(char),
    Other,
}

// ---------------------------------------------------------------------------
// Model
// ---------------------------------------------------------------------------

/// A file of the list, by its path and hunk indices.
pub open spec fn file_view(f: TuiFile) -> (Seq<char>, Seq<usize>) {
    (f.path@, f.hunk_indices@)
}

/// The file list, by paths and hunk indices.
pub open spec fn files_view(fs: Seq<TuiFile>) -> Seq<(Seq<char>, Seq<usize>)> {
    fs.map_values(|f: TuiFile| file_view(f))
}

/// The path of each hunk.
pub open spec fn hunk_paths(hs: Seq<DiffHunk>) -> Seq<Seq<char>> {
    hs.map_values(|h: DiffHunk| h.file_path@)
}

/// The first group from index `i` on whose path is `p`, or -1.
pub open spec fn find_group(g: Seq<(Seq<char>, Seq<usize>)>, p: Seq<char>, i: int) -> int
    decreases g.len() - i,
{
    if i < 0 || i >= g.len() {
        -1
    } else if g[i].0 == p {
        i
    } else {
        find_group(g, p, i + 1)
    }
}

/// Hunk indices grouped by path, files in order of first appearance and
/// each file's hunks in order.
pub open spec fn grouped(paths: Seq<Seq<char>>) -> Seq<(Seq<char>, Seq<usize>)>
    decreases paths.len(),
{
    if paths.len() == 0 {
        seq![]
    } else {
        let g = grouped(paths.drop_last());
        let i = (paths.len() - 1) as usize;
        let p = paths.last();
        let f = find_group(g, p, 0);
        if f >= 0 {
            g.update(f, (p, g[f].1.push(i)))
        } else {
            g.push((p, seq![i]))
        }
    }
}

/// The state can be worked on: each hunk has one selection flag, every
/// file's hunk index names a hunk, and both cursors stand on character
/// boundaries.
pub open spec fn wf(s: SplitTuiState) -> bool {
    &&& s.selected@.len() == s.hunks@.len()
    &&& forall|f: int, j: int| 0 <= f < s.files@.len() && 0 <= j < s.files@[f].hunk_indices@.len()
        ==> #[trigger] s.files@[f].hunk_indices@[j] < s.selected@.len()
    &&& is_boundary(s.message_text@, s.message_cursor as int)
    &&& is_boundary(s.remainder_text@, s.remainder_cursor as int)
}

/// Number of `true` flags.
pub open spec fn count_true(s: Seq<bool>) -> nat
    decreases s.len(),
{
    if s.len() == 0 {
        0
    } else {
        count_true(s.drop_last()) + if s.last() { 1nat } else { 0nat }
    }
}

/// Number of the given hunks that are selected.
pub open spec fn count_selected(idxs: Seq<usize>, sel: Seq<bool>) -> nat
    decreases idxs.len(),
{
    if idxs.len() == 0 {
        0
    } else {
        count_selected(idxs.drop_last(), sel) + if sel[idxs.last() as int] { 1nat } else { 0nat }
    }
}

/// Indices of the `true` flags, in order.
pub open spec fn true_indices(s: Seq<bool>) -> Seq<usize>
    decreases s.len(),
{
    if s.len() == 0 {
        seq![]
    } else {
        let r = true_indices(s.drop_last());
        if s.last() {
            r.push((s.len() - 1) as usize)
        } else {
            r
        }
    }
}

/// The flags with those of `idxs` set to `v`.
pub open spec fn set_all(sel: Seq<bool>, idxs: Seq<usize>, v: bool) -> Seq<bool> {
    Seq::new(sel.len(), |j: int| if idxs.contains(j as usize) { v } else { sel[j] })
}

/// Every hunk of `idxs` is selected.
pub open spec fn all_selected(idxs: Seq<usize>, sel: Seq<bool>) -> bool {
    forall|j: int| 0 <= j < idxs.len() ==> sel[#[trigger] idxs[j] as int]
}

/// The hunk indices of the file under the cursor (none past the end).
pub open spec fn current_indices(s: SplitTuiState) -> Seq<usize> {
    if s.file_cursor < s.files@.len() {
        s.files@[s.file_cursor as int].hunk_indices@
    } else {
        seq![]
    }
}

/// Line offset, in the diff panel, of the `n`-th hunk of `idxs`: each hunk
/// before it takes its header, its lines and a blank line.
pub open spec fn hunk_offset(hunks: Seq<DiffHunk>, idxs: Seq<usize>, n: int) -> int
    decreases n,
{
    if n <= 0 || idxs.len() == 0 {
        0
    } else {
        let m = if n > idxs.len() { idxs.len() as int } else { n };
        hunk_offset(hunks, idxs, m - 1) + if idxs[m - 1] < hunks.len() {
            2 + hunks[idxs[m - 1] as int].lines@.len()
        } else {
            0
        }
    }
}

/// The scroll position that keeps line `o` visible in a panel of `vh` lines
/// scrolled to `d`.
pub open spec fn scrolled(o: int, d: int, vh: int) -> int {
    let d1 = if o >= d + vh { o - vh + 1 } else { d };
    if o < d1 { o } else { d1 }
}

/// The text being edited in this mode.
pub open spec fn active_text(s: SplitTuiState) -> Seq<char> {
    if s.mode == TuiMode::RemainderInput {
        s.remainder_text@
    } else {
        s.message_text@
    }
}

/// The cursor of the text being edited.
pub open spec fn active_cursor(s: SplitTuiState) -> int {
    if s.mode == TuiMode::RemainderInput {
        s.remainder_cursor as int
    } else {
        s.message_cursor as int
    }
}

/// Hunks, files, selection, messages to restore and flags are as before.
pub open spec fn same_content(a: SplitTuiState, b: SplitTuiState) -> bool {
    &&& b.hunks == a.hunks
    &&& b.files == a.files
    &&& b.default_message == a.default_message
    &&& b.original_message == a.original_message
    &&& b.no_edit == a.no_edit
    &&& b.confirmed == a.confirmed
    &&& b.aborted == a.aborted
}

/// Panel, mode, cursors and scroll are as before.
pub open spec fn same_view(a: SplitTuiState, b: SplitTuiState) -> bool {
    &&& b.active_panel == a.active_panel
    &&& b.mode == a.mode
    &&& b.file_cursor == a.file_cursor
    &&& b.hunk_cursor == a.hunk_cursor
    &&& b.diff_scroll == a.diff_scroll
}

/// Both messages and their cursors are as before.
pub open spec fn same_texts(a: SplitTuiState, b: SplitTuiState) -> bool {
    &&& b.message_text == a.message_text
    &&& b.message_cursor == a.message_cursor
    &&& b.remainder_text == a.remainder_text
    &&& b.remainder_cursor == a.remainder_cursor
}

/// `b` is `a` with the text being edited replaced by `t` and its cursor
/// moved to `c`; everything else is as before.
pub open spec fn text_edited(a: SplitTuiState, b: SplitTuiState, t: Seq<char>, c: int) -> bool {
    &&& same_content(a, b)
    &&& same_view(a, b)
    &&& b.selected == a.selected
    &&& if a.mode == TuiMode::RemainderInput {
        &&& b.remainder_text@ == t
        &&& b.remainder_cursor == c
        &&& b.message_text == a.message_text
        &&& b.message_cursor == a.message_cursor
    } else {
        &&& b.message_text@ == t
        &&& b.message_cursor == c
        &&& b.remainder_text == a.remainder_text
        &&& b.remainder_cursor == a.remainder_cursor
    }
}


/// The selection after Space: in the file panel, every hunk of the current
/// file selected unless all are (then all deselected); in the diff panel,
/// the hunk under the cursor flipped.
pub open spec fn toggled_selection(a: SplitTuiState) -> Seq<bool> {
    let idxs = current_indices(a);
    let sel = a.selected@;
    if a.active_panel == Panel::Files {
        set_all(sel, idxs, !all_selected(idxs, sel))
    } else if a.hunk_cursor < idxs.len() {
        sel.update(idxs[a.hunk_cursor as int] as int, !sel[idxs[a.hunk_cursor as int] as int])
    } else {
        sel
    }
}

/// `b` is `a` after Space.
pub open spec fn toggled(a: SplitTuiState, b: SplitTuiState) -> bool {
    &&& same_content(a, b)
    &&& same_view(a, b)
    &&& same_texts(a, b)
    &&& b.selected@ == toggled_selection(a)
}

/// Pressing Space twice gives back the selection: always in the diff panel,
/// and in the file panel when the current file's hunks were all selected or
/// all unselected (a mixed file is first selected whole, then cleared).
pub proof fn lemma_toggle_twice(a: SplitTuiState, b: SplitTuiState, c: SplitTuiState)
    requires
        wf(a),
        a.selected@.len() <= usize::MAX,
        toggled(a, b),
        toggled(b, c),
        a.active_panel == Panel::Files ==> forall|j: int, k: int|
            0 <= j < current_indices(a).len() && 0 <= k < current_indices(a).len() ==> a.selected@[#[trigger] current_indices(a)[j] as int]
                == a.selected@[#[trigger] current_indices(a)[k] as int],
    ensures
        c.selected@ == a.selected@,
{
    let idxs = current_indices(a);
    let sel = a.selected@;
    assert(current_indices(b) == idxs);
    assert forall|j: int| 0 <= j < idxs.len() implies #[trigger] idxs[j] < sel.len() by {
        assert(a.files@[a.file_cursor as int].hunk_indices@[j] < a.selected@.len());
    }
    if a.active_panel == Panel::Files {
        let v = !all_selected(idxs, sel);
        let s1 = set_all(sel, idxs, v);
        if idxs.len() > 0 {
            assert(all_selected(idxs, s1) == v) by {
                if v {
                    assert forall|j: int| 0 <= j < idxs.len() implies s1[#[trigger] idxs[j] as int] by {
                        assert(idxs.contains(idxs[j]));
                    }
                } else {
                    assert(idxs.contains(idxs[0]));
                }
            }
            assert forall|q: int| 0 <= q < sel.len() && idxs.contains(q as usize) implies sel[q] == !v by {
                let j = choose|j: int| 0 <= j < idxs.len() && idxs[j] == q as usize;
                assert(idxs[j] as int == q);
                if !v {
                    assert(all_selected(idxs, sel));
                    assert(sel[idxs[j] as int]);
                } else {
                    assert(!all_selected(idxs, sel));
                    let k = choose|k: int| 0 <= k < idxs.len() && !sel[#[trigger] idxs[k] as int];
                    assert(a.selected@[current_indices(a)[j] as int] == a.selected@[current_indices(a)[k] as int]);
                    assert(sel[idxs[j] as int] == sel[idxs[k] as int]);
                }
            }
        }
        assert(c.selected@ =~= sel);
    } else {
        assert(c.selected@ =~= sel);
    }
}

/// `b` is `a` after Up.
pub open spec fn moved_up(a: SplitTuiState, b: SplitTuiState) -> bool {
    &&& same_content(a, b)
    &&& same_texts(a, b)
    &&& b.selected == a.selected
    &&& b.active_panel == a.active_panel
    &&& b.mode == a.mode
    &&& if a.active_panel == Panel::Files {
        if a.file_cursor > 0 {
            b.file_cursor == a.file_cursor - 1 && b.hunk_cursor == 0 && b.diff_scroll == 0
        } else {
            same_view(a, b)
        }
    } else {
        if a.hunk_cursor > 0 {
            b.hunk_cursor == a.hunk_cursor - 1 && b.file_cursor == a.file_cursor && b.diff_scroll == a.diff_scroll
        } else {
            same_view(a, b)
        }
    }
}

/// `b` is `a` after Down.
pub open spec fn moved_down(a: SplitTuiState, b: SplitTuiState) -> bool {
    &&& same_content(a, b)
    &&& same_texts(a, b)
    &&& b.selected == a.selected
    &&& b.active_panel == a.active_panel
    &&& b.mode == a.mode
    &&& if a.active_panel == Panel::Files {
        if a.file_cursor + 1 < a.files@.len() {
            b.file_cursor == a.file_cursor + 1 && b.hunk_cursor == 0 && b.diff_scroll == 0
        } else {
            same_view(a, b)
        }
    } else {
        if a.hunk_cursor + 1 < current_indices(a).len() {
            b.hunk_cursor == a.hunk_cursor + 1 && b.file_cursor == a.file_cursor && b.diff_scroll == a.diff_scroll
        } else {
            same_view(a, b)
        }
    }
}

/// `b` is `a` with the focus on the other panel.
pub open spec fn switched(a: SplitTuiState, b: SplitTuiState) -> bool {
    &&& same_content(a, b)
    &&& same_texts(a, b)
    &&& b.selected == a.selected
    &&& b.active_panel == (if a.active_panel == Panel::Files { Panel::Diff } else { Panel::Files })
    &&& b.mode == a.mode
    &&& b.file_cursor == a.file_cursor
    &&& b.hunk_cursor == a.hunk_cursor
    &&& b.diff_scroll == a.diff_scroll
}

/// `b` is `a` with every hunk (file panel), or every hunk of the current
/// file (diff panel), marked `v`.
pub open spec fn marked(a: SplitTuiState, b: SplitTuiState, v: bool) -> bool {
    &&& same_content(a, b)
    &&& same_view(a, b)
    &&& same_texts(a, b)
    &&& a.active_panel == Panel::Files ==> b.selected@ == Seq::new(a.selected@.len(), |j: int| v)
    &&& a.active_panel == Panel::Diff ==> b.selected@ == set_all(a.selected@, current_indices(a), v)
}

/// `b` is `a` typing the new commit's message, reset to the default.
pub open spec fn entered_message(a: SplitTuiState, b: SplitTuiState) -> bool {
    &&& same_content(a, b)
    &&& b.selected == a.selected
    &&& b.mode == TuiMode::MessageInput
    &&& b.message_text@ == a.default_message@
    &&& b.message_cursor == utf8_len(a.default_message@)
    &&& b.remainder_text == a.remainder_text
    &&& b.remainder_cursor == a.remainder_cursor
    &&& b.active_panel == a.active_panel
    &&& b.file_cursor == a.file_cursor
    &&& b.hunk_cursor == a.hunk_cursor
    &&& b.diff_scroll == a.diff_scroll
}

/// `b` is `a` typing the remainder's message, reset to the original.
pub open spec fn entered_remainder(a: SplitTuiState, b: SplitTuiState) -> bool {
    &&& same_content(a, b)
    &&& b.selected == a.selected
    &&& b.mode == TuiMode::RemainderInput
    &&& b.remainder_text@ == a.original_message@
    &&& b.remainder_cursor == utf8_len(a.original_message@)
    &&& b.message_text == a.message_text
    &&& b.message_cursor == a.message_cursor
    &&& b.active_panel == a.active_panel
    &&& b.file_cursor == a.file_cursor
    &&& b.hunk_cursor == a.hunk_cursor
    &&& b.diff_scroll == a.diff_scroll
}

/// `b` is `a` in mode `m`, nothing else changed.
pub open spec fn in_mode(a: SplitTuiState, b: SplitTuiState, m: TuiMode) -> bool {
    &&& same_content(a, b)
    &&& same_texts(a, b)
    &&& b.selected == a.selected
    &&& b.mode == m
    &&& b.active_panel == a.active_panel
    &&& b.file_cursor == a.file_cursor
    &&& b.hunk_cursor == a.hunk_cursor
    &&& b.diff_scroll == a.diff_scroll
}

proof fn lemma_find_group(g: Seq<(Seq<char>, Seq<usize>)>, p: Seq<char>, i: int)
    requires
        0 <= i,
    ensures
        find_group(g, p, i) == -1 || (i <= find_group(g, p, i) < g.len() && g[find_group(g, p, i)].0 == p),
        find_group(g, p, i) == -1 ==> forall|j: int| i <= j < g.len() ==> g[j].0 != p,
    decreases g.len() - i,
{
    if i < g.len() && g[i].0 != p {
        lemma_find_group(g, p, i + 1);
    }
}

/// Every index in the grouping names a path.
proof fn lemma_grouped_bounds(paths: Seq<Seq<char>>)
    ensures
        forall|f: int, j: int| 0 <= f < grouped(paths).len() && 0 <= j < grouped(paths)[f].1.len()
            ==> #[trigger] grouped(paths)[f].1[j] < paths.len(),
    decreases paths.len(),
{
    if paths.len() > 0 {
        let q = paths.drop_last();
        lemma_grouped_bounds(q);
        lemma_find_group(grouped(q), paths.last(), 0);
    }
}

proof fn lemma_empty_boundaries(t: Seq<char>)
    ensures
        is_boundary(t, 0),
        is_boundary(t, utf8_len(t) as int),
{
    lemma_char_at_byte(t, 0);
    assert(t.take(0) =~= Seq::<char>::empty());
    lemma_char_at_byte(t, t.len() as int);
    assert(t.take(t.len() as int) =~= t);
}

// ---------------------------------------------------------------------------
// Operations
// ---------------------------------------------------------------------------

/// A copy of a list of indices.
fn copy_indices(v: &Vec<usize>) -> (r: Vec<usize>)
    ensures
        r@ == v@,
{
    let mut r: Vec<usize> = Vec::new();
    let mut i: usize = 0;
    while i < v.len()
        invariant
            i <= v.len(),
            r@ == v@.take(i as int),
        decreases v.len() - i,
    {
        r.push(v[i]);
        i = i + 1;
        assert(r@ =~= v@.take(i as int));
    }
    assert(v@.take(v.len() as int) =~= v@);
    r
}

/// A copy of a string.
fn copy_string(s: &String) -> (r: String)
    ensures
        r@ == s@,
{
    string_of(&chars_of(s.as_str()))
}

/// Groups hunks by file, in order of first appearance.
fn group_by_file(hunks: &Vec<DiffHunk>) -> (files: Vec<TuiFile>)
    ensures
        files_view(files@) == grouped(hunk_paths(hunks@)),
{
    let ghost paths = hunk_paths(hunks@);
    let mut files: Vec<TuiFile> = Vec::new();
    let mut i: usize = 0;
    while i < hunks.len()
        invariant
            i <= hunks.len(),
            paths == hunk_paths(hunks@),
            files_view(files@) == grouped(paths.take(i as int)),
        decreases hunks.len() - i,
    {
        let ghost g = files_view(files@);
        let ghost p = hunks@[i as int].file_path@;
        let path = hunks[i].file_path.as_str();
        let mut f: usize = 0;
        let mut found = false;
        while !found && f < files.len()
            invariant
                f <= files.len(),
                g == files_view(files@),
                g.len() == files@.len(),
                path@ == p,
                found ==> f < files.len() && find_group(g, p, 0) == f as int,
                !found ==> find_group(g, p, 0) == find_group(g, p, f as int),
            decreases files.len() - f + if found { 0int } else { 1int },
        {
            if str_eq(files[f].path.as_str(), path) {
                assert(g[f as int] == file_view(files@[f as int]));
                found = true;
            } else {
                assert(g[f as int] == file_view(files@[f as int]));
                f = f + 1;
            }
        }
        proof {
            let t = paths.take(i + 1);
            assert(t.drop_last() =~= paths.take(i as int));
            assert(t.last() == p);
        }
        if found {
            let ghost before = files@;
            let mut entry = files.remove(f);
            entry.hunk_indices.push(i);
            let ghost e = entry;
            files.insert(f, entry);
            proof {
                lemma_find_group(g, p, 0);
                assert(g[f as int] == file_view(before[f as int]));
                assert(files@ =~= before.update(f as int, e));
                assert(file_view(e) == (p, g[f as int].1.push(i)));
                assert(files_view(files@) =~= g.update(f as int, (p, g[f as int].1.push(i))));
            }
        } else {
            let mut idx: Vec<usize> = Vec::new();
            idx.push(i);
            files.push(TuiFile { path: string_of(&chars_of(path)), hunk_indices: idx });
            proof {
                assert(files_view(files@) =~= g.push((p, seq![i])));
            }
        }
        i = i + 1;
    }
    assert(paths.take(hunks.len() as int) =~= paths);
    files
}

/// Index `x` after hunk `k` became `n` hunks.
pub open spec fn shift_index(x: usize, k: usize, n: nat) -> usize {
    if x > k { (x + n - 1) as usize } else { x }
}

/// Indices after hunk `k` became `n` hunks.
pub open spec fn shifted(idxs: Seq<usize>, k: usize, n: nat) -> Seq<usize> {
    idxs.map_values(|x: usize| shift_index(x, k, n))
}

/// The first position of `k` in `s` from `i` on, or -1.
pub open spec fn first_pos(s: Seq<usize>, k: usize, i: int) -> int
    decreases s.len() - i,
{
    if i < 0 || i >= s.len() {
        -1
    } else if s[i] == k {
        i
    } else {
        first_pos(s, k, i + 1)
    }
}

/// The indices `k`, `k + 1`, ..., `k + n - 1`.
pub open spec fn index_run(k: usize, n: nat) -> Seq<usize> {
    Seq::new(n, |i: int| (k + i) as usize)
}

/// The current file's indices after hunk `k` became `n` hunks: shifted, with
/// the first `k` replaced by the run of the pieces.
pub open spec fn split_indices(idxs: Seq<usize>, k: usize, n: nat) -> Seq<usize> {
    let s = shifted(idxs, k, n);
    let p = first_pos(s, k, 0);
    if p >= 0 {
        s.take(p) + index_run(k, n) + s.skip(p + 1)
    } else {
        s
    }
}

/// File `g` is file `f` after hunk `k` became `n` hunks.
pub open spec fn file_split(g: TuiFile, f: TuiFile, current: bool, k: usize, n: nat) -> bool {
    &&& g.path@ == f.path@
    &&& g.hunk_indices@ == if current { split_indices(f.hunk_indices@, k, n) } else { shifted(f.hunk_indices@, k, n) }
}

/// `b` is `a` with hunk `k` replaced by `pieces`.
pub open spec fn split_at(a: SplitTuiState, b: SplitTuiState, k: usize, pieces: Seq<DiffHunk>) -> bool {
    &&& b.hunks@ == a.hunks@.take(k as int) + pieces + a.hunks@.skip(k + 1)
    &&& b.selected@ == a.selected@.take(k as int) + Seq::new(pieces.len(), |q: int| a.selected@[k as int])
        + a.selected@.skip(k + 1)
    &&& b.files@.len() == a.files@.len()
    &&& forall|q: int| 0 <= q < a.files@.len() ==> file_split(
        #[trigger] b.files@[q],
        a.files@[q],
        q == a.file_cursor,
        k,
        pieces.len(),
    )
    &&& same_view(a, b)
    &&& same_texts(a, b)
    &&& b.default_message == a.default_message && b.original_message == a.original_message
    &&& b.no_edit == a.no_edit && b.confirmed == a.confirmed && b.aborted == a.aborted
}

proof fn lemma_first_pos(s: Seq<usize>, k: usize, i: int, w: int)
    requires
        0 <= i <= w < s.len(),
        s[w] == k,
    ensures
        i <= first_pos(s, k, i) <= w,
        s[first_pos(s, k, i)] == k,
    decreases w - i,
{
    if s[i] != k {
        lemma_first_pos(s, k, i + 1, w);
    }
}

proof fn lemma_first_pos_range(s: Seq<usize>, k: usize, i: int)
    requires
        0 <= i,
    ensures
        first_pos(s, k, i) == -1 || (i <= first_pos(s, k, i) < s.len() && s[first_pos(s, k, i)] == k),
    decreases s.len() - i,
{
    if i < s.len() && s[i] != k {
        lemma_first_pos_range(s, k, i + 1);
    }
}

/// How many times `y` occurs in `l`.
pub open spec fn count_in(l: Seq<usize>, y: int) -> int
    decreases l.len(),
{
    if l.len() == 0 {
        0
    } else {
        count_in(l.drop_last(), y) + if l.last() as int == y { 1int } else { 0int }
    }
}

/// How many times `y` occurs in all the lists.
pub open spec fn occurrences(ls: Seq<Seq<usize>>, y: int) -> int
    decreases ls.len(),
{
    if ls.len() == 0 {
        0
    } else {
        occurrences(ls.drop_last(), y) + count_in(ls.last(), y)
    }
}

/// The files' hunk index lists.
pub open spec fn index_lists(s: SplitTuiState) -> Seq<Seq<usize>> {
    s.files@.map_values(|f: TuiFile| f.hunk_indices@)
}

/// The files list every hunk exactly once.
pub open spec fn hunks_partitioned(s: SplitTuiState) -> bool {
    forall|y: int| 0 <= y < s.hunks@.len() ==> #[trigger] occurrences(index_lists(s), y) == 1
}

/// How many times `y` occurs in a list after hunk `k` became `n` hunks,
/// from how many times values occurred before.
pub open spec fn shifted_count(c: spec_fn(int) -> int, k: int, n: int, y: int) -> int {
    if y <= k {
        c(y)
    } else if y < k + n {
        0
    } else {
        c(y - n + 1)
    }
}

proof fn lemma_count_concat(a: Seq<usize>, b: Seq<usize>, y: int)
    ensures
        count_in(a + b, y) == count_in(a, y) + count_in(b, y),
    decreases b.len(),
{
    if b.len() == 0 {
        assert(a + b =~= a);
    } else {
        assert((a + b).drop_last() =~= a + b.drop_last());
        lemma_count_concat(a, b.drop_last(), y);
    }
}

proof fn lemma_count_shifted(l: Seq<usize>, k: usize, n: nat, y: int)
    requires
        n > 0,
        forall|j: int| 0 <= j < l.len() ==> (#[trigger] l[j]) + n - 1 <= usize::MAX,
    ensures
        count_in(shifted(l, k, n), y) == shifted_count(|x: int| count_in(l, x), k as int, n as int, y),
    decreases l.len(),
{
    if l.len() > 0 {
        let p = l.drop_last();
        assert(shifted(l, k, n).drop_last() =~= shifted(p, k, n));
        lemma_count_shifted(p, k, n, y);
        let x = l.last();
        assert(shifted(l, k, n).last() == shift_index(x, k, n));
    }
}

proof fn lemma_count_run(k: usize, n: nat, y: int)
    requires
        k + n <= usize::MAX + 1,
    ensures
        count_in(index_run(k, n), y) == if k <= y < k + n { 1int } else { 0int },
    decreases n,
{
    if n > 0 {
        assert(index_run(k, n).drop_last() =~= index_run(k, (n - 1) as nat));
        lemma_count_run(k, (n - 1) as nat, y);
    }
}

proof fn lemma_count_split(l: Seq<usize>, k: usize, n: nat, y: int, w: int)
    requires
        n > 0,
        0 <= w < l.len(),
        l[w] == k,
        k + n <= usize::MAX,
        forall|j: int| 0 <= j < l.len() ==> (#[trigger] l[j]) + n - 1 <= usize::MAX,
    ensures
        count_in(split_indices(l, k, n), y) == shifted_count(|x: int| count_in(l, x), k as int, n as int, y)
            - (if y == k { 1int } else { 0int }) + (if k <= y < k + n { 1int } else { 0int }),
{
    let s = shifted(l, k, n);
    assert(s[w] == k);
    lemma_first_pos(s, k, 0, w);
    let p = first_pos(s, k, 0);
    lemma_count_shifted(l, k, n, y);
    assert(s =~= s.take(p) + seq![k] + s.skip(p + 1));
    lemma_count_concat(s.take(p) + seq![k], s.skip(p + 1), y);
    lemma_count_concat(s.take(p), seq![k], y);
    assert(seq![k].drop_last() =~= Seq::<usize>::empty());
    assert(count_in(Seq::<usize>::empty(), y) == 0);
    assert(count_in(seq![k], y) == if k as int == y { 1int } else { 0int });
    lemma_count_concat(s.take(p) + index_run(k, n), s.skip(p + 1), y);
    lemma_count_concat(s.take(p), index_run(k, n), y);
    lemma_count_run(k, n, y);
    assert(p >= 0);
    assert(split_indices(l, k, n) == s.take(p) + index_run(k, n) + s.skip(p + 1));
    assert(count_in(s, y) == count_in(s.take(p), y) + count_in(seq![k], y) + count_in(s.skip(p + 1), y));
}

/// The occurrences after the split, file by file.
proof fn lemma_occurrences_split(
    a: Seq<Seq<usize>>,
    b: Seq<Seq<usize>>,
    cur: int,
    k: usize,
    n: nat,
    y: int,
    t: int,
)
    requires
        n > 0,
        k + n <= usize::MAX,
        a.len() == b.len(),
        0 <= t <= a.len(),
        0 <= cur < a.len(),
        exists|w: int| 0 <= w < a[cur].len() && a[cur][w] == k,
        forall|f: int, j: int| 0 <= f < a.len() && 0 <= j < a[f].len() ==> (#[trigger] a[f][j]) + n - 1 <= usize::MAX,
        forall|f: int| 0 <= f < a.len() ==> #[trigger] b[f] == if f == cur { split_indices(a[f], k, n) } else { shifted(a[f], k, n) },
    ensures
        occurrences(b.take(t), y) == shifted_count(|x: int| occurrences(a.take(t), x), k as int, n as int, y)
            + (if cur < t { (if k <= y < k + n { 1int } else { 0int }) - (if y == k { 1int } else { 0int }) } else { 0int }),
    decreases t,
{
    if t > 0 {
        lemma_occurrences_split(a, b, cur, k, n, y, t - 1);
        assert(b.take(t).drop_last() =~= b.take(t - 1));
        assert(a.take(t).drop_last() =~= a.take(t - 1));
        assert(b.take(t).last() == b[t - 1]);
        assert(a.take(t).last() == a[t - 1]);
        assert forall|j: int| 0 <= j < a[t - 1].len() implies (#[trigger] a[t - 1][j]) + n - 1 <= usize::MAX by {}
        if t - 1 == cur {
            let w = choose|w: int| 0 <= w < a[cur].len() && a[cur][w] == k;
            lemma_count_split(a[t - 1], k, n, y, w);
        } else {
            lemma_count_shifted(a[t - 1], k, n, y);
        }
        // Both sides unfold the same way at the values `shifted_count` looks at.
        let oa = |x: int| occurrences(a.take(t), x);
        let ob = |x: int| occurrences(a.take(t - 1), x);
        let ca = |x: int| count_in(a[t - 1], x);
        assert forall|x: int| #[trigger] oa(x) == ob(x) + ca(x) by {}
    } else {
        assert(b.take(0) =~= Seq::<Seq<usize>>::empty());
        assert(a.take(0) =~= Seq::<Seq<usize>>::empty());
    }
}

proof fn lemma_count_push(l: Seq<usize>, x: usize, y: int)
    ensures
        count_in(l.push(x), y) == count_in(l, y) + if x as int == y { 1int } else { 0int },
{
    assert(l.push(x).drop_last() =~= l);
}

proof fn lemma_count_absent(l: Seq<usize>, n: int)
    requires
        forall|j: int| 0 <= j < l.len() ==> (#[trigger] l[j]) < n,
    ensures
        count_in(l, n) == 0,
    decreases l.len(),
{
    if l.len() > 0 {
        lemma_count_absent(l.drop_last(), n);
    }
}

proof fn lemma_occurrences_absent(ls: Seq<Seq<usize>>, n: int)
    requires
        forall|f: int, j: int| 0 <= f < ls.len() && 0 <= j < ls[f].len() ==> (#[trigger] ls[f][j]) < n,
    ensures
        occurrences(ls, n) == 0,
    decreases ls.len(),
{
    if ls.len() > 0 {
        let l = ls.last();
        assert forall|j: int| 0 <= j < l.len() implies (#[trigger] l[j]) < n by {
            assert(ls[ls.len() - 1][j] < n);
        }
        lemma_count_absent(l, n);
        lemma_occurrences_absent(ls.drop_last(), n);
    }
}

proof fn lemma_occurrences_update(ls: Seq<Seq<usize>>, f: int, l: Seq<usize>, y: int)
    requires
        0 <= f < ls.len(),
    ensures
        occurrences(ls.update(f, l), y) == occurrences(ls, y) - count_in(ls[f], y) + count_in(l, y),
    decreases ls.len(),
{
    if f == ls.len() - 1 {
        assert(ls.update(f, l).drop_last() =~= ls.drop_last());
    } else {
        lemma_occurrences_update(ls.drop_last(), f, l, y);
        assert(ls.update(f, l).drop_last() =~= ls.drop_last().update(f, l));
    }
}

/// The index lists of a grouping.
pub open spec fn group_lists(g: Seq<(Seq<char>, Seq<usize>)>) -> Seq<Seq<usize>> {
    g.map_values(|e: (Seq<char>, Seq<usize>)| e.1)
}

/// Grouping hunks by path lists every hunk exactly once.
proof fn lemma_grouped_partition(paths: Seq<Seq<char>>)
    requires
        paths.len() <= usize::MAX,
    ensures
        forall|y: int| 0 <= y < paths.len() ==> #[trigger] occurrences(group_lists(grouped(paths)), y) == 1,
    decreases paths.len(),
{
    if paths.len() > 0 {
        let q = paths.drop_last();
        lemma_grouped_partition(q);
        lemma_grouped_bounds(q);
        let g = grouped(q);
        let p = paths.last();
        let i = q.len();
        let iu = i as usize;
        assert(iu as int == i);
        lemma_find_group(g, p, 0);
        let f = find_group(g, p, 0);
        let gl = group_lists(g);
        assert forall|a: int, j: int| 0 <= a < gl.len() && 0 <= j < gl[a].len() implies (#[trigger] gl[a][j]) < i by {
            assert(gl[a] == g[a].1);
            assert(g[a].1[j] < q.len());
        }
        lemma_occurrences_absent(gl, i as int);
        assert forall|y: int| 0 <= y < paths.len() implies #[trigger] occurrences(group_lists(grouped(paths)), y) == 1 by {
            if f >= 0 {
                assert(group_lists(grouped(paths)) =~= gl.update(f, g[f].1.push(iu)));
                lemma_occurrences_update(gl, f, g[f].1.push(iu), y);
                lemma_count_push(g[f].1, iu, y);
                assert(gl[f] == g[f].1);
            } else {
                let one: Seq<usize> = seq![iu];
                assert(group_lists(grouped(paths)) =~= gl.push(one));
                assert(gl.push(one).drop_last() =~= gl);
                assert(one =~= Seq::<usize>::empty().push(iu));
                lemma_count_push(Seq::<usize>::empty(), iu, y);
            }
            if y < i {
                assert(occurrences(group_lists(g), y) == 1);
            }
        }
    }
}

/// Splitting the hunk under the cursor keeps every hunk listed exactly
/// once: the pieces take the hunk's place in the current file and the later
/// hunks move up in every file.
pub proof fn lemma_split_keeps_partition(a: SplitTuiState, b: SplitTuiState, pieces: Seq<DiffHunk>)
    requires
        wf(a),
        hunks_partitioned(a),
        pieces.len() > 0,
        a.hunks@.len() + pieces.len() <= usize::MAX,
        a.active_panel == Panel::Diff,
        a.hunk_cursor < current_indices(a).len(),
        split_at(a, b, current_indices(a)[a.hunk_cursor as int], pieces),
    ensures
        hunks_partitioned(b),
{
    let k = current_indices(a)[a.hunk_cursor as int];
    let n = pieces.len();
    let la = index_lists(a);
    let lb = index_lists(b);
    let cur = a.file_cursor as int;
    let len = a.hunks@.len();
    assert(a.file_cursor < a.files@.len());
    assert(la[cur] == current_indices(a));
    assert(k < len) by {
        assert(a.files@[cur].hunk_indices@[a.hunk_cursor as int] < a.selected@.len());
    }
    assert forall|f: int, j: int| 0 <= f < la.len() && 0 <= j < la[f].len() implies (#[trigger] la[f][j]) + n - 1 <= usize::MAX by {
        assert(la[f] == a.files@[f].hunk_indices@);
        assert(a.files@[f].hunk_indices@[j] < a.selected@.len());
    }
    assert forall|f: int| 0 <= f < la.len() implies #[trigger] lb[f] == if f == cur { split_indices(la[f], k, n) } else { shifted(la[f], k, n) } by {
        assert(file_split(b.files@[f], a.files@[f], f == a.file_cursor, k, n));
    }
    assert(b.hunks@.len() == len - 1 + n);
    assert forall|y: int| 0 <= y < b.hunks@.len() implies #[trigger] occurrences(index_lists(b), y) == 1 by {
        lemma_occurrences_split(la, lb, cur, k, n, y, la.len() as int);
        assert(la.take(la.len() as int) =~= la);
        assert(lb.take(lb.len() as int) =~= lb);
        if y <= k {
            assert(occurrences(la, y) == 1);
        } else if y >= k + n {
            assert(occurrences(la, y - n + 1) == 1);
        }
    }
}

proof fn lemma_split_indices_bound(idxs: Seq<usize>, current: bool, k: usize, n: nat, len: nat, j: int)
    requires
        forall|q: int| 0 <= q < idxs.len() ==> #[trigger] idxs[q] < len,
        k < len,
        n > 0,
        0 <= j < (if current { split_indices(idxs, k, n) } else { shifted(idxs, k, n) }).len(),
    ensures
        (if current { split_indices(idxs, k, n) } else { shifted(idxs, k, n) })[j] < len + n - 1,
{
    let s = shifted(idxs, k, n);
    lemma_first_pos_range(s, k, 0);
    if current {
        let p = first_pos(s, k, 0);
        if p >= 0 {
            let t = s.take(p) + index_run(k, n) + s.skip(p + 1);
            assert(t.len() == s.len() + n - 1);
            if p <= j && j < p + n {
                assert((s.take(p) + index_run(k, n) + s.skip(p + 1))[j] == index_run(k, n)[j - p]);
            } else if j < p {
                assert((s.take(p) + index_run(k, n) + s.skip(p + 1))[j] == s[j]);
                assert(idxs[j] < len);
            } else {
                assert((s.take(p) + index_run(k, n) + s.skip(p + 1))[j] == s[j - n + 1]);
                assert(idxs[j - n + 1] < len);
            }
        } else {
            assert(idxs[j] < len);
        }
    } else {
        assert(idxs[j] < len);
    }
}

/// The indices with every one past `k` moved up by `n - 1`.
fn shift_indices(idxs: &Vec<usize>, k: usize, n: usize, len: usize) -> (r: Vec<usize>)
    requires
        forall|q: int| 0 <= q < idxs@.len() ==> #[trigger] idxs@[q] < len,
        len + n <= usize::MAX,
        n > 0,
    ensures
        r@ == shifted(idxs@, k, n as nat),
{
    let mut r: Vec<usize> = Vec::new();
    let mut i: usize = 0;
    while i < idxs.len()
        invariant
            i <= idxs@.len(),
            forall|q: int| 0 <= q < idxs@.len() ==> #[trigger] idxs@[q] < len,
            len + n <= usize::MAX,
            n > 0,
            r@ == shifted(idxs@.take(i as int), k, n as nat),
        decreases idxs.len() - i,
    {
        let x = idxs[i];
        let y = if x > k { x + n - 1 } else { x };
        r.push(y);
        i = i + 1;
        assert(r@ =~= shifted(idxs@.take(i as int), k, n as nat));
    }
    assert(idxs@.take(idxs@.len() as int) =~= idxs@);
    r
}

/// Replaces the first `k` of `s` by the run `k .. k + n`.
fn splice_run(s: Vec<usize>, k: usize, n: usize, Ghost(w): Ghost<int>) -> (r: Vec<usize>)
    requires
        0 <= w < s@.len(),
        s@[w] == k,
        k + n <= usize::MAX,
    ensures
        0 <= first_pos(s@, k, 0),
        r@ == ({
            let p = first_pos(s@, k, 0);
            s@.take(p) + index_run(k, n as nat) + s@.skip(p + 1)
        }),
{
    proof {
        lemma_first_pos(s@, k, 0, w);
    }
    let slen = s.len();
    let mut p: usize = 0;
    while s[p] != k
        invariant
            slen == s@.len(),
            p <= w,
            w < s@.len(),
            s@[w] == k,
            first_pos(s@, k, 0) == first_pos(s@, k, p as int),
        decreases w - p,
    {
        p = p + 1;
    }
    let ghost s0 = s@;
    let mut s = s;
    let mut rest = s.split_off(p);
    let _at = rest.remove(0);
    let mut i: usize = 0;
    while i < n
        invariant
            i <= n,
            k + n <= usize::MAX,
            s@ == s0.take(p as int) + index_run(k, i as nat),
        decreases n - i,
    {
        s.push(k + i);
        i = i + 1;
        assert(s@ =~= s0.take(p as int) + index_run(k, i as nat));
    }
    s.append(&mut rest);
    proof {
        assert(s0.subrange(p as int, s0.len() as int).remove(0) =~= s0.skip(p + 1));
        assert(s@ =~= s0.take(p as int) + index_run(k, n as nat) + s0.skip(p + 1));
    }
    s
}

impl SplitTuiState {
    /// A fresh picker: nothing selected, files grouped from the hunks, the
    /// file panel focused, and the messages pre-filled with cursors at their ends.
    pub fn new(hunks: Vec<DiffHunk>, default_message: String, original_message: String, no_edit: bool) -> (s: Self)
        ensures
            wf(s),
            hunks_partitioned(s),
            s.hunks@ == hunks@,
            s.selected@ == Seq::new(hunks@.len(), |j: int| false),
            files_view(s.files@) == grouped(hunk_paths(hunks@)),
            s.active_panel == Panel::Files,
            s.mode == TuiMode::HunkSelection,
            s.file_cursor == 0 && s.hunk_cursor == 0 && s.diff_scroll == 0,
            !s.confirmed && !s.aborted,
            s.message_text@ == default_message@,
            s.message_cursor == utf8_len(default_message@),
            s.default_message@ == default_message@,
            s.remainder_text@ == original_message@,
            s.remainder_cursor == utf8_len(original_message@),
            s.original_message@ == original_message@,
            s.no_edit == no_edit,
    {
        let mut selected: Vec<bool> = Vec::new();
        let mut i: usize = 0;
        while i < hunks.len()
            invariant
                i <= hunks.len(),
                selected@ == Seq::new(i as nat, |j: int| false),
            decreases hunks.len() - i,
        {
            selected.push(false);
            i = i + 1;
            assert(selected@ =~= Seq::new(i as nat, |j: int| false));
        }
        let files = group_by_file(&hunks);
        proof {
            lemma_grouped_bounds(hunk_paths(hunks@));
            lemma_grouped_partition(hunk_paths(hunks@));
            assert(files@.map_values(|f: TuiFile| f.hunk_indices@) =~= group_lists(files_view(files@)));
            lemma_empty_boundaries(default_message@);
            lemma_empty_boundaries(original_message@);
            assert forall|f: int, j: int| 0 <= f < files@.len() && 0 <= j < files@[f].hunk_indices@.len()
                implies #[trigger] files@[f].hunk_indices@[j] < selected@.len() by {
                assert(files_view(files@)[f] == file_view(files@[f]));
                assert(files_view(files@)[f].1[j] < hunk_paths(hunks@).len());
            }
        }
        let message_cursor = str_byte_len(default_message.as_str());
        let remainder_cursor = str_byte_len(original_message.as_str());
        let message_text = copy_string(&default_message);
        let remainder_text = copy_string(&original_message);
        SplitTuiState {
            hunks,
            selected,
            files,
            active_panel: Panel::Files,
            mode: TuiMode::HunkSelection,
            file_cursor: 0,
            hunk_cursor: 0,
            diff_scroll: 0,
            confirmed: false,
            aborted: false,
            message_text,
            message_cursor,
            default_message,
            remainder_text,
            remainder_cursor,
            original_message,
            no_edit,
        }
    }

    /// The file under the cursor.
    pub fn current_file(&self) -> (r: Option<&TuiFile>)
        ensures
            match r {
                Some(f) => self.file_cursor < self.files@.len() && *f == self.files@[self.file_cursor as int],
                None => self.file_cursor >= self.files@.len(),
            },
    {
        if self.file_cursor < self.files.len() {
            Some(&self.files[self.file_cursor])
        } else {
            None
        }
    }

    /// The hunk indices of the file under the cursor.
    pub fn current_file_hunk_indices(&self) -> (r: Vec<usize>)
        ensures
            r@ == current_indices(*self),
    {
        match self.current_file() {
            Some(f) => copy_indices(&f.hunk_indices),
            None => Vec::new(),
        }
    }

    /// How many hunks of a file are selected, and how many it has.
    pub fn selected_count_for_file(&self, file_idx: usize) -> (r: (usize, usize))
        requires
            wf(*self),
        ensures
            file_idx < self.files@.len() ==> r == (
                count_selected(self.files@[file_idx as int].hunk_indices@, self.selected@) as usize,
                self.files@[file_idx as int].hunk_indices@.len() as usize,
            ),
            file_idx >= self.files@.len() ==> r == (0usize, 0usize),
    {
        if file_idx >= self.files.len() {
            return (0, 0);
        }
        let idxs = &self.files[file_idx].hunk_indices;
        let mut n: usize = 0;
        let mut j: usize = 0;
        while j < idxs.len()
            invariant
                j <= idxs.len(),
                *idxs == self.files@[file_idx as int].hunk_indices,
                file_idx < self.files@.len(),
                wf(*self),
                n == count_selected(idxs@.take(j as int), self.selected@),
                n <= j,
            decreases idxs.len() - j,
        {
            let k = idxs[j];
            assert(k == self.files@[file_idx as int].hunk_indices@[j as int]);
            proof {
                assert(idxs@.take(j + 1).drop_last() =~= idxs@.take(j as int));
            }
            if self.selected[k] {
                n = n + 1;
            }
            j = j + 1;
        }
        assert(idxs@.take(idxs.len() as int) =~= idxs@);
        (n, idxs.len())
    }

    /// How many hunks are selected.
    pub fn total_selected(&self) -> (r: usize)
        ensures
            r == count_true(self.selected@),
    {
        let mut n: usize = 0;
        let mut j: usize = 0;
        while j < self.selected.len()
            invariant
                j <= self.selected.len(),
                n == count_true(self.selected@.take(j as int)),
                n <= j,
            decreases self.selected.len() - j,
        {
            proof {
                assert(self.selected@.take(j + 1).drop_last() =~= self.selected@.take(j as int));
            }
            if self.selected[j] {
                n = n + 1;
            }
            j = j + 1;
        }
        assert(self.selected@.take(self.selected.len() as int) =~= self.selected@);
        n
    }

    /// Sets the flags of `idxs` to `v`.
    fn set_flags(&mut self, idxs: &Vec<usize>, v: bool)
        requires
            forall|j: int| 0 <= j < idxs@.len() ==> #[trigger] idxs@[j] < old(self).selected@.len(),
        ensures
            final(self).selected@ == set_all(old(self).selected@, idxs@, v),
            same_content(*old(self), *final(self)),
            same_view(*old(self), *final(self)),
            same_texts(*old(self), *final(self)),
    {
        let mut sel: Vec<bool> = Vec::new();
        std::mem::swap(&mut sel, &mut self.selected);
        let ghost before = sel@;
        let n = sel.len();
        let mut j: usize = 0;
        while j < idxs.len()
            invariant
                j <= idxs.len(),
                n == before.len(),
                sel@.len() == before.len(),
                forall|q: int| 0 <= q < idxs@.len() ==> #[trigger] idxs@[q] < before.len(),
                sel@ == set_all(before, idxs@.take(j as int), v),
            decreases idxs.len() - j,
        {
            let k = idxs[j];
            sel.set(k, v);
            proof {
                let t = idxs@.take(j + 1);
                assert(t =~= idxs@.take(j as int).push(k));
                assert forall|q: int| 0 <= q < before.len() implies sel@[q] == set_all(before, t, v)[q] by {
                    let x = q as usize;
                    let pre = idxs@.take(j as int);
                    if q == k as int {
                        assert(t[j as int] == k);
                    } else {
                        if t.contains(x) {
                            let w = choose|w: int| 0 <= w < t.len() && t[w] == x;
                            assert(w != j);
                            assert(pre[w] == x);
                            assert(pre.contains(x));
                        }
                        if pre.contains(x) {
                            let w = choose|w: int| 0 <= w < pre.len() && pre[w] == x;
                            assert(t[w] == x);
                            assert(t.contains(x));
                        }
                    }
                }
                assert(sel@ =~= set_all(before, t, v));
            }
            j = j + 1;
        }
        assert(idxs@.take(idxs.len() as int) =~= idxs@);
        self.selected = sel;
    }

    /// Space: in the file panel, selects every hunk of the current file
    /// unless all are selected, in which case it deselects them; in the diff
    /// panel, flips the hunk under the cursor.
    pub fn toggle_selection(&mut self)
        requires
            wf(*old(self)),
        ensures
            wf(*final(self)),
            toggled(*old(self), *final(self)),
    {
        let idxs = self.current_file_hunk_indices();
        proof {
            if self.file_cursor < self.files@.len() {
                assert forall|j: int| 0 <= j < idxs@.len() implies #[trigger] idxs@[j] < self.selected@.len() by {
                    assert(self.files@[self.file_cursor as int].hunk_indices@[j] < self.selected@.len());
                }
            }
        }
        match self.active_panel {
            Panel::Files => {
                let mut all = true;
                let mut j: usize = 0;
                while j < idxs.len()
                    invariant
                        j <= idxs.len(),
                        forall|q: int| 0 <= q < idxs@.len() ==> #[trigger] idxs@[q] < self.selected@.len(),
                        all == all_selected(idxs@.take(j as int), self.selected@),
                    decreases idxs.len() - j,
                {
                    let ghost t = idxs@.take(j + 1);
                    proof {
                        assert(t.drop_last() =~= idxs@.take(j as int));
                        if !self.selected@[idxs@[j as int] as int] {
                            assert(t[j as int] == idxs@[j as int]);
                        }
                        if all && self.selected@[idxs@[j as int] as int] {
                            assert forall|q: int| 0 <= q < t.len() implies self.selected@[#[trigger] t[q] as int] by {
                                if q < j {
                                    assert(t[q] == idxs@.take(j as int)[q]);
                                }
                            }
                        }
                        if !all {
                            let q = choose|q: int| 0 <= q < j && !self.selected@[#[trigger] idxs@.take(j as int)[q] as int];
                            assert(t[q] == idxs@.take(j as int)[q]);
                        }
                    }
                    all = all && self.selected[idxs[j]];
                    j = j + 1;
                }
                assert(idxs@.take(idxs.len() as int) =~= idxs@);
                self.set_flags(&idxs, !all);
            },
            Panel::Diff => {
                if self.hunk_cursor < idxs.len() {
                    let k = idxs[self.hunk_cursor];
                    let v = !self.selected[k];
                    self.selected.set(k, v);
                }
            },
        }
    }

    /// Up: the previous file (resetting the hunk cursor and scroll) or the
    /// previous hunk, if any.
    pub fn move_up(&mut self)
        ensures
            moved_up(*old(self), *final(self)),
    {
        match self.active_panel {
            Panel::Files => {
                if self.file_cursor > 0 {
                    self.file_cursor = self.file_cursor - 1;
                    self.hunk_cursor = 0;
                    self.diff_scroll = 0;
                }
            },
            Panel::Diff => {
                if self.hunk_cursor > 0 {
                    self.hunk_cursor = self.hunk_cursor - 1;
                }
            },
        }
    }

    /// Down: the next file (resetting the hunk cursor and scroll) or the next
    /// hunk of the current file, if any.
    pub fn move_down(&mut self)
        ensures
            moved_down(*old(self), *final(self)),
    {
        match self.active_panel {
            Panel::Files => {
                if self.file_cursor < self.files.len() && self.file_cursor + 1 < self.files.len() {
                    self.file_cursor = self.file_cursor + 1;
                    self.hunk_cursor = 0;
                    self.diff_scroll = 0;
                }
            },
            Panel::Diff => {
                let n = self.current_file_hunk_indices().len();
                if self.hunk_cursor < n && self.hunk_cursor + 1 < n {
                    self.hunk_cursor = self.hunk_cursor + 1;
                }
            },
        }
    }

    /// Moves the focus to the other panel.
    pub fn switch_panel(&mut self)
        ensures
            switched(*old(self), *final(self)),
    {
        self.active_panel = match self.active_panel {
            Panel::Files => Panel::Diff,
            Panel::Diff => Panel::Files,
        };
    }

    /// Selects every hunk (file panel) or every hunk of the current file
    /// (diff panel).
    pub fn select_all(&mut self)
        requires
            wf(*old(self)),
        ensures
            wf(*final(self)),
            marked(*old(self), *final(self), true),
    {
        self.mark(true);
    }

    /// Deselects every hunk (file panel) or every hunk of the current file
    /// (diff panel).
    pub fn deselect_all(&mut self)
        requires
            wf(*old(self)),
        ensures
            wf(*final(self)),
            marked(*old(self), *final(self), false),
    {
        self.mark(false);
    }

    fn mark(&mut self, v: bool)
        requires
            wf(*old(self)),
        ensures
            wf(*final(self)),
            marked(*old(self), *final(self), v),
    {
        match self.active_panel {
            Panel::Files => {
                let n = self.selected.len();
                let mut sel: Vec<bool> = Vec::new();
                let mut j: usize = 0;
                while j < n
                    invariant
                        j <= n,
                        sel@ == Seq::new(j as nat, |q: int| v),
                    decreases n - j,
                {
                    sel.push(v);
                    j = j + 1;
                    assert(sel@ =~= Seq::new(j as nat, |q: int| v));
                }
                self.selected = sel;
            },
            Panel::Diff => {
                let idxs = self.current_file_hunk_indices();
                proof {
                    if self.file_cursor < self.files@.len() {
                        assert forall|j: int| 0 <= j < idxs@.len() implies #[trigger] idxs@[j] < self.selected@.len() by {
                            assert(self.files@[self.file_cursor as int].hunk_indices@[j] < self.selected@.len());
                        }
                    }
                }
                self.set_flags(&idxs, v);
            },
        }
    }

    /// In the diff panel, replaces the hunk under the cursor by `pieces`,
    /// what splitting that hunk gave: the pieces inherit its selection, the
    /// later hunk indices of every file move up, and the current file lists
    /// the pieces where it listed the hunk. Anywhere else, or with no hunk
    /// under the cursor, nothing changes and `false` is returned.
    pub fn try_split_current_hunk(&mut self, pieces: Vec<DiffHunk>) -> (r: bool)
        requires
            wf(*old(self)),
            pieces@.len() > 0,
            old(self).hunks@.len() + pieces@.len() <= usize::MAX,
        ensures
            wf(*final(self)),
            r == (old(self).active_panel == Panel::Diff && old(self).hunk_cursor < current_indices(*old(self)).len()),
            r ==> split_at(*old(self), *final(self), current_indices(*old(self))[old(self).hunk_cursor as int], pieces@),
            !r ==> unchanged(*old(self), *final(self)),
    {
        if self.active_panel != Panel::Diff || self.file_cursor >= self.files.len()
            || self.hunk_cursor >= self.files[self.file_cursor].hunk_indices.len() {
            return false;
        }
        let k = self.files[self.file_cursor].hunk_indices[self.hunk_cursor];
        proof {
            assert(self.files@[self.file_cursor as int].hunk_indices@[self.hunk_cursor as int] < self.selected@.len());
        }
        let ghost a = *self;
        let n = pieces.len();
        let len = self.hunks.len();

        let mut hunks: Vec<DiffHunk> = Vec::new();
        std::mem::swap(&mut hunks, &mut self.hunks);
        let mut rest = hunks.split_off(k);
        let _replaced = rest.remove(0);
        let mut pieces = pieces;
        hunks.append(&mut pieces);
        hunks.append(&mut rest);
        proof {
            assert(a.hunks@.subrange(k as int, len as int).remove(0) =~= a.hunks@.skip(k + 1));
            assert(a.hunks@.subrange(0, k as int) =~= a.hunks@.take(k as int));
        }
        self.hunks = hunks;

        let was = self.selected[k];
        let mut sel: Vec<bool> = Vec::new();
        std::mem::swap(&mut sel, &mut self.selected);
        let mut srest = sel.split_off(k);
        let _flag = srest.remove(0);
        let mut j: usize = 0;
        while j < n
            invariant
                j <= n,
                sel@ == a.selected@.take(k as int) + Seq::new(j as nat, |q: int| was),
            decreases n - j,
        {
            sel.push(was);
            j = j + 1;
            assert(sel@ =~= a.selected@.take(k as int) + Seq::new(j as nat, |q: int| was));
        }
        sel.append(&mut srest);
        proof {
            assert(a.selected@.subrange(k as int, len as int).remove(0) =~= a.selected@.skip(k + 1));
        }
        self.selected = sel;

        let mut files: Vec<TuiFile> = Vec::new();
        std::mem::swap(&mut files, &mut self.files);
        let mut out: Vec<TuiFile> = Vec::new();
        let mut f: usize = 0;
        while f < files.len()
            invariant
                f <= files.len(),
                files@ == a.files@,
                wf(a),
                k < len,
                len == a.hunks@.len(),
                len + n <= usize::MAX,
                n > 0,
                a.file_cursor < a.files@.len(),
                a.files@[a.file_cursor as int].hunk_indices@[a.hunk_cursor as int] == k,
                a.hunk_cursor < a.files@[a.file_cursor as int].hunk_indices@.len(),
                out@.len() == f,
                self.file_cursor == a.file_cursor,
                forall|q: int| 0 <= q < f ==> file_split(#[trigger] out@[q], a.files@[q], q == a.file_cursor, k, n as nat),
            decreases files.len() - f,
        {
            proof {
                assert forall|q: int| 0 <= q < files@[f as int].hunk_indices@.len()
                    implies #[trigger] files@[f as int].hunk_indices@[q] < len by {
                    assert(a.files@[f as int].hunk_indices@[q] < a.selected@.len());
                }
            }
            let shifted_idx = shift_indices(&files[f].hunk_indices, k, n, len);
            let idx = if f == self.file_cursor {
                proof {
                    assert(shifted(files@[f as int].hunk_indices@, k, n as nat)[a.hunk_cursor as int] == k);
                }
                splice_run(shifted_idx, k, n, Ghost(a.hunk_cursor as int))
            } else {
                shifted_idx
            };
            out.push(TuiFile { path: copy_string(&files[f].path), hunk_indices: idx });
            f = f + 1;
        }
        self.files = out;
        proof {
            assert forall|q: int, j: int| 0 <= q < self.files@.len() && 0 <= j < self.files@[q].hunk_indices@.len()
                implies #[trigger] self.files@[q].hunk_indices@[j] < self.selected@.len() by {
                assert(file_split(self.files@[q], a.files@[q], q == a.file_cursor, k, n as nat));
                lemma_split_indices_bound(a.files@[q].hunk_indices@, q == a.file_cursor, k, n as nat, len as nat, j);
            }
        }
        true
    }

    /// Scrolls the diff panel, of `visible_height` lines, so that the hunk
    /// under the cursor is visible. The file panel, a missing file, or a
    /// panel with no lines leave the scroll alone.
    pub fn adjust_diff_scroll(&mut self, visible_height: u16)
        requires
            3 + hunk_offset(old(self).hunks@, current_indices(*old(self)), old(self).hunk_cursor as int) <= usize::MAX,
        ensures
            same_content(*old(self), *final(self)),
            same_texts(*old(self), *final(self)),
            final(self).selected == old(self).selected,
            final(self).active_panel == old(self).active_panel,
            final(self).mode == old(self).mode,
            final(self).file_cursor == old(self).file_cursor,
            final(self).hunk_cursor == old(self).hunk_cursor,
            final(self).diff_scroll == (if old(self).active_panel != Panel::Diff || old(self).file_cursor
                >= old(self).files@.len() || visible_height == 0 {
                old(self).diff_scroll as int
            } else {
                scrolled(
                    3 + hunk_offset(old(self).hunks@, current_indices(*old(self)), old(self).hunk_cursor as int),
                    old(self).diff_scroll as int,
                    visible_height as int,
                )
            }),
    {
        if self.active_panel != Panel::Diff || self.file_cursor >= self.files.len() {
            return;
        }
        let idxs = &self.files[self.file_cursor].hunk_indices;
        let ghost total = hunk_offset(self.hunks@, idxs@, self.hunk_cursor as int);
        let mut offset: usize = 3;
        let mut i: usize = 0;
        while i < idxs.len() && i < self.hunk_cursor
            invariant
                i <= idxs.len(),
                i <= self.hunk_cursor,
                *idxs == self.files@[self.file_cursor as int].hunk_indices,
                total == hunk_offset(self.hunks@, idxs@, self.hunk_cursor as int),
                3 + total <= usize::MAX,
                offset == 3 + hunk_offset(self.hunks@, idxs@, i as int),
            decreases idxs.len() - i,
        {
            proof {
                lemma_hunk_offset_mono(self.hunks@, idxs@, i + 1, self.hunk_cursor as int);
            }
            let k = idxs[i];
            if k < self.hunks.len() {
                offset = offset + 1 + self.hunks[k].lines.len() + 1;
            }
            i = i + 1;
        }
        proof {
            if i == idxs.len() && i < self.hunk_cursor {
                lemma_hunk_offset_clamp(self.hunks@, idxs@, self.hunk_cursor as int);
            }
        }
        let vh = visible_height as usize;
        if vh == 0 {
            return;
        }
        if offset >= self.diff_scroll && offset - self.diff_scroll >= vh {
            self.diff_scroll = offset - vh + 1;
        }
        if offset < self.diff_scroll {
            self.diff_scroll = offset;
        }
    }

    /// The indices of the selected hunks, in order.
    pub fn get_selected_indices(&self) -> (r: Vec<usize>)
        ensures
            r@ == true_indices(self.selected@),
    {
        let mut r: Vec<usize> = Vec::new();
        let mut j: usize = 0;
        while j < self.selected.len()
            invariant
                j <= self.selected.len(),
                r@ == true_indices(self.selected@.take(j as int)),
            decreases self.selected.len() - j,
        {
            proof {
                let t = self.selected@.take(j + 1);
                assert(t.drop_last() =~= self.selected@.take(j as int));
            }
            if self.selected[j] {
                r.push(j);
            }
            j = j + 1;
        }
        assert(self.selected@.take(self.selected.len() as int) =~= self.selected@);
        r
    }

    /// Starts typing the new commit's message, from the default message,
    /// with the cursor at its end.
    pub fn enter_message_mode(&mut self)
        requires
            wf(*old(self)),
        ensures
            wf(*final(self)),
            entered_message(*old(self), *final(self)),
    {
        self.mode = TuiMode::MessageInput;
        self.message_text = copy_string(&self.default_message);
        self.message_cursor = str_byte_len(self.message_text.as_str());
        proof {
            lemma_empty_boundaries(self.message_text@);
        }
    }

    /// Back to choosing hunks.
    pub fn exit_message_mode(&mut self)
        ensures
            in_mode(*old(self), *final(self), TuiMode::HunkSelection),
    {
        self.mode = TuiMode::HunkSelection;
    }

    /// Starts typing the remainder's message, from the original message,
    /// with the cursor at its end.
    pub fn enter_remainder_mode(&mut self)
        requires
            wf(*old(self)),
        ensures
            wf(*final(self)),
            entered_remainder(*old(self), *final(self)),
    {
        self.mode = TuiMode::RemainderInput;
        self.remainder_text = copy_string(&self.original_message);
        self.remainder_cursor = str_byte_len(self.remainder_text.as_str());
        proof {
            lemma_empty_boundaries(self.remainder_text@);
        }
    }

    /// Back to the new commit's message.
    pub fn exit_remainder_mode(&mut self)
        ensures
            in_mode(*old(self), *final(self), TuiMode::MessageInput),
    {
        self.mode = TuiMode::MessageInput;
    }

    /// Replaces the text being edited and its cursor.
    fn set_active(&mut self, t: String, c: usize)
        requires
            wf(*old(self)),
            is_boundary(t@, c as int),
        ensures
            wf(*final(self)),
            text_edited(*old(self), *final(self), t@, c as int),
    {
        if self.mode == TuiMode::RemainderInput {
            self.remainder_text = t;
            self.remainder_cursor = c;
        } else {
            self.message_text = t;
            self.message_cursor = c;
        }
    }

    /// The text being edited, and its cursor.
    fn active_text_and_cursor(&self) -> (r: (&String, usize))
        ensures
            r.0@ == active_text(*self),
            r.1 == active_cursor(*self),
    {
        if self.mode == TuiMode::RemainderInput {
            (&self.remainder_text, self.remainder_cursor)
        } else {
            (&self.message_text, self.message_cursor)
        }
    }

    /// Types `c` at the cursor.
    pub fn message_insert_char(&mut self, c: char)
        requires
            wf(*old(self)),
        ensures
            wf(*final(self)),
            text_edited(*old(self), *final(self),
                inserted(active_text(*old(self)), active_cursor(*old(self)), c).0,
                inserted(active_text(*old(self)), active_cursor(*old(self)), c).1),
    {
        let (t, b) = self.active_text_and_cursor();
        let (nt, nb) = insert_at(t.as_str(), b, c);
        self.set_active(nt, nb);
    }

    /// Deletes the character before the cursor.
    pub fn message_backspace(&mut self)
        requires
            wf(*old(self)),
        ensures
            wf(*final(self)),
            text_edited(*old(self), *final(self),
                backspaced(active_text(*old(self)), active_cursor(*old(self))).0,
                backspaced(active_text(*old(self)), active_cursor(*old(self))).1),
    {
        let (t, b) = self.active_text_and_cursor();
        let (nt, nb) = backspace_at(t.as_str(), b);
        self.set_active(nt, nb);
    }

    /// Deletes the character under the cursor.
    pub fn message_delete(&mut self)
        requires
            wf(*old(self)),
        ensures
            wf(*final(self)),
            text_edited(*old(self), *final(self),
                deleted(active_text(*old(self)), active_cursor(*old(self))),
                active_cursor(*old(self))),
    {
        let (t, b) = self.active_text_and_cursor();
        let nt = delete_at(t.as_str(), b);
        self.set_active(nt, b);
    }

    /// Moves the cursor one character left.
    pub fn message_cursor_left(&mut self)
        requires
            wf(*old(self)),
        ensures
            wf(*final(self)),
            text_edited(*old(self), *final(self), active_text(*old(self)),
                moved_left(active_text(*old(self)), active_cursor(*old(self)))),
    {
        let (t, b) = self.active_text_and_cursor();
        let nb = left_of(t.as_str(), b);
        let nt = copy_string(t);
        self.set_active(nt, nb);
    }

    /// Moves the cursor one character right.
    pub fn message_cursor_right(&mut self)
        requires
            wf(*old(self)),
        ensures
            wf(*final(self)),
            text_edited(*old(self), *final(self), active_text(*old(self)),
                moved_right(active_text(*old(self)), active_cursor(*old(self)))),
    {
        let (t, b) = self.active_text_and_cursor();
        let nb = right_of(t.as_str(), b);
        let nt = copy_string(t);
        self.set_active(nt, nb);
    }

    /// Moves the cursor to the start of the text.
    pub fn message_cursor_home(&mut self)
        requires
            wf(*old(self)),
        ensures
            wf(*final(self)),
            text_edited(*old(self), *final(self), active_text(*old(self)), 0),
    {
        let (t, _b) = self.active_text_and_cursor();
        let nt = copy_string(t);
        proof {
            lemma_empty_boundaries(nt@);
        }
        self.set_active(nt, 0);
    }

    /// Moves the cursor to the end of the text.
    pub fn message_cursor_end(&mut self)
        requires
            wf(*old(self)),
        ensures
            wf(*final(self)),
            text_edited(*old(self), *final(self), active_text(*old(self)), utf8_len(active_text(*old(self))) as int),
    {
        let (t, _b) = self.active_text_and_cursor();
        let nt = copy_string(t);
        let n = str_byte_len(nt.as_str());
        proof {
            lemma_empty_boundaries(nt@);
        }
        self.set_active(nt, n);
    }
}

/// Nothing changed.
pub open spec fn unchanged(a: SplitTuiState, b: SplitTuiState) -> bool {
    &&& same_content(a, b)
    &&& same_view(a, b)
    &&& same_texts(a, b)
    &&& b.selected == a.selected
}

/// `b` is `a` with the session aborted.
pub open spec fn aborted_from(a: SplitTuiState, b: SplitTuiState) -> bool {
    &&& same_view(a, b)
    &&& same_texts(a, b)
    &&& b.selected == a.selected
    &&& b.hunks == a.hunks && b.files == a.files && b.default_message == a.default_message
    &&& b.original_message == a.original_message && b.no_edit == a.no_edit && b.confirmed == a.confirmed
    &&& b.aborted
}

/// `b` is `a` with the session confirmed.
pub open spec fn confirmed_from(a: SplitTuiState, b: SplitTuiState) -> bool {
    &&& same_view(a, b)
    &&& same_texts(a, b)
    &&& b.selected == a.selected
    &&& b.hunks == a.hunks && b.files == a.files && b.default_message == a.default_message
    &&& b.original_message == a.original_message && b.no_edit == a.no_edit && b.aborted == a.aborted
    &&& b.confirmed
}

/// What a key does while a message is being typed.
pub open spec fn text_key_effect(a: SplitTuiState, b: SplitTuiState, code: Key, ctrl: bool) -> bool {
    let t = active_text(a);
    let c = active_cursor(a);
    match code {
        Key::Enter => if trim(t).len() == 0 {
            unchanged(a, b)
        } else if a.mode == TuiMode::MessageInput && !a.no_edit {
            entered_remainder(a, b)
        } else {
            confirmed_from(a, b)
        },
        Key::Esc => if a.mode == TuiMode::MessageInput {
            in_mode(a, b, TuiMode::HunkSelection)
        } else {
            in_mode(a, b, TuiMode::MessageInput)
        },
        Key::Backspace => text_edited(a, b, backspaced(t, c).0, backspaced(t, c).1),
        Key::Delete => text_edited(a, b, deleted(t, c), c),
        Key::Left => text_edited(a, b, t, moved_left(t, c)),
        Key::Right => text_edited(a, b, t, moved_right(t, c)),
        Key::Home => text_edited(a, b, t, 0),
        Key::End => text_edited(a, b, t, utf8_len(t) as int),
        Key::Char(ch) => if ctrl {
            if ch == 'a' {
                text_edited(a, b, t, 0)
            } else if ch == 'e' {
                text_edited(a, b, t, utf8_len(t) as int)
            } else if ch == 'u' {
                text_edited(a, b, t.skip(char_at_byte(t, c)), 0)
            } else if ch == 'k' {
                text_edited(a, b, t.take(char_at_byte(t, c)), c)
            } else {
                unchanged(a, b)
            }
        } else {
            text_edited(a, b, inserted(t, c, ch).0, inserted(t, c, ch).1)
        },
        _ => unchanged(a, b),
    }
}

/// What a key does: Ctrl+C always aborts; while choosing hunks the keys
/// move, toggle, switch panels, select, start the message or abort (`s`,
/// which would split a hunk, has no effect here); while typing they edit,
/// confirm or go back.
pub open spec fn key_effect(a: SplitTuiState, b: SplitTuiState, code: Key, ctrl: bool) -> bool {
    if ctrl && code == Key::Char('c') {
        aborted_from(a, b)
    } else if a.mode == TuiMode::HunkSelection {
        selection_key_effect(a, b, code)
    } else {
        text_key_effect(a, b, code, ctrl)
    }
}

impl SplitTuiState {
    /// Whether the text being edited is blank.
    fn active_is_blank(&self) -> (b: bool)
        ensures
            b == (trim(active_text(*self)).len() == 0),
    {
        let (t, _c) = self.active_text_and_cursor();
        let v = chars_of(t.as_str());
        let (x, y) = trim_bounds(&v);
        x == y
    }
}

/// What a key does while choosing hunks.
pub open spec fn selection_key_effect(a: SplitTuiState, b: SplitTuiState, code: Key) -> bool {
    match code {
        Key::Up => moved_up(a, b),
        Key::Down => moved_down(a, b),
        Key::Tab | Key::Left | Key::Right => switched(a, b),
        Key::Enter => entered_message(a, b),
        Key::Esc => aborted_from(a, b),
        Key::Char(ch) => if ch == 'k' {
            moved_up(a, b)
        } else if ch == 'j' {
            moved_down(a, b)
        } else if ch == ' ' {
            toggled(a, b)
        } else if ch == 'a' {
            marked(a, b, true)
        } else if ch == 'n' {
            marked(a, b, false)
        } else if ch == 'q' {
            aborted_from(a, b)
        } else {
            unchanged(a, b)
        },
        _ => unchanged(a, b),
    }
}

/// Reacts to a key; `ctrl` says whether Control was held.
pub fn handle_key(state: &mut SplitTuiState, code: Key, ctrl: bool)
    requires
        wf(*old(state)),
    ensures
        wf(*final(state)),
        key_effect(*old(state), *final(state), code, ctrl),
{
    if ctrl && code == Key::Char('c') {
        state.aborted = true;
        return;
    }
    match state.mode {
        TuiMode::HunkSelection => handle_key_hunk_selection(state, code),
        TuiMode::MessageInput => handle_key_message_input(state, code, ctrl),
        TuiMode::RemainderInput => handle_key_remainder_input(state, code, ctrl),
    }
}

/// Reacts to a key while hunks are being chosen.
pub fn handle_key_hunk_selection(state: &mut SplitTuiState, code: Key)
    requires
        wf(*old(state)),
    ensures
        wf(*final(state)),
        selection_key_effect(*old(state), *final(state), code),
{
    match code {
        Key::Up => state.move_up(),
        Key::Down => state.move_down(),
        Key::Tab | Key::Left | Key::Right => state.switch_panel(),
        Key::Enter => state.enter_message_mode(),
        Key::Esc => state.aborted = true,
        Key::Char(ch) => {
            if ch == 'k' {
                state.move_up();
            } else if ch == 'j' {
                state.move_down();
            } else if ch == ' ' {
                state.toggle_selection();
            } else if ch == 'a' {
                state.select_all();
            } else if ch == 'n' {
                state.deselect_all();
            } else if ch == 'q' {
                state.aborted = true;
            }
        },
        _ => {},
    }
}

/// Reacts to a key while the new commit's message is being typed.
pub fn handle_key_message_input(state: &mut SplitTuiState, code: Key, ctrl: bool)
    requires
        wf(*old(state)),
        old(state).mode == TuiMode::MessageInput,
    ensures
        wf(*final(state)),
        text_key_effect(*old(state), *final(state), code, ctrl),
{
    match code {
        Key::Enter => {
            if state.active_is_blank() {
                return;
            }
            if state.no_edit {
                state.confirmed = true;
            } else {
                state.enter_remainder_mode();
            }
        },
        Key::Esc => state.exit_message_mode(),
        _ => edit_text(state, code, ctrl),
    }
}

/// Reacts to a key while the remainder commit's message is being typed.
pub fn handle_key_remainder_input(state: &mut SplitTuiState, code: Key, ctrl: bool)
    requires
        wf(*old(state)),
        old(state).mode == TuiMode::RemainderInput,
    ensures
        wf(*final(state)),
        text_key_effect(*old(state), *final(state), code, ctrl),
{
    match code {
        Key::Enter => {
            if state.active_is_blank() {
                return;
            }
            state.confirmed = true;
        },
        Key::Esc => state.exit_remainder_mode(),
        _ => edit_text(state, code, ctrl),
    }
}

/// The editing keys, shared by both messages.
fn edit_text(state: &mut SplitTuiState, code: Key, ctrl: bool)
    requires
        wf(*old(state)),
        old(state).mode != TuiMode::HunkSelection,
        code != Key::Enter && code != Key::Esc,
    ensures
        wf(*final(state)),
        text_key_effect(*old(state), *final(state), code, ctrl),
{
    match code {
        Key::Backspace => state.message_backspace(),
        Key::Delete => state.message_delete(),
        Key::Left => state.message_cursor_left(),
        Key::Right => state.message_cursor_right(),
        Key::Home => state.message_cursor_home(),
        Key::End => state.message_cursor_end(),
        Key::Char(ch) => {
            if ctrl {
                if ch == 'a' {
                    state.message_cursor_home();
                } else if ch == 'e' {
                    state.message_cursor_end();
                } else if ch == 'u' {
                    let (t, b) = state.active_text_and_cursor();
                    let nt = clear_before(t.as_str(), b);
                    state.set_active(nt, 0);
                } else if ch == 'k' {
                    let (t, b) = state.active_text_and_cursor();
                    let nt = clear_after(t.as_str(), b);
                    state.set_active(nt, b);
                }
            } else {
                state.message_insert_char(ch);
            }
        },
        _ => {},
    }
}

proof fn lemma_hunk_offset_mono(hunks: Seq<DiffHunk>, idxs: Seq<usize>, i: int, j: int)
    requires
        0 <= i <= j,
    ensures
        hunk_offset(hunks, idxs, i) <= hunk_offset(hunks, idxs, j),
    decreases j - i,
{
    if i < j {
        lemma_hunk_offset_mono(hunks, idxs, i, j - 1);
        if j > idxs.len() && idxs.len() > 0 {
            lemma_hunk_offset_clamp(hunks, idxs, j);
            lemma_hunk_offset_clamp(hunks, idxs, j - 1);
        }
    }
}

proof fn lemma_hunk_offset_clamp(hunks: Seq<DiffHunk>, idxs: Seq<usize>, n: int)
    requires
        n >= idxs.len(),
    ensures
        hunk_offset(hunks, idxs, n) == hunk_offset(hunks, idxs, idxs.len() as int),
    decreases n,
{
    if n > idxs.len() && idxs.len() > 0 {
        assert(hunk_offset(hunks, idxs, n) == hunk_offset(hunks, idxs, idxs.len() - 1) + if idxs[idxs.len() - 1] < hunks.len() {
            2 + hunks[idxs[idxs.len() - 1] as int].lines@.len()
        } else {
            0
        });
    }
}

/// The path shown in a file list `width` columns wide: it gets the width
/// less 12 characters; a longer path keeps its end behind `…`.
pub open spec fn truncated_path(path: Seq<char>, width: int) -> Seq<char> {
    let max = if width > 12 { width - 12 } else { 0 };
    if max == 0 {
        seq![]
    } else if path.len() > max {
        seq!['…'] + path.skip(path.len() - max + 1)
    } else {
        path
    }
}

/// The path as the file list shows it in a panel `width` columns wide.
pub fn display_path(path: &str, width: u16) -> (r: String)
    ensures
        r@ == truncated_path(path@, width as int),
{
    let max: usize = if width > 12 { (width - 12) as usize } else { 0 };
    if max == 0 {
        return String::new();
    }
    let v = chars_of(path);
    if v.len() > max {
        let start = v.len() - max + 1;
        let mut out = String::new();
        push_char(&mut out, '…');
        push_range(&mut out, &v, start, v.len());
        assert(out@ =~= seq!['…'] + path@.skip(start as int));
        out
    } else {
        string_of(&v)
    }
}

/// The check box of a file: all, some or none of its hunks selected.
#[derive(Debug, Clone, Copy, PartialEq, Eq, Structural)]
pub enum FileMark {
    All,
    Partial,
    Empty,
}

/// One row of the file list.
#[derive(Debug)]
pub struct FileRow {
    pub mark: FileMark,
    /// The path, truncated to the panel.
    pub path: String,
    /// How many hunks the file has.
    pub total: usize,
    /// The row is under the file cursor.
    pub current: bool,
}

/// The check box for `selected` of `total` hunks.
pub open spec fn mark_for(selected: nat, total: nat) -> FileMark {
    if selected == total && total > 0 {
        FileMark::All
    } else if selected > 0 {
        FileMark::Partial
    } else {
        FileMark::Empty
    }
}

/// `row` shows file `i` of the state in a panel `width` columns wide.
pub open spec fn file_row_of(row: FileRow, s: SplitTuiState, i: int, width: int) -> bool {
    let f = s.files@[i];
    &&& row.mark == mark_for(count_selected(f.hunk_indices@, s.selected@), f.hunk_indices@.len())
    &&& row.path@ == truncated_path(f.path@, width)
    &&& row.total == f.hunk_indices@.len()
    &&& row.current == (i == s.file_cursor)
}

proof fn lemma_count_selected_le(idxs: Seq<usize>, sel: Seq<bool>)
    ensures
        count_selected(idxs, sel) <= idxs.len(),
    decreases idxs.len(),
{
    if idxs.len() > 0 {
        lemma_count_selected_le(idxs.drop_last(), sel);
    }
}

impl SplitTuiState {
    /// The rows of the file list, one per file, in order.
    pub fn file_rows(&self, width: u16) -> (r: Vec<FileRow>)
        requires
            wf(*self),
        ensures
            r@.len() == self.files@.len(),
            forall|i: int| 0 <= i < r@.len() ==> file_row_of(#[trigger] r@[i], *self, i, width as int),
    {
        let mut rows: Vec<FileRow> = Vec::new();
        let mut i: usize = 0;
        while i < self.files.len()
            invariant
                i <= self.files@.len(),
                wf(*self),
                rows@.len() == i,
                forall|k: int| 0 <= k < i ==> file_row_of(#[trigger] rows@[k], *self, k, width as int),
            decreases self.files.len() - i,
        {
            let (selected, total) = self.selected_count_for_file(i);
            let n_hunks = self.files[i].hunk_indices.len();
            proof {
                lemma_count_selected_le(self.files@[i as int].hunk_indices@, self.selected@);
            }
            let mark = if selected == total && total > 0 {
                FileMark::All
            } else if selected > 0 {
                FileMark::Partial
            } else {
                FileMark::Empty
            };
            let row = FileRow {
                mark,
                path: display_path(self.files[i].path.as_str(), width),
                total,
                current: i == self.file_cursor,
            };
            assert(n_hunks == self.files@[i as int].hunk_indices@.len());
            assert(row.mark == mark_for(selected as nat, total as nat));
            rows.push(row);
            i = i + 1;
        }
        rows
    }
}

/// One line of the diff panel.
#[derive(Debug)]
pub enum DiffPanelLine {
    /// `--- a/<path>` and `+++ b/<path>`, in bold.
    FileHeader(String),
    Blank,
    /// A hunk's header with its check box; `current` marks the hunk under
    /// the cursor while the diff panel has the focus.
    HunkHeader { current: bool, selected: bool, header: String },
    /// A line of a hunk: four spaces, the origin and the text without its
    /// trailing newlines, colored by origin.
    Line { origin: char, text: String },
    /// Shown when no file is under the cursor.
    NoFile,
}

/// A diff panel line, by its content.
pub enum PanelLineModel {
    FileHeader(Seq<char>),
    Blank,
    HunkHeader(bool, bool, Seq<char>),
    Line(char, Seq<char>),
    NoFile,
}

/// The content of a diff panel line.
pub open spec fn panel_line_model(l: DiffPanelLine) -> PanelLineModel {
    match l {
        DiffPanelLine::FileHeader(t) => PanelLineModel::FileHeader(t@),
        DiffPanelLine::Blank => PanelLineModel::Blank,
        DiffPanelLine::HunkHeader { current, selected, header } => PanelLineModel::HunkHeader(current, selected, header@),
        DiffPanelLine::Line { origin, text } => PanelLineModel::Line(origin, text@),
        DiffPanelLine::NoFile => PanelLineModel::NoFile,
    }
}

/// `s` without its trailing newlines.
pub open spec fn trimmed_newlines(s: Seq<char>) -> Seq<char>
    decreases s.len(),
{
    if s.len() > 0 && s.last() == '\n' {
        trimmed_newlines(s.drop_last())
    } else {
        s
    }
}

/// The lines of one hunk: four spaces, origin, text.
pub open spec fn hunk_body(lines: Seq<DiffLine>) -> Seq<PanelLineModel> {
    lines.map_values(|l: DiffLine| PanelLineModel::Line(l.origin, seq![' ', ' ', ' ', ' ', l.origin] + trimmed_newlines(l.content@)))
}

/// The lines for the first `n` hunks of the current file.
pub open spec fn hunk_sections(s: SplitTuiState, idxs: Seq<usize>, n: int) -> Seq<PanelLineModel>
    decreases n,
{
    if n <= 0 {
        seq![]
    } else {
        let prev = hunk_sections(s, idxs, n - 1);
        let k = idxs[n - 1];
        if k < s.hunks@.len() {
            let h = s.hunks@[k as int];
            prev + seq![
                PanelLineModel::HunkHeader(
                    s.active_panel == Panel::Diff && n - 1 == s.hunk_cursor,
                    s.selected@[k as int],
                    h.header@,
                ),
            ] + hunk_body(h.lines@) + seq![PanelLineModel::Blank]
        } else {
            prev
        }
    }
}

/// The diff panel: the current file's headers, then each of its hunks.
pub open spec fn diff_panel(s: SplitTuiState) -> Seq<PanelLineModel> {
    if s.file_cursor < s.files@.len() {
        let f = s.files@[s.file_cursor as int];
        seq![
            PanelLineModel::FileHeader("--- a/"@ + f.path@),
            PanelLineModel::FileHeader("+++ b/"@ + f.path@),
            PanelLineModel::Blank,
        ] + hunk_sections(s, f.hunk_indices@, f.hunk_indices@.len() as int)
    } else {
        seq![PanelLineModel::NoFile]
    }
}

fn hunk_line(l: &DiffLine) -> (r: DiffPanelLine)
    ensures
        panel_line_model(r) == PanelLineModel::Line(l.origin, seq![' ', ' ', ' ', ' ', l.origin] + trimmed_newlines(l.content@)),
{
    let v = chars_of(l.content.as_str());
    let mut n: usize = v.len();
    assert(v@.take(n as int) =~= v@);
    while n > 0 && v[n - 1] == '\n'
        invariant
            n <= v.len(),
            v@ == l.content@,
            trimmed_newlines(v@) == trimmed_newlines(v@.take(n as int)),
        decreases n,
    {
        assert(v@.take(n as int).drop_last() =~= v@.take(n - 1));
        n = n - 1;
    }
    let mut t = String::new();
    push_str(&mut t, "    ");
    push_char(&mut t, l.origin);
    push_range(&mut t, &v, 0, n);
    proof {
        reveal_strlit("    ");
        assert(v@.subrange(0, n as int) =~= v@.take(n as int));
        assert(t@ =~= seq![' ', ' ', ' ', ' ', l.origin] + trimmed_newlines(l.content@));
    }
    DiffPanelLine::Line { origin: l.origin, text: t }
}

impl SplitTuiState {
    /// The lines of the diff panel.
    pub fn diff_panel_lines(&self) -> (r: Vec<DiffPanelLine>)
        requires
            wf(*self),
        ensures
            r@.map_values(|l: DiffPanelLine| panel_line_model(l)) == diff_panel(*self),
    {
        let mut out: Vec<DiffPanelLine> = Vec::new();
        if self.file_cursor >= self.files.len() {
            out.push(DiffPanelLine::NoFile);
            assert(out@.map_values(|l: DiffPanelLine| panel_line_model(l)) =~= diff_panel(*self));
            return out;
        }
        let f = &self.files[self.file_cursor];
        let mut a = String::new();
        push_str(&mut a, "--- a/");
        push_str(&mut a, f.path.as_str());
        let mut b = String::new();
        push_str(&mut b, "+++ b/");
        push_str(&mut b, f.path.as_str());
        out.push(DiffPanelLine::FileHeader(a));
        out.push(DiffPanelLine::FileHeader(b));
        out.push(DiffPanelLine::Blank);
        let ghost head = out@.map_values(|l: DiffPanelLine| panel_line_model(l));
        let idxs = &f.hunk_indices;
        let mut j: usize = 0;
        while j < idxs.len()
            invariant
                j <= idxs@.len(),
                self.file_cursor < self.files@.len(),
                *f == self.files@[self.file_cursor as int],
                *idxs == f.hunk_indices,
                wf(*self),
                out@.map_values(|l: DiffPanelLine| panel_line_model(l)) == head + hunk_sections(*self, idxs@, j as int),
            decreases idxs.len() - j,
        {
            let k = idxs[j];
            if k < self.hunks.len() {
                let h = &self.hunks[k];
                assert(k == self.files@[self.file_cursor as int].hunk_indices@[j as int]);
                let ghost before = out@.map_values(|l: DiffPanelLine| panel_line_model(l));
                out.push(DiffPanelLine::HunkHeader {
                    current: self.active_panel == Panel::Diff && j == self.hunk_cursor,
                    selected: self.selected[k],
                    header: string_of(&chars_of(h.header.as_str())),
                });
                let ghost mid = out@.map_values(|l: DiffPanelLine| panel_line_model(l));
                let mut m: usize = 0;
                while m < h.lines.len()
                    invariant
                        m <= h.lines@.len(),
                        out@.map_values(|l: DiffPanelLine| panel_line_model(l)) == mid + hunk_body(h.lines@).take(m as int),
                    decreases h.lines.len() - m,
                {
                    let ghost pre = out@.map_values(|l: DiffPanelLine| panel_line_model(l));
                    let ln = hunk_line(&h.lines[m]);
                    out.push(ln);
                    proof {
                        assert(out@.map_values(|l: DiffPanelLine| panel_line_model(l)) =~= pre.push(hunk_body(h.lines@)[m as int]));
                        assert(hunk_body(h.lines@).take(m + 1) =~= hunk_body(h.lines@).take(m as int).push(hunk_body(h.lines@)[m as int]));
                    }
                    m = m + 1;
                }
                let ghost pre2 = out@.map_values(|l: DiffPanelLine| panel_line_model(l));
                out.push(DiffPanelLine::Blank);
                proof {
                    assert(hunk_body(h.lines@).take(h.lines@.len() as int) =~= hunk_body(h.lines@));
                    assert(out@.map_values(|l: DiffPanelLine| panel_line_model(l)) =~= pre2.push(PanelLineModel::Blank));
                    assert(mid =~= before.push(PanelLineModel::HunkHeader(
                        self.active_panel == Panel::Diff && j == self.hunk_cursor,
                        self.selected@[k as int],
                        h.header@,
                    )));
                    assert(out@.map_values(|l: DiffPanelLine| panel_line_model(l)) =~= head + hunk_sections(*self, idxs@, j + 1));
                }
            } else {
                proof {
                    assert(k == self.files@[self.file_cursor as int].hunk_indices@[j as int]);
                    assert(hunk_sections(*self, idxs@, j + 1) == hunk_sections(*self, idxs@, j as int));
                }
            }
            j = j + 1;
        }
        proof {
            reveal_strlit("--- a/");
            reveal_strlit("+++ b/");
            assert(out@.map_values(|l: DiffPanelLine| panel_line_model(l)) =~= diff_panel(*self));
        }
        out
    }
}

/// The input line shown while a message is typed: its label, and the text
/// around the cursor.
#[derive(Debug, Clone)]
pub struct InputLine {
    pub label: String,
    pub before: String,
    /// The character under the cursor (a space at the end of the text).
    pub cursor: String,
    pub after: String,
}

/// The status bar's text while hunks are chosen.
pub open spec fn status_text_of(selected: nat, total: nat) -> Seq<char> {
    seq![' '] + dec(selected) + seq!['/'] + dec(total)
        + " hunks selected │ [Space] toggle · [Tab] switch panel · [a]ll · [n]one · [s]plit · [Enter] confirm · [q]uit "@
}

impl SplitTuiState {
    /// The status bar: how many hunks are selected out of how many, and the keys.
    pub fn status_text(&self) -> (r: String)
        ensures
            r@ == status_text_of(count_true(self.selected@), self.hunks@.len()),
    {
        let selected = self.total_selected();
        let total = self.hunks.len();
        let mut out = String::new();
        push_char(&mut out, ' ');
        push_str(&mut out, dec_string(selected as u64).as_str());
        push_char(&mut out, '/');
        push_str(&mut out, dec_string(total as u64).as_str());
        push_str(&mut out, " hunks selected │ [Space] toggle · [Tab] switch panel · [a]ll · [n]one · [s]plit · [Enter] confirm · [q]uit ");
        out
    }

    /// The input line of the message being typed; none while hunks are chosen.
    pub fn input_line(&self) -> (r: Option<InputLine>)
        requires
            wf(*self),
        ensures
            match r {
                Some(l) => {
                    &&& self.mode != TuiMode::HunkSelection
                    &&& l.label@ == if self.mode == TuiMode::MessageInput {
                        " New commit message: "@
                    } else {
                        " Remainder commit message: "@
                    }
                    &&& (l.before@, l.cursor@, l.after@) == cursor_split(active_text(*self), active_cursor(*self))
                },
                None => self.mode == TuiMode::HunkSelection,
            },
    {
        let label = match self.mode {
            TuiMode::HunkSelection => return None,
            TuiMode::MessageInput => copy_str(" New commit message: "),
            TuiMode::RemainderInput => copy_str(" Remainder commit message: "),
        };
        let (t, b) = self.active_text_and_cursor();
        let (before, cursor, after) = cursor_parts(t.as_str(), b);
        Some(InputLine { label, before, cursor, after })
    }
}

} // verus!
