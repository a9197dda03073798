//! Editing a line of text at a cursor kept as a UTF-8 byte offset, the way a
//! `String` is indexed.
use vstd::prelude::*;
use crate::text::{char_utf8_len, char_utf8_len_exec, chars_of, lemma_utf8_len_concat, push_char, push_range, utf8_len};

verus! {

/// `b` is the byte offset at which some character of `t` starts, or the end.
pub open spec fn is_boundary(t: Seq<char>, b: int) -> bool {
    exists|k: int| 0 <= k <= t.len() && utf8_len(t.take(k)) == b
}

/// The index of the character that starts at byte `b` of `t`.
pub open spec fn char_at_byte(t: Seq<char>, b: int) -> int {
    choose|k: int| 0 <= k <= t.len() && utf8_len(t.take(k)) == b
}

/// `c` typed at byte `b`: the new text and the cursor just after `c`.
pub open spec fn inserted(t: Seq<char>, b: int, c: char) -> (Seq<char>, int) {
    let k = char_at_byte(t, b);
    (t.take(k) + seq![c] + t.skip(k), b + char_utf8_len(c))
}

/// Backspace at byte `b`: the character before the cursor goes.
pub open spec fn backspaced(t: Seq<char>, b: int) -> (Seq<char>, int) {
    if b <= 0 {
        (t, b)
    } else {
        let k = char_at_byte(t, b);
        (t.take(k - 1) + t.skip(k), utf8_len(t.take(k - 1)) as int)
    }
}

/// Delete at byte `b`: the character under the cursor goes.
pub open spec fn deleted(t: Seq<char>, b: int) -> Seq<char> {
    if b >= utf8_len(t) {
        t
    } else {
        let k = char_at_byte(t, b);
        t.take(k) + t.skip(k + 1)
    }
}

/// The cursor one character to the left of byte `b`.
pub open spec fn moved_left(t: Seq<char>, b: int) -> int {
    if b <= 0 {
        b
    } else {
        utf8_len(t.take(char_at_byte(t, b) - 1)) as int
    }
}

/// The cursor one character to the right of byte `b`.
pub open spec fn moved_right(t: Seq<char>, b: int) -> int {
    if b >= utf8_len(t) {
        b
    } else {
        utf8_len(t.take(char_at_byte(t, b) + 1)) as int
    }
}

/// Every character counts at least one byte, so prefixes grow strictly.
pub proof fn lemma_utf8_take_strict(t: Seq<char>, i: int, j: int)
    requires
        0 <= i < j <= t.len(),
    ensures
        utf8_len(t.take(i)) < utf8_len(t.take(j)),
    decreases j - i,
{
    assert(t.take(j).drop_last() =~= t.take(j - 1));
    if i < j - 1 {
        lemma_utf8_take_strict(t, i, j - 1);
    }
}

/// A boundary names exactly one character index.
pub proof fn lemma_char_at_byte(t: Seq<char>, k: int)
    requires
        0 <= k <= t.len(),
    ensures
        is_boundary(t, utf8_len(t.take(k)) as int),
        char_at_byte(t, utf8_len(t.take(k)) as int) == k,
{
    let b = utf8_len(t.take(k)) as int;
    assert(0 <= k <= t.len() && utf8_len(t.take(k)) == b);
    let j = char_at_byte(t, b);
    if j < k {
        lemma_utf8_take_strict(t, j, k);
    } else if k < j {
        lemma_utf8_take_strict(t, k, j);
    }
}

/// The byte length of a string slice (`str::len`, which counts UTF-8 bytes).
#[verifier::external_body]
pub(crate) fn str_byte_len(s: &str) -> (n: usize)
    ensures
        n == utf8_len(s@),
{
    s.len()
}

/// The character index `k` at which byte `b` starts.
fn char_index(v: &Vec<char>, b: usize) -> (k: usize)
    requires
        is_boundary(v@, b as int),
    ensures
        k <= v.len(),
        utf8_len(v@.take(k as int)) == b,
        k == char_at_byte(v@, b as int),
{
    let ghost want = char_at_byte(v@, b as int);
    proof {
        lemma_char_at_byte(v@, want);
    }
    let mut k: usize = 0;
    let mut acc: usize = 0;
    assert(v@.take(0) =~= Seq::<char>::empty());
    while acc < b
        invariant
            0 <= want <= v.len(),
            utf8_len(v@.take(want)) == b,
            k <= want,
            acc == utf8_len(v@.take(k as int)),
            acc <= b,
        decreases want - k,
    {
        proof {
            if k >= want {
                assert(k == want);
                assert(false);
            }
            assert(v@.take(k + 1).drop_last() =~= v@.take(k as int));
            crate::text::lemma_utf8_len_take_mono(v@, k + 1, want);
        }
        let w = char_utf8_len_exec(v[k]);
        acc = acc + w;
        k = k + 1;
    }
    proof {
        if k < want {
            lemma_utf8_take_strict(v@, k as int, want);
        }
    }
    k
}

/// The string `x + [c] + y` built from pieces of `v`.
fn splice_chars(v: &Vec<char>, a: usize, b: usize, c: Option<char>) -> (r: String)
    requires
        a <= b <= v.len(),
    ensures
        r@ == v@.take(a as int) + (match c {
            Some(ch) => seq![ch],
            None => Seq::<char>::empty(),
        }) + v@.skip(b as int),
{
    let mut s = String::new();
    push_range(&mut s, v, 0, a);
    match c {
        Some(ch) => push_char(&mut s, ch),
        None => {},
    }
    push_range(&mut s, v, b, v.len());
    assert(s@ =~= v@.take(a as int) + (match c {
        Some(ch) => seq![ch],
        None => Seq::<char>::empty(),
    }) + v@.skip(b as int));
    s
}

/// Types `c` at byte `b` of `text`.
pub fn insert_at(text: &str, b: usize, c: char) -> (r: (String, usize))
    requires
        is_boundary(text@, b as int),
    ensures
        (r.0@, r.1 as int) == inserted(text@, b as int, c),
        is_boundary(r.0@, r.1 as int),
{
    let v = chars_of(text);
    let k = char_index(&v, b);
    let s = splice_chars(&v, k, k, Some(c));
    let n = str_byte_len(s.as_str());
    let w = char_utf8_len_exec(c);
    proof {
        let x = v@.take(k as int);
        lemma_utf8_len_concat(x, seq![c]);
        lemma_utf8_len_concat(x + seq![c], v@.skip(k as int));
        assert(seq![c].drop_last() =~= Seq::<char>::empty());
        assert(utf8_len(seq![c].drop_last()) == 0);
        assert(seq![c].last() == c);
        assert(utf8_len(seq![c]) == char_utf8_len(c));
        assert(s@.take(k + 1) =~= x + seq![c]);
        lemma_utf8_len_concat(x, seq![c]);
        assert(0 <= k + 1 <= s@.len() && utf8_len(s@.take(k + 1)) == b + w);
    }
    (s, b + w)
}

/// Backspace at byte `b` of `text`.
pub fn backspace_at(text: &str, b: usize) -> (r: (String, usize))
    requires
        is_boundary(text@, b as int),
    ensures
        (r.0@, r.1 as int) == backspaced(text@, b as int),
        is_boundary(r.0@, r.1 as int),
{
    let v = chars_of(text);
    if b == 0 {
        let s = splice_chars(&v, 0, 0, None);
        assert(s@ =~= text@);
        return (s, 0);
    }
    let k = char_index(&v, b);
    assert(is_boundary(text@, b as int));
    if k == 0 {
        assert(v@.take(0) =~= Seq::<char>::empty());
        assert(false);
    }
    let s = splice_chars(&v, k - 1, k, None);
    proof {
        crate::text::lemma_utf8_len_take_mono(v@, k - 1, k as int);
    }
    let p = prefix_bytes(&v, k - 1, b);
    assert(s@ =~= text@.take(k - 1) + text@.skip(k as int));
    assert(s@.take(k - 1) =~= text@.take(k - 1));
    (s, p)
}

/// Byte length of `v[..k]`, given that it is at most `bound`.
fn prefix_bytes(v: &Vec<char>, k: usize, bound: usize) -> (n: usize)
    requires
        k <= v.len(),
        utf8_len(v@.take(k as int)) <= bound,
    ensures
        n == utf8_len(v@.take(k as int)),
{
    let mut i: usize = 0;
    let mut acc: usize = 0;
    assert(v@.take(0) =~= Seq::<char>::empty());
    while i < k
        invariant
            k <= v.len(),
            i <= k,
            acc == utf8_len(v@.take(i as int)),
            utf8_len(v@.take(k as int)) <= bound,
        decreases k - i,
    {
        proof {
            assert(v@.take(i + 1).drop_last() =~= v@.take(i as int));
            crate::text::lemma_utf8_len_take_mono(v@, i + 1, k as int);
        }
        acc = acc + char_utf8_len_exec(v[i]);
        i = i + 1;
    }
    acc
}

/// Delete at byte `b` of `text`.
pub fn delete_at(text: &str, b: usize) -> (r: String)
    requires
        is_boundary(text@, b as int),
    ensures
        r@ == deleted(text@, b as int),
        is_boundary(r@, b as int),
{
    let v = chars_of(text);
    let n = str_byte_len(text);
    if b >= n {
        let s = splice_chars(&v, 0, 0, None);
        assert(s@ =~= text@);
        return s;
    }
    let k = char_index(&v, b);
    if k >= v.len() {
        assert(v@.take(k as int) =~= v@);
        assert(false);
    }
    let s = splice_chars(&v, k, k + 1, None);
    assert(s@ =~= text@.take(k as int) + text@.skip(k + 1));
    assert(s@.take(k as int) =~= text@.take(k as int));
    s
}

/// The cursor one character left of byte `b` of `text`.
pub fn left_of(text: &str, b: usize) -> (r: usize)
    requires
        is_boundary(text@, b as int),
    ensures
        r == moved_left(text@, b as int),
        is_boundary(text@, r as int),
{
    if b == 0 {
        return 0;
    }
    let v = chars_of(text);
    let k = char_index(&v, b);
    if k == 0 {
        assert(v@.take(0) =~= Seq::<char>::empty());
        assert(false);
    }
    proof {
        crate::text::lemma_utf8_len_take_mono(v@, k - 1, k as int);
    }
    prefix_bytes(&v, k - 1, b)
}

/// The cursor one character right of byte `b` of `text`.
pub fn right_of(text: &str, b: usize) -> (r: usize)
    requires
        is_boundary(text@, b as int),
    ensures
        r == moved_right(text@, b as int),
        is_boundary(text@, r as int),
{
    let n = str_byte_len(text);
    if b >= n {
        return b;
    }
    let v = chars_of(text);
    let k = char_index(&v, b);
    if k >= v.len() {
        assert(v@.take(k as int) =~= v@);
        assert(false);
    }
    proof {
        crate::text::lemma_utf8_len_take_mono(v@, k + 1, v.len() as int);
        assert(v@.take(v.len() as int) =~= v@);
    }
    prefix_bytes(&v, k + 1, n)
}

/// Everything before byte `b` removed (Ctrl+U).
pub fn clear_before(text: &str, b: usize) -> (r: String)
    requires
        is_boundary(text@, b as int),
    ensures
        r@ == text@.skip(char_at_byte(text@, b as int)),
        is_boundary(r@, 0),
{
    let v = chars_of(text);
    let k = char_index(&v, b);
    let s = splice_chars(&v, 0, k, None);
    assert(s@ =~= text@.skip(k as int));
    assert(s@.take(0) =~= Seq::<char>::empty());
    s
}

/// Everything from byte `b` on removed (Ctrl+K).
pub fn clear_after(text: &str, b: usize) -> (r: String)
    requires
        is_boundary(text@, b as int),
    ensures
        r@ == text@.take(char_at_byte(text@, b as int)),
        is_boundary(r@, b as int),
{
    let v = chars_of(text);
    let k = char_index(&v, b);
    let s = splice_chars(&v, k, v.len(), None);
    assert(s@ =~= text@.take(k as int));
    assert(s@.take(k as int) =~= s@);
    s
}

/// The text around a cursor at byte `b`, for drawing: what stands before it,
/// the character under it (a space at the end), and what follows.
pub open spec fn cursor_split(t: Seq<char>, b: int) -> (Seq<char>, Seq<char>, Seq<char>) {
    let k = char_at_byte(t, b);
    if k < t.len() {
        (t.take(k), seq![t[k]], t.skip(k + 1))
    } else {
        (t.take(k), seq![' '], Seq::<char>::empty())
    }
}

/// Splits `text` around the cursor at byte `b`.
pub fn cursor_parts(text: &str, b: usize) -> (r: (String, String, String))
    requires
        is_boundary(text@, b as int),
    ensures
        (r.0@, r.1@, r.2@) == cursor_split(text@, b as int),
{
    let v = chars_of(text);
    let k = char_index(&v, b);
    let mut before = String::new();
    push_range(&mut before, &v, 0, k);
    let mut under = String::new();
    let mut after = String::new();
    if k < v.len() {
        push_char(&mut under, v[k]);
        push_range(&mut after, &v, k + 1, v.len());
    } else {
        push_char(&mut under, ' ');
    }
    proof {
        assert(before@ =~= v@.take(k as int));
        if k < v.len() {
            assert(under@ =~= seq![v@[k as int]]);
            assert(after@ =~= v@.skip(k + 1));
        } else {
            assert(under@ =~= seq![' ']);
            assert(after@ =~= Seq::<char>::empty());
        }
    }
    (before, under, after)
}

/// Backspace undoes typing: typing `c` at a cursor and then pressing
/// backspace gives back the text and the cursor as they were.
pub proof fn lemma_insert_then_backspace(t: Seq<char>, b: int, c: char)
    requires
        is_boundary(t, b),
    ensures
        backspaced(inserted(t, b, c).0, inserted(t, b, c).1) == (t, b),
{
    let k = char_at_byte(t, b);
    assert(0 <= k <= t.len() && utf8_len(t.take(k)) == b);
    let t2 = t.take(k) + seq![c] + t.skip(k);
    let b2 = b + char_utf8_len(c);
    assert(t2.take(k + 1) =~= t.take(k) + seq![c]);
    assert((t.take(k) + seq![c]).drop_last() =~= t.take(k));
    lemma_utf8_len_concat(t.take(k), seq![c]);
    assert(utf8_len(seq![c]) == char_utf8_len(c)) by {
        assert(seq![c].drop_last() =~= Seq::<char>::empty());
    }
    lemma_char_at_byte(t2, k + 1);
    assert(char_at_byte(t2, b2) == k + 1);
    assert(b2 > 0);
    assert(t2.take(k) =~= t.take(k));
    assert(t2.take(k) + t2.skip(k + 1) =~= t);
}

} // verus!
