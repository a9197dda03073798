//! Ownership of a generated section inside a PR/MR description.
//!
//! The generated part of a description is enclosed between two HTML-comment
//! markers. A re-sync rewrites only the text between the markers, so what
//! people add around the block (checklists, notes) survives.
use vstd::prelude::*;
use crate::text::{
    chars_of, contains, occurs_at, first_occurrence, last_occurrence, lemma_occurs_concat_left,
    lemma_occurs_concat_right, lemma_occurs_concat_back_right, lemma_occurs_skip, lemma_split_occ, find_in_suffix, first_index, lacks, lemma_first_exists, lemma_first_index,
    matches_at, push_char, push_range, push_str, rfind, string_of_range,
};

verus! {

/// Start marker of the managed block.
pub const MANAGED_START: &'static str = "<!-- gg:managed:start -->";

/// End marker of the managed block.
pub const MANAGED_END: &'static str = "<!-- gg:managed:end -->";

/// The text `wrap(content)` produces.
pub open spec fn wrapped(content: Seq<char>) -> Seq<char> {
    MANAGED_START@ + seq!['\n'] + content + seq!['\n'] + MANAGED_END@
}

/// A start marker begins at `i` and an end marker follows it.
pub open spec fn closed_start(body: Seq<char>, i: int) -> bool {
    &&& occurs_at(body, MANAGED_START@, i)
    &&& exists|j: int| i + MANAGED_START@.len() <= j && #[trigger] occurs_at(body, MANAGED_END@, j)
}

/// Both markers occur in `body`, a start marker before an end marker.
pub open spec fn markers_in_order(body: Seq<char>) -> bool {
    exists|i: int| #[trigger] closed_start(body, i)
}

/// `i` is the last start marker that an end marker follows.
pub open spec fn is_block_start(body: Seq<char>, i: int) -> bool {
    closed_start(body, i) && forall|k: int| i < k ==> !#[trigger] closed_start(body, k)
}

/// Where the managed block begins (meaningful when `markers_in_order(body)`).
pub open spec fn block_start(body: Seq<char>) -> int {
    choose|i: int| is_block_start(body, i)
}

/// Index just past the block's start marker, also past one newline that
/// follows it.
pub open spec fn content_start(body: Seq<char>) -> int {
    let after = block_start(body) + MANAGED_START@.len();
    if after < body.len() && body[after] == '\n' {
        after + 1
    } else {
        after
    }
}

/// The text between the block's start marker (the last one that an end
/// marker follows) and the first end marker after it, without one trailing
/// newline; `None` unless both markers occur in order.
pub open spec fn managed_content(body: Seq<char>) -> Option<Seq<char>> {
    if !markers_in_order(body) {
        None
    } else {
        let rest = body.skip(content_start(body));
        let raw = rest.take(first_index(rest, MANAGED_END@));
        if raw.len() > 0 && raw.last() == '\n' {
            Some(raw.drop_last())
        } else {
            Some(raw)
        }
    }
}

/// `body` with its managed block (from the block's start marker through the
/// first end marker after it) replaced by `wrapped(new_content)`; `None`
/// unless both markers occur in order.
pub open spec fn managed_replaced(body: Seq<char>, new_content: Seq<char>) -> Option<Seq<char>> {
    if !markers_in_order(body) {
        None
    } else {
        let start = block_start(body);
        let after = start + MANAGED_START@.len();
        let rest = body.skip(after);
        let end = after + first_index(rest, MANAGED_END@) + MANAGED_END@.len();
        Some(body.take(start) + wrapped(new_content) + body.skip(end))
    }
}

/// Facts about the two marker texts that the laws below use.
pub proof fn lemma_marker_facts()
    ensures
        MANAGED_START@.len() == 25,
        MANAGED_END@.len() == 23,
        lacks(MANAGED_START@, '\n'),
        lacks(MANAGED_END@, '\n'),
        MANAGED_START@[0] == '<',
        MANAGED_END@[0] == '<',
        forall|k: int| 0 < k < 23 ==> MANAGED_END@[k] != '<',
        MANAGED_START@[16] != MANAGED_END@[16],
{
    reveal_strlit("<!-- gg:managed:start -->");
    reveal_strlit("<!-- gg:managed:end -->");
}

/// The last start marker that an end marker follows is unique.
proof fn lemma_block_start_is(body: Seq<char>, i: int)
    requires
        is_block_start(body, i),
    ensures
        block_start(body) == i,
{
    let k = block_start(body);
    assert(is_block_start(body, k));
}

/// A start marker inside `END + after` lies inside `after`.
proof fn lemma_start_in_end_then(after: Seq<char>, k: int)
    requires
        occurs_at(MANAGED_END@ + after, MANAGED_START@, k),
    ensures
        k >= 23,
        occurs_at(after, MANAGED_START@, k - 23),
{
    lemma_marker_facts();
    let t = MANAGED_END@ + after;
    if k == 0 {
        assert(t.subrange(k, k + 25)[16] == t[16]);
    } else if k < 23 {
        assert(t.subrange(k, k + 25)[0] == t[k]);
        assert(t[k] == MANAGED_END@[k]);
    }
    lemma_occurs_concat_back_right(MANAGED_END@, after, MANAGED_START@, k);
}

/// In `content + "\n" + END + tail`, the first end
/// marker is the one after the newline, when `content` holds no end marker.
proof fn lemma_first_end(content: Seq<char>, tail: Seq<char>)
    requires
        !contains(content, MANAGED_END@),
    ensures
        first_occurrence(
            content + seq!['\n'] + (MANAGED_END@ + tail),
            MANAGED_END@,
            content.len() as int + 1,
        ),
{
    lemma_marker_facts();
    let y = MANAGED_END@ + tail;
    let s = content + seq!['\n'] + y;
    assert(MANAGED_END@.subrange(0, 23) =~= MANAGED_END@);
    lemma_occurs_concat_left(MANAGED_END@, tail, MANAGED_END@, 0);
    lemma_occurs_concat_right(content + seq!['\n'], y, MANAGED_END@, 0);
    assert forall|j: int| 0 <= j < content.len() as int + 1 implies !occurs_at(s, MANAGED_END@, j) by {
        if occurs_at(s, MANAGED_END@, j) {
            lemma_split_occ(content, '\n', y, MANAGED_END@, j);
        }
    }
}

/// In `wrapped(content) + after`, a start marker other than the leading one
/// lies inside `after`, when `content` holds no start marker.
proof fn lemma_start_in_tail(content: Seq<char>, after: Seq<char>, j: int)
    requires
        !contains(content, MANAGED_START@),
        occurs_at(wrapped(content) + after, MANAGED_START@, j),
        j > 0,
    ensures
        j >= wrapped(content).len(),
        occurs_at(after, MANAGED_START@, j - wrapped(content).len()),
{
    lemma_marker_facts();
    let y = content + seq!['\n'] + (MANAGED_END@ + after);
    let t = MANAGED_START@ + seq!['\n'] + y;
    assert(t =~= wrapped(content) + after);
    lemma_split_occ(MANAGED_START@, '\n', y, MANAGED_START@, j);
    let k = j - 26;
    lemma_split_occ(content, '\n', MANAGED_END@ + after, MANAGED_START@, k);
    lemma_start_in_end_then(after, k - content.len() as int - 1);
}

/// The block of `before + wrapped(content) + after` begins at `before.len()`,
/// when the content holds neither marker and `after` holds no complete block.
proof fn lemma_block_start(before: Seq<char>, content: Seq<char>, after: Seq<char>)
    requires
        !contains(content, MANAGED_START@),
        !contains(content, MANAGED_END@),
        !markers_in_order(after),
    ensures
        markers_in_order(before + wrapped(content) + after),
        block_start(before + wrapped(content) + after) == before.len(),
{
    lemma_marker_facts();
    let w = wrapped(content);
    let t = w + after;
    let body = before + w + after;
    let bl = before.len() as int;
    assert(body =~= before + t);
    assert(t.subrange(0, 25) =~= MANAGED_START@);
    lemma_occurs_concat_right(before, t, MANAGED_START@, 0);
    let y = content + seq!['\n'] + (MANAGED_END@ + after);
    assert(t =~= (MANAGED_START@ + seq!['\n']) + y);
    lemma_first_end(content, after);
    lemma_occurs_concat_right(MANAGED_START@ + seq!['\n'], y, MANAGED_END@, content.len() as int + 1);
    lemma_occurs_concat_right(before, t, MANAGED_END@, 26 + content.len() as int + 1);
    assert(occurs_at(body, MANAGED_END@, bl + 27 + content.len()));
    assert(closed_start(body, bl));
    assert forall|k: int| bl < k implies !#[trigger] closed_start(body, k) by {
        if closed_start(body, k) {
            lemma_occurs_concat_back_right(before, t, MANAGED_START@, k);
            lemma_start_in_tail(content, after, k - bl);
            let m = k - bl - w.len();
            let j = choose|j: int| k + 25 <= j && #[trigger] occurs_at(body, MANAGED_END@, j);
            assert(body =~= (before + w) + after);
            lemma_occurs_concat_back_right(before + w, after, MANAGED_END@, j);
            assert(occurs_at(after, MANAGED_END@, j - bl - w.len()));
            assert(closed_start(after, m));
        }
    }
    lemma_block_start_is(body, bl);
}

/// Reading the managed block back: a body made of any `before`, a wrapped
/// block and an `after` without a complete block yields the block's content,
/// as long as the content holds neither marker.
pub proof fn lemma_extract_wrapped(before: Seq<char>, content: Seq<char>, after: Seq<char>)
    requires
        !contains(content, MANAGED_START@),
        !contains(content, MANAGED_END@),
        !markers_in_order(after),
    ensures
        managed_content(before + wrapped(content) + after) == Some(content),
{
    lemma_marker_facts();
    let body = before + wrapped(content) + after;
    lemma_block_start(before, content, after);
    let after_start = before.len() as int + 25;
    assert(body[after_start] == '\n');
    assert(content_start(body) == after_start + 1);
    let rest = body.skip(after_start + 1);
    assert(rest =~= content + seq!['\n'] + (MANAGED_END@ + after));
    lemma_first_end(content, after);
    lemma_first_index(rest, MANAGED_END@, content.len() as int + 1);
    let raw = rest.take(content.len() as int + 1);
    assert(raw =~= content + seq!['\n']);
    assert(raw.drop_last() =~= content);
}

/// Re-syncing replaces exactly the managed block: the text before and after
/// it is kept, and the new content is wrapped in its place.
pub proof fn lemma_replace_wrapped(
    before: Seq<char>,
    old_content: Seq<char>,
    after: Seq<char>,
    new_content: Seq<char>,
)
    requires
        !contains(old_content, MANAGED_START@),
        !contains(old_content, MANAGED_END@),
        !markers_in_order(after),
    ensures
        managed_replaced(before + wrapped(old_content) + after, new_content) == Some(
            before + wrapped(new_content) + after,
        ),
{
    lemma_marker_facts();
    let body = before + wrapped(old_content) + after;
    lemma_block_start(before, old_content, after);
    let after_start = before.len() as int + 25;
    let rest = body.skip(after_start);
    let e: Seq<char> = seq![];
    let y = old_content + seq!['\n'] + (MANAGED_END@ + after);
    assert(rest =~= e + seq!['\n'] + y);
    lemma_first_end(old_content, after);
    assert(occurs_at(y, MANAGED_END@, old_content.len() as int + 1));
    lemma_occurs_concat_right(e + seq!['\n'], y, MANAGED_END@, old_content.len() as int + 1);
    assert forall|j: int| 0 <= j < old_content.len() as int + 2 implies !occurs_at(
        rest,
        MANAGED_END@,
        j,
    ) by {
        if occurs_at(rest, MANAGED_END@, j) {
            lemma_split_occ(e, '\n', y, MANAGED_END@, j);
        }
    }
    assert(first_occurrence(rest, MANAGED_END@, old_content.len() as int + 2));
    lemma_first_index(rest, MANAGED_END@, old_content.len() as int + 2);
    let end = after_start + old_content.len() as int + 2 + 23;
    assert(body.take(before.len() as int) =~= before);
    assert(body.skip(end) =~= after);
}

/// Re-syncing then reading back: whenever a body has a managed block, the
/// body that replacing it gives reads back exactly the new content, as long
/// as that content holds neither marker.
pub proof fn lemma_replace_then_extract(body: Seq<char>, new_content: Seq<char>)
    requires
        markers_in_order(body),
        !contains(new_content, MANAGED_START@),
        !contains(new_content, MANAGED_END@),
    ensures
        managed_replaced(body, new_content) is Some,
        managed_content(managed_replaced(body, new_content)->0) == Some(new_content),
{
    lemma_marker_facts();
    let i0 = choose|i: int| #[trigger] closed_start(body, i);
    lemma_last_closed_exists(body, i0);
    let s = block_start(body);
    assert(is_block_start(body, s));
    let after = s + 25;
    let j = choose|j: int| after <= j && #[trigger] occurs_at(body, MANAGED_END@, j);
    lemma_occurs_skip(body, MANAGED_END@, after, j - after);
    let rest = body.skip(after);
    lemma_first_exists(rest, MANAGED_END@, j - after);
    let f = first_index(rest, MANAGED_END@);
    lemma_occurs_skip(body, MANAGED_END@, after, f);
    let end = after + f + 23;
    let tail = body.skip(end);
    assert(body =~= body.take(end) + tail);
    assert(!markers_in_order(tail)) by {
        if markers_in_order(tail) {
            let m = choose|m: int| #[trigger] closed_start(tail, m);
            let q = choose|q: int| m + 25 <= q && #[trigger] occurs_at(tail, MANAGED_END@, q);
            lemma_occurs_concat_right(body.take(end), tail, MANAGED_START@, m);
            lemma_occurs_concat_right(body.take(end), tail, MANAGED_END@, q);
            assert(occurs_at(body, MANAGED_END@, end + q));
            assert(closed_start(body, end + m));
        }
    }
    lemma_extract_wrapped(body.take(s), new_content, tail);
}

/// Among the start markers that an end marker follows, there is a last one.
proof fn lemma_last_closed_exists(body: Seq<char>, i: int)
    requires
        closed_start(body, i),
    ensures
        is_block_start(body, block_start(body)),
    decreases body.len() - i,
{
    if forall|k: int| i < k ==> !#[trigger] closed_start(body, k) {
        assert(is_block_start(body, i));
    } else {
        let k = choose|k: int| i < k && #[trigger] closed_start(body, k);
        assert(k <= body.len());
        lemma_last_closed_exists(body, k);
    }
}

/// Finds where the managed block begins.
fn find_block_start(v: &Vec<char>, start_m: &Vec<char>, end_m: &Vec<char>) -> (r: Option<usize>)
    requires
        start_m@ == MANAGED_START@,
        end_m@ == MANAGED_END@,
    ensures
        match r {
            Some(i) => is_block_start(v@, i as int) && block_start(v@) == i && i + 25 <= v@.len(),
            None => !markers_in_order(v@),
        },
{
    proof {
        lemma_marker_facts();
    }
    let le = match rfind(v, end_m) {
        Some(e) => e,
        None => {
            proof {
                if markers_in_order(v@) {
                    let i = choose|i: int| #[trigger] closed_start(v@, i);
                    let j = choose|j: int| i + 25 <= j && #[trigger] occurs_at(v@, MANAGED_END@, j);
                }
            }
            return None;
        },
    };
    assert(start_m.len() == 25);
    if le < start_m.len() {
        proof {
            if markers_in_order(v@) {
                let i = choose|i: int| #[trigger] closed_start(v@, i);
                let j = choose|j: int| i + 25 <= j && #[trigger] occurs_at(v@, MANAGED_END@, j);
            }
        }
        return None;
    }
    let mut i: usize = le - start_m.len();
    assert forall|k: int| i < k implies !#[trigger] closed_start(v@, k) by {
        if closed_start(v@, k) {
            let j = choose|j: int| k + 25 <= j && #[trigger] occurs_at(v@, MANAGED_END@, j);
        }
    }
    loop
        invariant
            start_m@ == MANAGED_START@,
            end_m@ == MANAGED_END@,
            MANAGED_START@.len() == 25,
            i + 25 <= le,
            last_occurrence(v@, MANAGED_END@, le as int),
            forall|k: int| i < k ==> !#[trigger] closed_start(v@, k),
        decreases i,
    {
        if matches_at(v, start_m, i) {
            proof {
                assert(occurs_at(v@, MANAGED_END@, le as int));
                assert(closed_start(v@, i as int));
                lemma_block_start_is(v@, i as int);
            }
            return Some(i);
        }
        assert(!closed_start(v@, i as int));
        if i == 0 {
            proof {
                if markers_in_order(v@) {
                    let k = choose|k: int| #[trigger] closed_start(v@, k);
                }
            }
            return None;
        }
        i = i - 1;
    }
}

/// Wraps generated content in the managed markers.
pub fn wrap(content: &str) -> (r: String)
    ensures
        r@ == wrapped(content@),
{
    let mut out = String::new();
    push_str(&mut out, MANAGED_START);
    push_char(&mut out, '\n');
    push_str(&mut out, content);
    push_char(&mut out, '\n');
    push_str(&mut out, MANAGED_END);
    assert(out@ =~= wrapped(content@));
    out
}

/// The text between the managed markers, if both are present in order: the
/// block begins at the last start marker that an end marker follows and ends
/// at the first end marker after it.
pub fn extract_managed(body: &str) -> (r: Option<&str>)
    ensures
        r is Some <==> markers_in_order(body@),
        match r {
            Some(x) => managed_content(body@) == Some(x@),
            None => managed_content(body@) is None,
        },
{
    let v = chars_of(body);
    let start_m = chars_of(MANAGED_START);
    let end_m = chars_of(MANAGED_END);
    let start_idx = match find_block_start(&v, &start_m, &end_m) {
        Some(i) => i,
        None => return None,
    };
    proof {
        lemma_marker_facts();
    }
    assert(start_m@.len() == start_m.len());
    assert(start_idx + start_m.len() <= v.len());
    let mut cs = start_idx + start_m.len();
    if cs < v.len() && v[cs] == '\n' {
        cs = cs + 1;
    }
    let ghost rest = body@.skip(cs as int);
    let e = match find_in_suffix(&v, &end_m, cs) {
        Some(e) => e,
        None => {
            proof {
                let j = choose|j: int| start_idx + 25 <= j && #[trigger] occurs_at(body@, MANAGED_END@, j);
                if j < cs {
                    assert(body@.subrange(j, j + 23)[0] == body@[j]);
                }
                lemma_occurs_skip(body@, MANAGED_END@, cs as int, j - cs);
            }
            return None;
        },
    };
    proof {
        lemma_first_index(rest, MANAGED_END@, e as int);
    }
    let mut stop = cs + e;
    if e > 0 && v[stop - 1] == '\n' {
        stop = stop - 1;
    }
    let out = body.substring_char(cs, stop);
    proof {
        let raw = rest.take(e as int);
        if raw.len() > 0 && raw.last() == '\n' {
            assert(raw.drop_last() =~= body@.subrange(cs as int, stop as int));
        } else {
            assert(raw =~= body@.subrange(cs as int, stop as int));
        }
    }
    Some(out)
}

/// `existing_body` with its managed block replaced by freshly wrapped
/// `new_content`; everything outside the block is kept. `None` for a body
/// without both markers in order (a legacy body).
pub fn replace_managed(existing_body: &str, new_content: &str) -> (r: Option<String>)
    ensures
        r is Some <==> markers_in_order(existing_body@),
        match r {
            Some(x) => managed_replaced(existing_body@, new_content@) == Some(x@),
            None => managed_replaced(existing_body@, new_content@) is None,
        },
{
    let v = chars_of(existing_body);
    let start_m = chars_of(MANAGED_START);
    let end_m = chars_of(MANAGED_END);
    let start_idx = match find_block_start(&v, &start_m, &end_m) {
        Some(i) => i,
        None => return None,
    };
    proof {
        lemma_marker_facts();
    }
    assert(start_m@.len() == start_m.len());
    assert(start_idx + start_m.len() <= v.len());
    let after_start = start_idx + start_m.len();
    let ghost rest = existing_body@.skip(after_start as int);
    let e = match find_in_suffix(&v, &end_m, after_start) {
        Some(e) => e,
        None => {
            proof {
                let j = choose|j: int| start_idx + 25 <= j && #[trigger] occurs_at(existing_body@, MANAGED_END@, j);
                lemma_occurs_skip(existing_body@, MANAGED_END@, after_start as int, j - after_start);
            }
            return None;
        },
    };
    proof {
        lemma_first_index(rest, MANAGED_END@, e as int);
    }
    let absolute_end = after_start + e + end_m.len();
    let mut out = string_of_range(&v, 0, start_idx);
    let w = wrap(new_content);
    push_str(&mut out, w.as_str());
    push_range(&mut out, &v, absolute_end, v.len());
    assert(v@.subrange(0, start_idx as int) =~= existing_body@.take(start_idx as int));
    assert(v@.subrange(absolute_end as int, v.len() as int) =~= existing_body@.skip(
        absolute_end as int,
    ));
    Some(out)
}

} // verus!
