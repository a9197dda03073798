//! PR/MR description templates and stack breadcrumbs.
//!
//! A template may use the placeholders `{{description}}`, `{{stack_name}}`,
//! `{{commit_sha}}` and `{{title}}`. Breadcrumbs are a block, delimited by
//! HTML-comment markers, that lists the entries of a stack and links to the
//! neighbours of the current one.
use vstd::prelude::*;
use crate::text::{
    chars_of, contains, dec, dec_string, find, first_index, first_occurrence, join, join_strings,
    lemma_first_exists, lemma_first_index, lemma_occurs_concat_back_left, lemma_occurs_concat_back_right, lemma_occurs_concat_left,
    occurs_at, push_char, push_str, replace_all, replace_all_exec, str_eq,
    string_of, views,
};

verus! {

/// Values substituted into a template.
pub struct TemplateContext<'a> {
    pub description: Option<&'a str>,
    pub stack_name: &'a str,
    pub commit_sha: &'a str,
    pub title: &'a str,
}

/// The description text substituted for `{{description}}` (empty when absent).
pub open spec fn description_text(d: Option<&str>) -> Seq<char> {
    match d {
        Some(s) => s@,
        None => seq![],
    }
}

/// The template with every placeholder replaced, in the order description,
/// stack name, commit SHA, title.
pub open spec fn rendered(
    template: Seq<char>,
    description: Seq<char>,
    stack_name: Seq<char>,
    commit_sha: Seq<char>,
    title: Seq<char>,
) -> Seq<char> {
    replace_all(
        replace_all(
            replace_all(replace_all(template, "{{description}}"@, description), "{{stack_name}}"@, stack_name),
            "{{commit_sha}}"@,
            commit_sha,
        ),
        "{{title}}"@,
        title,
    )
}

/// Renders a template with the given context.
pub fn render_template(template: &str, ctx: &TemplateContext) -> (r: String)
    ensures
        r@ == rendered(
            template@,
            description_text(ctx.description),
            ctx.stack_name@,
            ctx.commit_sha@,
            ctx.title@,
        ),
{
    proof {
        reveal_strlit("{{description}}");
        reveal_strlit("{{stack_name}}");
        reveal_strlit("{{commit_sha}}");
        reveal_strlit("{{title}}");
    }
    let description: &str = match ctx.description {
        Some(d) => d,
        None => "",
    };
    proof {
        reveal_strlit("");
    }
    assert(description@ == description_text(ctx.description));
    let t = chars_of(template);
    let a = replace_all_exec(&t, &chars_of("{{description}}"), &chars_of(description));
    let b = replace_all_exec(&a, &chars_of("{{stack_name}}"), &chars_of(ctx.stack_name));
    let c = replace_all_exec(&b, &chars_of("{{commit_sha}}"), &chars_of(ctx.commit_sha));
    let d = replace_all_exec(&c, &chars_of("{{title}}"), &chars_of(ctx.title));
    string_of(&d)
}

// --- Stack breadcrumb support ---

/// Start marker of the breadcrumb block.
pub const BREADCRUMBS_START: &'static str = "<!-- gg:breadcrumbs:start -->";

/// End marker of the breadcrumb block.
pub const BREADCRUMBS_END: &'static str = "<!-- gg:breadcrumbs:end -->";

/// One entry of a stack, as shown in breadcrumbs.
pub struct BreadcrumbEntry {
    pub title: String,
    pub pr_number: Option<u64>,
    pub pr_url: Option<String>,
}

/// The navigation link to an entry: `[PR #12](url)`, `PR #12`, or nothing
/// when the entry has no PR/MR number.
pub open spec fn pr_link(e: BreadcrumbEntry, label: Seq<char>, prefix: Seq<char>) -> Option<
    Seq<char>,
> {
    match (e.pr_number, e.pr_url) {
        (Some(n), Some(u)) => Some(
            seq!['['] + label + seq![' '] + prefix + dec(n as nat) + "]("@ + u@ + seq![')'],
        ),
        (Some(n), None) => Some(label + seq![' '] + prefix + dec(n as nat)),
        _ => None,
    }
}

/// The PR/MR reference after an entry's title in the listing.
pub open spec fn pr_ref(e: BreadcrumbEntry, prefix: Seq<char>) -> Seq<char> {
    match (e.pr_number, e.pr_url) {
        (Some(n), Some(u)) => " — ["@ + prefix + dec(n as nat) + "]("@ + u@ + seq![')'],
        (Some(n), None) => " — "@ + prefix + dec(n as nat),
        _ => seq![],
    }
}

/// The navigation line, from the links to the previous and next entries.
pub open spec fn nav_line(prev: Option<Seq<char>>, next: Option<Seq<char>>) -> Seq<char> {
    match (prev, next) {
        (Some(p), Some(n)) => p + seq![' '] + "←\u{a0}THIS\u{a0}→"@ + seq![' '] + n,
        (Some(p), None) => p + " ←\u{a0}THIS (top)"@,
        (None, Some(n)) => "THIS (bottom)\u{a0}→ "@ + n,
        (None, None) => "THIS (only entry)"@,
    }
}

/// The listing line of entry `i` (0-based); the current entry is marked.
pub open spec fn entry_line(i: int, e: BreadcrumbEntry, current: int, prefix: Seq<char>) -> Seq<
    char,
> {
    dec((i + 1) as nat) + ". "@ + e.title@ + pr_ref(e, prefix) + (if i == current {
        " **⮜**"@
    } else {
        seq![]
    })
}

/// The heading line: stack name and 1-based position out of the total.
pub open spec fn header_line(stack_name: Seq<char>, position: nat, total: nat) -> Seq<char> {
    "**Stack:** `"@ + stack_name + "` — "@ + dec(position) + seq!['/'] + dec(total) + seq!['\n']
}

/// The lines of the breadcrumb block for entry `current` of `entries`.
pub open spec fn breadcrumb_lines(
    stack_name: Seq<char>,
    entries: Seq<BreadcrumbEntry>,
    current: int,
    label: Seq<char>,
    prefix: Seq<char>,
) -> Seq<Seq<char>> {
    let prev = if current > 0 {
        pr_link(entries[current - 1], label, prefix)
    } else {
        None
    };
    let next = if current + 1 < entries.len() {
        pr_link(entries[current + 1], label, prefix)
    } else {
        None
    };
    seq![
        BREADCRUMBS_START@,
        header_line(stack_name, (current + 1) as nat, entries.len()),
        nav_line(prev, next),
        seq![],
    ] + Seq::new(entries.len(), |i: int| entry_line(i, entries[i], current, prefix)) + seq![
        BREADCRUMBS_END@,
    ]
}

/// The breadcrumb block: its lines joined by newlines.
pub open spec fn breadcrumb_block(
    stack_name: Seq<char>,
    entries: Seq<BreadcrumbEntry>,
    current: int,
    label: Seq<char>,
    prefix: Seq<char>,
) -> Seq<char> {
    join(breadcrumb_lines(stack_name, entries, current, label, prefix), seq!['\n'])
}

/// Formats the navigation link to an entry.
pub fn format_pr_link(entry: &BreadcrumbEntry, pr_label: &str, pr_prefix: &str) -> (r: Option<
    String,
>)
    ensures
        match r {
            Some(s) => pr_link(*entry, pr_label@, pr_prefix@) == Some(s@),
            None => pr_link(*entry, pr_label@, pr_prefix@) is None,
        },
{
    match (&entry.pr_number, &entry.pr_url) {
        (Some(num), Some(url)) => {
            let mut s = String::new();
            push_char(&mut s, '[');
            push_str(&mut s, pr_label);
            push_char(&mut s, ' ');
            push_str(&mut s, pr_prefix);
            let d = dec_string(*num);
            push_str(&mut s, d.as_str());
            push_str(&mut s, "](");
            push_str(&mut s, url.as_str());
            push_char(&mut s, ')');
            proof {
                assert(s@ =~= seq!['['] + pr_label@ + seq![' '] + pr_prefix@ + dec(*num as nat)
                    + "]("@ + url@ + seq![')']);
            }
            Some(s)
        },
        (Some(num), None) => {
            let mut s = String::new();
            push_str(&mut s, pr_label);
            push_char(&mut s, ' ');
            push_str(&mut s, pr_prefix);
            let d = dec_string(*num);
            push_str(&mut s, d.as_str());
            proof {
                assert(s@ =~= pr_label@ + seq![' '] + pr_prefix@ + dec(*num as nat));
            }
            Some(s)
        },
        _ => None,
    }
}

fn format_entry_line(i: usize, entry: &BreadcrumbEntry, current_index: usize, pr_prefix: &str) -> (r:
    String)
    requires
        i < usize::MAX,
    ensures
        r@ == entry_line(i as int, *entry, current_index as int, pr_prefix@),
{
    let pos = dec_string((i + 1) as u64);
    let mut s = String::new();
    push_str(&mut s, pos.as_str());
    push_str(&mut s, ". ");
    push_str(&mut s, entry.title.as_str());
    let ghost before_ref = s@;
    match (&entry.pr_number, &entry.pr_url) {
        (Some(num), Some(url)) => {
            push_str(&mut s, " — [");
            push_str(&mut s, pr_prefix);
            let d = dec_string(*num);
            push_str(&mut s, d.as_str());
            push_str(&mut s, "](");
            push_str(&mut s, url.as_str());
            push_char(&mut s, ')');
        },
        (Some(num), None) => {
            push_str(&mut s, " — ");
            push_str(&mut s, pr_prefix);
            let d = dec_string(*num);
            push_str(&mut s, d.as_str());
        },
        _ => {},
    }
    assert(s@ =~= before_ref + pr_ref(*entry, pr_prefix@));
    if i == current_index {
        push_str(&mut s, " **⮜**");
    }
    proof {
        let marker: Seq<char> = if i == current_index {
            " **⮜**"@
        } else {
            seq![]
        };
        assert(s@ =~= dec((i + 1) as nat) + ". "@ + entry.title@ + pr_ref(*entry, pr_prefix@)
            + marker);
    }
    s
}

/// Renders the breadcrumb block for entry `current_index` (0-based) of a
/// stack whose `entries` are ordered bottom to top. `pr_label` is "PR" or
/// "MR", `pr_prefix` is "#" or "!".
pub fn render_breadcrumbs(
    stack_name: &str,
    entries: &[BreadcrumbEntry],
    current_index: usize,
    pr_label: &str,
    pr_prefix: &str,
) -> (r: String)
    requires
        current_index <= entries@.len(),
        current_index < usize::MAX,
    ensures
        r@ == breadcrumb_block(
            stack_name@,
            entries@,
            current_index as int,
            pr_label@,
            pr_prefix@,
        ),
{
    let total = entries.len();
    let position = current_index + 1;
    let mut lines: Vec<String> = Vec::new();
    lines.push(String::from_str(BREADCRUMBS_START));
    let mut header = String::new();
    push_str(&mut header, "**Stack:** `");
    push_str(&mut header, stack_name);
    push_str(&mut header, "` — ");
    let p = dec_string(position as u64);
    push_str(&mut header, p.as_str());
    push_char(&mut header, '/');
    let t = dec_string(total as u64);
    push_str(&mut header, t.as_str());
    push_char(&mut header, '\n');
    assert(header@ =~= header_line(stack_name@, position as nat, total as nat));
    lines.push(header);
    let prev = if current_index > 0 {
        format_pr_link(&entries[current_index - 1], pr_label, pr_prefix)
    } else {
        None
    };
    let next = if current_index + 1 < total {
        format_pr_link(&entries[current_index + 1], pr_label, pr_prefix)
    } else {
        None
    };
    let ghost prev_v: Option<Seq<char>> = match &prev {
        Some(p) => Some(p@),
        None => None,
    };
    let ghost next_v: Option<Seq<char>> = match &next {
        Some(n) => Some(n@),
        None => None,
    };
    let mut nav = String::new();
    match (prev, next) {
        (Some(p), Some(n)) => {
            push_str(&mut nav, p.as_str());
            push_char(&mut nav, ' ');
            push_str(&mut nav, "←\u{a0}THIS\u{a0}→");
            push_char(&mut nav, ' ');
            push_str(&mut nav, n.as_str());
        },
        (Some(p), None) => {
            push_str(&mut nav, p.as_str());
            push_str(&mut nav, " ←\u{a0}THIS (top)");
        },
        (None, Some(n)) => {
            push_str(&mut nav, "THIS (bottom)\u{a0}→ ");
            push_str(&mut nav, n.as_str());
        },
        (None, None) => {
            push_str(&mut nav, "THIS (only entry)");
        },
    }
    assert(nav@ =~= nav_line(prev_v, next_v));
    lines.push(nav);
    lines.push(String::new());
    let ghost head: Seq<Seq<char>> = views(lines@);
    let mut i: usize = 0;
    while i < total
        invariant
            total == entries@.len(),
            i <= total,
            current_index <= total,
            head.len() == 4,
            views(lines@) == head + Seq::new(
                i as nat,
                |k: int| entry_line(k, entries@[k], current_index as int, pr_prefix@),
            ),
        decreases total - i,
    {
        let line = format_entry_line(i, &entries[i], current_index, pr_prefix);
        let ghost old_views = views(lines@);
        let ghost line_v = line@;
        lines.push(line);
        assert(views(lines@) =~= old_views.push(line_v));
        i = i + 1;
        assert(views(lines@) =~= head + Seq::new(
            i as nat,
            |k: int| entry_line(k, entries@[k], current_index as int, pr_prefix@),
        ));
    }
    let ghost body_lines = views(lines@);
    lines.push(String::from_str(BREADCRUMBS_END));
    proof {
        assert(views(lines@) =~= body_lines.push(BREADCRUMBS_END@));
        assert(views(lines@) =~= breadcrumb_lines(
            stack_name@,
            entries@,
            current_index as int,
            pr_label@,
            pr_prefix@,
        ));
    }
    proof {
        reveal_strlit("\n");
    }
    let r = join_strings(&lines, "\n");
    assert("\n"@ =~= seq!['\n']);
    r
}

/// The text before the first start marker and after the first end marker,
/// when both markers occur and the end marker does not come first.
pub open spec fn outside_markers(body: Seq<char>) -> Option<(Seq<char>, Seq<char>)> {
    if contains(body, BREADCRUMBS_START@) && contains(body, BREADCRUMBS_END@) && first_index(
        body,
        BREADCRUMBS_END@,
    ) >= first_index(body, BREADCRUMBS_START@) {
        Some(
            (
                body.take(first_index(body, BREADCRUMBS_START@)),
                body.skip(first_index(body, BREADCRUMBS_END@) + BREADCRUMBS_END@.len()),
            ),
        )
    } else {
        None
    }
}

/// The separator put between a body and an appended breadcrumb block.
pub open spec fn append_separator(body: Seq<char>) -> Seq<char> {
    if body.len() == 0 || body.last() == '\n' {
        "\n---\n\n"@
    } else {
        "\n\n---\n\n"@
    }
}

/// The body after splicing in `block`, and whether it changed: the marked
/// region is replaced when present, otherwise the block is appended after a
/// horizontal rule.
pub open spec fn spliced(body: Seq<char>, block: Seq<char>) -> (Seq<char>, bool) {
    match outside_markers(body) {
        Some((before, after)) => (before + block + after, before + block + after != body),
        None => (body + append_separator(body) + block + seq!['\n'], true),
    }
}

/// Splicing always leaves the block in the body, and reports a change
/// exactly when the body it returns differs from the one it was given.
pub proof fn lemma_splice_contains_block(body: Seq<char>, block: Seq<char>)
    ensures
        crate::text::contains(spliced(body, block).0, block),
        spliced(body, block).1 == (spliced(body, block).0 != body),
{
    match outside_markers(body) {
        Some((before, after)) => {
            let r = before + block + after;
            assert(r.subrange(before.len() as int, before.len() + block.len() as int) =~= block);
            assert(crate::text::occurs_at(r, block, before.len() as int));
        },
        None => {
            let x = body + append_separator(body);
            let r = x + block + seq!['\n'];
            assert(r.subrange(x.len() as int, x.len() + block.len() as int) =~= block);
            assert(crate::text::occurs_at(r, block, x.len() as int));
            assert(r.len() > body.len());
        },
    }
}

/// Finds the text before the start marker and after the end marker.
pub fn extract_outside_markers(body: &str) -> (r: Option<(&str, &str)>)
    ensures
        match r {
            Some((b, a)) => outside_markers(body@) == Some((b@, a@)),
            None => outside_markers(body@) is None,
        },
{
    let v = chars_of(body);
    let sm = chars_of(BREADCRUMBS_START);
    let em = chars_of(BREADCRUMBS_END);
    let start_idx = match find(&v, &sm) {
        Some(i) => i,
        None => return None,
    };
    let end_marker_start = match find(&v, &em) {
        Some(i) => i,
        None => return None,
    };
    proof {
        lemma_first_index(body@, BREADCRUMBS_START@, start_idx as int);
        lemma_first_index(body@, BREADCRUMBS_END@, end_marker_start as int);
    }
    if end_marker_start < start_idx {
        return None;
    }
    assert(end_marker_start + em.len() <= v.len());
    let after_end = end_marker_start + em.len();
    let before = body.substring_char(0, start_idx);
    let after = body.substring_char(after_end, v.len());
    assert(before@ =~= body@.take(start_idx as int));
    assert(after@ =~= body@.skip(after_end as int));
    Some((before, after))
}

/// Splices a breadcrumb block into a PR/MR description. Returns the new
/// body and whether it differs from the old one.
pub fn splice_breadcrumbs(body: &str, breadcrumb_block: &str) -> (r: (String, bool))
    ensures
        (r.0@, r.1) == spliced(body@, breadcrumb_block@),
{
    match extract_outside_markers(body) {
        Some((before, after)) => {
            let mut new_body = String::new();
            push_str(&mut new_body, before);
            push_str(&mut new_body, breadcrumb_block);
            push_str(&mut new_body, after);
            let changed = !str_eq(new_body.as_str(), body);
            (new_body, changed)
        },
        None => {
            let v = chars_of(body);
            let separator = if v.len() == 0 || v[v.len() - 1] == '\n' {
                "\n---\n\n"
            } else {
                "\n\n---\n\n"
            };
            let mut new_body = String::new();
            push_str(&mut new_body, body);
            push_str(&mut new_body, separator);
            push_str(&mut new_body, breadcrumb_block);
            push_char(&mut new_body, '\n');
            assert(new_body@ =~= body@ + append_separator(body@) + breadcrumb_block@ + seq!['\n']);
            (new_body, true)
        },
    }
}

/// Facts about the breadcrumb markers that the splice law uses.
proof fn lemma_breadcrumb_marker_facts()
    ensures
        BREADCRUMBS_START@.len() == 29,
        BREADCRUMBS_END@.len() == 27,
        BREADCRUMBS_START@[0] == '<',
        BREADCRUMBS_END@[0] == '<',
        forall|k: int| 0 < k < 29 ==> BREADCRUMBS_START@[k] != '<',
        forall|k: int| 0 < k < 27 ==> BREADCRUMBS_END@[k] != '<',
        forall|k: int| 0 <= k < 29 ==> BREADCRUMBS_START@[k] != '\n',
        forall|k: int| 0 <= k < 27 ==> BREADCRUMBS_END@[k] != '\n',
        BREADCRUMBS_START@[20] != BREADCRUMBS_END@[20],
{
    reveal_strlit("<!-- gg:breadcrumbs:start -->");
    reveal_strlit("<!-- gg:breadcrumbs:end -->");
}

/// A pattern whose only `<` is its first character cannot occur over a `<`
/// of `s` at any other offset.
proof fn lemma_no_occ_over_lt(s: Seq<char>, p: Seq<char>, q: int, r: int)
    requires
        forall|k: int| 0 < k < p.len() ==> p[k] != '<',
        0 <= r < s.len(),
        s[r] == '<',
        q < r < q + p.len(),
    ensures
        !occurs_at(s, p, q),
{
    if occurs_at(s, p, q) {
        assert(s.subrange(q, q + p.len())[r - q] == s[r]);
    }
}

/// A pattern starting with `<` cannot occur where `s` has another character.
proof fn lemma_no_occ_without_lt(s: Seq<char>, p: Seq<char>, q: int)
    requires
        p.len() > 0,
        p[0] == '<',
        0 <= q < s.len(),
        s[q] != '<',
    ensures
        !occurs_at(s, p, q),
{
    if occurs_at(s, p, q) {
        assert(s.subrange(q, q + p.len())[0] == s[q]);
    }
}

/// In `pre + START + inner + END + post`, where `pre` holds no marker and
/// `inner` no end marker, the markers found are the block's own.
proof fn lemma_block_markers(pre: Seq<char>, inner: Seq<char>, post: Seq<char>)
    requires
        !contains(pre, BREADCRUMBS_START@),
        !contains(pre, BREADCRUMBS_END@),
        !contains(inner, BREADCRUMBS_END@),
    ensures
        outside_markers(pre + (BREADCRUMBS_START@ + inner + BREADCRUMBS_END@) + post) == Some((pre, post)),
{
    lemma_breadcrumb_marker_facts();
    let st = BREADCRUMBS_START@;
    let en = BREADCRUMBS_END@;
    let block = st + inner + en;
    let s = pre + block + post;
    let a = pre.len() as int;
    let e = a + 29 + inner.len();
    assert(s =~= pre + (block + post));
    assert(s[a] == '<');
    assert(s[e] == '<');
    // The start marker first occurs at `a`.
    assert(s.subrange(a, a + 29) =~= st);
    assert(occurs_at(s, st, a));
    assert forall|q: int| 0 <= q < a implies !occurs_at(s, st, q) by {
        if occurs_at(s, st, q) {
            if q + 29 <= a {
                lemma_occurs_concat_back_left(pre, block + post, st, q);
            } else {
                lemma_no_occ_over_lt(s, st, q, a);
            }
        }
    }
    assert(first_occurrence(s, st, a));
    lemma_first_index(s, st, a);
    // The end marker first occurs at `e`.
    assert(s.subrange(e, e + 27) =~= en);
    assert(occurs_at(s, en, e));
    assert forall|q: int| 0 <= q < e implies !occurs_at(s, en, q) by {
        if occurs_at(s, en, q) {
            if q < a {
                if q + 27 <= a {
                    lemma_occurs_concat_back_left(pre, block + post, en, q);
                } else {
                    lemma_no_occ_over_lt(s, en, q, a);
                }
            } else if q == a {
                assert(s.subrange(q, q + 27)[20] == s[a + 20]);
                assert(s[a + 20] == st[20]);
            } else if q < a + 29 {
                assert(s[q] == st[q - a]);
                lemma_no_occ_without_lt(s, en, q);
            } else if q + 27 <= e {
                let t = inner + en + post;
                assert(s =~= (pre + st) + t);
                lemma_occurs_concat_back_right(pre + st, t, en, q);
                assert(inner + en + post =~= inner + (en + post));
                lemma_occurs_concat_back_left(inner, en + post, en, q - a - 29);
            } else {
                lemma_no_occ_over_lt(s, en, q, e);
            }
        }
    }
    assert(first_occurrence(s, en, e));
    lemma_first_index(s, en, e);
    assert(contains(s, st));
    assert(contains(s, en));
    assert(s.take(a) =~= pre);
    assert(s.skip(e + 27) =~= post);
}

/// Splicing keeps the user's text: after a breadcrumb block is spliced in,
/// the text around the marked region is what surrounded the old region,
/// or, when there was none, the whole old body and the separator before the
/// appended block (and the final newline after it). The block is
/// `START + inner + END` with no end marker in `inner`; the body either has
/// a marked region already or holds no marker at all.
pub proof fn lemma_splice_keeps_text(body: Seq<char>, inner: Seq<char>)
    requires
        !contains(inner, BREADCRUMBS_END@),
        outside_markers(body) is Some || (!contains(body, BREADCRUMBS_START@) && !contains(body, BREADCRUMBS_END@)),
    ensures
        ({
            let block = BREADCRUMBS_START@ + inner + BREADCRUMBS_END@;
            let once = spliced(body, block).0;
            outside_markers(once) == match outside_markers(body) {
                Some((before, after)) => Some((before, after)),
                None => Some((body + append_separator(body), seq!['\n'])),
            }
        }),
{
    lemma_breadcrumb_marker_facts();
    let st = BREADCRUMBS_START@;
    let en = BREADCRUMBS_END@;
    let block = st + inner + en;
    match outside_markers(body) {
        Some((before, after)) => {
            let i = first_index(body, st);
            let j = first_index(body, en);
            let wi = choose|q: int| occurs_at(body, st, q);
            let wj = choose|q: int| occurs_at(body, en, q);
            lemma_first_exists(body, st, wi);
            lemma_first_exists(body, en, wj);
            assert(before =~= body.take(i));
            assert(body =~= before + body.skip(i));
            assert forall|q: int| !occurs_at(before, st, q) by {
                if occurs_at(before, st, q) {
                    lemma_occurs_concat_left(before, body.skip(i), st, q);
                }
            }
            assert forall|q: int| !occurs_at(before, en, q) by {
                if occurs_at(before, en, q) {
                    lemma_occurs_concat_left(before, body.skip(i), en, q);
                }
            }
            lemma_block_markers(before, inner, after);
        },
        None => {
            let sep = append_separator(body);
            reveal_strlit("\n---\n\n");
            reveal_strlit("\n\n---\n\n");
            assert(sep[0] == '\n');
            assert(forall|k: int| 0 <= k < sep.len() ==> sep[k] != '<');
            let pre = body + sep;
            assert forall|q: int| !occurs_at(pre, st, q) && !occurs_at(pre, en, q) by {
                if 0 <= q < body.len() {
                    if occurs_at(pre, st, q) {
                        if q + 29 <= body.len() {
                            lemma_occurs_concat_back_left(body, sep, st, q);
                        } else {
                            assert(pre.subrange(q, q + 29)[body.len() - q] == pre[body.len() as int]);
                        }
                    }
                    if occurs_at(pre, en, q) {
                        if q + 27 <= body.len() {
                            lemma_occurs_concat_back_left(body, sep, en, q);
                        } else {
                            assert(pre.subrange(q, q + 27)[body.len() - q] == pre[body.len() as int]);
                        }
                    }
                } else if body.len() <= q < pre.len() {
                    assert(pre[q] == sep[q - body.len()]);
                    lemma_no_occ_without_lt(pre, st, q);
                    lemma_no_occ_without_lt(pre, en, q);
                }
            }
            lemma_block_markers(pre, inner, seq!['\n']);
            assert(body + sep + block + seq!['\n'] =~= pre + block + seq!['\n']);
        },
    }
}

/// Splicing is idempotent: splicing a breadcrumb block into a body that
/// already went through the same splice changes nothing, and is reported
/// as unchanged (under the conditions of `lemma_splice_keeps_text`).
pub proof fn lemma_splice_idempotent(body: Seq<char>, inner: Seq<char>)
    requires
        !contains(inner, BREADCRUMBS_END@),
        outside_markers(body) is Some || (!contains(body, BREADCRUMBS_START@) && !contains(body, BREADCRUMBS_END@)),
    ensures
        ({
            let block = BREADCRUMBS_START@ + inner + BREADCRUMBS_END@;
            let once = spliced(body, block).0;
            spliced(once, block) == (once, false)
        }),
{
    lemma_splice_keeps_text(body, inner);
    let block = BREADCRUMBS_START@ + inner + BREADCRUMBS_END@;
    match outside_markers(body) {
        Some((before, after)) => {},
        None => {
            assert(body + append_separator(body) + block + seq!['\n'] =~= (body + append_separator(body)) + block
                + seq!['\n']);
        },
    }
}

} // verus!
