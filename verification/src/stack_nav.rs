//! The navigation comment that `gg sync` posts on each PR/MR of a stack.
use vstd::prelude::*;
use crate::text::{dec, dec_string, ends_with, push_char, push_str};

verus! {

/// Hidden marker at the end of every navigation comment.
pub const MARKER: &'static str = "<!-- gg:stack-nav -->";

/// One entry of the navigation list.
#[derive(Debug, Clone, PartialEq, Eq)]
pub struct StackNavEntry {
    pub pr_number: u64,
    pub is_current: bool,
}

/// The list line of one entry; the current entry is pointed at.
pub open spec fn nav_item(e: StackNavEntry, prefix: Seq<char>) -> Seq<char> {
    (if e.is_current {
        "- 👉 "@
    } else {
        "- "@
    }) + prefix + dec(e.pr_number as nat) + seq!['\n']
}

/// The list lines of all entries, in order.
pub open spec fn nav_items(entries: Seq<StackNavEntry>, prefix: Seq<char>) -> Seq<char>
    decreases entries.len(),
{
    if entries.len() == 0 {
        seq![]
    } else {
        nav_items(entries.drop_last(), prefix) + nav_item(entries.last(), prefix)
    }
}

/// The body of the navigation comment.
pub open spec fn nav_body(stack_name: Seq<char>, entries: Seq<StackNavEntry>, prefix: Seq<char>) -> Seq<char> {
    "This change is part of the `"@ + stack_name + "` stack:\n"@ + seq!['\n'] + nav_items(entries, prefix)
        + seq!['\n'] + "<sub>Managed by [git-gud](https://github.com/mrmans0n/git-gud).</sub>\n"@
        + MARKER@
}

/// Every navigation comment ends with the marker, whatever the stack, its
/// entries and the number prefix: that is how a managed comment is found
/// again.
pub proof fn lemma_body_ends_with_marker(stack_name: Seq<char>, entries: Seq<StackNavEntry>, prefix: Seq<char>)
    ensures
        ends_with(nav_body(stack_name, entries, prefix), MARKER@),
{
    let b = nav_body(stack_name, entries, prefix);
    let m = MARKER@;
    assert(b.subrange(b.len() - m.len(), b.len() as int) =~= m);
}

/// Renders the navigation comment for a stack whose `entries` are ordered
/// bottom to top; `number_prefix` is "#" for GitHub and "!" for GitLab.
pub fn render(stack_name: &str, entries: &[StackNavEntry], number_prefix: &str) -> (r: String)
    ensures
        r@ == nav_body(stack_name@, entries@, number_prefix@),
{
    let mut out = String::new();
    push_str(&mut out, "This change is part of the `");
    push_str(&mut out, stack_name);
    push_str(&mut out, "` stack:\n");
    push_char(&mut out, '\n');
    let ghost head = out@;
    let mut i: usize = 0;
    while i < entries.len()
        invariant
            i <= entries@.len(),
            out@ == head + nav_items(entries@.take(i as int), number_prefix@),
        decreases entries@.len() - i,
    {
        let e = &entries[i];
        if e.is_current {
            push_str(&mut out, "- 👉 ");
        } else {
            push_str(&mut out, "- ");
        }
        push_str(&mut out, number_prefix);
        let d = dec_string(e.pr_number);
        push_str(&mut out, d.as_str());
        push_char(&mut out, '\n');
        proof {
            assert(entries@.take(i + 1).drop_last() =~= entries@.take(i as int));
            assert(entries@.take(i + 1).last() == entries@[i as int]);
        }
        i = i + 1;
        assert(out@ =~= head + nav_items(entries@.take(i as int), number_prefix@));
    }
    assert(entries@.take(entries@.len() as int) =~= entries@);
    push_char(&mut out, '\n');
    push_str(&mut out, "<sub>Managed by [git-gud](https://github.com/mrmans0n/git-gud).</sub>\n");
    push_str(&mut out, MARKER);
    out
}

} // verus!
