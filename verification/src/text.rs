//! Character-sequence toolkit shared by the formatting and parsing modules.
//!
//! Strings are modelled by their `Seq<char>` view. The spec functions here
//! give the meaning of the usual `str` operations (searching, replacing,
//! trimming, line splitting, decimal formatting) and the executable
//! functions implement them with loops that Verus checks.
use vstd::prelude::*;

verus! {

// ---------------------------------------------------------------------------
// Specifications
// ---------------------------------------------------------------------------

/// `p` occurs in `s` starting at index `i`.
pub open spec fn occurs_at(s: Seq<char>, p: Seq<char>, i: int) -> bool {
    0 <= i && i + p.len() <= s.len() && s.subrange(i, i + p.len()) == p
}

/// `p` occurs somewhere in `s`.
pub open spec fn contains(s: Seq<char>, p: Seq<char>) -> bool {
    exists|i: int| occurs_at(s, p, i)
}

/// `s` begins with `p`.
pub open spec fn starts_with(s: Seq<char>, p: Seq<char>) -> bool {
    occurs_at(s, p, 0)
}

/// `s` ends with `p`.
pub open spec fn ends_with(s: Seq<char>, p: Seq<char>) -> bool {
    p.len() <= s.len() && occurs_at(s, p, s.len() - p.len())
}

/// `i` is the first index at which `p` occurs in `s`.
pub open spec fn first_occurrence(s: Seq<char>, p: Seq<char>, i: int) -> bool {
    occurs_at(s, p, i) && forall|j: int| 0 <= j < i ==> !occurs_at(s, p, j)
}

/// `i` is the last index at which `p` occurs in `s`.
pub open spec fn last_occurrence(s: Seq<char>, p: Seq<char>, i: int) -> bool {
    occurs_at(s, p, i) && forall|j: int| i < j ==> !occurs_at(s, p, j)
}

/// Left-to-right replacement of every non-overlapping occurrence of the
/// non-empty pattern `p` by `r` (the meaning of `str::replace`).
pub open spec fn replace_all(s: Seq<char>, p: Seq<char>, r: Seq<char>) -> Seq<char>
    decreases s.len(),
{
    if p.len() == 0 || s.len() < p.len() {
        s
    } else if starts_with(s, p) {
        r + replace_all(s.skip(p.len() as int), p, r)
    } else {
        seq![s[0]] + replace_all(s.skip(1), p, r)
    }
}

/// The Unicode `White_Space` property (the meaning of `char::is_whitespace`).
pub open spec fn is_ws(c: char) -> bool {
    ||| c == ' '
    ||| ('\t' <= c && c <= '\r')
    ||| c == '\u{85}'
    ||| c == '\u{a0}'
    ||| c == '\u{1680}'
    ||| ('\u{2000}' <= c && c <= '\u{200a}')
    ||| c == '\u{2028}'
    ||| c == '\u{2029}'
    ||| c == '\u{202f}'
    ||| c == '\u{205f}'
    ||| c == '\u{3000}'
}

/// The Unicode general category `Cc` (the meaning of `char::is_control`).
pub open spec fn is_ctrl(c: char) -> bool {
    c <= '\u{1f}' || ('\u{7f}' <= c && c <= '\u{9f}')
}

/// `s` without its leading whitespace (`str::trim_start`).
pub open spec fn trim_start(s: Seq<char>) -> Seq<char>
    decreases s.len(),
{
    if s.len() > 0 && is_ws(s[0]) {
        trim_start(s.skip(1))
    } else {
        s
    }
}

/// `s` without its trailing whitespace (`str::trim_end`).
pub open spec fn trim_end(s: Seq<char>) -> Seq<char>
    decreases s.len(),
{
    if s.len() > 0 && is_ws(s.last()) {
        trim_end(s.drop_last())
    } else {
        s
    }
}

/// `s` without leading and trailing whitespace (`str::trim`).
pub open spec fn trim(s: Seq<char>) -> Seq<char> {
    trim_end(trim_start(s))
}

/// ASCII lowercase of one character (`char::to_ascii_lowercase`).
pub open spec fn ascii_lower(c: char) -> char {
    if 'A' <= c && c <= 'Z' {
        ((c as u32) + 32) as char
    } else {
        c
    }
}

/// ASCII lowercase of a sequence (`str::to_ascii_lowercase`).
pub open spec fn ascii_lower_seq(s: Seq<char>) -> Seq<char> {
    s.map_values(|c: char| ascii_lower(c))
}

/// Decimal digits of `n`, most significant first, without leading zeros.
pub open spec fn dec(n: nat) -> Seq<char>
    decreases n,
{
    if n < 10 {
        seq![digit(n)]
    } else {
        dec(n / 10) + seq![digit(n % 10)]
    }
}

/// The ASCII digit for `d < 10`.
pub open spec fn digit(d: nat) -> char {
    (('0' as u32) + d) as char
}

/// Number of UTF-8 bytes that encode `c` (`char::len_utf8`).
pub open spec fn char_utf8_len(c: char) -> nat {
    if (c as u32) < 0x80 {
        1
    } else if (c as u32) < 0x800 {
        2
    } else if (c as u32) < 0x10000 {
        3
    } else {
        4
    }
}

/// Number of UTF-8 bytes that encode `s` (`str::len`).
pub open spec fn utf8_len(s: Seq<char>) -> nat
    decreases s.len(),
{
    if s.len() == 0 {
        0
    } else {
        utf8_len(s.drop_last()) + char_utf8_len(s.last())
    }
}

/// Elements of `parts` separated by `sep` (`[..].join(sep)`).
pub open spec fn join(parts: Seq<Seq<char>>, sep: Seq<char>) -> Seq<char>
    decreases parts.len(),
{
    if parts.len() == 0 {
        seq![]
    } else if parts.len() == 1 {
        parts[0]
    } else {
        join(parts.drop_last(), sep) + sep + parts.last()
    }
}

/// The index of the first occurrence of `p` in `s` (meaningful when `contains(s, p)`).
pub open spec fn first_index(s: Seq<char>, p: Seq<char>) -> int {
    choose|i: int| first_occurrence(s, p, i)
}

/// The index of the last occurrence of `p` in `s` (meaningful when `contains(s, p)`).
pub open spec fn last_index(s: Seq<char>, p: Seq<char>) -> int {
    choose|i: int| last_occurrence(s, p, i)
}

/// No element of `p` equals `c`.
pub open spec fn lacks(p: Seq<char>, c: char) -> bool {
    forall|j: int| 0 <= j < p.len() ==> p[j] != c
}

// ---------------------------------------------------------------------------
// Lemmas
// ---------------------------------------------------------------------------

/// The first occurrence is unique, and `first_index` names it.
pub proof fn lemma_first_index(s: Seq<char>, p: Seq<char>, i: int)
    requires
        first_occurrence(s, p, i),
    ensures
        first_index(s, p) == i,
{
    let k = first_index(s, p);
    assert(first_occurrence(s, p, k));
}

/// A pattern that occurs has a first occurrence, which `first_index` names.
pub proof fn lemma_first_exists(s: Seq<char>, p: Seq<char>, i: int)
    requires
        occurs_at(s, p, i),
    ensures
        first_occurrence(s, p, first_index(s, p)),
    decreases i,
{
    if forall|j: int| 0 <= j < i ==> !occurs_at(s, p, j) {
        assert(first_occurrence(s, p, i));
    } else {
        let j = choose|j: int| 0 <= j < i && occurs_at(s, p, j);
        lemma_first_exists(s, p, j);
    }
}

/// The last occurrence is unique, and `last_index` names it.
pub proof fn lemma_last_index(s: Seq<char>, p: Seq<char>, i: int)
    requires
        last_occurrence(s, p, i),
    ensures
        last_index(s, p) == i,
{
    let k = last_index(s, p);
    assert(last_occurrence(s, p, k));
}

/// In `x + [c] + y`, a pattern without `c` occurs only inside `x` or inside `y`.
pub proof fn lemma_split_occ(x: Seq<char>, c: char, y: Seq<char>, p: Seq<char>, i: int)
    requires
        occurs_at(x + seq![c] + y, p, i),
        lacks(p, c),
        p.len() > 0,
    ensures
        (i + p.len() <= x.len() && occurs_at(x, p, i)) || (i >= x.len() + 1 && occurs_at(
            y,
            p,
            i - x.len() - 1,
        )),
{
    let s = x + seq![c] + y;
    if i + p.len() <= x.len() {
        assert(s =~= x + (seq![c] + y));
        lemma_occurs_concat_back_left(x, seq![c] + y, p, i);
    } else if i >= x.len() + 1 {
        lemma_occurs_concat_back_right(x + seq![c], y, p, i);
    } else {
        assert(s[x.len() as int] == c);
        lemma_occurs_avoids(s, p, i, x.len() as int);
    }
}

/// An occurrence inside the left operand of a concatenation.
pub proof fn lemma_occurs_concat_left(x: Seq<char>, y: Seq<char>, p: Seq<char>, i: int)
    requires
        occurs_at(x, p, i),
    ensures
        occurs_at(x + y, p, i),
{
    assert((x + y).subrange(i, i + p.len()) =~= x.subrange(i, i + p.len()));
}

/// An occurrence inside the right operand of a concatenation.
pub proof fn lemma_occurs_concat_right(x: Seq<char>, y: Seq<char>, p: Seq<char>, i: int)
    requires
        occurs_at(y, p, i),
    ensures
        occurs_at(x + y, p, x.len() + i),
{
    assert((x + y).subrange(x.len() + i, x.len() + i + p.len()) =~= y.subrange(i, i + p.len()));
}

/// An occurrence of `x + y` that lies within `x`.
pub proof fn lemma_occurs_concat_back_left(x: Seq<char>, y: Seq<char>, p: Seq<char>, i: int)
    requires
        occurs_at(x + y, p, i),
        i + p.len() <= x.len(),
    ensures
        occurs_at(x, p, i),
{
    assert((x + y).subrange(i, i + p.len()) =~= x.subrange(i, i + p.len()));
}

/// An occurrence of `x + y` that lies within `y`.
pub proof fn lemma_occurs_concat_back_right(x: Seq<char>, y: Seq<char>, p: Seq<char>, i: int)
    requires
        occurs_at(x + y, p, i),
        x.len() <= i,
    ensures
        occurs_at(y, p, i - x.len()),
{
    assert((x + y).subrange(i, i + p.len()) =~= y.subrange(i - x.len(), i - x.len() + p.len()));
}

/// Occurrences in a suffix are occurrences in the whole, shifted.
pub proof fn lemma_occurs_skip(s: Seq<char>, p: Seq<char>, k: int, j: int)
    requires
        0 <= k <= s.len(),
        0 <= j,
    ensures
        occurs_at(s.skip(k), p, j) == occurs_at(s, p, j + k),
{
    if j + p.len() <= s.len() - k {
        assert(s.skip(k).subrange(j, j + p.len()) =~= s.subrange(j + k, j + k + p.len()));
    }
}

/// If `p` has no `c` at any position, it cannot occur over a `c` in `s`.
pub proof fn lemma_occurs_avoids(s: Seq<char>, p: Seq<char>, i: int, k: int)
    requires
        i <= k < i + p.len(),
        0 <= k < s.len(),
        forall|j: int| 0 <= j < p.len() ==> p[j] != s[k],
    ensures
        !occurs_at(s, p, i),
{
    if occurs_at(s, p, i) {
        assert(s.subrange(i, i + p.len())[k - i] == s[k]);
    }
}

/// If the first character of `p` appears in `p` only at index 0, two
/// occurrences of `p` in `s` cannot overlap.
pub proof fn lemma_no_self_overlap(s: Seq<char>, p: Seq<char>, i: int, j: int)
    requires
        i < j < i + p.len(),
        forall|k: int| 0 < k < p.len() ==> #[trigger] p[k] != p[0],
    ensures
        !(occurs_at(s, p, i) && occurs_at(s, p, j)),
{
    if occurs_at(s, p, i) && occurs_at(s, p, j) {
        assert(s.subrange(j, j + p.len())[0] == s[j]);
        assert(s.subrange(i, i + p.len())[j - i] == s[j]);
    }
}

pub proof fn lemma_dec_len(n: nat)
    ensures
        dec(n).len() >= 1,
    decreases n,
{
    if n >= 10 {
        lemma_dec_len(n / 10);
    }
}

/// Every character of a decimal numeral is an ASCII digit.
pub proof fn lemma_dec_digits(n: nat)
    ensures
        forall|i: int| 0 <= i < dec(n).len() ==> 48 <= (#[trigger] dec(n)[i]) as int <= 57,
    decreases n,
{
    if n >= 10 {
        lemma_dec_digits(n / 10);
        let p = dec(n / 10);
        assert forall|i: int| 0 <= i < dec(n).len() implies 48 <= (#[trigger] dec(n)[i]) as int <= 57 by {
            if i < p.len() {
                assert(dec(n)[i] == p[i]);
            }
        }
    }
}

/// Distinct numbers have distinct numerals.
pub proof fn lemma_dec_injective(a: nat, b: nat)
    requires
        dec(a) == dec(b),
    ensures
        a == b,
    decreases a,
{
    if a >= 10 {
        lemma_dec_len(a / 10);
    }
    if b >= 10 {
        lemma_dec_len(b / 10);
    }
    if a >= 10 && b >= 10 {
        assert(dec(a).last() == digit(a % 10));
        assert(dec(b).last() == digit(b % 10));
        assert(digit(a % 10) as u32 == 48 + a % 10);
        assert(digit(b % 10) as u32 == 48 + b % 10);
        assert(dec(a).drop_last() =~= dec(a / 10));
        assert(dec(b).drop_last() =~= dec(b / 10));
        lemma_dec_injective(a / 10, b / 10);
        assert(a == 10 * (a / 10) + a % 10);
        assert(b == 10 * (b / 10) + b % 10);
    } else if a < 10 && b < 10 {
        assert(dec(a)[0] == digit(a));
        assert(dec(b)[0] == digit(b));
        assert(digit(a) as u32 == 48 + a);
        assert(digit(b) as u32 == 48 + b);
    } else if a < 10 {
        assert(dec(a).len() == 1);
        assert(dec(b).len() == dec(b / 10).len() + 1);
    } else {
        assert(dec(b).len() == 1);
        assert(dec(a).len() == dec(a / 10).len() + 1);
    }
}

pub proof fn lemma_utf8_len_concat(x: Seq<char>, y: Seq<char>)
    ensures
        utf8_len(x + y) == utf8_len(x) + utf8_len(y),
    decreases y.len(),
{
    if y.len() == 0 {
        assert(x + y =~= x);
    } else {
        assert((x + y).drop_last() =~= x + y.drop_last());
        lemma_utf8_len_concat(x, y.drop_last());
    }
}

pub proof fn lemma_utf8_len_take_mono(s: Seq<char>, i: int, j: int)
    requires
        0 <= i <= j <= s.len(),
    ensures
        utf8_len(s.take(i)) <= utf8_len(s.take(j)),
    decreases j - i,
{
    if i < j {
        assert(s.take(j).drop_last() =~= s.take(j - 1));
        lemma_utf8_len_take_mono(s, i, j - 1);
    }
}

// ---------------------------------------------------------------------------
// Executable helpers
// ---------------------------------------------------------------------------

/// `String::push`: appends one character at the end.
#[verifier::external_body]
pub(crate) fn push_char(s: &mut String, c: char)
    ensures
        final(s)@ == old(s)@.push(c),
{
    s.push(c);
}

/// The characters of `s`, in order.
pub fn chars_of(s: &str) -> (v: Vec<char>)
    ensures
        v@ == s@,
{
    let n = s.unicode_len();
    let mut v: Vec<char> = Vec::new();
    let mut i: usize = 0;
    while i < n
        invariant
            n == s@.len(),
            i <= n,
            v@ == s@.take(i as int),
        decreases n - i,
    {
        let c = s.get_char(i);
        v.push(c);
        i = i + 1;
        assert(v@ =~= s@.take(i as int));
    }
    assert(v@ =~= s@);
    v
}

/// Appends the characters `v[from..to]` to `out`.
pub fn push_range(out: &mut String, v: &Vec<char>, from: usize, to: usize)
    requires
        from <= to <= v.len(),
    ensures
        final(out)@ == old(out)@ + v@.subrange(from as int, to as int),
{
    let mut i = from;
    while i < to
        invariant
            from <= i <= to <= v.len(),
            out@ == old(out)@ + v@.subrange(from as int, i as int),
        decreases to - i,
    {
        push_char(out, v[i]);
        i = i + 1;
        assert(out@ =~= old(out)@ + v@.subrange(from as int, i as int));
    }
}

/// A `String` holding exactly the characters of `v`.
pub fn string_of(v: &Vec<char>) -> (s: String)
    ensures
        s@ == v@,
{
    let mut s = String::new();
    push_range(&mut s, v, 0, v.len());
    assert(v@.subrange(0, v@.len() as int) =~= v@);
    s
}

/// A `String` holding exactly the characters of `v[from..to]`.
pub fn string_of_range(v: &Vec<char>, from: usize, to: usize) -> (s: String)
    requires
        from <= to <= v.len(),
    ensures
        s@ == v@.subrange(from as int, to as int),
{
    let mut s = String::new();
    push_range(&mut s, v, from, to);
    assert(s@ =~= v@.subrange(from as int, to as int));
    s
}

/// Appends the characters of `t` to `out`.
pub fn push_str(out: &mut String, t: &str)
    ensures
        final(out)@ == old(out)@ + t@,
{
    out.append(t);
}

/// Whether `p` occurs in `s` at index `i`.
pub fn matches_at(s: &Vec<char>, p: &Vec<char>, i: usize) -> (b: bool)
    ensures
        b == occurs_at(s@, p@, i as int),
{
    if i > s.len() || p.len() > s.len() - i {
        return false;
    }
    let mut k: usize = 0;
    while k < p.len()
        invariant
            i + p.len() <= s.len(),
            k <= p.len(),
            forall|j: int| 0 <= j < k ==> s@[i + j] == p@[j],
        decreases p.len() - k,
    {
        if s[i + k] != p[k] {
            assert(s@.subrange(i as int, i + p.len())[k as int] != p@[k as int]);
            return false;
        }
        k = k + 1;
    }
    assert(s@.subrange(i as int, i + p.len()) =~= p@);
    true
}

/// The first occurrence of `p` in `s` at or after index `from`.
pub fn find_from(s: &Vec<char>, p: &Vec<char>, from: usize) -> (r: Option<usize>)
    ensures
        match r {
            Some(i) => from <= i && occurs_at(s@, p@, i as int) && forall|j: int|
                from <= j < i ==> !occurs_at(s@, p@, j),
            None => forall|j: int| from <= j ==> !occurs_at(s@, p@, j),
        },
{
    if from > s.len() {
        return None;
    }
    let mut i = from;
    loop
        invariant
            from <= i <= s.len(),
            forall|j: int| from <= j < i ==> !occurs_at(s@, p@, j),
        decreases s.len() - i,
    {
        if matches_at(s, p, i) {
            return Some(i);
        }
        if i == s.len() {
            return None;
        }
        i = i + 1;
    }
}

/// The first occurrence of `p` in the suffix `s[from..]`, as an index into that suffix.
pub fn find_in_suffix(s: &Vec<char>, p: &Vec<char>, from: usize) -> (r: Option<usize>)
    requires
        from <= s.len(),
    ensures
        match r {
            Some(e) => first_occurrence(s@.skip(from as int), p@, e as int) && from + e <= s.len(),
            None => !contains(s@.skip(from as int), p@),
        },
{
    let ghost t = s@.skip(from as int);
    match find_from(s, p, from) {
        Some(i) => {
            proof {
                lemma_occurs_skip(s@, p@, from as int, i - from);
                assert forall|j: int| 0 <= j < i - from implies !occurs_at(t, p@, j) by {
                    lemma_occurs_skip(s@, p@, from as int, j);
                }
            }
            Some(i - from)
        },
        None => {
            proof {
                assert forall|j: int| !occurs_at(t, p@, j) by {
                    if j >= 0 {
                        lemma_occurs_skip(s@, p@, from as int, j);
                    }
                }
            }
            None
        },
    }
}

/// The first occurrence of `p` in `s`.
pub fn find(s: &Vec<char>, p: &Vec<char>) -> (r: Option<usize>)
    ensures
        match r {
            Some(i) => first_occurrence(s@, p@, i as int),
            None => !contains(s@, p@),
        },
{
    find_from(s, p, 0)
}

/// The last occurrence of `p` in `s`.
pub fn rfind(s: &Vec<char>, p: &Vec<char>) -> (r: Option<usize>)
    ensures
        match r {
            Some(i) => last_occurrence(s@, p@, i as int),
            None => !contains(s@, p@),
        },
{
    if p.len() > s.len() {
        return None;
    }
    let mut i = s.len() - p.len();
    loop
        invariant
            p.len() <= s.len(),
            i <= s.len() - p.len(),
            forall|j: int| i < j ==> !occurs_at(s@, p@, j),
        decreases i,
    {
        if matches_at(s, p, i) {
            return Some(i);
        }
        if i == 0 {
            return None;
        }
        i = i - 1;
    }
}

/// Whether `p` occurs in `s`.
pub fn contains_exec(s: &Vec<char>, p: &Vec<char>) -> (b: bool)
    ensures
        b == contains(s@, p@),
{
    match find(s, p) {
        Some(_) => true,
        None => false,
    }
}

/// Whether `s` begins with `p`.
pub fn starts_with_exec(s: &Vec<char>, p: &Vec<char>) -> (b: bool)
    ensures
        b == starts_with(s@, p@),
{
    matches_at(s, p, 0)
}

/// Whether `s` ends with `p`.
pub fn ends_with_exec(s: &Vec<char>, p: &Vec<char>) -> (b: bool)
    ensures
        b == ends_with(s@, p@),
{
    if p.len() > s.len() {
        false
    } else {
        matches_at(s, p, s.len() - p.len())
    }
}

/// Every non-overlapping occurrence of the non-empty pattern `p` in `s`,
/// left to right, replaced by `r`.
pub fn replace_all_exec(s: &Vec<char>, p: &Vec<char>, r: &Vec<char>) -> (out: Vec<char>)
    requires
        p.len() > 0,
    ensures
        out@ == replace_all(s@, p@, r@),
{
    let mut out: Vec<char> = Vec::new();
    let mut i: usize = 0;
    assert(s@.skip(0) =~= s@);
    while i < s.len()
        invariant
            p.len() > 0,
            i <= s.len(),
            out@ + replace_all(s@.skip(i as int), p@, r@) == replace_all(s@, p@, r@),
        decreases s.len() - i,
    {
        let ghost rest = s@.skip(i as int);
        if p.len() <= s.len() - i && matches_at(s, p, i) {
            assert(rest.subrange(0, p@.len() as int) =~= s@.subrange(i as int, i + p.len()));
            let mut k: usize = 0;
            let ghost out0 = out@;
            while k < r.len()
                invariant
                    k <= r.len(),
                    out@ == out0 + r@.take(k as int),
                decreases r.len() - k,
            {
                out.push(r[k]);
                k = k + 1;
                assert(out@ =~= out0 + r@.take(k as int));
            }
            assert(r@.take(r@.len() as int) =~= r@);
            assert(rest.skip(p@.len() as int) =~= s@.skip(i + p.len()));
            assert(out@ + replace_all(s@.skip(i + p.len()), p@, r@) =~= out0 + replace_all(rest, p@, r@));
            i = i + p.len();
        } else {
            if p.len() <= s.len() - i {
                assert(rest.subrange(0, p@.len() as int) =~= s@.subrange(i as int, i + p.len()));
            }
            let ghost out0 = out@;
            out.push(s[i]);
            assert(rest.skip(1) =~= s@.skip(i + 1));
            assert(out@ + replace_all(s@.skip(i + 1), p@, r@) =~= out0 + replace_all(rest, p@, r@));
            i = i + 1;
        }
    }
    assert(s@.skip(i as int).len() == 0);
    assert(out@ + replace_all(s@.skip(i as int), p@, r@) =~= out@);
    out
}

/// Whitespace test (`char::is_whitespace`).
pub fn is_ws_exec(c: char) -> (b: bool)
    ensures
        b == is_ws(c),
{
    c == ' ' || ('\t' <= c && c <= '\r') || c == '\u{85}' || c == '\u{a0}' || c == '\u{1680}'
        || ('\u{2000}' <= c && c <= '\u{200a}') || c == '\u{2028}' || c == '\u{2029}'
        || c == '\u{202f}' || c == '\u{205f}' || c == '\u{3000}'
}

/// Control-character test (`char::is_control`).
pub fn is_ctrl_exec(c: char) -> (b: bool)
    ensures
        b == is_ctrl(c),
{
    c <= '\u{1f}' || ('\u{7f}' <= c && c <= '\u{9f}')
}

proof fn lemma_trim_start_skip(s: Seq<char>, i: int)
    requires
        0 <= i <= s.len(),
        forall|j: int| 0 <= j < i ==> is_ws(s[j]),
    ensures
        trim_start(s) == trim_start(s.skip(i)),
    decreases i,
{
    if i > 0 {
        assert(is_ws(s[0]));
        assert(s.skip(1).skip(i - 1) =~= s.skip(i));
        lemma_trim_start_skip(s.skip(1), i - 1);
    } else {
        assert(s.skip(0) =~= s);
    }
}

proof fn lemma_trim_end_take(s: Seq<char>, i: int)
    requires
        0 <= i <= s.len(),
        forall|j: int| i <= j < s.len() ==> is_ws(s[j]),
    ensures
        trim_end(s) == trim_end(s.take(i)),
    decreases s.len() - i,
{
    if i < s.len() {
        assert(s.drop_last().take(i) =~= s.take(i));
        lemma_trim_end_take(s.drop_last(), i);
    } else {
        assert(s.take(i) =~= s);
    }
}

/// Index of the first non-whitespace character of `v[from..to]`, or `to`.
pub fn skip_ws_forward(v: &Vec<char>, from: usize, to: usize) -> (i: usize)
    requires
        from <= to <= v.len(),
    ensures
        from <= i <= to,
        trim_start(v@.subrange(from as int, to as int)) == v@.subrange(i as int, to as int),
{
    let mut i = from;
    while i < to && is_ws_exec(v[i])
        invariant
            from <= i <= to <= v.len(),
            forall|j: int| from <= j < i ==> is_ws(v@[j]),
        decreases to - i,
    {
        i = i + 1;
    }
    let ghost w = v@.subrange(from as int, to as int);
    proof {
        lemma_trim_start_skip(w, i - from);
        assert(w.skip(i - from) =~= v@.subrange(i as int, to as int));
    }
    i
}

/// Index just past the last non-whitespace character of `v[from..to]`, or `from`.
pub fn skip_ws_backward(v: &Vec<char>, from: usize, to: usize) -> (j: usize)
    requires
        from <= to <= v.len(),
    ensures
        from <= j <= to,
        trim_end(v@.subrange(from as int, to as int)) == v@.subrange(from as int, j as int),
{
    let mut j = to;
    while j > from && is_ws_exec(v[j - 1])
        invariant
            from <= j <= to <= v.len(),
            forall|k: int| j <= k < to ==> is_ws(v@[k]),
        decreases j,
    {
        j = j - 1;
    }
    let ghost w = v@.subrange(from as int, to as int);
    proof {
        lemma_trim_end_take(w, j - from);
        assert(w.take(j - from) =~= v@.subrange(from as int, j as int));
    }
    j
}

/// `(start, end)` such that `v[start..end]` is `trim(v)`.
pub fn trim_bounds(v: &Vec<char>) -> (r: (usize, usize))
    ensures
        r.0 <= r.1 <= v.len(),
        trim(v@) == v@.subrange(r.0 as int, r.1 as int),
        trim_start(v@) == v@.subrange(r.0 as int, v.len() as int),
{
    let a = skip_ws_forward(v, 0, v.len());
    let b = skip_ws_backward(v, a, v.len());
    assert(v@.subrange(0, v.len() as int) =~= v@);
    (a, b)
}

/// ASCII lowercase of one character (`char::to_ascii_lowercase`).
pub fn ascii_lower_exec(c: char) -> (d: char)
    ensures
        d == ascii_lower(c),
{
    if 'A' <= c && c <= 'Z' {
        let b: u8 = (c as u32) as u8;
        ((b + 32) as u8) as char
    } else {
        c
    }
}

/// Decimal rendering of `n` (`u64::to_string`).
pub fn dec_string(n: u64) -> (s: String)
    ensures
        s@ == dec(n as nat),
    decreases n,
{
    if n < 10 {
        let mut s = String::new();
        push_char(&mut s, digit_char(n));
        assert(s@ =~= dec(n as nat));
        s
    } else {
        let mut s = dec_string(n / 10);
        push_char(&mut s, digit_char(n % 10));
        s
    }
}

/// The ASCII digit for `d < 10`.
pub fn digit_char(d: u64) -> (c: char)
    requires
        d < 10,
    ensures
        c == digit(d as nat),
{
    let b: u8 = 48 + d as u8;
    b as char
}

/// Number of UTF-8 bytes that encode `c`.
pub fn char_utf8_len_exec(c: char) -> (n: usize)
    ensures
        n == char_utf8_len(c),
{
    let u = c as u32;
    if u < 0x80 {
        1
    } else if u < 0x800 {
        2
    } else if u < 0x10000 {
        3
    } else {
        4
    }
}

} // verus!

verus! {

/// The views of a sequence of strings.
pub open spec fn views(v: Seq<String>) -> Seq<Seq<char>> {
    v.map_values(|s: String| s@)
}

/// The strings of `parts` separated by `sep` (`parts.join(sep)`).
pub fn join_strings(parts: &Vec<String>, sep: &str) -> (r: String)
    ensures
        r@ == join(views(parts@), sep@),
{
    let mut out = String::new();
    let ghost pv = views(parts@);
    let mut i: usize = 0;
    while i < parts.len()
        invariant
            i <= parts.len(),
            pv == views(parts@),
            out@ == join(pv.take(i as int), sep@),
        decreases parts.len() - i,
    {
        if i > 0 {
            push_str(&mut out, sep);
        }
        push_str(&mut out, parts[i].as_str());
        proof {
            let t = pv.take(i + 1);
            assert(t.drop_last() =~= pv.take(i as int));
            assert(t.last() == parts@[i as int]@);
            if i == 0 {
                assert(out@ =~= join(t, sep@));
            }
        }
        i = i + 1;
    }
    assert(pv.take(parts.len() as int) =~= pv);
    out
}

} // verus!

verus! {

/// A fresh string with the characters of `s`.
pub fn copy_str(s: &str) -> (r: String)
    ensures
        r@ == s@,
{
    string_of(&chars_of(s))
}

/// A fresh optional string with the characters of `s`.
pub fn copy_opt_string(s: &Option<String>) -> (r: Option<String>)
    ensures
        match (r, *s) {
            (Some(a), Some(b)) => a@ == b@,
            (None, None) => true,
            _ => false,
        },
{
    match s {
        Some(x) => Some(copy_str(x.as_str())),
        None => None,
    }
}

/// Fresh strings with the characters of those of `v`, in order.
pub fn copy_strings(v: &Vec<String>) -> (r: Vec<String>)
    ensures
        views(r@) == views(v@),
{
    let mut out: Vec<String> = Vec::new();
    let mut i: usize = 0;
    while i < v.len()
        invariant
            i <= v@.len(),
            views(out@) == views(v@).take(i as int),
        decreases v.len() - i,
    {
        let c = copy_str(v[i].as_str());
        let ghost before = out@;
        out.push(c);
        proof {
            assert(views(out@) =~= views(before).push(c@));
            assert(views(v@).take(i + 1) =~= views(v@).take(i as int).push(v@[i as int]@));
        }
        i = i + 1;
    }
    assert(views(v@).take(v.len() as int) =~= views(v@));
    out
}

/// `s` padded with spaces on the right to `w` characters (`{:<w}`).
pub open spec fn pad_right(s: Seq<char>, w: nat) -> Seq<char> {
    if s.len() < w {
        s + Seq::new((w - s.len()) as nat, |_i: int| ' ')
    } else {
        s
    }
}

pub fn push_padded(out: &mut String, s: &str, w: usize)
    ensures
        final(out)@ == old(out)@ + pad_right(s@, w as nat),
{
    let ghost start = out@;
    push_str(out, s);
    let n = chars_of(s).len();
    let mut k: usize = n;
    while k < w
        invariant
            n == s@.len(),
            n <= k <= w || (k == n && n >= w),
            out@ == start + s@ + Seq::new((k - n) as nat, |_i: int| ' '),
        decreases w - k,
    {
        push_char(out, ' ');
        proof {
            assert(Seq::new((k - n) as nat, |_i: int| ' ').push(' ') =~= Seq::new((k + 1 - n) as nat, |_i: int| ' '));
        }
        k = k + 1;
    }
    proof {
        if n >= w {
            assert(Seq::new((k - n) as nat, |_i: int| ' ') =~= Seq::<char>::empty());
        }
        assert(out@ =~= start + pad_right(s@, w as nat));
    }
}

/// Whether two character vectors hold the same sequence.
pub fn chars_eq(a: &Vec<char>, b: &Vec<char>) -> (r: bool)
    ensures
        r == (a@ == b@),
{
    if a.len() != b.len() {
        return false;
    }
    let mut i: usize = 0;
    while i < a.len()
        invariant
            a.len() == b.len(),
            i <= a.len(),
            forall|j: int| 0 <= j < i ==> a@[j] == b@[j],
        decreases a.len() - i,
    {
        if a[i] != b[i] {
            return false;
        }
        i = i + 1;
    }
    assert(a@ =~= b@);
    true
}

/// Whether two strings hold the same characters.
pub fn str_eq(a: &str, b: &str) -> (r: bool)
    ensures
        r == (a@ == b@),
{
    let x = chars_of(a);
    let y = chars_of(b);
    chars_eq(&x, &y)
}

} // verus!

verus! {

/// The pieces of `s` between occurrences of `c` (`str::split(c)`).
pub open spec fn split_char(s: Seq<char>, c: char) -> Seq<Seq<char>>
    decreases s.len(),
{
    if s.len() == 0 {
        seq![seq![]]
    } else {
        let r = split_char(s.drop_last(), c);
        if s.last() == c {
            r.push(seq![])
        } else {
            r.update(r.len() - 1, r.last().push(s.last()))
        }
    }
}

/// `l` without one trailing carriage return.
pub open spec fn strip_cr(l: Seq<char>) -> Seq<char> {
    if l.len() > 0 && l.last() == '\r' {
        l.drop_last()
    } else {
        l
    }
}

/// The lines of `s` (`str::lines`): split at `\n`, without a final empty
/// line, each without a trailing `\r`.
pub open spec fn lines(s: Seq<char>) -> Seq<Seq<char>> {
    let parts = split_char(s, '\n');
    let kept = if s.len() == 0 || s.last() == '\n' {
        parts.drop_last()
    } else {
        parts
    };
    kept.map_values(|l: Seq<char>| strip_cr(l))
}

pub proof fn lemma_split_char_len(s: Seq<char>, c: char)
    ensures
        split_char(s, c).len() >= 1,
    decreases s.len(),
{
    if s.len() > 0 {
        lemma_split_char_len(s.drop_last(), c);
    }
}

/// The lines of `s` (`str::lines`).
pub fn lines_of(s: &str) -> (r: Vec<String>)
    ensures
        views(r@) == lines(s@),
{
    let v = chars_of(s);
    let mut done: Vec<String> = Vec::new();
    let mut start: usize = 0;
    let mut i: usize = 0;
    assert(s@.take(0) =~= seq![]);
    while i < v.len()
        invariant
            v@ == s@,
            start <= i <= v.len(),
            views(done@) + seq![v@.subrange(start as int, i as int)] == split_char(
                s@.take(i as int),
                '\n',
            ),
        decreases v.len() - i,
    {
        let ghost before = split_char(s@.take(i as int), '\n');
        assert(s@.take(i + 1).drop_last() =~= s@.take(i as int));
        if v[i] == '\n' {
            let piece = string_of_range(&v, start, i);
            let ghost dv = views(done@);
            done.push(piece);
            assert(views(done@) =~= dv.push(v@.subrange(start as int, i as int)));
            start = i + 1;
            i = i + 1;
            assert(v@.subrange(start as int, i as int) =~= seq![]);
            assert(views(done@) + seq![v@.subrange(start as int, i as int)] =~= before.push(seq![]));
        } else {
            i = i + 1;
            assert(v@.subrange(start as int, i as int) =~= v@.subrange(start as int, i - 1).push(
                v@[i - 1],
            ));
            assert(views(done@) + seq![v@.subrange(start as int, i as int)] =~= before.update(
                before.len() - 1,
                before.last().push(s@.take(i as int).last()),
            ));
        }
    }
    assert(s@.take(v.len() as int) =~= s@);
    let ghost parts = split_char(s@, '\n');
    let ghost dv = views(done@);
    let last_piece = string_of_range(&v, start, v.len());
    if !(v.len() == 0 || v[v.len() - 1] == '\n') {
        done.push(last_piece);
        assert(views(done@) =~= parts);
    } else {
        assert(dv =~= parts.drop_last());
    }
    let ghost kept = views(done@);
    let mut out: Vec<String> = Vec::new();
    let mut k: usize = 0;
    while k < done.len()
        invariant
            k <= done.len(),
            kept == views(done@),
            views(out@) == kept.take(k as int).map_values(|l: Seq<char>| strip_cr(l)),
        decreases done.len() - k,
    {
        let lv = chars_of(done[k].as_str());
        let mut e = lv.len();
        if e > 0 && lv[e - 1] == '\r' {
            e = e - 1;
        }
        let line = string_of_range(&lv, 0, e);
        assert(line@ =~= strip_cr(kept[k as int]));
        let ghost ov = views(out@);
        out.push(line);
        assert(views(out@) =~= ov.push(line@));
        k = k + 1;
        assert(kept.take(k as int).map_values(|l: Seq<char>| strip_cr(l)) =~= kept.take(
            (k - 1) as int,
        ).map_values(|l: Seq<char>| strip_cr(l)).push(strip_cr(kept[k - 1])));
    }
    assert(kept.take(done.len() as int) =~= kept);
    out
}

} // verus!

verus! {

/// Whether the ASCII-lowercased `v[from..]` begins with `p`.
pub fn lower_starts_with_at(v: &Vec<char>, from: usize, p: &Vec<char>) -> (b: bool)
    requires
        from <= v.len(),
    ensures
        b == starts_with(ascii_lower_seq(v@.subrange(from as int, v.len() as int)), p@),
{
    let ghost w = ascii_lower_seq(v@.subrange(from as int, v.len() as int));
    if p.len() > v.len() - from {
        return false;
    }
    let mut j: usize = 0;
    while j < p.len()
        invariant
            from + p.len() <= v.len(),
            j <= p.len(),
            w == ascii_lower_seq(v@.subrange(from as int, v.len() as int)),
            forall|k: int| 0 <= k < j ==> w[k] == p@[k],
        decreases p.len() - j,
    {
        if ascii_lower_exec(v[from + j]) != p[j] {
            assert(w[j as int] != p@[j as int]);
            assert(w.subrange(0, p.len() as int)[j as int] != p@[j as int]);
            return false;
        }
        j = j + 1;
    }
    assert(w.subrange(0, p.len() as int) =~= p@);
    true
}

} // verus!

verus! {

/// The views of a list of string slices.
pub open spec fn str_views(v: Seq<&str>) -> Seq<Seq<char>> {
    v.map_values(|s: &str| s@)
}

/// Whether `v` is one of `options`.
pub fn one_of(v: &str, options: &Vec<&str>) -> (b: bool)
    ensures
        b == str_views(options@).contains(v@),
{
    let ghost ov = str_views(options@);
    let mut i: usize = 0;
    while i < options.len()
        invariant
            i <= options.len(),
            ov == str_views(options@),
            forall|j: int| 0 <= j < i ==> ov[j] != v@,
        decreases options.len() - i,
    {
        if str_eq(options[i], v) {
            assert(ov[i as int] == v@);
            return true;
        }
        i = i + 1;
    }
    false
}

} // verus!
