//! Unix path strings: joining and the final component.
use vstd::prelude::*;
use crate::text::{chars_of, push_str, push_char, string_of_range};

verus! {

/// `base` joined with `part` as `Path::join` does on Unix: an absolute
/// `part` replaces `base`, otherwise one separator stands between them.
pub open spec fn path_join(base: Seq<char>, part: Seq<char>) -> Seq<char> {
    if part.len() > 0 && part[0] == '/' {
        part
    } else if base.len() == 0 || base.last() == '/' {
        base + part
    } else {
        base + seq!['/'] + part
    }
}

/// The characters after the last `/` of `p`.
pub open spec fn last_segment(p: Seq<char>) -> Seq<char>
    decreases p.len(),
{
    if p.len() == 0 || p.last() == '/' {
        seq![]
    } else {
        last_segment(p.drop_last()).push(p.last())
    }
}

/// The final component of `p` (`Path::file_name`): trailing separators and
/// `.` components are skipped, and a path that ends in `..`, or has no
/// named component, has none.
pub open spec fn file_name(p: Seq<char>) -> Option<Seq<char>>
    decreases p.len(),
{
    if p.len() == 0 {
        None
    } else if p.last() == '/' {
        file_name(p.drop_last())
    } else {
        let seg = last_segment(p);
        if seg == seq!['.'] {
            file_name(p.drop_last())
        } else if seg == seq!['.', '.'] {
            None
        } else {
            Some(seg)
        }
    }
}

/// Whether `p` is an absolute Unix path.
pub open spec fn is_absolute(p: Seq<char>) -> bool {
    p.len() > 0 && p[0] == '/'
}

proof fn lemma_last_segment_len(p: Seq<char>)
    ensures
        last_segment(p).len() <= p.len(),
        last_segment(p) == p.subrange(p.len() - last_segment(p).len(), p.len() as int),
    decreases p.len(),
{
    if p.len() > 0 && p.last() != '/' {
        lemma_last_segment_len(p.drop_last());
        let q = p.drop_last();
        assert(last_segment(p) =~= p.subrange(p.len() - last_segment(p).len(), p.len() as int));
    } else {
        assert(last_segment(p) =~= p.subrange(p.len() as int, p.len() as int));
    }
}

/// `base` joined with `part` (`Path::join`).
pub fn join_path(base: &str, part: &str) -> (r: String)
    ensures
        r@ == path_join(base@, part@),
{
    let b = chars_of(base);
    let p = chars_of(part);
    if p.len() > 0 && p[0] == '/' {
        let mut r = String::new();
        push_str(&mut r, part);
        assert(r@ =~= part@);
        return r;
    }
    let mut r = String::new();
    push_str(&mut r, base);
    if b.len() > 0 && b[b.len() - 1] != '/' {
        push_char(&mut r, '/');
    }
    push_str(&mut r, part);
    proof {
        if b@.len() == 0 || b@.last() == '/' {
            assert(r@ =~= base@ + part@);
        } else {
            assert(r@ =~= base@ + seq!['/'] + part@);
        }
    }
    r
}

/// Whether `p` is absolute (`Path::is_absolute` on Unix).
pub fn is_absolute_path(p: &str) -> (b: bool)
    ensures
        b == is_absolute(p@),
{
    let v = chars_of(p);
    v.len() > 0 && v[0] == '/'
}

/// The final component of `p` (`Path::file_name`).
pub fn file_name_of(p: &str) -> (r: Option<String>)
    ensures
        match r {
            Some(s) => file_name(p@) == Some(s@),
            None => file_name(p@) is None,
        },
{
    let v = chars_of(p);
    let mut end: usize = v.len();
    assert(v@.take(end as int) =~= p@);
    loop
        invariant
            end <= v.len(),
            v@ == p@,
            file_name(p@) == file_name(v@.take(end as int)),
        decreases end,
    {
        if end == 0 {
            return None;
        }
        if v[end - 1] == '/' {
            proof {
                assert(v@.take(end as int).drop_last() =~= v@.take(end - 1));
            }
            end = end - 1;
        } else {
            let mut k: usize = end;
            while k > 0 && v[k - 1] != '/'
                invariant
                    k <= end <= v.len(),
                    last_segment(v@.take(end as int)) == last_segment(v@.take(k as int)) + v@.subrange(k as int, end as int),
                decreases k,
            {
                proof {
                    let t = v@.take(k as int);
                    assert(t.drop_last() =~= v@.take(k - 1));
                    assert(t.last() == v@[k - 1]);
                    assert(last_segment(t) == last_segment(v@.take(k - 1)).push(v@[k - 1]));
                    assert(last_segment(v@.take(k - 1)).push(v@[k - 1]) + v@.subrange(k as int, end as int)
                        =~= last_segment(v@.take(k - 1)) + v@.subrange(k - 1, end as int));
                }
                k = k - 1;
            }
            let ghost t = v@.take(end as int);
            let ghost seg = v@.subrange(k as int, end as int);
            proof {
                assert(last_segment(v@.take(k as int)) =~= Seq::<char>::empty());
                assert(last_segment(t) =~= seg);
            }
            let n = end - k;
            if n == 1 && v[k] == '.' {
                proof {
                    assert(seg =~= seq!['.']);
                    assert(t.drop_last() =~= v@.take(k as int));
                }
                end = k;
            } else if n == 2 && v[k] == '.' && v[k + 1] == '.' {
                proof {
                    assert(seg =~= seq!['.', '.']);
                }
                return None;
            } else {
                proof {
                    if seg == seq!['.'] {
                        assert(seg[0] == v@[k as int]);
                    }
                    if seg == seq!['.', '.'] {
                        assert(seg[0] == v@[k as int] && seg[1] == v@[k + 1]);
                    }
                }
                let s = string_of_range(&v, k, end);
                return Some(s);
            }
        }
    }
}

} // verus!
