//! The site-wide index of inline `<!-- note ... -->` annotations: threads of
//! comments keyed by id, and how many of them are open or resolved.
use vstd::prelude::*;

use crate::text::{find_from, to_chars};

verus! {

/// The annotation threads of the site with their counts.
pub struct AnnotationIndex {
    pub total: u32,
    pub open: u32,
    pub resolved: u32,
    pub threads: Vec<AnnotationThread>,
}

/// The comments that share one annotation id, anchored in one page.
pub struct AnnotationThread {
    pub id: String,
    pub route: String,
    pub title: String,
    pub source_file: String,
    pub line: u32,
    pub quote: String,
    pub resolved: bool,
    pub kind: String,
    pub author: String,
    pub created: String,
    pub comments: Vec<AnnotationComment>,
}

/// One annotation comment.
pub struct AnnotationComment {
    pub author: String,
    pub kind: String,
    pub created: String,
    pub body: String,
    pub line: u32,
    pub nonce: String,
}

/// The number of resolved threads among `threads`.
pub open spec fn resolved_count(threads: Seq<AnnotationThread>) -> nat
    decreases threads.len(),
{
    if threads.len() == 0 {
        0
    } else {
        resolved_count(threads.drop_last()) + if threads.last().resolved {
            1nat
        } else {
            0nat
        }
    }
}

proof fn lemma_resolved_count_bound(threads: Seq<AnnotationThread>)
    ensures
        resolved_count(threads) <= threads.len(),
    decreases threads.len(),
{
    if threads.len() > 0 {
        lemma_resolved_count_bound(threads.drop_last());
    }
}

impl AnnotationIndex {
    /// The index of `threads`: how many there are, how many are resolved,
    /// and how many are still open.
    pub fn from_threads(threads: Vec<AnnotationThread>) -> (r: Self)
        requires
            threads@.len() <= u32::MAX,
        ensures
            r.threads@ == threads@,
            r.total == threads@.len(),
            r.resolved == resolved_count(threads@),
            r.open == threads@.len() - resolved_count(threads@),
    {
        let mut resolved: u32 = 0;
        let mut i: usize = 0;
        while i < threads.len()
            invariant
                i <= threads.len() <= u32::MAX,
                resolved == resolved_count(threads@.take(i as int)),
            decreases threads.len() - i,
        {
            assert(threads@.take(i + 1 as int).drop_last() == threads@.take(i as int));
            proof {
                lemma_resolved_count_bound(threads@.take(i as int));
            }
            if threads[i].resolved {
                resolved = resolved + 1;
            }
            i = i + 1;
        }
        assert(threads@.take(threads.len() as int) == threads@);
        proof {
            lemma_resolved_count_bound(threads@);
        }
        let total = threads.len() as u32;
        AnnotationIndex { total, open: total - resolved, resolved, threads }
    }
}

/// `(start, end)` is the first HTML comment of `content` at or after
/// `from`: `start` is the first `<!--` there and `end` is just past the
/// first `-->` after it.
pub open spec fn is_comment_at(content: Seq<char>, from: int, start: int, end: int) -> bool {
    &&& crate::text::is_first_occurrence(content, "<!--"@, from, start)
    &&& exists|c: int|
        crate::text::is_first_occurrence(content, "-->"@, start, c) && end == c + 3
}

/// No complete HTML comment starts at or after `from`: there is no `<!--`
/// there, or no `-->` after the first one.
pub open spec fn no_comment_from(content: Seq<char>, from: int) -> bool {
    ||| forall|j: int| from <= j ==> !crate::text::occurs_at(content, "<!--"@, j)
    ||| exists|s: int|
        crate::text::is_first_occurrence(content, "<!--"@, from, s) && forall|j: int|
            s <= j ==> !crate::text::occurs_at(content, "-->"@, j)
}

/// The HTML comments of `content`, in order, as character ranges: each
/// starts at the first `<!--` after the previous one's end and runs to just
/// past the first `-->` after that.
pub fn comment_spans(content: &str) -> (r: Vec<(usize, usize)>)
    ensures
        forall|k: int|
            0 <= k < r@.len() ==> is_comment_at(
                content@,
                if k == 0 {
                    0
                } else {
                    r@[k - 1].1 as int
                },
                (#[trigger] r@[k]).0 as int,
                r@[k].1 as int,
            ),
        no_comment_from(
            content@,
            if r@.len() == 0 {
                0
            } else {
                r@[r@.len() - 1].1 as int
            },
        ),
{
    let v = to_chars(content);
    let open = to_chars("<!--");
    let close = to_chars("-->");
    proof {
        reveal_strlit("<!--");
        reveal_strlit("-->");
    }
    let mut out: Vec<(usize, usize)> = Vec::new();
    let mut from: usize = 0;
    loop
        invariant
            from <= v.len(),
            v@ == content@,
            open@ == "<!--"@,
            close@ == "-->"@,
            forall|k: int|
                0 <= k < out@.len() ==> is_comment_at(
                    content@,
                    if k == 0 {
                        0
                    } else {
                        out@[k - 1].1 as int
                    },
                    (#[trigger] out@[k]).0 as int,
                    out@[k].1 as int,
                ),
            out@.len() > 0 ==> from == out@[out@.len() - 1].1,
            out@.len() == 0 ==> from == 0,
        ensures
            forall|k: int|
                0 <= k < out@.len() ==> is_comment_at(
                    content@,
                    if k == 0 {
                        0
                    } else {
                        out@[k - 1].1 as int
                    },
                    (#[trigger] out@[k]).0 as int,
                    out@[k].1 as int,
                ),
            no_comment_from(
                content@,
                if out@.len() == 0 {
                    0
                } else {
                    out@[out@.len() - 1].1 as int
                },
            ),
        decreases v.len() - from,
    {
        let start = match find_from(v.as_slice(), open.as_slice(), from) {
            Some(s) => s,
            None => break,
        };
        let c = match find_from(v.as_slice(), close.as_slice(), start) {
            Some(c) => c,
            None => break,
        };
        proof {
            reveal_strlit("-->");
            assert(c + 3 <= v@.len());
        }
        let end = c + 3;
        let ghost prev = out@;
        out.push((start, end));
        assert forall|k: int| 0 <= k < out@.len() implies is_comment_at(
            content@,
            if k == 0 {
                0
            } else {
                out@[k - 1].1 as int
            },
            (#[trigger] out@[k]).0 as int,
            out@[k].1 as int,
        ) by {
            if k < prev.len() {
                assert(out@[k] == prev[k]);
                if k > 0 {
                    assert(out@[k - 1] == prev[k - 1]);
                }
            }
        }
        from = end;
    }
    out
}

} // verus!
