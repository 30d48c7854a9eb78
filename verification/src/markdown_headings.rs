//! The headings of a Markdown source as the Markdown parser reads them,
//! with anchor ids that carry the slugs of their enclosing headings.
use vstd::prelude::*;

use crate::editing::{marq_slugify, slugify};
use crate::frontmatter::byte_offsets;
use crate::graph::{markdown_offset_events, pulldown_offset_events, event_views, EventView, MarkdownEvent};
use crate::headings::{heading_title_range, position_to_byte_offset, spec_heading_title_range, spec_position_to_char, MarkdownHeading};
use crate::model::{contains_str, has_str, AuthoringPage};
use crate::positions::{byte_to_line_column, range_contains_position, spec_byte_to_line_column, spec_range_contains, Position, Range};
use crate::text::{byte_len, from_chars, push_str_chars, str_eq, sub_chars, to_chars};

verus! {

/// A heading as plain values: id, title, level, line, title range.
pub type HeadingView = (Seq<char>, Seq<char>, u8, nat, Range);

/// A heading as plain values.
pub open spec fn heading_view(h: MarkdownHeading) -> HeadingView {
    (h.id@, h.title@, h.level, h.line as nat, h.title_range)
}

/// The headings as plain values.
pub open spec fn heading_views(hs: Seq<MarkdownHeading>) -> Seq<HeadingView> {
    hs.map_values(|h: MarkdownHeading| heading_view(h))
}

/// The enclosing headings left once a heading of `level` ends: those of a
/// level below it.
pub open spec fn pop_deeper(stack: Seq<(u8, Seq<char>)>, level: u8) -> Seq<(u8, Seq<char>)>
    decreases stack.len(),
{
    if stack.len() > 0 && stack.last().0 >= level {
        pop_deeper(stack.drop_last(), level)
    } else {
        stack
    }
}

/// The slugs of the enclosing headings, each followed by `--`.
pub open spec fn id_prefix(stack: Seq<(u8, Seq<char>)>) -> Seq<char>
    decreases stack.len(),
{
    if stack.len() == 0 {
        Seq::empty()
    } else {
        id_prefix(stack.drop_last()) + stack.last().1 + "--"@
    }
}

/// The one-based line of byte `start` of `content`.
pub open spec fn heading_line(content: Seq<char>, start: int) -> nat {
    spec_byte_to_line_column(content, start).0
}

/// The range of the title of the heading that starts at byte `start`: the
/// title text on its line; the start of that line when `start` is not
/// where a character begins (the parser reports character boundaries).
pub open spec fn title_range_at(content: Seq<char>, start: int) -> Range {
    if exists|k: int| 0 <= k <= content.len() && byte_len(content.take(k)) == start {
        spec_heading_title_range(
            content,
            choose|k: int| 0 <= k <= content.len() && byte_len(content.take(k)) == start,
        )
    } else {
        let l = heading_line(content, start);
        let z: u32 = if l == 0 {
            0
        } else {
            (l - 1) as u32
        };
        Range { start: Position { line: z, character: 0 }, end: Position { line: z, character: 0 } }
    }
}

/// Where the heading scan stands: the enclosing headings (level and slug),
/// the heading being read (level, start byte, text so far), the headings
/// read.
pub type HeadingScan = (Seq<(u8, Seq<char>)>, Option<(u8, int, Seq<char>)>, Seq<HeadingView>);

/// One event of the scan: a heading start opens a heading; text and
/// inline code inside it add to its title; its end gives the heading, its
/// id being the slugs of the enclosing headings (those of a lower level),
/// each followed by `--`, then its own slug.
pub open spec fn heading_scan_step(content: Seq<char>, st: HeadingScan, e: (EventView, int, int)) -> HeadingScan {
    match e.0 {
        EventView::HeadingStart(l) => (st.0, Some((l, e.1, Seq::empty())), st.2),
        EventView::Text(t) => match st.1 {
            Some(c) => (st.0, Some((c.0, c.1, c.2 + t)), st.2),
            None => st,
        },
        EventView::Code(t) => match st.1 {
            Some(c) => (st.0, Some((c.0, c.1, c.2 + t)), st.2),
            None => st,
        },
        EventView::HeadingEnd(l) => match st.1 {
            Some(c) => {
                let slug = marq_slugify(c.2);
                let kept = pop_deeper(st.0, l);
                (
                    kept.push((l, slug)),
                    None,
                    st.2.push((id_prefix(kept) + slug, c.2, l, heading_line(content, c.1), title_range_at(content, c.1))),
                )
            },
            None => st,
        },
        _ => st,
    }
}

/// The scan over the events `evs` of `content`.
pub open spec fn heading_scan(content: Seq<char>, evs: Seq<(EventView, int, int)>) -> HeadingScan
    decreases evs.len(),
{
    if evs.len() == 0 {
        (Seq::empty(), None, Seq::empty())
    } else {
        heading_scan_step(content, heading_scan(content, evs.drop_last()), evs.last())
    }
}

/// The headings of a Markdown source, in order.
pub open spec fn spec_markdown_headings(content: Seq<char>) -> Seq<HeadingView> {
    heading_scan(content, pulldown_offset_events(content)).2
}

fn title_range_exec(content: &str, offs: &Vec<usize>, start: usize) -> (r: Range)
    requires
        content@.len() < u32::MAX,
        byte_len(content@) <= usize::MAX,
        offs@.len() == content@.len() + 1,
        forall|i: int| 0 <= i <= content@.len() ==> #[trigger] offs@[i] == byte_len(content@.take(i)),
    ensures
        r == title_range_at(content@, start as int),
{
    let n = offs.len();
    let mut k: usize = 0;
    while k < n && offs[k] != start
        invariant
            k <= n,
            n == offs@.len(),
            forall|j: int| 0 <= j < k ==> #[trigger] offs@[j] != start,
        decreases n - k,
    {
        k = k + 1;
    }
    if k < n {
        proof {
            assert(byte_len(content@.take(k as int)) == start);
            let w = choose|w: int| 0 <= w <= content@.len() && byte_len(content@.take(w)) == start;
            if w < k {
                crate::headings::lemma_byte_len_take_strict(content@, w, k as int);
            }
            if k < w {
                crate::headings::lemma_byte_len_take_strict(content@, k as int, w);
            }
            assert(w == k);
        }
        let found = heading_title_range(content, start);
        assert(0 <= k <= content@.len() && byte_len(content@.take(k as int)) == start);
        assert(found == Some(spec_heading_title_range(content@, k as int)));
        match found {
            Some(r) => r,
            None => {
                assert(false);
                Range { start: Position { line: 0, character: 0 }, end: Position { line: 0, character: 0 } }
            },
        }
    } else {
        proof {
            if exists|w: int| 0 <= w <= content@.len() && byte_len(content@.take(w)) == start {
                let w = choose|w: int| 0 <= w <= content@.len() && byte_len(content@.take(w)) == start;
                assert(offs@[w] == start);
            }
        }
        let (line, _) = byte_to_line_column(content, start);
        let z: u32 = if line == 0 {
            0
        } else {
            line - 1
        };
        Range { start: Position { line: z, character: 0 }, end: Position { line: z, character: 0 } }
    }
}

/// The headings of a Markdown source, in order: each with its id (the
/// slugs of its enclosing headings, each followed by `--`, then the slug of
/// its own text), its text, its level, its line and its title's range.
pub fn markdown_headings(content: &str) -> (r: Vec<MarkdownHeading>)
    requires
        content@.len() < u32::MAX,
        byte_len(content@) <= usize::MAX,
    ensures
        heading_views(r@) == spec_markdown_headings(content@),
{
    let events = markdown_offset_events(content);
    let ghost ev = event_views(events@);
    let offs = byte_offsets(to_chars(content).as_slice());
    let mut stack: Vec<(u8, String)> = Vec::new();
    let mut current: Option<(u8, usize, String)> = None;
    let mut out: Vec<MarkdownHeading> = Vec::new();
    let mut i: usize = 0;
    while i < events.len()
        invariant
            i <= events.len(),
            content@.len() < u32::MAX,
            byte_len(content@) <= usize::MAX,
            offs@.len() == content@.len() + 1,
            forall|j: int| 0 <= j <= content@.len() ==> #[trigger] offs@[j] == byte_len(content@.take(j)),
            ev == event_views(events@),
            ({
                let st = heading_scan(content@, ev.take(i as int));
                &&& stack@.map_values(|p: (u8, String)| (p.0, p.1@)) == st.0
                &&& match current {
                    Some(c) => st.1 == Some((c.0, c.1 as int, c.2@)),
                    None => st.1 is None,
                }
                &&& heading_views(out@) == st.2
            }),
        decreases events.len() - i,
    {
        let ghost st = heading_scan(content@, ev.take(i as int));
        assert(ev.take(i + 1 as int).drop_last() == ev.take(i as int));
        assert(ev.take(i + 1 as int).last() == ev[i as int]);
        let (event, start, _) = &events[i];
        match event {
            MarkdownEvent::HeadingStart(l) => {
                current = Some((*l, *start, String::new()));
            },
            MarkdownEvent::Text(t) => {
                match current {
                    Some((l, s, text)) => {
                        let mut text = text;
                        text.append(t.as_str());
                        current = Some((l, s, text));
                    },
                    None => {},
                }
            },
            MarkdownEvent::Code(t) => {
                match current {
                    Some((l, s, text)) => {
                        let mut text = text;
                        text.append(t.as_str());
                        current = Some((l, s, text));
                    },
                    None => {},
                }
            },
            MarkdownEvent::HeadingEnd(l) => {
                let level = *l;
                match current {
                    Some((_, byte_start, text)) => {
                        current = None;
                        let slug = slugify(text.as_str());
                        let ghost sv = stack@.map_values(|p: (u8, String)| (p.0, p.1@));
                        while stack.len() > 0 && stack[stack.len() - 1].0 >= level
                            invariant
                                pop_deeper(sv, level) == pop_deeper(
                                    stack@.map_values(|p: (u8, String)| (p.0, p.1@)),
                                    level,
                                ),
                            decreases stack.len(),
                        {
                            let ghost before = stack@;
                            stack.pop();
                            assert(stack@.map_values(|p: (u8, String)| (p.0, p.1@)) =~= before.map_values(
                                |p: (u8, String)| (p.0, p.1@),
                            ).drop_last());
                        }
                        let ghost kept = stack@.map_values(|p: (u8, String)| (p.0, p.1@));
                        assert(pop_deeper(sv, level) == kept);
                        let mut id: Vec<char> = Vec::new();
                        let mut j: usize = 0;
                        while j < stack.len()
                            invariant
                                j <= stack.len(),
                                kept == stack@.map_values(|p: (u8, String)| (p.0, p.1@)),
                                id@ == id_prefix(kept.take(j as int)),
                            decreases stack.len() - j,
                        {
                            assert(kept.take(j + 1 as int).drop_last() == kept.take(j as int));
                            assert(kept.take(j + 1 as int).last() == kept[j as int]);
                            push_str_chars(&mut id, stack[j].1.as_str());
                            push_str_chars(&mut id, "--");
                            proof {
                                reveal_strlit("--");
                            }
                            j = j + 1;
                        }
                        assert(kept.take(stack.len() as int) == kept);
                        push_str_chars(&mut id, slug.as_str());
                        let (line, _) = byte_to_line_column(content, byte_start);
                        let title_range = title_range_exec(content, &offs, byte_start);
                        let ghost sb = stack@;
                        stack.push((level, slug));
                        assert(stack@.map_values(|p: (u8, String)| (p.0, p.1@)) =~= kept.push(
                            (level, marq_slugify(text@)),
                        ));
                        let ghost ob = out@;
                        let h = MarkdownHeading {
                            id: from_chars(id.as_slice()),
                            title: text,
                            level,
                            line,
                            title_range,
                        };
                        out.push(h);
                        assert(heading_views(out@) =~= heading_views(ob).push(heading_view(h)));
                    },
                    None => {},
                }
            },
            _ => {},
        }
        i = i + 1;
    }
    assert(ev.take(events.len() as int) == ev);
    out
}

/// The page has a heading with id `id`.
pub open spec fn page_has_heading(page: AuthoringPage, id: Seq<char>) -> bool {
    exists|k: int| 0 <= k < page.headings@.len() && (#[trigger] page.headings@[k]).id@ == id
}

/// Heading `i` of `hv` is on `line` and known to the page.
pub open spec fn heading_on_line(hv: Seq<HeadingView>, page: AuthoringPage, line: nat, i: int) -> bool {
    0 <= i < hv.len() && hv[i].3 == line && has_str(page.heading_ids@, hv[i].0)
}

/// The id of the first heading of `content` on the line of `position`
/// that the page knows.
pub fn heading_id_at_position(page: &AuthoringPage, content: &str, position: Position) -> (r: Option<String>)
    requires
        content@.len() < u32::MAX,
        byte_len(content@) <= usize::MAX,
    ensures
        ({
            let hv = spec_markdown_headings(content@);
            let line = position.line + 1;
            match r {
                Some(id) => exists|i: int|
                    heading_on_line(hv, *page, line as nat, i) && id@ == hv[i].0 && forall|j: int|
                        0 <= j < i ==> !#[trigger] heading_on_line(hv, *page, line as nat, j),
                None => forall|i: int| !#[trigger] heading_on_line(hv, *page, line as nat, i),
            }
        }),
{
    let headings = markdown_headings(content);
    let ghost hv = spec_markdown_headings(content@);
    let line: u64 = position.line as u64 + 1;
    let mut i: usize = 0;
    while i < headings.len()
        invariant
            i <= headings.len(),
            heading_views(headings@) == hv,
            hv == spec_markdown_headings(content@),
            line == position.line + 1,
            forall|j: int| 0 <= j < i ==> !#[trigger] heading_on_line(hv, *page, line as nat, j),
        decreases headings.len() - i,
    {
        assert(hv[i as int] == heading_view(headings@[i as int]));
        if headings[i].line as u64 == line && contains_str(&page.heading_ids, headings[i].id.as_str()) {
            assert(heading_on_line(hv, *page, line as nat, i as int));
            let id = headings[i].id.clone();
            assert(id@ == hv[i as int].0);
            assert(heading_on_line(hv, *page, (position.line + 1) as nat, i as int) && id@ == hv[i as int].0 && forall|j: int|
                0 <= j < i ==> !#[trigger] heading_on_line(hv, *page, (position.line + 1) as nat, j));
            return Some(id);
        }
        i = i + 1;
    }
    None
}

/// A heading that a rename at a position names: its id, title, line and
/// the range of its title.
pub struct HeadingRenameTarget {
    pub heading_id: String,
    pub title: String,
    pub line: u32,
    pub title_range: Range,
}

/// Heading `i` of `hv` has its title at `position` and is one of the
/// page's headings.
pub open spec fn heading_title_at(hv: Seq<HeadingView>, page: AuthoringPage, position: Position, i: int) -> bool {
    0 <= i < hv.len() && spec_range_contains(hv[i].4, position) && page_has_heading(page, hv[i].0)
}

/// The first heading of `content` whose title holds `position` and that
/// the page has.
pub fn heading_rename_target_at_position(page: &AuthoringPage, content: &str, position: Position) -> (r: Option<
    HeadingRenameTarget,
>)
    requires
        content@.len() < u32::MAX,
        byte_len(content@) <= usize::MAX,
    ensures
        ({
            let hv = spec_markdown_headings(content@);
            match r {
                Some(t) => exists|i: int|
                    heading_title_at(hv, *page, position, i) && t.heading_id@ == hv[i].0 && t.title@ == hv[i].1
                        && t.line as nat == hv[i].3 && t.title_range == hv[i].4 && forall|j: int|
                        0 <= j < i ==> !#[trigger] heading_title_at(hv, *page, position, j),
                None => forall|i: int| !#[trigger] heading_title_at(hv, *page, position, i),
            }
        }),
{
    let headings = markdown_headings(content);
    let ghost hv = spec_markdown_headings(content@);
    let mut i: usize = 0;
    while i < headings.len()
        invariant
            i <= headings.len(),
            heading_views(headings@) == hv,
            hv == spec_markdown_headings(content@),
            forall|j: int| 0 <= j < i ==> !#[trigger] heading_title_at(hv, *page, position, j),
        decreases headings.len() - i,
    {
        let h = &headings[i];
        assert(hv[i as int] == heading_view(headings@[i as int]));
        if range_contains_position(&h.title_range, position) {
            let mut k: usize = 0;
            let mut found = false;
            while k < page.headings.len() && !found
                invariant
                    k <= page.headings.len(),
                    found ==> page_has_heading(*page, h.id@),
                    !found ==> forall|m: int| 0 <= m < k ==> (#[trigger] page.headings@[m]).id@ != h.id@,
                decreases page.headings.len() - k + if found {
                    0int
                } else {
                    1int
                },
            {
                if str_eq(page.headings[k].id.as_str(), h.id.as_str()) {
                    found = true;
                } else {
                    k = k + 1;
                }
            }
            if found {
                assert(heading_title_at(hv, *page, position, i as int));
                let t = HeadingRenameTarget {
                    heading_id: h.id.clone(),
                    title: h.title.clone(),
                    line: h.line,
                    title_range: h.title_range,
                };
                assert(t.heading_id@ == hv[i as int].0 && t.title@ == hv[i as int].1 && t.line as nat == hv[i as int].3
                    && t.title_range == hv[i as int].4);
                return Some(t);
            }
        }
        i = i + 1;
    }
    None
}

/// `content` with the characters `[i, j)` replaced by `text`.
pub open spec fn replaced(content: Seq<char>, i: int, j: int, text: Seq<char>) -> Seq<char> {
    content.take(i) + text + content.skip(j)
}

/// The characters of `content` that the editor range `range` spans, when
/// both its ends are in `content`.
pub open spec fn title_span(content: Seq<char>, range: Range) -> Option<(int, int)> {
    match spec_position_to_char(content, range.start.line as int, range.start.character as int) {
        Some(i) => match spec_position_to_char(content, range.end.line as int, range.end.character as int) {
            Some(j) => Some((i, j)),
            None => None,
        },
        None => None,
    }
}

/// Heading `i` of `hv` is on `line`.
pub open spec fn heading_at_line(hv: Seq<HeadingView>, line: nat, i: int) -> bool {
    0 <= i < hv.len() && hv[i].3 == line
}

/// The id the heading `target` would have once its title is renamed to
/// `new_name`: the id of the first heading on its line after the title's
/// range is replaced; none when the range is not in `content`.
pub fn heading_id_after_rename(content: &str, target: &HeadingRenameTarget, new_name: &str) -> (r: Option<String>)
    requires
        content@.len() + new_name@.len() < u32::MAX,
        byte_len(content@) + byte_len(new_name@) <= usize::MAX,
        match title_span(content@, target.title_range) {
            Some((i, j)) => i <= j,
            None => true,
        },
    ensures
        match title_span(content@, target.title_range) {
            Some((i, j)) => {
                let hv = spec_markdown_headings(replaced(content@, i, j, new_name@));
                match r {
                    Some(id) => exists|k: int|
                        heading_at_line(hv, target.line as nat, k) && id@ == hv[k].0 && forall|m: int|
                            0 <= m < k ==> !#[trigger] heading_at_line(hv, target.line as nat, m),
                    None => forall|k: int| !#[trigger] heading_at_line(hv, target.line as nat, k),
                }
            },
            None => r is None,
        },
{
    proof {
        crate::positions::lemma_byte_len_bound(content@);
    }
    let start = match position_to_byte_offset(content, target.title_range.start) {
        Some(b) => b,
        None => return None,
    };
    let end = match position_to_byte_offset(content, target.title_range.end) {
        Some(b) => b,
        None => return None,
    };
    let ghost i = spec_position_to_char(content@, target.title_range.start.line as int, target.title_range.start.character as int)->0;
    let ghost j = spec_position_to_char(content@, target.title_range.end.line as int, target.title_range.end.character as int)->0;
    let v = to_chars(content);
    let offs = byte_offsets(v.as_slice());
    proof {
        crate::frontmatter_links::lemma_position_to_char_bounds(content@, target.title_range.start.line as int, target.title_range.start.character as int);
        crate::frontmatter_links::lemma_position_to_char_bounds(content@, target.title_range.end.line as int, target.title_range.end.character as int);
    }
    let mut a: usize = 0;
    while a < v.len() && offs[a] != start
        invariant
            a <= v.len(),
            v@ == content@,
            offs@.len() == v@.len() + 1,
            forall|x: int| 0 <= x <= v@.len() ==> #[trigger] offs@[x] == byte_len(v@.take(x)),
            forall|x: int| 0 <= x < a ==> byte_len(v@.take(x)) != start,
        decreases v.len() - a,
    {
        a = a + 1;
    }
    let mut b: usize = 0;
    while b < v.len() && offs[b] != end
        invariant
            b <= v.len(),
            v@ == content@,
            offs@.len() == v@.len() + 1,
            forall|x: int| 0 <= x <= v@.len() ==> #[trigger] offs@[x] == byte_len(v@.take(x)),
            forall|x: int| 0 <= x < b ==> byte_len(v@.take(x)) != end,
        decreases v.len() - b,
    {
        b = b + 1;
    }
    proof {
        assert(byte_len(v@.take(i)) == start);
        assert(byte_len(v@.take(j)) == end);
        crate::frontmatter_links::lemma_char_offsets_ordered(v@, i, a as int);
        crate::frontmatter_links::lemma_char_offsets_ordered(v@, j, b as int);
        if offs@[a as int] != start {
            assert(i < a || i == a);
        }
        assert(a == i);
        assert(b == j);
    }
    let mut w = sub_chars(v.as_slice(), 0, a);
    push_str_chars(&mut w, new_name);
    let tail = sub_chars(v.as_slice(), b, v.len());
    let mut k: usize = 0;
    while k < tail.len()
        invariant
            k <= tail.len(),
            w@ == content@.take(i) + new_name@ + tail@.take(k as int),
        decreases tail.len() - k,
    {
        w.push(tail[k]);
        assert(tail@.take(k + 1 as int) == tail@.take(k as int).push(tail@[k as int]));
        k = k + 1;
    }
    assert(tail@.take(tail.len() as int) == tail@);
    assert(tail@ == content@.skip(j));
    let renamed = from_chars(w.as_slice());
    let ghost rv = replaced(content@, i, j, new_name@);
    assert(renamed@ == rv);
    proof {
        lemma_replaced_fits(content@, i, j, new_name@);
    }
    let headings = markdown_headings(renamed.as_str());
    let ghost hv = spec_markdown_headings(rv);
    let mut n: usize = 0;
    while n < headings.len()
        invariant
            n <= headings.len(),
            heading_views(headings@) == hv,
            hv == spec_markdown_headings(replaced(content@, i, j, new_name@)),
            title_span(content@, target.title_range) == Some((i, j)),
            spec_position_to_char(content@, target.title_range.start.line as int, target.title_range.start.character as int) == Some(i),
            spec_position_to_char(content@, target.title_range.end.line as int, target.title_range.end.character as int) == Some(j),
            forall|m: int| 0 <= m < n ==> !#[trigger] heading_at_line(hv, target.line as nat, m),
        decreases headings.len() - n,
    {
        assert(hv[n as int] == heading_view(headings@[n as int]));
        if headings[n].line == target.line {
            let id = headings[n].id.clone();
            assert(heading_at_line(hv, target.line as nat, n as int) && id@ == hv[n as int].0 && forall|m: int|
                0 <= m < n ==> !#[trigger] heading_at_line(hv, target.line as nat, m));
            let r = Some(id);
            let ghost sp = title_span(content@, target.title_range)->0;
            assert(sp.0 == i && sp.1 == j);
            assert(spec_markdown_headings(replaced(content@, sp.0, sp.1, new_name@)) == hv);
            return r;
        }
        n = n + 1;
    }
    None
}

proof fn lemma_replaced_fits(content: Seq<char>, i: int, j: int, text: Seq<char>)
    requires
        0 <= i <= j <= content.len(),
        content.len() + text.len() < u32::MAX,
        byte_len(content) + byte_len(text) <= usize::MAX,
    ensures
        replaced(content, i, j, text).len() < u32::MAX,
        byte_len(replaced(content, i, j, text)) <= usize::MAX,
{
    let r = replaced(content, i, j, text);
    crate::frontmatter_links::lemma_byte_len_split(content, i, content.len() as int);
    assert(content.take(content.len() as int) == content);
    lemma_byte_len_concat(content.take(i), text);
    lemma_byte_len_concat(content.take(i) + text, content.skip(j));
    crate::frontmatter_links::lemma_byte_len_split(content, j, content.len() as int);
    crate::positions::lemma_byte_len_take_mono(content, i, j);
    assert(content.subrange(j, content.len() as int) == content.skip(j));
    assert(content.subrange(i, content.len() as int).len() >= 0);
}

proof fn lemma_byte_len_concat(a: Seq<char>, b: Seq<char>)
    ensures
        byte_len(a + b) == byte_len(a) + byte_len(b),
    decreases b.len(),
{
    if b.len() == 0 {
        assert(a + b =~= a);
    } else {
        lemma_byte_len_concat(a, b.drop_last());
        assert((a + b).drop_last() =~= a + b.drop_last());
        assert((a + b).last() == b.last());
    }
}

} // verus!

verus! {

// ---------------------------------------------------------------------------
// How heading ids nest
// ---------------------------------------------------------------------------

/// Each id is its heading's slug, preceded, when an earlier heading has a
/// lower level, by the id of the last such heading and `--`.
pub open spec fn heading_ids_nest(hv: Seq<HeadingView>) -> bool {
    &&& forall|i: int|
        0 <= i < hv.len() && (forall|j: int| 0 <= j < i ==> hv[j].2 >= hv[i].2) ==> #[trigger] hv[i].0
            == marq_slugify(hv[i].1)
    &&& forall|i: int, j: int|
        #![trigger hv[i].0, hv[j].0]
        0 <= j < i < hv.len() && hv[j].2 < hv[i].2 && (forall|m: int| j < m < i ==> hv[m].2 >= hv[i].2)
            ==> hv[i].0 == hv[j].0 + "--"@ + marq_slugify(hv[i].1)
}

/// What the scan keeps true: the enclosing headings have increasing levels;
/// each is the heading at `idx[k]`, whose id followed by `--` is the prefix
/// the stack gives up to it; every heading after it is deeper than the
/// next enclosing one; the top is the last heading read; and no heading is
/// shallower than the outermost enclosing one.
spec fn scan_inv(st: HeadingScan, idx: Seq<int>) -> bool {
    let s = st.0;
    let hv = st.2;
    &&& idx.len() == s.len()
    &&& (s.len() == 0 ==> hv.len() == 0)
    &&& (s.len() > 0 ==> idx[s.len() - 1] == hv.len() - 1)
    &&& forall|a: int, b: int| 0 <= a < b < s.len() ==> #[trigger] s[a].0 < #[trigger] s[b].0
    &&& forall|k: int|
        0 <= k < s.len() ==> 0 <= #[trigger] idx[k] < hv.len() && hv[idx[k]].2 == s[k].0 && hv[idx[k]].0
            + "--"@ == id_prefix(s.take(k + 1))
    &&& forall|k: int, m: int|
        #![trigger idx[k], hv[m]]
        0 <= k && k + 1 < s.len() && idx[k] < m < hv.len() ==> hv[m].2 >= s[k + 1].0
    &&& (s.len() > 0 ==> forall|m: int| 0 <= m < hv.len() ==> #[trigger] hv[m].2 >= s[0].0)
    &&& heading_ids_nest(hv)
}

/// On enclosing headings of increasing levels, a heading of level `l`
/// keeps exactly those of a lower level, a prefix of the stack.
proof fn lemma_pop_deeper(s: Seq<(u8, Seq<char>)>, l: u8) -> (c: int)
    requires
        forall|a: int, b: int| 0 <= a < b < s.len() ==> #[trigger] s[a].0 < #[trigger] s[b].0,
    ensures
        0 <= c <= s.len(),
        pop_deeper(s, l) == s.take(c),
        forall|k: int| 0 <= k < c ==> #[trigger] s[k].0 < l,
        forall|k: int| c <= k < s.len() ==> #[trigger] s[k].0 >= l,
    decreases s.len(),
{
    if s.len() > 0 && s.last().0 >= l {
        let d = s.drop_last();
        assert forall|a: int, b: int| 0 <= a < b < d.len() implies #[trigger] d[a].0 < #[trigger] d[b].0 by {
            assert(d[a] == s[a] && d[b] == s[b]);
        }
        let c = lemma_pop_deeper(d, l);
        assert(d.take(c) =~= s.take(c));
        assert forall|k: int| c <= k < s.len() implies #[trigger] s[k].0 >= l by {
            if k < s.len() - 1 {
                assert(s[k] == d[k]);
            }
        }
        assert forall|k: int| 0 <= k < c implies #[trigger] s[k].0 < l by {
            assert(s[k] == d[k]);
        }
        c
    } else {
        assert(s.take(s.len() as int) =~= s);
        assert forall|k: int| 0 <= k < s.len() implies #[trigger] s[k].0 < l by {
            if k < s.len() - 1 {
                assert(s[k].0 < s[s.len() - 1].0);
            }
        }
        s.len() as int
    }
}

/// The end of a heading keeps the scan's invariant.
#[verifier::rlimit(40)]
proof fn lemma_scan_heading_end(
    content: Seq<char>,
    st: HeadingScan,
    idx: Seq<int>,
    e: (EventView, int, int),
    l: u8,
    c: (u8, int, Seq<char>),
) -> (idx2: Seq<int>)
    requires
        scan_inv(st, idx),
        e.0 == EventView::HeadingEnd(l),
        st.1 == Some(c),
    ensures
        scan_inv(heading_scan_step(content, st, e), idx2),
{
    let s = st.0;
    let hv = st.2;
    let n = hv.len() as int;
    let slug = marq_slugify(c.2);
    let cnt = lemma_pop_deeper(s, l);
    let kept = s.take(cnt);
    let s2 = kept.push((l, slug));
    let newh: HeadingView = (id_prefix(kept) + slug, c.2, l, heading_line(content, c.1), title_range_at(content, c.1));
    let hv2 = hv.push(newh);
    let st2 = heading_scan_step(content, st, e);
    assert(st2.0 == s2);
    assert(st2.2 == hv2);
    let idx2 = idx.take(cnt).push(n);
    assert forall|j: int| 0 <= j < n implies #[trigger] hv2[j] == hv[j] by {}
    assert(hv2[n] == newh);
    assert forall|k: int| 0 <= k < cnt implies #[trigger] s2[k] == s[k] by {}
    assert(s2[cnt] == (l, slug));
    // Levels increase along the new stack.
    assert forall|a: int, b: int| 0 <= a < b < s2.len() implies #[trigger] s2[a].0 < #[trigger] s2[b].0 by {
        if b < cnt {
            assert(s[a].0 < s[b].0);
        }
    }
    // Each enclosing heading and its prefix.
    assert forall|k: int| 0 <= k < s2.len() implies 0 <= #[trigger] idx2[k] < hv2.len() && hv2[idx2[k]].2
        == s2[k].0 && hv2[idx2[k]].0 + "--"@ == id_prefix(s2.take(k + 1)) by {
        if k < cnt {
            assert(idx2[k] == idx[k]);
            assert(s2.take(k + 1) =~= s.take(k + 1));
        } else {
            assert(s2.take(k + 1) =~= s2);
            assert(s2.drop_last() =~= kept);
            assert(id_prefix(s2) == id_prefix(kept) + slug + "--"@);
        }
    }
    // Headings after an enclosing one are deeper than the next one.
    assert forall|k: int, m: int|
        #![trigger idx2[k], hv2[m]]
        0 <= k && k + 1 < s2.len() && idx2[k] < m < hv2.len() implies hv2[m].2 >= s2[k + 1].0 by {
        assert(idx2[k] == idx[k]);
        if m < n {
            if k + 1 < cnt {
                assert(hv[m].2 >= s[k + 1].0);
            } else if cnt < s.len() {
                assert(hv[m].2 >= s[k + 1].0);
                assert(s[cnt].0 >= l);
            } else {
                assert(idx[s.len() - 1] == n - 1);
            }
        } else {
            if k + 1 < cnt {
                assert(s[k + 1].0 < l);
            }
        }
    }
    // No heading is shallower than the outermost enclosing one.
    assert forall|m: int| 0 <= m < hv2.len() implies #[trigger] hv2[m].2 >= s2[0].0 by {
        if m < n {
            assert(s.len() > 0);
            assert(hv[m].2 >= s[0].0);
            if cnt == 0 {
                assert(s[0].0 >= l);
            }
        } else if cnt > 0 {
            assert(s[0].0 < l);
        }
    }
    // The new heading's id.
    assert forall|i: int|
        0 <= i < hv2.len() && (forall|j: int| 0 <= j < i ==> hv2[j].2 >= hv2[i].2) implies #[trigger] hv2[i].0
        == marq_slugify(hv2[i].1) by {
        if i < n {
            assert forall|j: int| 0 <= j < i implies hv[j].2 >= hv[i].2 by {
                assert(hv2[j] == hv[j]);
            }
            assert(hv[i].0 == marq_slugify(hv[i].1));
        } else {
            if cnt > 0 {
                let jj = idx[cnt - 1];
                assert(hv2[jj].2 >= hv2[n].2);
                assert(s[cnt - 1].0 < l);
                assert(false);
            }
            assert(kept =~= Seq::<(u8, Seq<char>)>::empty());
            assert(id_prefix(kept) + slug =~= slug);
        }
    }
    assert forall|i: int, j: int|
        #![trigger hv2[i].0, hv2[j].0]
        0 <= j < i < hv2.len() && hv2[j].2 < hv2[i].2 && (forall|m: int| j < m < i ==> hv2[m].2 >= hv2[i].2)
            implies hv2[i].0 == hv2[j].0 + "--"@ + marq_slugify(hv2[i].1) by {
        if i < n {
            assert forall|m: int| j < m < i implies hv[m].2 >= hv[i].2 by {
                assert(hv2[m] == hv[m]);
            }
            assert(hv[i].0 == hv[j].0 + "--"@ + marq_slugify(hv[i].1));
        } else {
            assert(hv[j].2 < l);
            if cnt == 0 {
                assert(s.len() > 0);
                assert(hv[j].2 >= s[0].0);
                assert(false);
            }
            let jj = idx[cnt - 1];
            assert(hv[jj].2 == s[cnt - 1].0);
            assert(s[cnt - 1].0 < l);
            if j < jj {
                assert(hv2[jj].2 >= hv2[n].2);
                assert(false);
            }
            if j > jj {
                if cnt < s.len() {
                    assert(hv[j].2 >= s[cnt].0);
                    assert(s[cnt].0 >= l);
                } else {
                    assert(idx[s.len() - 1] == n - 1);
                }
                assert(false);
            }
            assert(s.take(cnt) =~= kept);
            assert(hv[jj].0 + "--"@ == id_prefix(kept));
            assert(newh.0 =~= hv[j].0 + "--"@ + slug);
        }
    }
    idx2
}

/// The scan keeps its invariant over any events.
proof fn lemma_heading_scan_inv(content: Seq<char>, evs: Seq<(EventView, int, int)>) -> (idx: Seq<int>)
    ensures
        scan_inv(heading_scan(content, evs), idx),
    decreases evs.len(),
{
    if evs.len() == 0 {
        Seq::empty()
    } else {
        let idx0 = lemma_heading_scan_inv(content, evs.drop_last());
        let st = heading_scan(content, evs.drop_last());
        let e = evs.last();
        let st2 = heading_scan_step(content, st, e);
        assert(heading_scan(content, evs) == st2);
        match e.0 {
            EventView::HeadingEnd(l) => match st.1 {
                Some(c) => lemma_scan_heading_end(content, st, idx0, e, l, c),
                None => idx0,
            },
            _ => {
                assert(st2.0 == st.0 && st2.2 == st.2);
                idx0
            },
        }
    }
}

/// Heading ids nest under the headings that enclose them: the id of each
/// heading is its slug, preceded by the id of the last earlier heading of a
/// lower level and `--`; with no earlier heading of a lower level, it is
/// the slug alone. A heading of the same or a higher level than an earlier
/// one never carries that heading's id.
pub proof fn law_heading_ids_nest_under_lower_headings(content: Seq<char>)
    ensures
        forall|i: int|
            0 <= i < spec_markdown_headings(content).len() && (forall|j: int|
                0 <= j < i ==> spec_markdown_headings(content)[j].2 >= spec_markdown_headings(
                    content,
                )[i].2) ==> #[trigger] spec_markdown_headings(content)[i].0 == marq_slugify(
                spec_markdown_headings(content)[i].1,
            ),
        forall|i: int, j: int|
            #![trigger spec_markdown_headings(content)[i].0, spec_markdown_headings(content)[j].0]
            0 <= j < i < spec_markdown_headings(content).len() && spec_markdown_headings(content)[j].2
                < spec_markdown_headings(content)[i].2 && (forall|m: int|
                j < m < i ==> spec_markdown_headings(content)[m].2 >= spec_markdown_headings(
                    content,
                )[i].2) ==> spec_markdown_headings(content)[i].0 == spec_markdown_headings(content)[j].0
                + "--"@ + marq_slugify(spec_markdown_headings(content)[i].1),
{
    lemma_heading_scan_inv(content, pulldown_offset_events(content));
}

/// A heading's title is the text and inline code read between its start
/// and its end, in order: after any events that leave no heading open, a
/// heading start of level `l`, a text `a`, an inline code `b` and the
/// heading's end add exactly one heading, titled `a` followed by `b`, of
/// level `l`, on the line where the heading starts, and leave no heading
/// open.
pub proof fn law_heading_title_is_its_text_and_code(
    content: Seq<char>,
    evs: Seq<(EventView, int, int)>,
    l: u8,
    start: int,
    a: (Seq<char>, int, int),
    b: (Seq<char>, int, int),
    end: (int, int),
)
    requires
        heading_scan(content, evs).1 is None,
    ensures
        ({
            let more = evs + seq![
                (EventView::HeadingStart(l), start, start),
                (EventView::Text(a.0), a.1, a.2),
                (EventView::Code(b.0), b.1, b.2),
                (EventView::HeadingEnd(l), end.0, end.1),
            ];
            let before = heading_scan(content, evs).2;
            let after = heading_scan(content, more).2;
            &&& heading_scan(content, more).1 is None
            &&& after.len() == before.len() + 1
            &&& after.take(before.len() as int) == before
            &&& after.last().1 == a.0 + b.0
            &&& after.last().2 == l
            &&& after.last().3 == heading_line(content, start)
        }),
{
    let e1 = (EventView::HeadingStart(l), start, start);
    let e2 = (EventView::Text(a.0), a.1, a.2);
    let e3 = (EventView::Code(b.0), b.1, b.2);
    let e4 = (EventView::HeadingEnd(l), end.0, end.1);
    let s1 = evs.push(e1);
    let s2 = s1.push(e2);
    let s3 = s2.push(e3);
    let s4 = s3.push(e4);
    assert(s1.drop_last() =~= evs);
    assert(s2.drop_last() =~= s1);
    assert(s3.drop_last() =~= s2);
    assert(s4.drop_last() =~= s3);
    assert(evs + seq![e1, e2, e3, e4] =~= s4);
    let st0 = heading_scan(content, evs);
    assert(heading_scan(content, s1) == (st0.0, Some((l, start, Seq::<char>::empty())), st0.2));
    assert(heading_scan(content, s2) == (st0.0, Some((l, start, Seq::<char>::empty() + a.0)), st0.2));
    assert(Seq::<char>::empty() + a.0 =~= a.0);
    assert(heading_scan(content, s3) == (st0.0, Some((l, start, a.0 + b.0)), st0.2));
    let st4 = heading_scan(content, s4);
    assert(st4.2 == st0.2.push(
        (
            id_prefix(pop_deeper(st0.0, l)) + marq_slugify(a.0 + b.0),
            a.0 + b.0,
            l,
            heading_line(content, start),
            title_range_at(content, start),
        ),
    ));
    assert(st4.2.take(st0.2.len() as int) =~= st0.2);
}

} // verus!
