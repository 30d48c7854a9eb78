//! Why a `[table]` section added at the end of a page's frontmatter adds no
//! frontmatter findings: its entries all belong to a table, and the lines
//! before it are read as before.
use vstd::prelude::*;

use crate::frontmatter::{
    close_fence, fm_findings, fm_scan, is_key_run, key_run, lemma_comment_from_bound,
    lemma_key_run, line_end, open_fence, spec_comment_start, spec_entry_for_line, spec_fm_block,
    spec_frontmatter_entries, spec_frontmatter_findings, spec_table_name, top_level_entries,
    EntryView,
};
use crate::text::{
    first_index, is_first_char, is_first_char_in, is_first_occurrence, is_ws, is_ws_prefix_len,
    is_ws_suffix_len, lemma_first_index, lemma_ws_prefix_len, lemma_ws_suffix_len, occurs_at,
    trim, ws_prefix_len, ws_suffix_len,
};

verus! {

/// Every text has a longest whitespace prefix.
pub proof fn lemma_ws_prefix_exists(s: Seq<char>)
    ensures
        is_ws_prefix_len(s, ws_prefix_len(s)),
    decreases s.len(),
{
    if s.len() == 0 || !is_ws(s[0]) {
        lemma_ws_prefix_len(s, 0);
    } else {
        let d = s.drop_first();
        lemma_ws_prefix_exists(d);
        let k = ws_prefix_len(d);
        assert forall|j: int| 0 <= j < k + 1 implies is_ws(#[trigger] s[j]) by {
            if j > 0 {
                assert(s[j] == d[j - 1]);
            }
        }
        if k + 1 < s.len() {
            assert(s[k + 1] == d[k]);
        }
        assert(is_ws_prefix_len(s, k + 1));
        lemma_ws_prefix_len(s, k + 1);
    }
}

/// Every text has a longest whitespace suffix.
pub proof fn lemma_ws_suffix_exists(s: Seq<char>)
    ensures
        is_ws_suffix_len(s, ws_suffix_len(s)),
    decreases s.len(),
{
    if s.len() == 0 || !is_ws(s.last()) {
        lemma_ws_suffix_len(s, 0);
    } else {
        let d = s.drop_last();
        lemma_ws_suffix_exists(d);
        let k = ws_suffix_len(d);
        assert forall|j: int| s.len() - (k + 1) <= j < s.len() implies is_ws(#[trigger] s[j]) by {
            if j < s.len() - 1 {
                assert(s[j] == d[j]);
            }
        }
        if k + 1 < s.len() {
            assert(s[s.len() - (k + 1) - 1] == d[d.len() - k - 1]);
        }
        assert(is_ws_suffix_len(s, k + 1));
        lemma_ws_suffix_len(s, k + 1);
    }
}

/// Every position of a line starts a run of key characters.
pub proof fn lemma_key_run_exists(l: Seq<char>, a: int)
    requires
        0 <= a <= l.len(),
    ensures
        is_key_run(l, a, key_run(l, a)),
    decreases l.len() - a,
{
    if a == l.len() || !crate::frontmatter::is_key_char(l[a]) {
        lemma_key_run(l, a, 0);
    } else {
        lemma_key_run_exists(l, a + 1);
        let n = key_run(l, a + 1);
        assert(is_key_run(l, a, n + 1));
        lemma_key_run(l, a, n + 1);
    }
}

/// An entry lies within its line.
pub proof fn lemma_entry_within_line(s: Seq<char>, ls: int, le: int)
    requires
        0 <= ls <= le <= s.len(),
    ensures
        spec_entry_for_line(s, ls, le) matches Some(e) ==> ls <= e.0 <= e.1 <= le && ls <= e.2
            <= e.3 <= le,
{
    let line = s.subrange(ls, le);
    lemma_ws_prefix_exists(line);
    let k0 = ws_prefix_len(line);
    if k0 < line.len() {
        lemma_key_run_exists(line, k0);
        let n = key_run(line, k0);
        let after = k0 + n;
        if n != 0 {
            let rest = line.skip(after);
            if exists|i: int| is_first_char_in(rest, '=', i) {
                let j = choose|i: int| is_first_char_in(rest, '=', i);
                lemma_first_index(rest, '=', j);
                let eq = after + j;
                let tail = line.skip(eq + 1);
                lemma_ws_prefix_exists(tail);
                let vs = eq + 1 + ws_prefix_len(tail);
                let cs = line.skip(vs);
                lemma_comment_from_bound(cs, 0, false, '\0', false);
                let ve0 = match spec_comment_start(cs) {
                    Some(o) => vs + o,
                    None => line.len() as int,
                };
                lemma_ws_suffix_exists(line.take(ve0));
            }
        }
    }
}


/// The entries found between `ls` and `end` lie there.
pub open spec fn entries_within(es: Seq<EntryView>, lo: int, hi: int) -> bool {
    forall|i: int|
        0 <= i < es.len() ==> lo <= (#[trigger] es[i]).0 <= es[i].1 <= hi && lo <= es[i].2
            <= es[i].3 <= hi
}

/// Every entry of the lines between `ls` and `end` lies there.
pub proof fn lemma_scan_within(s: Seq<char>, ls: int, end: int, table: Option<Seq<char>>)
    requires
        0 <= ls,
        end <= s.len(),
    ensures
        entries_within(fm_scan(s, ls, end, table), ls, end),
    decreases end + 1 - ls,
{
    if !(ls >= end || ls < 0 || end > s.len()) {
        let le = line_end(s, ls, end);
        if !(le < ls || le > end) {
            let tr = trim(s.subrange(ls, le));
            lemma_entry_within_line(s, ls, le);
            match spec_table_name(tr) {
                Some(t) => {
                    lemma_scan_within(s, le + 1, end, Some(t));
                },
                None => {
                    lemma_scan_within(s, le + 1, end, table);
                },
            }
        }
    }
}

/// Once a table is in effect, every entry belongs to a table.
pub proof fn lemma_scan_in_tables(s: Seq<char>, ls: int, end: int, table: Option<Seq<char>>)
    requires
        table is Some,
    ensures
        forall|i: int|
            0 <= i < fm_scan(s, ls, end, table).len() ==> (#[trigger] fm_scan(s, ls, end, table)[i]).4 is Some,
    decreases end + 1 - ls,
{
    if !(ls >= end || ls < 0 || end > s.len()) {
        let le = line_end(s, ls, end);
        if !(le < ls || le > end) {
            let tr = trim(s.subrange(ls, le));
            match spec_table_name(tr) {
                Some(t) => {
                    lemma_scan_in_tables(s, le + 1, end, Some(t));
                },
                None => {
                    lemma_scan_in_tables(s, le + 1, end, table);
                },
            }
        }
    }
}

/// Entries that all belong to a table add no top-level entries.
pub proof fn lemma_top_level_append(a: Seq<EntryView>, b: Seq<EntryView>)
    requires
        forall|i: int| 0 <= i < b.len() ==> (#[trigger] b[i]).4 is Some,
    ensures
        top_level_entries(a + b) == top_level_entries(a),
    decreases a.len() + b.len(),
{
    if a.len() == 0 {
        assert(a + b =~= b);
        if b.len() > 0 {
            assert(b[0].4 is Some);
            assert forall|i: int| 0 <= i < b.drop_first().len() implies (#[trigger] b.drop_first()[i]).4 is Some by {
                assert(b.drop_first()[i] == b[i + 1]);
            }
            lemma_top_level_append(a, b.drop_first());
            assert(a + b.drop_first() =~= b.drop_first());
        }
    } else {
        assert((a + b).drop_first() =~= a.drop_first() + b);
        assert((a + b)[0] == a[0]);
        lemma_top_level_append(a.drop_first(), b);
    }
}

/// The findings of entries lying within the first `hi` characters depend
/// on those characters only.
pub proof fn lemma_findings_local(
    s1: Seq<char>,
    s2: Seq<char>,
    es: Seq<EntryView>,
    seen: Set<Seq<char>>,
    hi: int,
)
    requires
        0 <= hi <= s1.len(),
        hi <= s2.len(),
        s1.take(hi) == s2.take(hi),
        entries_within(es, 0, hi),
    ensures
        fm_findings(s1, es, seen) == fm_findings(s2, es, seen),
    decreases es.len(),
{
    if es.len() > 0 {
        let e = es[0];
        assert(e == es[0]);
        assert(s1.subrange(e.0, e.1) =~= s1.take(hi).subrange(e.0, e.1));
        assert(s2.subrange(e.0, e.1) =~= s2.take(hi).subrange(e.0, e.1));
        assert(s1.subrange(e.2, e.3) =~= s1.take(hi).subrange(e.2, e.3));
        assert(s2.subrange(e.2, e.3) =~= s2.take(hi).subrange(e.2, e.3));
        let rest = es.drop_first();
        assert forall|i: int| 0 <= i < rest.len() implies 0 <= (#[trigger] rest[i]).0 <= rest[i].1 <= hi
            && 0 <= rest[i].2 <= rest[i].3 <= hi by {
            assert(rest[i] == es[i + 1]);
        }
        let key = s1.subrange(e.0, e.1);
        lemma_findings_local(s1, s2, rest, seen, hi);
        lemma_findings_local(s1, s2, rest, seen.insert(key), hi);
    }
}


/// The top-level entries of `es` are entries of `es`.
pub proof fn lemma_top_level_within(es: Seq<EntryView>, lo: int, hi: int)
    requires
        entries_within(es, lo, hi),
    ensures
        entries_within(top_level_entries(es), lo, hi),
    decreases es.len(),
{
    if es.len() > 0 {
        let rest = es.drop_first();
        assert forall|i: int| 0 <= i < rest.len() implies lo <= (#[trigger] rest[i]).0 <= rest[i].1
            <= hi && lo <= rest[i].2 <= rest[i].3 <= hi by {
            assert(rest[i] == es[i + 1]);
        }
        lemma_top_level_within(rest, lo, hi);
        if es[0].4 is None {
            let tl = top_level_entries(es);
            assert(tl == seq![es[0]] + top_level_entries(rest));
            assert forall|i: int| 0 <= i < tl.len() implies lo <= (#[trigger] tl[i]).0 <= tl[i].1 <= hi
                && lo <= tl[i].2 <= tl[i].3 <= hi by {
                if i > 0 {
                    assert(tl[i] == top_level_entries(rest)[i - 1]);
                }
            }
        }
    }
}

/// Where `c` occurs in `x`, it has a first occurrence.
pub proof fn lemma_first_char_exists(x: Seq<char>, c: char, k: int)
    requires
        0 <= k < x.len(),
        x[k] == c,
    ensures
        exists|i: int| is_first_char_in(x, c, i),
    decreases k,
{
    if exists|j: int| 0 <= j < k && x[j] == c {
        let j = choose|j: int| 0 <= j < k && x[j] == c;
        lemma_first_char_exists(x, c, j);
    } else {
        assert(is_first_char_in(x, c, k));
    }
}

/// The text of nothing, trimmed, is nothing.
pub proof fn lemma_trim_empty()
    ensures
        trim(Seq::<char>::empty()).len() == 0,
{
    let e = Seq::<char>::empty();
    lemma_ws_prefix_len(e, 0);
    assert(e.skip(0) =~= e);
    lemma_ws_suffix_len(e, 0);
}

/// Reading the page `h + ins + "\n+++" + t` from `ls` within `h` gives what
/// reading `h + "\n+++" + t` gives up to the end of `h`, followed by what
/// the lines of `ins` after its first newline give under some table.
pub proof fn lemma_scan_split(
    h: Seq<char>,
    ins: Seq<char>,
    t: Seq<char>,
    ls: int,
    table: Option<Seq<char>>,
)
    requires
        ins.len() > 0,
        ins[0] == '\n',
        0 <= ls <= h.len() + 1,
    ensures
        exists|tt: Option<Seq<char>>|
            fm_scan(h + ins + close_fence() + t, ls, (h.len() + ins.len()) as int, table) == fm_scan(
                h + close_fence() + t,
                ls,
                h.len() as int,
                table,
            ) + #[trigger] fm_scan(h + ins + close_fence() + t, (h.len() + 1) as int, (h.len() + ins.len()) as int, tt),
    decreases h.len() + 1 - ls,
{
    let c1 = h + close_fence() + t;
    let c2 = h + ins + close_fence() + t;
    let hl = h.len() as int;
    let e2 = hl + ins.len();
    let empty = Seq::<EntryView>::empty();
    if ls == hl + 1 {
        assert(fm_scan(c1, ls, hl, table) == empty);
        assert(fm_scan(c2, ls, e2, table) == empty + fm_scan(c2, hl + 1, e2, table));
    } else if ls == hl {
        assert(c2.subrange(hl, e2) =~= ins);
        assert(is_first_char_in(ins, '\n', 0));
        lemma_first_index(ins, '\n', 0);
        assert(line_end(c2, ls, e2) == hl);
        assert(c2.subrange(hl, hl) =~= Seq::<char>::empty());
        lemma_trim_empty();
        assert(fm_scan(c1, ls, hl, table) == empty);
        assert(fm_scan(c2, ls, e2, table) == empty + fm_scan(c2, hl + 1, e2, table));
    } else {
        let x = h.subrange(ls, hl);
        assert(c1.subrange(ls, hl) =~= x);
        assert(c2.subrange(ls, e2) =~= x + ins);
        let le = line_end(c1, ls, hl);
        if exists|i: int| is_first_char_in(x, '\n', i) {
            let j = choose|i: int| is_first_char_in(x, '\n', i);
            lemma_first_index(x, '\n', j);
            assert(is_first_char_in(x + ins, '\n', j));
            lemma_first_index(x + ins, '\n', j);
            assert(le == ls + j);
        } else {
            assert forall|k: int| 0 <= k < x.len() implies x[k] != '\n' by {
                if x[k] == '\n' {
                    lemma_first_char_exists(x, '\n', k);
                }
            }
            assert(is_first_char_in(x + ins, '\n', x.len() as int));
            lemma_first_index(x + ins, '\n', x.len() as int);
            assert(le == hl);
        }
        assert(line_end(c2, ls, e2) == le);
        assert(ls <= le <= hl);
        assert(c1.subrange(ls, le) =~= c2.subrange(ls, le));
        assert(spec_entry_for_line(c1, ls, le) == spec_entry_for_line(c2, ls, le));
        let tr = trim(c1.subrange(ls, le));
        match spec_table_name(tr) {
            Some(tn) => {
                lemma_scan_split(h, ins, t, le + 1, Some(tn));
            },
            None => {
                lemma_scan_split(h, ins, t, le + 1, table);
                let tt = choose|tt: Option<Seq<char>>|
                    fm_scan(c2, le + 1, e2, table) == fm_scan(c1, le + 1, hl, table) + #[trigger] fm_scan(
                        c2,
                        hl + 1,
                        e2,
                        tt,
                    );
                let r1 = fm_scan(c1, le + 1, hl, table);
                let tl = fm_scan(c2, hl + 1, e2, tt);
                if tr.len() > 0 && tr[0] != '#' {
                    match spec_entry_for_line(c1, ls, le) {
                        Some(e) => {
                            let en = (e.0, e.1, e.2, e.3, table);
                            assert(seq![en] + (r1 + tl) =~= (seq![en] + r1) + tl);
                        },
                        None => {},
                    }
                }
                assert(fm_scan(c2, ls, e2, table) == fm_scan(c1, ls, hl, table) + tl);
            },
        }
    }
}


/// The frontmatter of a page `h + ins + "\n+++" + t`, where `h` opens the
/// frontmatter and holds no `\n+++` after its fence and `ins` holds no `+`,
/// is everything between the fence and that `\n+++`.
pub proof fn lemma_block_end(h: Seq<char>, ins: Seq<char>, t: Seq<char>)
    requires
        h.len() >= 4,
        h.take(4) == open_fence(),
        forall|j: int| 4 <= j && j + 4 <= h.len() ==> !occurs_at(h, close_fence(), j),
        ins.len() == 0 || ins[0] == '\n',
        forall|j: int| 0 <= j < ins.len() ==> ins[j] != '+',
    ensures
        spec_fm_block(h + ins + close_fence() + t) == Some((4int, (h.len() + ins.len()) as int)),
{
    let s = h + ins + close_fence() + t;
    let hl = h.len() as int;
    let e = hl + ins.len();
    assert(s.subrange(0, 4) =~= h.take(4));
    assert(s.subrange(e, e + 4) =~= close_fence());
    let cf = close_fence();
    assert(cf[0] == '\n' && cf[1] == '+' && cf[2] == '+' && cf[3] == '+');
    assert forall|j: int| 4 <= j < e implies !occurs_at(s, close_fence(), j) by {
        if occurs_at(s, cf, j) {
            let w = s.subrange(j, j + 4);
            assert(w == cf);
            if j + 4 <= hl {
                assert(w =~= h.subrange(j, j + 4));
                assert(occurs_at(h, cf, j));
            } else if j < hl {
                let k = hl - j;
                assert(1 <= k <= 3);
                if ins.len() > 0 {
                    assert(s[hl] == ins[0]);
                } else {
                    assert(s[hl] == cf[0]);
                }
                assert(w[k] == s[hl]);
                assert(w[k] == cf[k]);
            } else {
                if j + 1 < e {
                    assert(s[j + 1] == ins[j + 1 - hl]);
                } else {
                    assert(s[j + 1] == cf[0]);
                }
                assert(w[1] == s[j + 1]);
            }
        }
    }
    assert(is_first_occurrence(s, close_fence(), 4, e));
    crate::frontmatter::lemma_first_occurrence_unique(s, close_fence(), 4, e);
}

/// The lines of `ins` after its first newline, when the first of them is a
/// `[table]` header, hold only entries of a table.
pub proof fn lemma_tail_in_tables(
    h: Seq<char>,
    ins: Seq<char>,
    t: Seq<char>,
    k: int,
    table: Option<Seq<char>>,
)
    requires
        1 <= k <= ins.len(),
        k == ins.len() || ins[k] == '\n',
        forall|j: int| 1 <= j < k ==> ins[j] != '\n',
        spec_table_name(trim(ins.subrange(1, k))) is Some,
    ensures
        forall|i: int|
            0 <= i < fm_scan(h + ins + close_fence() + t, (h.len() + 1) as int, (h.len() + ins.len()) as int, table).len()
                ==> (#[trigger] fm_scan(
                h + ins + close_fence() + t,
                (h.len() + 1) as int,
                (h.len() + ins.len()) as int,
                table,
            )[i]).4 is Some,
{
    let s = h + ins + close_fence() + t;
    let hl = h.len() as int;
    let e = hl + ins.len();
    let ls = hl + 1;
    if ls < e {
        let x = s.subrange(ls, e);
        assert(x =~= ins.subrange(1, ins.len() as int));
        if k < ins.len() {
            assert(is_first_char_in(x, '\n', k - 1));
            lemma_first_index(x, '\n', k - 1);
        } else {
            if exists|i: int| is_first_char_in(x, '\n', i) {
                let i = choose|i: int| is_first_char_in(x, '\n', i);
                assert(x[i] == ins[i + 1]);
            }
        }
        assert(line_end(s, ls, e) == hl + k);
        assert(s.subrange(ls, hl + k) =~= ins.subrange(1, k));
        let tn = spec_table_name(trim(ins.subrange(1, k))).unwrap();
        lemma_scan_in_tables(s, hl + k + 1, e, Some(tn));
    }
}

/// Adding, just before the closing `+++` of a page's frontmatter, a line
/// break and lines that start with a `[table]` header (and hold no `+`)
/// adds no frontmatter findings: keys under a table header never produce
/// any. `h` is the page up to the end of the frontmatter's last line (it
/// starts with the opening `+++` and holds no other `\n+++`), `t` what
/// follows the closing fence.
pub proof fn law_appended_table_adds_no_findings(h: Seq<char>, ins: Seq<char>, t: Seq<char>, k: int)
    requires
        h.len() >= 4,
        h.take(4) == open_fence(),
        forall|j: int| 4 <= j && j + 4 <= h.len() ==> !occurs_at(h, close_fence(), j),
        ins.len() > 0,
        ins[0] == '\n',
        forall|j: int| 0 <= j < ins.len() ==> ins[j] != '+',
        1 <= k <= ins.len(),
        k == ins.len() || ins[k] == '\n',
        forall|j: int| 1 <= j < k ==> ins[j] != '\n',
        spec_table_name(trim(ins.subrange(1, k))) is Some,
    ensures
        spec_frontmatter_findings(h + ins + close_fence() + t) == spec_frontmatter_findings(
            h + close_fence() + t,
        ),
{
    let c1 = h + close_fence() + t;
    let c2 = h + ins + close_fence() + t;
    let hl = h.len() as int;
    let e2 = hl + ins.len();
    lemma_block_end(h, ins, t);
    lemma_block_end(h, Seq::<char>::empty(), t);
    assert(h + Seq::<char>::empty() + close_fence() + t =~= c1);
    lemma_scan_split(h, ins, t, 4, None);
    let tt = choose|tt: Option<Seq<char>>|
        fm_scan(c2, 4, e2, None) == fm_scan(c1, 4, hl, None) + #[trigger] fm_scan(c2, hl + 1, e2, tt);
    let a = fm_scan(c1, 4, hl, None);
    let tail = fm_scan(c2, hl + 1, e2, tt);
    lemma_tail_in_tables(h, ins, t, k, tt);
    assert(spec_frontmatter_entries(c2) == a + tail);
    assert(spec_frontmatter_entries(c1) == a);
    crate::frontmatter::law_table_entries_add_no_findings(c2, a + tail, Set::empty());
    lemma_top_level_append(a, tail);
    lemma_scan_within(c1, 4, hl, None);
    assert(entries_within(a, 0, hl));
    lemma_top_level_within(a, 0, hl);
    assert(c1.take(hl) =~= c2.take(hl));
    lemma_findings_local(c2, c1, top_level_entries(a), Set::empty(), hl);
    crate::frontmatter::law_table_entries_add_no_findings(c1, a, Set::empty());
}

} // verus!
