//! Character-level text utilities shared by the rest of the library.
//!
//! Text is reasoned about as a sequence of Unicode scalar values (`Seq<char>`,
//! the view of `str` and `String`); byte offsets, where an API speaks of them,
//! are the UTF-8 lengths of prefixes, given by [`byte_len`].
use vstd::prelude::*;

verus! {

broadcast use vstd::string::group_string_axioms;

/// Number of bytes that `c` takes in UTF-8.
pub open spec fn utf8_width(c: char) -> nat {
    if (c as u32) < 0x80 {
        1
    } else if (c as u32) < 0x800 {
        2
    } else if (c as u32) < 0x10000 {
        3
    } else {
        4
    }
}

/// Number of bytes that `s` takes in UTF-8.
pub open spec fn byte_len(s: Seq<char>) -> nat
    decreases s.len(),
{
    if s.len() == 0 {
        0
    } else {
        byte_len(s.drop_last()) + utf8_width(s.last())
    }
}

/// The UTF-8 width of one character.
pub fn char_width(c: char) -> (w: usize)
    ensures
        w == utf8_width(c),
        1 <= w <= 4,
{
    let u = c as u32;
    if u < 0x80 {
        1
    } else if u < 0x800 {
        2
    } else if u < 0x10000 {
        3
    } else {
        4
    }
}

/// The characters of `s`, in order.
pub fn to_chars(s: &str) -> (v: Vec<char>)
    ensures
        v@ == s@,
{
    let mut v: Vec<char> = Vec::new();
    for c in it: s.chars()
        invariant
            v@ == it.seq().take(it.index()),
            it.seq() == s@,
    {
        v.push(c);
    }
    v
}

} // verus!

verus! {

/// Appends one character to a `String`.
///
/// Calls `String::push`, whose documentation says it appends the given
/// `char` to the end of the string; the contract says exactly that.
#[verifier::external_body]
pub fn push_char(s: &mut String, c: char)
    ensures
        final(s)@ == old(s)@.push(c),
{
    s.push(c);
}

/// A `String` holding exactly the characters of `v`.
pub fn from_chars(v: &[char]) -> (s: String)
    ensures
        s@ == v@,
{
    let mut s = String::new();
    let mut i: usize = 0;
    while i < v.len()
        invariant
            i <= v.len(),
            s@ == v@.take(i as int),
        decreases v.len() - i,
    {
        push_char(&mut s, v[i]);
        i = i + 1;
        assert(v@.take(i as int) == v@.take(i - 1 as int).push(v@[i - 1 as int]));
    }
    assert(v@.take(v.len() as int) == v@);
    s
}

/// Appends the characters of `v` to `out`.
pub fn extend_chars(out: &mut Vec<char>, v: &[char])
    ensures
        final(out)@ == old(out)@ + v@,
{
    let mut i: usize = 0;
    while i < v.len()
        invariant
            i <= v.len(),
            out@ == old(out)@ + v@.take(i as int),
        decreases v.len() - i,
    {
        out.push(v[i]);
        i = i + 1;
        assert(v@.take(i as int) == v@.take(i - 1 as int).push(v@[i - 1 as int]));
    }
    assert(v@.take(v.len() as int) == v@);
}

/// The characters `v[from..to]` as a new vector.
pub fn sub_chars(v: &[char], from: usize, to: usize) -> (r: Vec<char>)
    requires
        from <= to <= v.len(),
    ensures
        r@ == v@.subrange(from as int, to as int),
{
    let mut r: Vec<char> = Vec::new();
    let mut i: usize = from;
    while i < to
        invariant
            from <= i <= to <= v.len(),
            r@ == v@.subrange(from as int, i as int),
        decreases to - i,
    {
        r.push(v[i]);
        i = i + 1;
    }
    r
}

/// Whether `p` occurs in `s` starting at index `i`.
pub open spec fn occurs_at(s: Seq<char>, p: Seq<char>, i: int) -> bool {
    0 <= i && i + p.len() <= s.len() && s.subrange(i, i + p.len()) == p
}

/// Whether `s` begins with `p`.
pub open spec fn starts_with(s: Seq<char>, p: Seq<char>) -> bool {
    occurs_at(s, p, 0)
}

/// Whether `s` ends with `p`.
pub open spec fn ends_with(s: Seq<char>, p: Seq<char>) -> bool {
    p.len() <= s.len() && occurs_at(s, p, s.len() - p.len())
}

/// Whether `p` occurs anywhere in `s`.
pub open spec fn contains_seq(s: Seq<char>, p: Seq<char>) -> bool {
    exists|i: int| occurs_at(s, p, i)
}

/// `i` is the first index at which `p` occurs in `s` at or after `from`.
pub open spec fn is_first_occurrence(s: Seq<char>, p: Seq<char>, from: int, i: int) -> bool {
    &&& from <= i
    &&& occurs_at(s, p, i)
    &&& forall|j: int| from <= j < i ==> !occurs_at(s, p, j)
}

/// `i` is the last index at which `p` occurs in `s`.
pub open spec fn is_last_occurrence(s: Seq<char>, p: Seq<char>, i: int) -> bool {
    &&& occurs_at(s, p, i)
    &&& forall|j: int| i < j ==> !occurs_at(s, p, j)
}

/// Whether `p` occurs at index `i` of `s` (executable).
pub fn occurs_at_exec(s: &[char], p: &[char], i: usize) -> (r: bool)
    ensures
        r == occurs_at(s@, p@, i as int),
{
    if i > s.len() || p.len() > s.len() - i {
        return false;
    }
    let mut k: usize = 0;
    while k < p.len()
        invariant
            i + p.len() <= s.len(),
            k <= p.len(),
            forall|m: int| 0 <= m < k ==> s@[i + m] == p@[m],
        decreases p.len() - k,
    {
        if s[i + k] != p[k] {
            assert(s@.subrange(i as int, i + p.len())[k as int] != p@[k as int]);
            return false;
        }
        k = k + 1;
    }
    assert(s@.subrange(i as int, i + p.len()) == p@);
    true
}

/// Whether `s` begins with `p` (executable).
pub fn starts_with_exec(s: &[char], p: &[char]) -> (r: bool)
    ensures
        r == starts_with(s@, p@),
{
    occurs_at_exec(s, p, 0)
}

/// Whether `s` ends with `p` (executable).
pub fn ends_with_exec(s: &[char], p: &[char]) -> (r: bool)
    ensures
        r == ends_with(s@, p@),
{
    if p.len() > s.len() {
        false
    } else {
        occurs_at_exec(s, p, s.len() - p.len())
    }
}

/// The first index at or after `from` where `p` occurs in `s`.
pub fn find_from(s: &[char], p: &[char], from: usize) -> (r: Option<usize>)
    ensures
        match r {
            Some(i) => is_first_occurrence(s@, p@, from as int, i as int),
            None => forall|j: int| from <= j ==> !occurs_at(s@, p@, j),
        },
{
    if from > s.len() || p.len() > s.len() {
        return None;
    }
    let last = s.len() - p.len();
    if from > last {
        assert forall|j: int| from <= j implies !occurs_at(s@, p@, j) by {}
        return None;
    }
    let mut i: usize = from;
    loop
        invariant
            from <= i <= last,
            last == s.len() - p.len(),
            forall|j: int| from <= j < i ==> !occurs_at(s@, p@, j),
        decreases last - i,
    {
        if occurs_at_exec(s, p, i) {
            return Some(i);
        }
        if i == last {
            return None;
        }
        i = i + 1;
    }
}

/// The last index where `p` occurs in `s`.
pub fn rfind(s: &[char], p: &[char]) -> (r: Option<usize>)
    ensures
        match r {
            Some(i) => is_last_occurrence(s@, p@, i as int),
            None => forall|j: int| !occurs_at(s@, p@, j),
        },
{
    if p.len() > s.len() {
        return None;
    }
    let mut i: usize = s.len() - p.len();
    loop
        invariant
            i <= s.len() - p.len(),
            p.len() <= s.len(),
            forall|j: int| i < j ==> !occurs_at(s@, p@, j),
        decreases i,
    {
        if occurs_at_exec(s, p, i) {
            return Some(i);
        }
        if i == 0 {
            return None;
        }
        i = i - 1;
    }
}

/// The first index of `c` in `s` at or after `from`.
pub open spec fn is_first_char(s: Seq<char>, c: char, from: int, i: int) -> bool {
    &&& from <= i < s.len()
    &&& s[i] == c
    &&& forall|j: int| from <= j < i ==> s[j] != c
}

/// The first index at or after `from` of the character `c` in `s`.
pub fn find_char_from(s: &[char], c: char, from: usize) -> (r: Option<usize>)
    ensures
        match r {
            Some(i) => is_first_char(s@, c, from as int, i as int),
            None => forall|j: int| from <= j < s@.len() ==> s@[j] != c,
        },
{
    let mut i: usize = from;
    while i < s.len()
        invariant
            from <= i,
            forall|j: int| from <= j < i && j < s@.len() ==> s@[j] != c,
        decreases s.len() - i,
    {
        if s[i] == c {
            return Some(i);
        }
        i = i + 1;
    }
    None
}

/// `i` is the last index of `c` in `s`.
pub open spec fn is_last_char(s: Seq<char>, c: char, i: int) -> bool {
    &&& 0 <= i < s.len()
    &&& s[i] == c
    &&& forall|j: int| i < j < s.len() ==> s[j] != c
}

/// The last index of `c` in `s`, if `c` occurs.
pub open spec fn last_index(s: Seq<char>, c: char) -> Option<int> {
    if exists|i: int| is_last_char(s, c, i) {
        Some(choose|i: int| is_last_char(s, c, i))
    } else {
        None
    }
}

/// `i` is the first index of `c` in `s`.
pub open spec fn is_first_char_in(s: Seq<char>, c: char, i: int) -> bool {
    is_first_char(s, c, 0, i)
}

/// The first index of `c` in `s`, if `c` occurs.
pub open spec fn first_index(s: Seq<char>, c: char) -> Option<int> {
    if exists|i: int| is_first_char_in(s, c, i) {
        Some(choose|i: int| is_first_char_in(s, c, i))
    } else {
        None
    }
}

/// The last index of `c` is determined by `s` and `c`.
pub proof fn lemma_last_index(s: Seq<char>, c: char, i: int)
    requires
        is_last_char(s, c, i),
    ensures
        last_index(s, c) == Some(i),
{
    let k = choose|k: int| is_last_char(s, c, k);
    assert(is_last_char(s, c, k));
    if k < i {
        assert(s[i] != c);
    }
    if i < k {
        assert(s[k] != c);
    }
}

/// An occurrence of `c` means there is a last one.
pub proof fn lemma_last_char_exists(s: Seq<char>, c: char, j: int)
    requires
        0 <= j < s.len(),
        s[j] == c,
    ensures
        exists|i: int| is_last_char(s, c, i),
    decreases s.len() - j,
{
    if exists|k: int| j < k < s.len() && s[k] == c {
        let k = choose|k: int| j < k < s.len() && s[k] == c;
        lemma_last_char_exists(s, c, k);
    } else {
        assert(is_last_char(s, c, j));
    }
}

/// Without an occurrence there is no last index.
pub proof fn lemma_no_last_index(s: Seq<char>, c: char)
    requires
        forall|j: int| 0 <= j < s.len() ==> s[j] != c,
    ensures
        last_index(s, c) == None::<int>,
{
    if exists|i: int| is_last_char(s, c, i) {
        let k = choose|k: int| is_last_char(s, c, k);
        assert(s[k] == c);
    }
}

/// The first index of `c` is determined by `s` and `c`.
pub proof fn lemma_first_index(s: Seq<char>, c: char, i: int)
    requires
        is_first_char_in(s, c, i),
    ensures
        first_index(s, c) == Some(i),
{
    let k = choose|k: int| is_first_char_in(s, c, k);
    assert(is_first_char_in(s, c, k));
    if k < i {
        assert(s[k] != c);
    }
    if i < k {
        assert(s[i] != c);
    }
}

/// Without an occurrence there is no first index.
pub proof fn lemma_no_first_index(s: Seq<char>, c: char)
    requires
        forall|j: int| 0 <= j < s.len() ==> s[j] != c,
    ensures
        first_index(s, c) == None::<int>,
{
    if exists|i: int| is_first_char_in(s, c, i) {
        let k = choose|k: int| is_first_char_in(s, c, k);
        assert(s[k] == c);
    }
}

/// The last index of `c` in `s`.
pub fn rfind_char(s: &[char], c: char) -> (r: Option<usize>)
    ensures
        match r {
            Some(i) => last_index(s@, c) == Some(i as int) && is_last_char(s@, c, i as int),
            None => last_index(s@, c) == None::<int> && forall|j: int|
                0 <= j < s@.len() ==> s@[j] != c,
        },
{
    let mut i: usize = s.len();
    while i > 0
        invariant
            i <= s.len(),
            forall|j: int| i <= j < s@.len() ==> s@[j] != c,
        decreases i,
    {
        if s[i - 1] == c {
            proof {
                lemma_last_index(s@, c, i - 1);
            }
            return Some(i - 1);
        }
        i = i - 1;
    }
    proof {
        lemma_no_last_index(s@, c);
    }
    None
}

/// The first index of `c` in `s`.
pub fn find_char(s: &[char], c: char) -> (r: Option<usize>)
    ensures
        match r {
            Some(i) => first_index(s@, c) == Some(i as int) && is_first_char_in(s@, c, i as int),
            None => first_index(s@, c) == None::<int> && forall|j: int|
                0 <= j < s@.len() ==> s@[j] != c,
        },
{
    let r = find_char_from(s, c, 0);
    proof {
        match r {
            Some(i) => lemma_first_index(s@, c, i as int),
            None => lemma_no_first_index(s@, c),
        }
    }
    r
}

/// Whether two character sequences are equal (executable).
pub fn chars_eq(a: &[char], b: &[char]) -> (r: bool)
    ensures
        r == (a@ == b@),
{
    if a.len() != b.len() {
        return false;
    }
    let mut i: usize = 0;
    while i < a.len()
        invariant
            a.len() == b.len(),
            i <= a.len(),
            forall|k: int| 0 <= k < i ==> a@[k] == b@[k],
        decreases a.len() - i,
    {
        if a[i] != b[i] {
            return false;
        }
        i = i + 1;
    }
    assert(a@ =~= b@);
    true
}

/// Whether two strings are equal (executable).
pub fn str_eq(a: &str, b: &str) -> (r: bool)
    ensures
        r == (a@ == b@),
{
    let va = to_chars(a);
    let vb = to_chars(b);
    chars_eq(va.as_slice(), vb.as_slice())
}

} // verus!

verus! {

/// `s` split at every occurrence of `sep` (like `str::split`): always at
/// least one piece, and `k` separators give `k + 1` pieces.
pub open spec fn split(s: Seq<char>, sep: char) -> Seq<Seq<char>>
    decreases s.len(),
{
    if s.len() == 0 {
        seq![Seq::<char>::empty()]
    } else {
        let t = split(s.drop_last(), sep);
        if s.last() == sep {
            t.push(Seq::<char>::empty())
        } else {
            t.update(t.len() - 1, t.last().push(s.last()))
        }
    }
}

/// `split` never yields an empty list.
pub proof fn lemma_split_nonempty(s: Seq<char>, sep: char)
    ensures
        split(s, sep).len() >= 1,
    decreases s.len(),
{
    if s.len() > 0 {
        lemma_split_nonempty(s.drop_last(), sep);
    }
}

/// The pieces joined with `sep` in between.
pub open spec fn join(parts: Seq<Seq<char>>, sep: Seq<char>) -> Seq<char>
    decreases parts.len(),
{
    if parts.len() == 0 {
        Seq::empty()
    } else if parts.len() == 1 {
        parts[0]
    } else {
        join(parts.drop_last(), sep) + sep + parts.last()
    }
}

/// The views of a vector of character vectors.
pub open spec fn views(v: Seq<Vec<char>>) -> Seq<Seq<char>> {
    v.map_values(|p: Vec<char>| p@)
}

/// Joins `parts` with `sep` between them.
pub fn join_exec(parts: &Vec<Vec<char>>, sep: &[char]) -> (r: Vec<char>)
    ensures
        r@ == join(views(parts@), sep@),
{
    let ghost vs = views(parts@);
    let mut r: Vec<char> = Vec::new();
    let mut i: usize = 0;
    while i < parts.len()
        invariant
            i <= parts.len(),
            vs == views(parts@),
            r@ == join(vs.take(i as int), sep@),
        decreases parts.len() - i,
    {
        if i > 0 {
            extend_chars(&mut r, sep);
        }
        extend_chars(&mut r, parts[i].as_slice());
        assert(vs.take(i + 1 as int).drop_last() == vs.take(i as int));
        assert(vs.take(i + 1 as int).last() == parts@[i as int]@);
        i = i + 1;
    }
    assert(vs.take(parts.len() as int) == vs);
    r
}

} // verus!

verus! {

/// `byte_len` can also be computed from the front.
pub proof fn lemma_byte_len_first(s: Seq<char>)
    requires
        s.len() > 0,
    ensures
        byte_len(s) == utf8_width(s[0]) + byte_len(s.drop_first()),
    decreases s.len(),
{
    if s.len() > 1 {
        lemma_byte_len_first(s.drop_last());
        assert(s.drop_first().drop_last() == s.drop_last().drop_first());
        assert(s.drop_first().last() == s.last());
        assert(s.drop_last()[0] == s[0]);
        assert(byte_len(s) == byte_len(s.drop_last()) + utf8_width(s.last()));
        assert(byte_len(s.drop_first()) == byte_len(s.drop_first().drop_last()) + utf8_width(
            s.drop_first().last(),
        ));
    } else {
        assert(s.drop_last().len() == 0);
        assert(s.drop_first().len() == 0);
        assert(byte_len(s.drop_last()) == 0);
        assert(byte_len(s.drop_first()) == 0);
        assert(byte_len(s) == byte_len(s.drop_last()) + utf8_width(s.last()));
    }
}

proof fn lemma_encode_scalar_len(c: char)
    ensures
        vstd::utf8::encode_scalar(c as u32).len() == utf8_width(c),
{
    vstd::utf8::char_is_scalar(c);
}

/// `byte_len` is the length of the UTF-8 encoding.
pub proof fn lemma_byte_len_is_encoded_len(s: Seq<char>)
    ensures
        vstd::utf8::encode_utf8(s).len() == byte_len(s),
    decreases s.len(),
{
    if s.len() > 0 {
        lemma_byte_len_is_encoded_len(s.drop_first());
        lemma_byte_len_first(s);
        lemma_encode_scalar_len(s[0]);
    }
}

/// The number of bytes of `s` in UTF-8.
pub fn str_byte_len(s: &str) -> (n: usize)
    requires
        byte_len(s@) <= usize::MAX,
    ensures
        n == byte_len(s@),
{
    proof {
        lemma_byte_len_is_encoded_len(s@);
    }
    s.len()
}

} // verus!

verus! {

/// Unicode `White_Space`, as `char::is_whitespace` defines it.
pub open spec fn is_ws(c: char) -> bool {
    let u = c as u32;
    ||| (0x09 <= u && u <= 0x0D)
    ||| u == 0x20
    ||| u == 0x85
    ||| u == 0xA0
    ||| u == 0x1680
    ||| (0x2000 <= u && u <= 0x200A)
    ||| u == 0x2028
    ||| u == 0x2029
    ||| u == 0x202F
    ||| u == 0x205F
    ||| u == 0x3000
}

/// Whether `c` is whitespace (executable).
pub fn is_ws_exec(c: char) -> (r: bool)
    ensures
        r == is_ws(c),
{
    let u = c as u32;
    (0x09 <= u && u <= 0x0D) || u == 0x20 || u == 0x85 || u == 0xA0 || u == 0x1680 || (0x2000
        <= u && u <= 0x200A) || u == 0x2028 || u == 0x2029 || u == 0x202F || u == 0x205F || u
        == 0x3000
}

/// `k` is the length of the longest whitespace prefix of `s`.
pub open spec fn is_ws_prefix_len(s: Seq<char>, k: int) -> bool {
    &&& 0 <= k <= s.len()
    &&& forall|j: int| 0 <= j < k ==> is_ws(#[trigger] s[j])
    &&& (k == s.len() || !is_ws(s[k]))
}

/// `k` is the length of the longest whitespace suffix of `s`.
pub open spec fn is_ws_suffix_len(s: Seq<char>, k: int) -> bool {
    &&& 0 <= k <= s.len()
    &&& forall|j: int| s.len() - k <= j < s.len() ==> is_ws(#[trigger] s[j])
    &&& (k == s.len() || !is_ws(s[s.len() - k - 1]))
}

/// Length of the longest whitespace prefix.
pub open spec fn ws_prefix_len(s: Seq<char>) -> int {
    choose|k: int| is_ws_prefix_len(s, k)
}

/// Length of the longest whitespace suffix.
pub open spec fn ws_suffix_len(s: Seq<char>) -> int {
    choose|k: int| is_ws_suffix_len(s, k)
}

/// `s` without leading and trailing whitespace (like `str::trim`).
pub open spec fn trim(s: Seq<char>) -> Seq<char> {
    let t = s.skip(ws_prefix_len(s));
    t.take(t.len() - ws_suffix_len(t))
}

/// `s` without trailing whitespace (like `str::trim_end`).
pub open spec fn trim_end(s: Seq<char>) -> Seq<char> {
    s.take(s.len() - ws_suffix_len(s))
}

/// The longest whitespace prefix has one length.
pub proof fn lemma_ws_prefix_len(s: Seq<char>, k: int)
    requires
        is_ws_prefix_len(s, k),
    ensures
        ws_prefix_len(s) == k,
{
    let c = choose|c: int| is_ws_prefix_len(s, c);
    assert(is_ws_prefix_len(s, c));
    if c < k {
        assert(is_ws(s[c]));
    }
    if k < c {
        assert(is_ws(s[k]));
    }
}

/// The longest whitespace suffix has one length.
pub proof fn lemma_ws_suffix_len(s: Seq<char>, k: int)
    requires
        is_ws_suffix_len(s, k),
    ensures
        ws_suffix_len(s) == k,
{
    let c = choose|c: int| is_ws_suffix_len(s, c);
    assert(is_ws_suffix_len(s, c));
    if c < k {
        assert(is_ws(s[s.len() - c - 1]));
    }
    if k < c {
        assert(is_ws(s[s.len() - k - 1]));
    }
}

/// Every sequence has a longest whitespace suffix.
pub proof fn lemma_ws_suffix_len_exists(s: Seq<char>) -> (k: int)
    ensures
        is_ws_suffix_len(s, k),
    decreases s.len(),
{
    if s.len() == 0 || !is_ws(s.last()) {
        0
    } else {
        let d = s.drop_last();
        let k0 = lemma_ws_suffix_len_exists(d);
        assert forall|j: int| s.len() - (k0 + 1) <= j < s.len() implies is_ws(#[trigger] s[j]) by {
            if j < s.len() - 1 {
                assert(s[j] == d[j]);
            }
        }
        if k0 + 1 < s.len() {
            assert(s[s.len() - (k0 + 1) - 1] == d[d.len() - k0 - 1]);
        }
        k0 + 1
    }
}

/// Number of leading whitespace characters of `s[from..to]`.
pub fn ws_prefix_len_exec(s: &[char], from: usize, to: usize) -> (k: usize)
    requires
        from <= to <= s.len(),
    ensures
        k == ws_prefix_len(s@.subrange(from as int, to as int)),
        k <= to - from,
{
    let ghost t = s@.subrange(from as int, to as int);
    let mut i: usize = from;
    while i < to && is_ws_exec(s[i])
        invariant
            from <= i <= to <= s.len(),
            t == s@.subrange(from as int, to as int),
            forall|j: int| 0 <= j < i - from ==> is_ws(#[trigger] t[j]),
        decreases to - i,
    {
        i = i + 1;
    }
    proof {
        lemma_ws_prefix_len(t, i - from);
    }
    i - from
}

/// Number of trailing whitespace characters of `s[from..to]`.
pub fn ws_suffix_len_exec(s: &[char], from: usize, to: usize) -> (k: usize)
    requires
        from <= to <= s.len(),
    ensures
        k == ws_suffix_len(s@.subrange(from as int, to as int)),
        k <= to - from,
{
    let ghost t = s@.subrange(from as int, to as int);
    let mut i: usize = to;
    while i > from && is_ws_exec(s[i - 1])
        invariant
            from <= i <= to <= s.len(),
            t == s@.subrange(from as int, to as int),
            forall|j: int| i - from <= j < t.len() ==> is_ws(#[trigger] t[j]),
        decreases i,
    {
        i = i - 1;
    }
    proof {
        lemma_ws_suffix_len(t, to - i);
    }
    to - i
}

/// The character range `[a, b)` of `s[from..to]` that remains after trimming
/// whitespace on both sides.
pub fn trim_bounds(s: &[char], from: usize, to: usize) -> (r: (usize, usize))
    requires
        from <= to <= s.len(),
    ensures
        from <= r.0 <= r.1 <= to,
        s@.subrange(r.0 as int, r.1 as int) == trim(s@.subrange(from as int, to as int)),
{
    let lead = ws_prefix_len_exec(s, from, to);
    let a = from + lead;
    let trail = ws_suffix_len_exec(s, a, to);
    let b = to - trail;
    proof {
        let t = s@.subrange(from as int, to as int);
        assert(t.skip(lead as int) == s@.subrange(a as int, to as int));
    }
    (a, b)
}

/// `s` without surrounding whitespace, as characters.
pub fn trim_chars(s: &[char]) -> (r: Vec<char>)
    ensures
        r@ == trim(s@),
{
    let (a, b) = trim_bounds(s, 0, s.len());
    assert(s@.subrange(0, s@.len() as int) == s@);
    sub_chars(s, a, b)
}

/// Appends the characters of `s` to `out`.
pub fn push_str_chars(out: &mut Vec<char>, s: &str)
    ensures
        final(out)@ == old(out)@ + s@,
{
    let v = to_chars(s);
    extend_chars(out, v.as_slice());
}

} // verus!
