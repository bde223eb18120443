//! Character classes and the scanning primitives that the tag grammar is
//! built from. Positions are character indices into a `Seq<char>`.

use vstd::prelude::*;

verus! {

/// The characters that count as whitespace: the Unicode `White_Space` set.
pub open spec fn is_space(c: char) -> bool {
    let n = c as u32;
    ||| 0x09 <= n <= 0x0D
    ||| n == 0x20
    ||| n == 0x85
    ||| n == 0xA0
    ||| n == 0x1680
    ||| 0x2000 <= n <= 0x200A
    ||| n == 0x2028
    ||| n == 0x2029
    ||| n == 0x202F
    ||| n == 0x205F
    ||| n == 0x3000
}

/// The index of the first `c` in `s` at or after `from`; `s.len()` when
/// there is none.
pub open spec fn next_char(s: Seq<char>, c: char, from: int) -> int
    decreases s.len() - from,
{
    if from < 0 || from >= s.len() {
        s.len() as int
    } else if s[from] == c {
        from
    } else {
        next_char(s, c, from + 1)
    }
}

/// Whether `needle` stands in `hay` at index `i`.
pub open spec fn occurs_at(hay: Seq<char>, needle: Seq<char>, i: int) -> bool {
    &&& 0 <= i
    &&& i + needle.len() <= hay.len()
    &&& hay.subrange(i, i + needle.len()) == needle
}

/// The index of the first occurrence of `needle` in `hay` at or after
/// `from`; `hay.len()` when there is none (an empty needle occurs
/// everywhere, also at `hay.len()`).
pub open spec fn next_occurrence(hay: Seq<char>, needle: Seq<char>, from: int) -> int
    decreases hay.len() - from,
{
    if from < 0 || from >= hay.len() {
        hay.len() as int
    } else if occurs_at(hay, needle, from) {
        from
    } else {
        next_occurrence(hay, needle, from + 1)
    }
}

/// Whether `needle` occurs anywhere in `hay`.
pub open spec fn contains_seq(hay: Seq<char>, needle: Seq<char>) -> bool {
    exists|i: int| occurs_at(hay, needle, i)
}

/// The index of the first character of `s[pos..end]` that is not
/// whitespace; `end` when that stretch holds only whitespace.
pub open spec fn skip_spaces(s: Seq<char>, pos: int, end: int) -> int
    decreases end - pos,
{
    if 0 <= pos < end <= s.len() && is_space(s[pos]) {
        skip_spaces(s, pos + 1, end)
    } else {
        pos
    }
}

/// The end of `s[from..end]` once trailing whitespace is dropped: the least
/// `e >= from` such that `s[e..end]` is all whitespace.
pub open spec fn skip_spaces_back(s: Seq<char>, from: int, end: int) -> int
    decreases end - from,
{
    if from < end <= s.len() && is_space(s[end - 1]) {
        skip_spaces_back(s, from, end - 1)
    } else {
        end
    }
}

/// What `next_char` returns: the first `c` from `from` on, with no `c`
/// before it.
pub proof fn lemma_next_char(s: Seq<char>, c: char, from: int)
    requires
        0 <= from <= s.len(),
    ensures
        from <= next_char(s, c, from) <= s.len(),
        next_char(s, c, from) < s.len() ==> s[next_char(s, c, from)] == c,
        forall|j: int| from <= j < next_char(s, c, from) ==> s[j] != c,
    decreases s.len() - from,
{
    if from < s.len() && s[from] != c {
        lemma_next_char(s, c, from + 1);
    }
}

/// A `c` with no `c` between `from` and it is the one that `next_char` finds.
pub proof fn lemma_next_char_found(s: Seq<char>, c: char, from: int, at: int)
    requires
        0 <= from <= at < s.len(),
        s[at] == c,
        forall|j: int| from <= j < at ==> s[j] != c,
    ensures
        next_char(s, c, from) == at,
    decreases at - from,
{
    if from < at {
        lemma_next_char_found(s, c, from + 1, at);
    }
}

/// What `next_occurrence` returns: the first occurrence from `from` on, with
/// none before it.
pub proof fn lemma_next_occurrence(hay: Seq<char>, needle: Seq<char>, from: int)
    requires
        0 <= from <= hay.len(),
    ensures
        from <= next_occurrence(hay, needle, from) <= hay.len(),
        next_occurrence(hay, needle, from) < hay.len() ==> occurs_at(
            hay,
            needle,
            next_occurrence(hay, needle, from),
        ),
        forall|j: int| from <= j < next_occurrence(hay, needle, from) ==> !occurs_at(hay, needle, j),
    decreases hay.len() - from,
{
    if from < hay.len() && !occurs_at(hay, needle, from) {
        lemma_next_occurrence(hay, needle, from + 1);
    }
}

/// What `skip_spaces` returns: only whitespace is skipped, and it stops at
/// the first character that is none.
pub proof fn lemma_skip_spaces(s: Seq<char>, pos: int, end: int)
    requires
        0 <= pos <= end <= s.len(),
    ensures
        pos <= skip_spaces(s, pos, end) <= end,
        skip_spaces(s, pos, end) < end ==> !is_space(s[skip_spaces(s, pos, end)]),
        forall|j: int| pos <= j < skip_spaces(s, pos, end) ==> is_space(s[j]),
    decreases end - pos,
{
    if pos < end && is_space(s[pos]) {
        lemma_skip_spaces(s, pos + 1, end);
    }
}

/// What `skip_spaces_back` returns.
pub proof fn lemma_skip_spaces_back(s: Seq<char>, from: int, end: int)
    requires
        0 <= from <= end <= s.len(),
    ensures
        from <= skip_spaces_back(s, from, end) <= end,
        skip_spaces_back(s, from, end) > from ==> !is_space(s[skip_spaces_back(s, from, end) - 1]),
        forall|j: int| skip_spaces_back(s, from, end) <= j < end ==> is_space(s[j]),
    decreases end - from,
{
    if from < end && is_space(s[end - 1]) {
        lemma_skip_spaces_back(s, from, end - 1);
    }
}

/// Whether `c` is whitespace.
pub fn is_space_char(c: char) -> (r: bool)
    ensures
        r == is_space(c),
{
    let n: u32 = c as u32;
    (0x09 <= n && n <= 0x0D) || n == 0x20 || n == 0x85 || n == 0xA0 || n == 0x1680 || (0x2000 <= n
        && n <= 0x200A) || n == 0x2028 || n == 0x2029 || n == 0x202F || n == 0x205F || n == 0x3000
}

/// The characters of `s`, in order.
pub fn chars_of(s: &str) -> (v: Vec<char>)
    ensures
        v@ == s@,
{
    let mut v: Vec<char> = Vec::new();
    for c in it: s.chars()
        invariant
            v@ == it.seq().take(it.index() as int),
            it.seq() == s@,
    {
        v.push(c);
    }
    v
}

/// The characters `from..to` of `text`, as a string of their own.
pub(crate) fn slice_of(text: &str, from: usize, to: usize) -> (r: String)
    requires
        from <= to <= text@.len(),
    ensures
        r@ == text@.subrange(from as int, to as int),
{
    text.substring_char(from, to).to_owned()
}

/// Finds the first `c` in `s` at or after `from`.
pub(crate) fn find_char(s: &Vec<char>, c: char, from: usize) -> (r: usize)
    requires
        from <= s.len(),
    ensures
        r == next_char(s@, c, from as int),
        from <= r <= s.len(),
{
    let mut i: usize = from;
    while i < s.len() && s[i] != c
        invariant
            from <= i <= s.len(),
            next_char(s@, c, from as int) == next_char(s@, c, i as int),
        decreases s.len() - i,
    {
        i += 1;
    }
    i
}

/// Whether `needle` stands in `hay` at index `pos`.
pub fn matches_at(hay: &Vec<char>, needle: &Vec<char>, pos: usize) -> (r: bool)
    ensures
        r == occurs_at(hay@, needle@, pos as int),
{
    if pos > hay.len() || needle.len() > hay.len() - pos {
        return false;
    }
    let mut k: usize = 0;
    while k < needle.len()
        invariant
            k <= needle.len(),
            pos + needle.len() <= hay.len(),
            forall|j: int| 0 <= j < k ==> hay@[pos + j] == needle@[j],
        decreases needle.len() - k,
    {
        if hay[pos + k] != needle[k] {
            assert(hay@.subrange(pos as int, pos + needle.len())[k as int] != needle@[k as int]);
            return false;
        }
        k += 1;
    }
    assert(hay@.subrange(pos as int, pos + needle.len()) =~= needle@);
    true
}

/// Finds the first occurrence of `needle` in `hay` at or after `from`.
pub(crate) fn find_occurrence(hay: &Vec<char>, needle: &Vec<char>, from: usize) -> (r: usize)
    requires
        from <= hay.len(),
    ensures
        r == next_occurrence(hay@, needle@, from as int),
        from <= r <= hay.len(),
{
    let mut i: usize = from;
    while i < hay.len()
        invariant
            from <= i <= hay.len(),
            next_occurrence(hay@, needle@, from as int) == next_occurrence(hay@, needle@, i as int),
        decreases hay.len() - i,
    {
        if matches_at(hay, needle, i) {
            return i;
        }
        i += 1;
    }
    i
}

/// Whether `needle` occurs anywhere in `hay`.
pub fn contains(hay: &str, needle: &str) -> (r: bool)
    ensures
        r == contains_seq(hay@, needle@),
{
    let h = chars_of(hay);
    let n = chars_of(needle);
    let at = find_occurrence(&h, &n, 0);
    proof {
        lemma_next_occurrence(h@, n@, 0);
    }
    matches_at(&h, &n, at)
}

/// Skips the whitespace that starts at `pos`, without going past `end`.
pub(crate) fn skip_space(s: &Vec<char>, pos: usize, end: usize) -> (r: usize)
    requires
        pos <= end <= s.len(),
    ensures
        r == skip_spaces(s@, pos as int, end as int),
        pos <= r <= end,
{
    let mut i: usize = pos;
    while i < end && is_space_char(s[i])
        invariant
            pos <= i <= end,
            end <= s.len(),
            skip_spaces(s@, pos as int, end as int) == skip_spaces(s@, i as int, end as int),
        decreases end - i,
    {
        i += 1;
    }
    i
}

/// Drops the whitespace that ends at `end`, without going below `from`.
pub(crate) fn skip_space_back(s: &Vec<char>, from: usize, end: usize) -> (r: usize)
    requires
        from <= end <= s.len(),
    ensures
        r == skip_spaces_back(s@, from as int, end as int),
        from <= r <= end,
{
    let mut e: usize = end;
    while from < e && is_space_char(s[e - 1])
        invariant
            from <= e <= end,
            end <= s.len(),
            skip_spaces_back(s@, from as int, end as int) == skip_spaces_back(
                s@,
                from as int,
                e as int,
            ),
        decreases e - from,
    {
        e -= 1;
    }
    e
}

} // verus!
