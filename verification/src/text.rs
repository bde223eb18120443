//! Whitespace normalization and quote stripping, applied to a tag body
//! before and after its fields are extracted.

use crate::chars::{
    chars_of, find_char, is_space, lemma_next_char, lemma_next_char_found, lemma_skip_spaces,
    lemma_skip_spaces_back, next_char, skip_space, skip_space_back, skip_spaces, skip_spaces_back,
};
use vstd::prelude::*;
use vstd::string::*;

verus! {

/// `s[from..end]` without the whitespace at its two ends.
pub open spec fn trim_range(s: Seq<char>, from: int, end: int) -> Seq<char> {
    let a = skip_spaces(s, from, end);
    s.subrange(a, skip_spaces_back(s, a, end))
}

/// `s` without the whitespace at its two ends.
pub open spec fn trim(s: Seq<char>) -> Seq<char> {
    trim_range(s, 0, s.len() as int)
}

/// The items of a list, with `sep` between every two of them.
pub open spec fn join(items: Seq<Seq<char>>, sep: Seq<char>) -> Seq<char>
    decreases items.len(),
{
    if items.len() == 0 {
        Seq::empty()
    } else if items.len() == 1 {
        items[0]
    } else {
        join(items.drop_last(), sep) + sep + items.last()
    }
}

/// The stretches of `s[from..]` between the occurrences of `c`. There is
/// one more stretch than there are occurrences: a text that ends with `c`
/// has an empty last stretch.
pub open spec fn split_from(s: Seq<char>, c: char, from: int) -> Seq<Seq<char>>
    decreases s.len() - from,
{
    let at = next_char(s, c, from);
    if from <= at < s.len() {
        seq![s.subrange(from, at)] + split_from(s, c, at + 1)
    } else {
        seq![s.subrange(from, s.len() as int)]
    }
}

/// The stretches of `s` between the occurrences of `c`.
pub open spec fn split(s: Seq<char>, c: char) -> Seq<Seq<char>> {
    split_from(s, c, 0)
}

/// The lines of `s`: its stretches between newlines.
pub open spec fn lines(s: Seq<char>) -> Seq<Seq<char>> {
    split(s, '\n')
}

/// The texts of a list, each trimmed.
pub open spec fn trimmed(ls: Seq<Seq<char>>) -> Seq<Seq<char>> {
    Seq::new(ls.len(), |i: int| trim(ls[i]))
}

/// `s` with every line trimmed of the whitespace at its two ends: the
/// lines of `s`, each trimmed, joined again by newlines.
pub open spec fn normalize_lines(s: Seq<char>) -> Seq<char> {
    join(trimmed(lines(s)), seq!['\n'])
}

/// The normalized lines of `s[from..]`, read line by line.
pub open spec fn normalize_from(s: Seq<char>, from: int) -> Seq<char>
    decreases s.len() - from,
{
    let nl = next_char(s, '\n', from);
    if from <= nl < s.len() {
        trim_range(s, from, nl) + seq!['\n'] + normalize_from(s, nl + 1)
    } else {
        trim_range(s, from, s.len() as int)
    }
}

/// Whether a text holds no newline.
pub open spec fn single_line(t: Seq<char>) -> bool {
    forall|j: int| 0 <= j < t.len() ==> t[j] != '\n'
}

/// `s` without its single quotes.
pub open spec fn without_quotes(s: Seq<char>) -> Seq<char> {
    s.filter(|c: char| c != '\'')
}

/// Trimming a stretch of `s` is trimming that stretch taken by itself.
pub proof fn lemma_trim_range_is_trim(s: Seq<char>, from: int, end: int)
    requires
        0 <= from <= end <= s.len(),
    ensures
        trim_range(s, from, end) == trim(s.subrange(from, end)),
{
    let t = s.subrange(from, end);
    lemma_skip_spaces_shift(s, from, end, from);
    let a = skip_spaces(s, from, end);
    lemma_skip_spaces(s, from, end);
    lemma_skip_spaces_back_shift(s, from, end, a, end);
    lemma_skip_spaces_back(s, a, end);
    assert(trim_range(s, from, end) =~= trim(t));
}

proof fn lemma_skip_spaces_shift(s: Seq<char>, from: int, end: int, pos: int)
    requires
        0 <= from <= pos <= end <= s.len(),
    ensures
        skip_spaces(s.subrange(from, end), pos - from, end - from) == skip_spaces(s, pos, end)
            - from,
    decreases end - pos,
{
    if pos < end && is_space(s[pos]) {
        lemma_skip_spaces_shift(s, from, end, pos + 1);
    }
}

proof fn lemma_skip_spaces_back_shift(s: Seq<char>, from: int, end: int, a: int, e: int)
    requires
        0 <= from <= a <= e <= end <= s.len(),
    ensures
        skip_spaces_back(s.subrange(from, end), a - from, e - from) == skip_spaces_back(s, a, e)
            - from,
    decreases e - a,
{
    if a < e && is_space(s[e - 1]) {
        lemma_skip_spaces_back_shift(s, from, end, a, e - 1);
    }
}

/// A single line without whitespace at its two ends is left as it is.
pub proof fn lemma_normalize_keeps_single_line(s: Seq<char>)
    requires
        forall|j: int| 0 <= j < s.len() ==> s[j] != '\n',
        s.len() > 0 ==> !is_space(s[0]) && !is_space(s[s.len() - 1]),
    ensures
        normalize_lines(s) == s,
{
    lemma_next_char(s, '\n', 0);
    assert(trim_range(s, 0, s.len() as int) =~= s);
    lemma_normalize_from(s, 0);
}

/// Joining puts the first item, the separator and the rest joined.
pub proof fn lemma_join_front(first: Seq<char>, rest: Seq<Seq<char>>, sep: Seq<char>)
    requires
        rest.len() > 0,
    ensures
        join(seq![first] + rest, sep) == first + sep + join(rest, sep),
    decreases rest.len(),
{
    let all = seq![first] + rest;
    assert(all.last() == rest.last());
    if rest.len() == 1 {
        assert(all.drop_last() =~= seq![first]);
        assert(join(seq![first], sep) == first);
        assert(join(rest, sep) == rest[0]);
        assert(join(all, sep) =~= first + sep + rest[0]);
    } else {
        assert(all.drop_last() =~= seq![first] + rest.drop_last());
        lemma_join_front(first, rest.drop_last(), sep);
        assert(join(all, sep) =~= first + sep + join(rest, sep));
    }
}

/// Searching behind a prefix is searching in what follows it.
pub proof fn lemma_next_char_shift(prefix: Seq<char>, s: Seq<char>, c: char, from: int)
    requires
        0 <= from <= s.len(),
    ensures
        next_char(prefix + s, c, prefix.len() + from) == prefix.len() + next_char(s, c, from),
    decreases s.len() - from,
{
    if from < s.len() {
        assert((prefix + s)[prefix.len() + from] == s[from]);
        if s[from] != c {
            lemma_next_char_shift(prefix, s, c, from + 1);
        }
    }
}

/// Splitting behind a prefix is splitting what follows it.
pub proof fn lemma_split_shift(prefix: Seq<char>, s: Seq<char>, c: char, from: int)
    requires
        0 <= from <= s.len(),
    ensures
        split_from(prefix + s, c, prefix.len() + from) == split_from(s, c, from),
    decreases s.len() - from,
{
    let whole = prefix + s;
    lemma_next_char_shift(prefix, s, c, from);
    lemma_next_char(s, c, from);
    let at = next_char(s, c, from);
    if at < s.len() {
        lemma_split_shift(prefix, s, c, at + 1);
        assert(whole.subrange(prefix.len() + from, prefix.len() + at) =~= s.subrange(from, at));
    } else {
        assert(whole.subrange(prefix.len() + from, whole.len() as int) =~= s.subrange(
            from,
            s.len() as int,
        ));
    }
}

/// A line and a newline before a text add one line before its lines.
pub proof fn lemma_lines_after_line(line: Seq<char>, rest: Seq<char>)
    requires
        single_line(line),
    ensures
        lines(line + seq!['\n'] + rest) == seq![line] + lines(rest),
{
    let text = line + seq!['\n'] + rest;
    assert(text[line.len() as int] == '\n');
    assert forall|j: int| 0 <= j < line.len() implies text[j] != '\n' by {
        assert(text[j] == line[j]);
    }
    lemma_next_char_found(text, '\n', 0, line.len() as int);
    assert(text.subrange(0, line.len() as int) =~= line);
    lemma_split_shift(line + seq!['\n'], rest, '\n', 0);
}

/// Lines that are joined by newlines are found again: the lines of the
/// joined text are the lines that were joined.
pub proof fn law_lines_of_joined(ls: Seq<Seq<char>>)
    requires
        ls.len() > 0,
        forall|k: int| 0 <= k < ls.len() ==> single_line(#[trigger] ls[k]),
    ensures
        lines(join(ls, seq!['\n'])) == ls,
    decreases ls.len(),
{
    let sep = seq!['\n'];
    let first = ls[0];
    assert(single_line(first));
    if ls.len() == 1 {
        lemma_next_char(first, '\n', 0);
        assert(first.subrange(0, first.len() as int) =~= first);
        assert(lines(first) =~= ls);
    } else {
        let rest = ls.subrange(1, ls.len() as int);
        assert(ls =~= seq![first] + rest);
        lemma_join_front(first, rest, sep);
        assert forall|k: int| 0 <= k < rest.len() implies single_line(#[trigger] rest[k]) by {
            assert(rest[k] == ls[k + 1]);
        }
        law_lines_of_joined(rest);
        lemma_lines_after_line(first, join(rest, sep));
    }
}

/// Reading line by line gives the normalized text: what `normalize_from`
/// computes from `from` on is the lines from there on, each trimmed,
/// joined by newlines.
pub proof fn lemma_normalize_from(s: Seq<char>, from: int)
    requires
        0 <= from <= s.len(),
    ensures
        normalize_from(s, from) == join(trimmed(split_from(s, '\n', from)), seq!['\n']),
    decreases s.len() - from,
{
    let sep = seq!['\n'];
    lemma_next_char(s, '\n', from);
    let nl = next_char(s, '\n', from);
    if nl < s.len() {
        lemma_normalize_from(s, nl + 1);
        lemma_trim_range_is_trim(s, from, nl);
        let rest = split_from(s, '\n', nl + 1);
        let line = s.subrange(from, nl);
        assert(trimmed(split_from(s, '\n', from)) =~= seq![trim(line)] + trimmed(rest));
        lemma_join_front(trim(line), trimmed(rest), sep);
    } else {
        lemma_trim_range_is_trim(s, from, s.len() as int);
        let line = s.subrange(from, s.len() as int);
        assert(trimmed(split_from(s, '\n', from)) =~= seq![trim(line)]);
    }
}

/// Quotes are dropped from a sequence part by part.
pub proof fn lemma_without_quotes_split(s: Seq<char>, mid: int)
    requires
        0 <= mid <= s.len(),
    ensures
        without_quotes(s) == without_quotes(s.subrange(0, mid)) + without_quotes(
            s.subrange(mid, s.len() as int),
        ),
{
    assert(s =~= s.subrange(0, mid) + s.subrange(mid, s.len() as int));
    Seq::filter_distributes_over_add(
        s.subrange(0, mid),
        s.subrange(mid, s.len() as int),
        |c: char| c != '\'',
    );
}

/// A stretch that holds no quote stays as it is.
pub proof fn lemma_without_quotes_same(s: Seq<char>)
    requires
        forall|j: int| 0 <= j < s.len() ==> s[j] != '\'',
    ensures
        without_quotes(s) == s,
    decreases s.len(),
{
    reveal(Seq::filter);
    if s.len() > 0 {
        lemma_without_quotes_same(s.drop_last());
        assert(s =~= s.drop_last().push(s.last()));
    }
}

/// The bounds of `s[from..end]` once the whitespace at its two ends is dropped.
pub(crate) fn trim_bounds(s: &Vec<char>, from: usize, end: usize) -> (r: (usize, usize))
    requires
        from <= end <= s.len(),
    ensures
        from <= r.0 <= r.1 <= end,
        s@.subrange(r.0 as int, r.1 as int) == trim_range(s@, from as int, end as int),
{
    let a = skip_space(s, from, end);
    let e = skip_space_back(s, a, end);
    (a, e)
}

/// Trims every line of `text` of the whitespace at its two ends and joins
/// the lines again with `'\n'`.
pub fn normalize(text: &str) -> (r: String)
    ensures
        r@ == normalize_lines(text@),
{
    let cs = chars_of(text);
    let mut out = String::new();
    let mut from: usize = 0;
    proof {
        lemma_normalize_from(cs@, 0);
    }
    loop
        invariant_except_break
            out@ + normalize_from(cs@, from as int) == normalize_lines(cs@),
        invariant
            cs@ == text@,
            from <= cs.len(),
        ensures
            out@ == normalize_lines(cs@),
        decreases cs.len() - from,
    {
        let nl = find_char(&cs, '\n', from);
        let (a, e) = trim_bounds(&cs, from, nl);
        let ghost before = out@;
        out.append(text.substring_char(a, e));
        if nl < cs.len() {
            out.append("\n");
            proof {
                reveal_strlit("\n");
                assert("\n"@ =~= seq!['\n']);
                assert(out@ + normalize_from(cs@, nl + 1) =~= before + normalize_from(
                    cs@,
                    from as int,
                ));
            }
            from = nl + 1;
        } else {
            proof {
                assert(out@ =~= before + normalize_from(cs@, from as int));
            }
            break ;
        }
    }
    out
}

/// Removes every single quote from `raw`.
pub fn strip_literal_quotes(raw: &str) -> (r: String)
    ensures
        r@ == without_quotes(raw@),
{
    let cs = chars_of(raw);
    let mut out = String::new();
    let mut from: usize = 0;
    proof {
        assert(cs@.subrange(0, 0) =~= Seq::<char>::empty());
        lemma_without_quotes_same(cs@.subrange(0, 0));
    }
    loop
        invariant_except_break
            out@ == without_quotes(cs@.subrange(0, from as int)),
        invariant
            cs@ == raw@,
            from <= cs.len(),
        ensures
            out@ == without_quotes(cs@),
        decreases cs.len() - from,
    {
        let q = find_char(&cs, '\'', from);
        out.append(raw.substring_char(from, q));
        proof {
            lemma_next_char(cs@, '\'', from as int);
            let run = cs@.subrange(from as int, q as int);
            lemma_without_quotes_same(run);
            lemma_without_quotes_split(cs@.subrange(0, q as int), from as int);
            assert(cs@.subrange(0, q as int).subrange(0, from as int) =~= cs@.subrange(
                0,
                from as int,
            ));
            assert(cs@.subrange(0, q as int).subrange(from as int, q as int) =~= run);
        }
        if q < cs.len() {
            proof {
                let upto = cs@.subrange(0, q + 1);
                lemma_without_quotes_split(upto, q as int);
                assert(upto.subrange(0, q as int) =~= cs@.subrange(0, q as int));
                let last = upto.subrange(q as int, q + 1);
                assert(last =~= seq!['\'']);
                reveal(Seq::filter);
                assert(last.drop_last() =~= Seq::<char>::empty());
                assert(without_quotes(last) =~= Seq::<char>::empty());
                assert(without_quotes(upto) =~= out@);
            }
            from = q + 1;
        } else {
            proof {
                assert(cs@.subrange(0, q as int) =~= cs@);
            }
            break ;
        }
    }
    out
}

} // verus!
