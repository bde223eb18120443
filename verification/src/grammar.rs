//! The field grammar. A tag body is matched against a sequence of field
//! patterns, each `key='text'` or `key=[text]`, separated by commas with
//! any whitespace around them. `reads_as` says what a reading of a text as
//! such a sequence is. Among the readings the matcher picks as a regular
//! expression does, left to right: the leftmost place, quoted text up to
//! the next quote, bracketed text up to the first `]` after which the rest
//! of the sequence still matches, and a field that is not required taken
//! when it can be.

use crate::chars::{
    find_char, lemma_next_char, lemma_skip_spaces, matches_at, next_char, occurs_at, skip_space,
    skip_spaces, slice_of,
};
use vstd::prelude::*;

verus! {

/// How one field is written: what opens it, whether its text stands in
/// brackets or in quotes, and whether it has to be there.
#[derive(Debug)]
pub struct FieldPattern {
    pub opener: Vec<char>,
    pub bracketed: bool,
    pub required: bool,
}

/// The view of a [`FieldPattern`].
pub struct FieldPatternView {
    pub opener: Seq<char>,
    pub bracketed: bool,
    pub required: bool,
}

impl View for FieldPattern {
    type V = FieldPatternView;

    open spec fn view(&self) -> FieldPatternView {
        FieldPatternView {
            opener: self.opener@,
            bracketed: self.bracketed,
            required: self.required,
        }
    }
}

/// The views of a list of patterns.
pub open spec fn pattern_views(pats: Seq<FieldPattern>) -> Seq<FieldPatternView> {
    Seq::new(pats.len(), |i: int| pats[i]@)
}

/// What a matched sequence of fields gives: the text of each field, `None`
/// for a field that is not there, and the position behind the last field.
pub struct ChainMatch {
    pub captures: Seq<Option<Seq<char>>>,
    pub end: int,
}

/// A match of a sequence of fields, as the matcher returns it.
#[derive(Debug)]
pub struct Captured {
    pub captures: Vec<Option<String>>,
    pub end: usize,
}

/// The view of one captured text.
pub open spec fn capture_view(cap: Option<String>) -> Option<Seq<char>> {
    match cap {
        Some(s) => Some(s@),
        None => None,
    }
}

/// The view of a list of captured texts.
pub open spec fn capture_views(caps: Seq<Option<String>>) -> Seq<Option<Seq<char>>> {
    Seq::new(caps.len(), |i: int| capture_view(caps[i]))
}

impl View for Captured {
    type V = ChainMatch;

    open spec fn view(&self) -> ChainMatch {
        ChainMatch { captures: capture_views(self.captures@), end: self.end as int }
    }
}

/// The view of what the matcher returns.
pub open spec fn match_view(r: Option<Captured>) -> Option<ChainMatch> {
    match r {
        Some(m) => Some(m@),
        None => None,
    }
}

/// Where the separator that starts at `pos` ends: whitespace, a comma,
/// whitespace. `None` when no comma stands behind the first whitespace.
pub open spec fn after_separator(b: Seq<char>, pos: int) -> Option<int> {
    let comma = skip_spaces(b, pos, b.len() as int);
    if 0 <= comma < b.len() && b[comma] == ',' {
        Some(skip_spaces(b, comma + 1, b.len() as int))
    } else {
        None
    }
}

/// Where a field may start: at `pos` itself for the first field that is
/// matched, behind a separator for a later one.
pub open spec fn field_start(b: Seq<char>, pos: int, first: bool) -> Option<int> {
    if first {
        Some(pos)
    } else {
        after_separator(b, pos)
    }
}

/// A match with one more captured text in front.
pub open spec fn with_capture(cap: Option<Seq<char>>, rest: Option<ChainMatch>) -> Option<
    ChainMatch,
> {
    match rest {
        Some(m) => Some(ChainMatch { captures: seq![cap] + m.captures, end: m.end }),
        None => None,
    }
}

/// The match of the fields `i..` at `pos`. `first` says that no field has
/// been matched yet, so that no separator is due. A field is matched if it
/// can be, together with all that follows; if it cannot and is not
/// required, it is left out.
pub open spec fn chain(
    b: Seq<char>,
    pats: Seq<FieldPatternView>,
    i: int,
    pos: int,
    first: bool,
) -> Option<ChainMatch>
    decreases pats.len() - i, 2int, 0int,
{
    if i < 0 || i >= pats.len() {
        Some(ChainMatch { captures: Seq::empty(), end: pos })
    } else {
        match chain_present(b, pats, i, pos, first) {
            Some(m) => Some(m),
            None => if pats[i].required {
                None
            } else {
                with_capture(None, chain(b, pats, i + 1, pos, first))
            },
        }
    }
}

/// The match of the fields `i..` at `pos` with field `i` there.
pub open spec fn chain_present(
    b: Seq<char>,
    pats: Seq<FieldPatternView>,
    i: int,
    pos: int,
    first: bool,
) -> Option<ChainMatch>
    decreases pats.len() - i, 1int, 0int,
{
    match field_start(b, pos, first) {
        Some(start) => {
            let text_start = start + pats[i].opener.len();
            if 0 <= i < pats.len() && occurs_at(b, pats[i].opener, start) {
                if pats[i].bracketed {
                    chain_closing(b, pats, i, text_start, text_start)
                } else {
                    let quote = next_char(b, '\'', text_start);
                    if quote < b.len() {
                        with_capture(
                            Some(b.subrange(text_start, quote)),
                            chain(b, pats, i + 1, quote + 1, false),
                        )
                    } else {
                        None
                    }
                }
            } else {
                None
            }
        },
        None => None,
    }
}

/// The match of the fields `i..` where the bracketed text of field `i`
/// starts at `text_start` and ends at the first `]` at or after `from`
/// behind which the fields `i + 1..` match.
pub open spec fn chain_closing(
    b: Seq<char>,
    pats: Seq<FieldPatternView>,
    i: int,
    text_start: int,
    from: int,
) -> Option<ChainMatch>
    decreases pats.len() - i, 0int, b.len() - from,
{
    let close = next_char(b, ']', from);
    if 0 <= i < pats.len() && 0 <= text_start <= from <= close < b.len() {
        match chain(b, pats, i + 1, close + 1, false) {
            Some(m) => with_capture(Some(b.subrange(text_start, close)), Some(m)),
            None => chain_closing(b, pats, i, text_start, close + 1),
        }
    } else {
        None
    }
}

/// The leftmost match of the whole sequence of fields that starts at or
/// after `from`.
pub open spec fn first_match(b: Seq<char>, pats: Seq<FieldPatternView>, from: int) -> Option<
    ChainMatch,
>
    decreases b.len() - from,
{
    if from < 0 || from > b.len() {
        None
    } else {
        match chain(b, pats, 0, from, true) {
            Some(m) => Some(m),
            None => if from < b.len() {
                first_match(b, pats, from + 1)
            } else {
                None
            },
        }
    }
}

/// A match of the fields `i..` holds one capture for each of them and ends
/// inside the text, at or after the position it started from.
pub proof fn lemma_chain_shape(
    b: Seq<char>,
    pats: Seq<FieldPatternView>,
    i: int,
    pos: int,
    first: bool,
)
    requires
        0 <= i <= pats.len(),
        0 <= pos <= b.len(),
    ensures
        chain(b, pats, i, pos, first) matches Some(m) ==> m.captures.len() == pats.len() - i && pos
            <= m.end <= b.len(),
    decreases pats.len() - i, 2int, 0int,
{
    if i < pats.len() {
        lemma_chain_present_shape(b, pats, i, pos, first);
        if chain_present(b, pats, i, pos, first) is None && !pats[i].required {
            lemma_chain_shape(b, pats, i + 1, pos, first);
        }
    }
}

proof fn lemma_chain_present_shape(
    b: Seq<char>,
    pats: Seq<FieldPatternView>,
    i: int,
    pos: int,
    first: bool,
)
    requires
        0 <= i < pats.len(),
        0 <= pos <= b.len(),
    ensures
        chain_present(b, pats, i, pos, first) matches Some(m) ==> m.captures.len() == pats.len()
            - i && pos <= m.end <= b.len(),
    decreases pats.len() - i, 1int, 0int,
{
    lemma_skip_spaces(b, pos, b.len() as int);
    let comma = skip_spaces(b, pos, b.len() as int);
    if comma < b.len() {
        lemma_skip_spaces(b, comma + 1, b.len() as int);
    }
    match field_start(b, pos, first) {
        Some(start) => {
            let text_start = start + pats[i].opener.len();
            if occurs_at(b, pats[i].opener, start) {
                if pats[i].bracketed {
                    lemma_chain_closing_shape(b, pats, i, text_start, text_start);
                } else {
                    lemma_next_char(b, '\'', text_start);
                    let quote = next_char(b, '\'', text_start);
                    if quote < b.len() {
                        lemma_chain_shape(b, pats, i + 1, quote + 1, false);
                    }
                }
            }
        },
        None => {},
    }
}

proof fn lemma_chain_closing_shape(
    b: Seq<char>,
    pats: Seq<FieldPatternView>,
    i: int,
    text_start: int,
    from: int,
)
    requires
        0 <= i < pats.len(),
        0 <= text_start <= from <= b.len(),
    ensures
        chain_closing(b, pats, i, text_start, from) matches Some(m) ==> m.captures.len()
            == pats.len() - i && from <= m.end <= b.len(),
    decreases pats.len() - i, 0int, b.len() - from,
{
    lemma_next_char(b, ']', from);
    let close = next_char(b, ']', from);
    if close < b.len() {
        lemma_chain_shape(b, pats, i + 1, close + 1, false);
        if chain(b, pats, i + 1, close + 1, false) is None {
            lemma_chain_closing_shape(b, pats, i, text_start, close + 1);
        }
    }
}

/// Whether the text at `pos` can be read as the fields `i..` with the
/// captures `caps`, up to `end`. A field that is there stands as its
/// opener, its text and its closer, behind a separator unless it is the
/// first that is there; quoted text holds no quote. A field that is not
/// there must be one that is not required.
pub open spec fn reads_as(
    b: Seq<char>,
    pats: Seq<FieldPatternView>,
    i: int,
    pos: int,
    first: bool,
    caps: Seq<Option<Seq<char>>>,
    end: int,
) -> bool
    decreases pats.len() - i,
{
    if i < 0 || i >= pats.len() {
        caps.len() == 0 && end == pos
    } else if caps.len() == 0 {
        false
    } else {
        match caps[0] {
            None => !pats[i].required && reads_as(b, pats, i + 1, pos, first, caps.drop_first(), end),
            Some(t) => match field_start(b, pos, first) {
                Some(start) => {
                    let text_start = start + pats[i].opener.len();
                    let close = text_start + t.len();
                    &&& occurs_at(b, pats[i].opener, start)
                    &&& close < b.len()
                    &&& b.subrange(text_start, close) == t
                    &&& b[close] == (if pats[i].bracketed {
                        ']'
                    } else {
                        '\''
                    })
                    &&& pats[i].bracketed || forall|j: int| 0 <= j < t.len() ==> t[j] != '\''
                    &&& reads_as(b, pats, i + 1, close + 1, false, caps.drop_first(), end)
                },
                None => false,
            },
        }
    }
}

/// What is matched can be read so: the captures of a match of the fields
/// `i..` are a reading of the text at `pos`.
pub proof fn law_match_is_a_reading(
    b: Seq<char>,
    pats: Seq<FieldPatternView>,
    i: int,
    pos: int,
    first: bool,
)
    requires
        0 <= i <= pats.len(),
        0 <= pos <= b.len(),
    ensures
        chain(b, pats, i, pos, first) matches Some(m) ==> reads_as(
            b,
            pats,
            i,
            pos,
            first,
            m.captures,
            m.end,
        ),
    decreases pats.len() - i, 2int, 0int,
{
    if i < pats.len() {
        lemma_present_is_a_reading(b, pats, i, pos, first);
        match chain_present(b, pats, i, pos, first) {
            Some(m) => {},
            None => {
                if !pats[i].required {
                    law_match_is_a_reading(b, pats, i + 1, pos, first);
                    match chain(b, pats, i + 1, pos, first) {
                        Some(rest) => {
                            let caps = seq![None::<Seq<char>>] + rest.captures;
                            assert(caps.drop_first() =~= rest.captures);
                        },
                        None => {},
                    }
                }
            },
        }
    }
}

proof fn lemma_present_is_a_reading(
    b: Seq<char>,
    pats: Seq<FieldPatternView>,
    i: int,
    pos: int,
    first: bool,
)
    requires
        0 <= i < pats.len(),
        0 <= pos <= b.len(),
    ensures
        chain_present(b, pats, i, pos, first) matches Some(m) ==> m.captures.len() > 0
            && m.captures[0] is Some && reads_as(b, pats, i, pos, first, m.captures, m.end),
    decreases pats.len() - i, 1int, 0int,
{
    lemma_skip_spaces(b, pos, b.len() as int);
    let comma = skip_spaces(b, pos, b.len() as int);
    if comma < b.len() {
        lemma_skip_spaces(b, comma + 1, b.len() as int);
    }
    match field_start(b, pos, first) {
        Some(start) => {
            let text_start = start + pats[i].opener.len();
            if occurs_at(b, pats[i].opener, start) {
                if pats[i].bracketed {
                    lemma_closing_is_a_reading(b, pats, i, text_start, text_start);
                } else {
                    lemma_next_char(b, '\'', text_start);
                    let quote = next_char(b, '\'', text_start);
                    if quote < b.len() {
                        law_match_is_a_reading(b, pats, i + 1, quote + 1, false);
                        match chain(b, pats, i + 1, quote + 1, false) {
                            Some(rest) => {
                                let t = b.subrange(text_start, quote);
                                let caps = seq![Some(t)] + rest.captures;
                                assert(caps.drop_first() =~= rest.captures);
                            },
                            None => {},
                        }
                    }
                }
            }
        },
        None => {},
    }
}

proof fn lemma_closing_is_a_reading(
    b: Seq<char>,
    pats: Seq<FieldPatternView>,
    i: int,
    text_start: int,
    from: int,
)
    requires
        0 <= i < pats.len(),
        pats[i].bracketed,
        0 <= text_start <= from <= b.len(),
    ensures
        chain_closing(b, pats, i, text_start, from) matches Some(m) ==> {
            &&& m.captures.len() > 0
            &&& m.captures[0] matches Some(t)
            &&& from <= text_start + t.len() < b.len()
            &&& b.subrange(text_start, text_start + t.len()) == t
            &&& b[text_start + t.len()] == ']'
            &&& reads_as(
                b,
                pats,
                i + 1,
                text_start + t.len() + 1,
                false,
                m.captures.drop_first(),
                m.end,
            )
        },
    decreases pats.len() - i, 0int, b.len() - from,
{
    lemma_next_char(b, ']', from);
    let close = next_char(b, ']', from);
    if close < b.len() {
        law_match_is_a_reading(b, pats, i + 1, close + 1, false);
        match chain(b, pats, i + 1, close + 1, false) {
            Some(rest) => {
                let t = b.subrange(text_start, close);
                let caps = seq![Some(t)] + rest.captures;
                assert(caps.drop_first() =~= rest.captures);
            },
            None => {
                lemma_closing_is_a_reading(b, pats, i, text_start, close + 1);
            },
        }
    }
}

/// What can be read is matched: where the text at `pos` has a reading as
/// the fields `i..`, these fields match there.
pub proof fn law_reading_is_matched(
    b: Seq<char>,
    pats: Seq<FieldPatternView>,
    i: int,
    pos: int,
    first: bool,
    caps: Seq<Option<Seq<char>>>,
    end: int,
)
    requires
        0 <= i <= pats.len(),
        0 <= pos <= b.len(),
        reads_as(b, pats, i, pos, first, caps, end),
    ensures
        chain(b, pats, i, pos, first) is Some,
    decreases pats.len() - i,
{
    if i < pats.len() {
        match caps[0] {
            None => {
                law_reading_is_matched(b, pats, i + 1, pos, first, caps.drop_first(), end);
            },
            Some(t) => {
                let start = field_start(b, pos, first)->0;
                lemma_skip_spaces(b, pos, b.len() as int);
                let comma = skip_spaces(b, pos, b.len() as int);
                if comma < b.len() {
                    lemma_skip_spaces(b, comma + 1, b.len() as int);
                }
                let text_start = start + pats[i].opener.len();
                let close = text_start + t.len();
                law_reading_is_matched(b, pats, i + 1, close + 1, false, caps.drop_first(), end);
                if pats[i].bracketed {
                    lemma_closing_finds(b, pats, i, text_start, text_start, close);
                } else {
                    assert forall|j: int| text_start <= j < close implies b[j] != '\'' by {
                        assert(b[j] == b.subrange(text_start, close)[j - text_start]);
                    }
                    crate::chars::lemma_next_char_found(b, '\'', text_start, close);
                }
                assert(chain_present(b, pats, i, pos, first) is Some);
            },
        }
    }
}

proof fn lemma_closing_finds(
    b: Seq<char>,
    pats: Seq<FieldPatternView>,
    i: int,
    text_start: int,
    from: int,
    close: int,
)
    requires
        0 <= i < pats.len(),
        0 <= text_start <= from <= close < b.len(),
        b[close] == ']',
        chain(b, pats, i + 1, close + 1, false) is Some,
    ensures
        chain_closing(b, pats, i, text_start, from) is Some,
    decreases b.len() - from,
{
    lemma_next_char(b, ']', from);
    let q = next_char(b, ']', from);
    if chain(b, pats, i + 1, q + 1, false) is None {
        lemma_closing_finds(b, pats, i, text_start, q + 1, close);
    }
}

/// The resolver accepts what can be read. The whole sequence matches
/// somewhere from `from` on exactly if the text has a reading that starts
/// there or later; the captures of the match are a reading, and no reading
/// starts before it.
pub proof fn law_first_match_is_leftmost_reading(
    b: Seq<char>,
    pats: Seq<FieldPatternView>,
    from: int,
)
    requires
        0 <= from <= b.len(),
    ensures
        first_match(b, pats, from) matches Some(m) ==> exists|p: int|
            from <= p <= b.len() && #[trigger] reads_as(b, pats, 0, p, true, m.captures, m.end)
                && forall|q: int, caps: Seq<Option<Seq<char>>>, end: int|
                from <= q < p ==> !#[trigger] reads_as(b, pats, 0, q, true, caps, end),
        first_match(b, pats, from) is None ==> forall|
            q: int,
            caps: Seq<Option<Seq<char>>>,
            end: int,
        | from <= q <= b.len() ==> !#[trigger] reads_as(b, pats, 0, q, true, caps, end),
    decreases b.len() - from,
{
    law_match_is_a_reading(b, pats, 0, from, true);
    match chain(b, pats, 0, from, true) {
        Some(m) => {
            assert(reads_as(b, pats, 0, from, true, m.captures, m.end));
        },
        None => {
            assert forall|caps: Seq<Option<Seq<char>>>, end: int| !#[trigger] reads_as(
                b,
                pats,
                0,
                from,
                true,
                caps,
                end,
            ) by {
                if reads_as(b, pats, 0, from, true, caps, end) {
                    law_reading_is_matched(b, pats, 0, from, true, caps, end);
                }
            }
            if from < b.len() {
                law_first_match_is_leftmost_reading(b, pats, from + 1);
                match first_match(b, pats, from + 1) {
                    Some(m) => {
                        let p = choose|p: int|
                            from + 1 <= p <= b.len() && #[trigger] reads_as(
                                b,
                                pats,
                                0,
                                p,
                                true,
                                m.captures,
                                m.end,
                            ) && forall|q: int, caps: Seq<Option<Seq<char>>>, end: int|
                                from + 1 <= q < p ==> !#[trigger] reads_as(
                                    b,
                                    pats,
                                    0,
                                    q,
                                    true,
                                    caps,
                                    end,
                                );
                        assert(from <= p <= b.len() && reads_as(
                            b,
                            pats,
                            0,
                            p,
                            true,
                            m.captures,
                            m.end,
                        ));
                    },
                    None => {},
                }
            }
        },
    }
}

/// Skips a separator: whitespace, a comma, whitespace.
pub(crate) fn skip_separator(b: &Vec<char>, pos: usize) -> (r: Option<usize>)
    requires
        pos <= b.len(),
    ensures
        match r {
            Some(end) => after_separator(b@, pos as int) == Some(end as int) && pos < end
                <= b.len(),
            None => after_separator(b@, pos as int) is None,
        },
{
    let comma = skip_space(b, pos, b.len());
    if comma < b.len() && b[comma] == ',' {
        Some(skip_space(b, comma + 1, b.len()))
    } else {
        None
    }
}

fn prepend(cap: Option<String>, rest: Captured) -> (r: Captured)
    ensures
        Some(r@) == with_capture(capture_view(cap), Some(rest@)),
{
    let ghost head = capture_view(cap);
    let mut captures = rest.captures;
    captures.insert(0, cap);
    let r = Captured { captures, end: rest.end };
    proof {
        assert(r@.captures =~= seq![head] + rest@.captures);
    }
    r
}

/// Matches the fields `i..` of `pats` at `pos`. `text` and `b` hold the
/// same characters; `first` says that no field has been matched yet.
pub(crate) fn match_chain(
    text: &str,
    b: &Vec<char>,
    pats: &Vec<FieldPattern>,
    i: usize,
    pos: usize,
    first: bool,
) -> (r: Option<Captured>)
    requires
        b@ == text@,
        i <= pats.len(),
        pos <= b.len(),
    ensures
        match_view(r) == chain(b@, pattern_views(pats@), i as int, pos as int, first),
        r matches Some(m) ==> pos <= m.end <= b.len(),
    decreases pats.len() - i, 1int,
{
    proof {
        lemma_chain_shape(b@, pattern_views(pats@), i as int, pos as int, first);
    }
    if i >= pats.len() {
        let m = Captured { captures: Vec::new(), end: pos };
        proof {
            assert(m@.captures =~= Seq::<Option<Seq<char>>>::empty());
        }
        return Some(m);
    }
    match match_present(text, b, pats, i, pos, first) {
        Some(m) => Some(m),
        None => {
            if pats[i].required {
                None
            } else {
                match match_chain(text, b, pats, i + 1, pos, first) {
                    Some(rest) => Some(prepend(None, rest)),
                    None => None,
                }
            }
        },
    }
}

fn match_present(
    text: &str,
    b: &Vec<char>,
    pats: &Vec<FieldPattern>,
    i: usize,
    pos: usize,
    first: bool,
) -> (r: Option<Captured>)
    requires
        b@ == text@,
        i < pats.len(),
        pos <= b.len(),
    ensures
        match_view(r) == chain_present(b@, pattern_views(pats@), i as int, pos as int, first),
    decreases pats.len() - i, 0int,
{
    let ghost views = pattern_views(pats@);
    let start = if first {
        pos
    } else {
        match skip_separator(b, pos) {
            Some(s) => s,
            None => {
                return None;
            },
        }
    };
    if !matches_at(b, &pats[i].opener, start) {
        return None;
    }
    let text_start = start + pats[i].opener.len();
    if !pats[i].bracketed {
        let quote = find_char(b, '\'', text_start);
        if quote >= b.len() {
            return None;
        }
        return match match_chain(text, b, pats, i + 1, quote + 1, false) {
            Some(rest) => Some(prepend(Some(slice_of(text, text_start, quote)), rest)),
            None => None,
        };
    }
    let mut from = text_start;
    loop
        invariant
            b@ == text@,
            views == pattern_views(pats@),
            i < pats.len(),
            text_start <= from <= b.len(),
            chain_present(b@, views, i as int, pos as int, first) == chain_closing(
                b@,
                views,
                i as int,
                text_start as int,
                text_start as int,
            ),
            chain_closing(b@, views, i as int, text_start as int, from as int) == chain_closing(
                b@,
                views,
                i as int,
                text_start as int,
                text_start as int,
            ),
        decreases b.len() - from,
    {
        let close = find_char(b, ']', from);
        if close >= b.len() {
            return None;
        }
        match match_chain(text, b, pats, i + 1, close + 1, false) {
            Some(rest) => {
                return Some(prepend(Some(slice_of(text, text_start, close)), rest));
            },
            None => {
                from = close + 1;
            },
        }
    }
}

/// Finds the leftmost match of the whole sequence `pats` in `text`.
pub fn find_match(text: &str, pats: &Vec<FieldPattern>) -> (r: Option<Captured>)
    ensures
        match_view(r) == first_match(text@, pattern_views(pats@), 0),
{
    let b = crate::chars::chars_of(text);
    find_match_from(text, &b, pats, 0)
}

/// Finds the leftmost match of the whole sequence `pats` that starts at or
/// after `from`. `text` and `b` hold the same characters.
pub(crate) fn find_match_from(text: &str, b: &Vec<char>, pats: &Vec<FieldPattern>, from: usize) -> (r:
    Option<Captured>)
    requires
        b@ == text@,
        from <= b.len(),
    ensures
        match_view(r) == first_match(b@, pattern_views(pats@), from as int),
{
    let ghost views = pattern_views(pats@);
    let mut start: usize = from;
    loop
        invariant
            b@ == text@,
            views == pattern_views(pats@),
            from <= start <= b.len(),
            first_match(b@, views, start as int) == first_match(b@, views, from as int),
        decreases b.len() - start,
    {
        match match_chain(text, b, pats, 0, start, true) {
            Some(m) => {
                return Some(m);
            },
            None => {
                if start >= b.len() {
                    return None;
                }
                start += 1;
            },
        }
    }
}

} // verus!
