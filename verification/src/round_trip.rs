//! Writing and reading back, in the grammar. Fields that are written from
//! texts are matched to these texts, a list gives back its items and a
//! list of objects its objects, and a single field is read by the resolver
//! as it is taken out by itself.

use crate::chars::{
    is_space, lemma_next_char, lemma_next_char_found, lemma_next_occurrence, next_char,
    next_occurrence, occurs_at, skip_spaces,
};
use crate::fields::{
    field_closer, field_opener, field_text, flat_array, flat_array_from, lemma_flat_array_from,
    object_array, object_at, object_patterns, objects_from, present_texts, unquote,
};
use crate::grammar::{
    chain, chain_closing, chain_present, field_start, first_match, with_capture, ChainMatch,
    FieldPatternView,
};
use crate::schema::{decoded, resolved, schema_patterns, FieldSpecView};
use crate::text::{
    join, lemma_join_front, lemma_next_char_shift, lemma_normalize_keeps_single_line,
    lemma_trim_range_is_trim, normalize_lines, single_line, trim, trim_range,
};
use vstd::prelude::*;

verus! {

/// The text by which the fields `i..` are written: each as its opener,
/// its text and its closer, with a comma and a space before every field
/// but the first.
pub open spec fn written(
    pats: Seq<FieldPatternView>,
    texts: Seq<Seq<char>>,
    i: int,
    first: bool,
) -> Seq<char>
    decreases pats.len() - i,
{
    if i < 0 || i >= pats.len() {
        Seq::empty()
    } else {
        (if first {
            Seq::empty()
        } else {
            seq![',', ' ']
        }) + pats[i].opener + texts[i] + seq![field_closer(pats[i].bracketed)] + written(
            pats,
            texts,
            i + 1,
            false,
        )
    }
}

/// The texts `i..`, each as a capture that is there.
pub open spec fn all_captured(texts: Seq<Seq<char>>, i: int) -> Seq<Option<Seq<char>>> {
    Seq::new((texts.len() - i) as nat, |k: int| Some(texts[i + k]))
}

/// Whether the fields `i..` can be written and read back: no opener starts
/// with whitespace, and no text holds the closer of its field.
pub open spec fn writable(pats: Seq<FieldPatternView>, texts: Seq<Seq<char>>, i: int) -> bool {
    &&& pats.len() == texts.len()
    &&& forall|j: int|
        i <= j < pats.len() ==> (#[trigger] pats[j]).opener.len() > 0 && !is_space(
            pats[j].opener[0],
        )
    &&& forall|j: int, k: int|
        i <= j < pats.len() && 0 <= k < (#[trigger] texts[j]).len() ==> #[trigger] texts[j][k]
            != field_closer(pats[j].bracketed)
}

/// Matching reads back what was written. Where the text at `pos` is the
/// fields `i..` as `written` gives them, whatever follows, the match of
/// these fields at `pos` captures exactly their texts and ends behind the
/// last of them.
pub proof fn law_chain_reads_what_was_written(
    b: Seq<char>,
    pats: Seq<FieldPatternView>,
    texts: Seq<Seq<char>>,
    i: int,
    pos: int,
    first: bool,
)
    requires
        0 <= i <= pats.len(),
        0 <= pos,
        pos + written(pats, texts, i, first).len() <= b.len(),
        writable(pats, texts, i),
        b.subrange(pos, pos + written(pats, texts, i, first).len()) == written(
            pats,
            texts,
            i,
            first,
        ),
    ensures
        chain(b, pats, i, pos, first) == Some(
            ChainMatch {
                captures: all_captured(texts, i),
                end: pos + written(pats, texts, i, first).len(),
            },
        ),
    decreases pats.len() - i,
{
    let here = written(pats, texts, i, first);
    if i >= pats.len() {
        assert(all_captured(texts, i) =~= Seq::<Option<Seq<char>>>::empty());
    } else {
        let sep: Seq<char> = if first {
            Seq::empty()
        } else {
            seq![',', ' ']
        };
        let opener = pats[i].opener;
        let closer = field_closer(pats[i].bracketed);
        let tail = written(pats, texts, i + 1, false);
        assert(here == sep + opener + texts[i] + seq![closer] + tail);
        let start = pos + sep.len();
        let text_start = start + opener.len();
        let close = text_start + texts[i].len();
        assert forall|j: int| 0 <= j < here.len() implies b[pos + j] == here[j] by {
            assert(b.subrange(pos, pos + here.len())[j] == here[j]);
        }
        assert(field_start(b, pos, first) == Some(start)) by {
            if !first {
                assert(b[pos] == here[0]);
                assert(b[pos + 1] == here[1]);
                assert(b[pos + 2] == here[2]);
                assert(here[2] == opener[0]);
                assert(!is_space(','));
                assert(is_space(' '));
                reveal_with_fuel(skip_spaces, 3);
            }
        }
        assert(occurs_at(b, opener, start)) by {
            assert(b.subrange(start, start + opener.len()) =~= opener) by {
                assert forall|j: int| 0 <= j < opener.len() implies b[start + j] == opener[j] by {
                    assert(b[start + j] == here[sep.len() + j]);
                }
            }
        }
        assert(b.subrange(text_start, close) =~= texts[i]) by {
            assert forall|j: int| 0 <= j < texts[i].len() implies b[text_start + j]
                == texts[i][j] by {
                assert(b[text_start + j] == here[sep.len() + opener.len() + j]);
            }
        }
        assert(b[close] == closer) by {
            assert(b[close] == here[close - pos]);
        }
        assert forall|j: int| text_start <= j < close implies b[j] != closer by {
            assert(b[j] == texts[i][j - text_start]);
        }
        lemma_next_char_found(b, closer, text_start, close);
        assert(b.subrange(close + 1, close + 1 + tail.len()) =~= tail) by {
            assert forall|j: int| 0 <= j < tail.len() implies b[close + 1 + j] == tail[j] by {
                assert(b[close + 1 + j] == here[close + 1 + j - pos]);
            }
        }
        law_chain_reads_what_was_written(b, pats, texts, i + 1, close + 1, false);
        assert(seq![Some(texts[i])] + all_captured(texts, i + 1) =~= all_captured(texts, i));
        if pats[i].bracketed {
            assert(chain_closing(b, pats, i, text_start, text_start) == with_capture(
                Some(b.subrange(text_start, close)),
                chain(b, pats, i + 1, close + 1, false),
            ));
        }
        assert(chain_present(b, pats, i, pos, first) == Some(
            ChainMatch { captures: all_captured(texts, i), end: pos + here.len() },
        ));
    }
}

/// Resolving reads back what was written. A body that writes one text for
/// each field of a schema, and that normalization leaves as it is,
/// resolves to these texts, each decoded by the kind of its field.
pub proof fn law_resolve_reads_what_was_written(
    schema: Seq<FieldSpecView>,
    texts: Seq<Seq<char>>,
)
    requires
        writable(schema_patterns(schema), texts, 0),
        normalize_lines(written(schema_patterns(schema), texts, 0, true)) == written(
            schema_patterns(schema),
            texts,
            0,
            true,
        ),
    ensures
        resolved(written(schema_patterns(schema), texts, 0, true), schema) == Some(
            decoded(schema, all_captured(texts, 0)),
        ),
{
    let pats = schema_patterns(schema);
    let body = written(pats, texts, 0, true);
    assert(body.subrange(0, body.len() as int) =~= body);
    law_chain_reads_what_was_written(body, pats, texts, 0, 0, true);
}

/// Whether a text holds no `c`.
pub open spec fn free_of(t: Seq<char>, c: char) -> bool {
    forall|j: int| 0 <= j < t.len() ==> t[j] != c
}

/// What the writer adds of its own is commas, spaces and closers: a
/// character that is none of these, and that no opener and no text holds,
/// is not in what is written.
pub proof fn lemma_written_free_of(
    pats: Seq<FieldPatternView>,
    texts: Seq<Seq<char>>,
    i: int,
    first: bool,
    c: char,
)
    requires
        0 <= i <= pats.len() == texts.len(),
        c != ',' && c != ' ',
        forall|j: int| i <= j < pats.len() ==> field_closer((#[trigger] pats[j]).bracketed) != c,
        forall|j: int| i <= j < pats.len() ==> free_of(#[trigger] pats[j].opener, c),
        forall|j: int| i <= j < pats.len() ==> free_of(#[trigger] texts[j], c),
    ensures
        free_of(written(pats, texts, i, first), c),
    decreases pats.len() - i,
{
    if i < pats.len() {
        lemma_written_free_of(pats, texts, i + 1, false, c);
        let sep: Seq<char> = if first {
            Seq::empty()
        } else {
            seq![',', ' ']
        };
        let head = sep + pats[i].opener + texts[i] + seq![field_closer(pats[i].bracketed)];
        assert(free_of(pats[i].opener, c));
        assert(free_of(texts[i], c));
        assert(field_closer(pats[i].bracketed) != c);
        assert(free_of(head, c));
        assert(written(pats, texts, i, first) == head + written(pats, texts, i + 1, false));
    }
}

/// What is written for the fields `i..` ends with a closer, and starts
/// with the opener of field `i` when that is the first field written.
pub proof fn lemma_written_ends(
    pats: Seq<FieldPatternView>,
    texts: Seq<Seq<char>>,
    i: int,
    first: bool,
)
    requires
        0 <= i < pats.len() == texts.len(),
        pats[i].opener.len() > 0,
    ensures
        written(pats, texts, i, first).len() > 0,
        first ==> written(pats, texts, i, first)[0] == pats[i].opener[0],
        written(pats, texts, i, first).last() == '\'' || written(pats, texts, i, first).last()
            == ']',
    decreases pats.len() - i,
{
    let sep: Seq<char> = if first {
        Seq::empty()
    } else {
        seq![',', ' ']
    };
    let head = sep + pats[i].opener + texts[i] + seq![field_closer(pats[i].bracketed)];
    let tail = written(pats, texts, i + 1, false);
    assert(written(pats, texts, i, first) == head + tail);
    if i + 1 < pats.len() {
        lemma_written_last(pats, texts, i + 1);
    } else {
        assert(tail.len() == 0);
        assert((head + tail).last() == field_closer(pats[i].bracketed));
    }
}

proof fn lemma_written_last(pats: Seq<FieldPatternView>, texts: Seq<Seq<char>>, i: int)
    requires
        0 <= i < pats.len() == texts.len(),
    ensures
        written(pats, texts, i, false).len() > 0,
        written(pats, texts, i, false).last() == '\'' || written(pats, texts, i, false).last()
            == ']',
    decreases pats.len() - i,
{
    let head = seq![',', ' '] + pats[i].opener + texts[i] + seq![
        field_closer(pats[i].bracketed),
    ];
    let tail = written(pats, texts, i + 1, false);
    assert(written(pats, texts, i, false) == head + tail);
    if i + 1 < pats.len() {
        lemma_written_last(pats, texts, i + 1);
    } else {
        assert(tail.len() == 0);
        assert((head + tail).last() == field_closer(pats[i].bracketed));
    }
}

/// A tag written on one line resolves to what was written. Where every
/// key and every text stands on one line, no key starts with whitespace
/// and no text holds the closer of its field, the written body resolves to
/// the texts, each decoded by the kind of its field.
pub proof fn law_single_line_tag_resolves(schema: Seq<FieldSpecView>, texts: Seq<Seq<char>>)
    requires
        writable(schema_patterns(schema), texts, 0),
        forall|j: int| 0 <= j < schema.len() ==> single_line(#[trigger] schema[j].key),
        forall|j: int| 0 <= j < texts.len() ==> single_line(#[trigger] texts[j]),
    ensures
        resolved(written(schema_patterns(schema), texts, 0, true), schema) == Some(
            decoded(schema, all_captured(texts, 0)),
        ),
{
    let pats = schema_patterns(schema);
    let body = written(pats, texts, 0, true);
    assert forall|j: int| 0 <= j < pats.len() implies single_line(#[trigger] pats[j].opener) by {
        assert(single_line(schema[j].key));
    }
    lemma_written_free_of(pats, texts, 0, true, '\n');
    assert(single_line(body));
    if pats.len() > 0 {
        lemma_written_ends(pats, texts, 0, true);
        assert(!is_space('\'') && !is_space(']'));
    }
    lemma_normalize_keeps_single_line(body);
    law_resolve_reads_what_was_written(schema, texts);
}

/// The pattern of one required field.
pub open spec fn required_pattern(key: Seq<char>, bracketed: bool) -> FieldPatternView {
    FieldPatternView { opener: field_opener(key, bracketed), bracketed, required: true }
}

proof fn lemma_no_closer_no_match(b: Seq<char>, key: Seq<char>, bracketed: bool, from: int, t: int)
    requires
        0 <= from <= b.len(),
        0 <= t <= from + field_opener(key, bracketed).len(),
        forall|j: int| t <= j < b.len() ==> b[j] != field_closer(bracketed),
    ensures
        first_match(b, seq![required_pattern(key, bracketed)], from) is None,
    decreases b.len() - from,
{
    let pats = seq![required_pattern(key, bracketed)];
    let text_start = from + field_opener(key, bracketed).len();
    if occurs_at(b, pats[0].opener, from) {
        lemma_next_char(b, field_closer(bracketed), text_start);
    }
    assert(chain_present(b, pats, 0, from, true) is None);
    if from < b.len() {
        lemma_no_closer_no_match(b, key, bracketed, from + 1, t);
    }
}

proof fn lemma_single_field_from(b: Seq<char>, key: Seq<char>, bracketed: bool, from: int)
    requires
        0 <= from <= next_occurrence(b, field_opener(key, bracketed), 0),
    ensures
        match field_text(b, key, bracketed) {
            Some(t) => first_match(b, seq![required_pattern(key, bracketed)], from) is Some
                && first_match(b, seq![required_pattern(key, bracketed)], from)->0.captures
                == seq![Some(t)],
            None => first_match(b, seq![required_pattern(key, bracketed)], from) is None,
        },
    decreases b.len() - from,
{
    let opener = field_opener(key, bracketed);
    let closer = field_closer(bracketed);
    let pats = seq![required_pattern(key, bracketed)];
    let start = next_occurrence(b, opener, 0);
    lemma_next_occurrence(b, opener, 0);
    if from < start {
        assert(!occurs_at(b, opener, from));
        assert(chain_present(b, pats, 0, from, true) is None);
        lemma_single_field_from(b, key, bracketed, from + 1);
    } else if occurs_at(b, opener, start) {
        let text_start = start + opener.len();
        let close = next_char(b, closer, text_start);
        lemma_next_char(b, closer, text_start);
        if close < b.len() {
            assert(chain(b, pats, 1, close + 1, false) == Some(
                ChainMatch { captures: Seq::empty(), end: close + 1 },
            ));
            assert(seq![Some(b.subrange(text_start, close))] + Seq::<Option<Seq<char>>>::empty()
                =~= seq![Some(b.subrange(text_start, close))]);
            assert(chain_present(b, pats, 0, from, true) is Some);
        } else {
            lemma_no_closer_no_match(b, key, bracketed, from, text_start);
        }
    } else {
        assert(chain_present(b, pats, 0, from, true) is None);
    }
}

/// Resolving a single field is taking that field out of the body. For a
/// schema of one required field, the sequence matches where the field can
/// be taken out by itself, and captures the same text.
pub proof fn law_single_field_is_field_text(b: Seq<char>, key: Seq<char>, bracketed: bool)
    ensures
        match field_text(b, key, bracketed) {
            Some(t) => first_match(b, seq![required_pattern(key, bracketed)], 0) is Some
                && first_match(b, seq![required_pattern(key, bracketed)], 0)->0.captures == seq![
                Some(t),
            ],
            None => first_match(b, seq![required_pattern(key, bracketed)], 0) is None,
        },
{
    lemma_next_occurrence(b, field_opener(key, bracketed), 0);
    lemma_single_field_from(b, key, bracketed, 0);
}

/// Whether an item can be written into a list as it is: it is not empty,
/// holds no comma, and has neither whitespace nor a quote at either end.
pub open spec fn plain_item(t: Seq<char>) -> bool {
    &&& t.len() > 0
    &&& free_of(t, ',')
    &&& !is_space(t[0]) && !is_space(t.last())
    &&& t[0] != '\'' && t.last() != '\''
}

proof fn lemma_flat_array_shift(prefix: Seq<char>, t: Seq<char>, from: int)
    requires
        0 <= from <= t.len(),
    ensures
        flat_array_from(prefix + t, prefix.len() + from) == flat_array_from(t, from),
    decreases t.len() - from,
{
    let s = prefix + t;
    let p = prefix.len() as int;
    lemma_next_char_shift(prefix, t, ',', from);
    lemma_next_char(t, ',', from);
    let comma = next_char(t, ',', from);
    lemma_trim_range_is_trim(s, p + from, p + comma);
    lemma_trim_range_is_trim(t, from, comma);
    assert(s.subrange(p + from, p + comma) =~= t.subrange(from, comma));
    if comma < t.len() {
        lemma_flat_array_shift(prefix, t, comma + 1);
    }
}

proof fn lemma_flat_array_leading_space(t: Seq<char>)
    ensures
        flat_array_from(seq![' '] + t, 0) == flat_array_from(t, 0),
{
    let sp = seq![' '];
    let s = sp + t;
    lemma_next_char_shift(sp, t, ',', 0);
    lemma_next_char(t, ',', 0);
    let comma = next_char(t, ',', 0);
    assert(next_char(s, ',', 0) == 1 + comma) by {
        assert(s[0] == ' ');
    }
    assert(trim_range(s, 0, 1 + comma) == trim_range(t, 0, comma)) by {
        assert(is_space(' '));
        assert(s[0] == ' ');
        assert(skip_spaces(s, 0, 1 + comma) == skip_spaces(s, 1, 1 + comma));
        lemma_trim_range_is_trim(s, 1, 1 + comma);
        lemma_trim_range_is_trim(t, 0, comma);
        assert(s.subrange(1, 1 + comma) =~= t.subrange(0, comma));
    }
    if comma < t.len() {
        lemma_flat_array_shift(sp, t, comma + 1);
    }
}

/// A list gives back the items it was written with. Items that can be
/// written as they are, joined by a comma and a space, decode to exactly
/// these items in their order.
pub proof fn law_flat_array_reads_items(items: Seq<Seq<char>>)
    requires
        forall|k: int| 0 <= k < items.len() ==> plain_item(#[trigger] items[k]),
    ensures
        flat_array(join(items, seq![',', ' '])) == items,
    decreases items.len(),
{
    let sep = seq![',', ' '];
    let s = join(items, sep);
    lemma_flat_array_from(s, 0);
    if items.len() == 0 {
        assert(flat_array_from(s, 0) =~= items);
    } else {
        let first = items[0];
        assert(plain_item(first));
        assert(trim(first) =~= first);
        assert(unquote(first) =~= first);
        if items.len() == 1 {
            lemma_next_char(first, ',', 0);
            assert(flat_array_from(s, 0) =~= items);
        } else {
            let rest = items.subrange(1, items.len() as int);
            assert(items =~= seq![first] + rest);
            assert forall|k: int| 0 <= k < rest.len() implies plain_item(#[trigger] rest[k]) by {
                assert(rest[k] == items[k + 1]);
            }
            lemma_join_front(first, rest, sep);
            law_flat_array_reads_items(rest);
            let tail = join(rest, sep);
            lemma_flat_array_from(tail, 0);
            assert(s =~= (first + seq![',']) + (seq![' '] + tail));
            let comma = first.len() as int;
            assert forall|j: int| 0 <= j < comma implies s[j] != ',' by {
                assert(s[j] == first[j]);
            }
            lemma_next_char_found(s, ',', 0, comma);
            lemma_trim_range_is_trim(s, 0, comma);
            assert(s.subrange(0, comma) =~= first);
            lemma_flat_array_shift(first + seq![','], seq![' '] + tail, 0);
            lemma_flat_array_leading_space(tail);
            assert(flat_array_from(s, 0) =~= seq![first] + rest);
        }
    }
}

/// An object as it is written: `{`, its fields as `written` gives them,
/// `}`.
pub open spec fn written_object(keys: Seq<Seq<char>>, values: Seq<Seq<char>>) -> Seq<char> {
    seq!['{'] + written(object_patterns(keys), values, 0, true) + seq!['}']
}

/// The objects `k..` as they are written into a list, with a comma and a
/// space between every two of them.
pub open spec fn written_objects(
    keys: Seq<Seq<char>>,
    objects: Seq<Seq<Seq<char>>>,
    k: int,
) -> Seq<char>
    decreases objects.len() - k,
{
    if k < 0 || k >= objects.len() {
        Seq::empty()
    } else if k == objects.len() - 1 {
        written_object(keys, objects[k])
    } else {
        written_object(keys, objects[k]) + seq![',', ' '] + written_objects(keys, objects, k + 1)
    }
}

/// Whether no key starts with whitespace.
pub open spec fn plain_keys(keys: Seq<Seq<char>>) -> bool {
    forall|j: int| 0 <= j < keys.len() ==> (#[trigger] keys[j]).len() == 0 || !is_space(keys[j][0])
}

/// Whether the values can stand for the keys between quotes: there is one
/// for each key, and none holds a quote.
pub open spec fn quotable(keys: Seq<Seq<char>>, values: Seq<Seq<char>>) -> bool {
    &&& values.len() == keys.len()
    &&& forall|j: int| 0 <= j < values.len() ==> free_of(#[trigger] values[j], '\'')
}

proof fn lemma_object_read(b: Seq<char>, keys: Seq<Seq<char>>, values: Seq<Seq<char>>, p: int)
    requires
        plain_keys(keys),
        quotable(keys, values),
        0 <= p,
        p + written_object(keys, values).len() <= b.len(),
        b.subrange(p, p + written_object(keys, values).len()) == written_object(keys, values),
    ensures
        object_at(b, object_patterns(keys), p) == Some(
            ChainMatch {
                captures: all_captured(values, 0),
                end: p + written_object(keys, values).len(),
            },
        ),
{
    let pats = object_patterns(keys);
    let inner = written(pats, values, 0, true);
    let object = written_object(keys, values);
    assert forall|j: int| 0 <= j < object.len() implies b[p + j] == object[j] by {
        assert(b.subrange(p, p + object.len())[j] == object[j]);
    }
    assert(b[p] == object[0]);
    assert forall|j: int| 0 <= j < pats.len() implies (#[trigger] pats[j]).opener.len() > 0
        && !is_space(pats[j].opener[0]) by {
        assert(keys[j].len() == 0 || !is_space(keys[j][0]));
        assert(!is_space('='));
    }
    assert forall|j: int, k: int|
        0 <= j < pats.len() && 0 <= k < (#[trigger] values[j]).len() implies #[trigger] values[j][k]
            != field_closer(pats[j].bracketed) by {
        assert(free_of(values[j], '\''));
    }
    assert(writable(pats, values, 0));
    assert(!is_space('}'));
    assert(b[p + 1] == object[1]);
    if pats.len() > 0 {
        assert(inner[0] == pats[0].opener[0]) by {
            assert(inner == Seq::<char>::empty() + pats[0].opener + values[0] + seq![
                field_closer(pats[0].bracketed),
            ] + written(pats, values, 1, false));
        }
        assert(object[1] == inner[0]);
    } else {
        assert(inner.len() == 0);
        assert(object[1] == '}');
    }
    assert(skip_spaces(b, p + 1, b.len() as int) == p + 1);
    assert(b.subrange(p + 1, p + 1 + inner.len()) =~= inner) by {
        assert forall|j: int| 0 <= j < inner.len() implies b[p + 1 + j] == inner[j] by {
            assert(b[p + 1 + j] == object[1 + j]);
        }
    }
    law_chain_reads_what_was_written(b, pats, values, 0, p + 1, true);
    let end = p + 1 + inner.len();
    assert(b[end] == object[end - p]);
    assert(b[end] == '}');
    assert(skip_spaces(b, end, b.len() as int) == end);
}

proof fn lemma_objects_read(
    b: Seq<char>,
    keys: Seq<Seq<char>>,
    objects: Seq<Seq<Seq<char>>>,
    k: int,
    pos: int,
)
    requires
        plain_keys(keys),
        forall|j: int| 0 <= j < objects.len() ==> quotable(keys, #[trigger] objects[j]),
        0 <= k <= objects.len(),
        0 <= pos <= b.len(),
        b.subrange(pos, b.len() as int) == written_objects(keys, objects, k),
    ensures
        objects_from(b, object_patterns(keys), pos) == objects.subrange(k, objects.len() as int),
    decreases objects.len() - k,
{
    let pats = object_patterns(keys);
    let n = objects.len() as int;
    let here = written_objects(keys, objects, k);
    assert(b.len() - pos == here.len());
    if k >= n {
        assert(objects.subrange(k, n) =~= Seq::<Seq<Seq<char>>>::empty());
    } else {
        let object = written_object(keys, objects[k]);
        let end = pos + object.len();
        assert(quotable(keys, objects[k]));
        assert forall|j: int| 0 <= j < here.len() implies b[pos + j] == here[j] by {
            assert(b.subrange(pos, b.len() as int)[j] == here[j]);
        }
        assert(b.subrange(pos, end) =~= object);
        lemma_object_read(b, keys, objects[k], pos);
        assert(present_texts(all_captured(objects[k], 0)) =~= objects[k]);
        if k == n - 1 {
            assert(objects_from(b, pats, end) =~= Seq::<Seq<Seq<char>>>::empty());
        } else {
            let tail = written_objects(keys, objects, k + 1);
            assert(here == object + seq![',', ' '] + tail);
            assert(b[end] == here[end - pos]);
            assert(b[end + 1] == here[end + 1 - pos]);
            assert(object_at(b, pats, end) is None);
            assert(object_at(b, pats, end + 1) is None);
            assert(b.subrange(end + 2, b.len() as int) =~= tail) by {
                assert forall|j: int| 0 <= j < tail.len() implies b[end + 2 + j] == tail[j] by {
                    assert(b[end + 2 + j] == here[end + 2 + j - pos]);
                }
            }
            lemma_objects_read(b, keys, objects, k + 1, end + 2);
            assert(objects_from(b, pats, end) == objects_from(b, pats, end + 1));
            assert(objects_from(b, pats, end + 1) == objects_from(b, pats, end + 2));
        }
        assert(objects_from(b, pats, pos) =~= seq![objects[k]] + objects_from(b, pats, end));
        assert(seq![objects[k]] + objects.subrange(k + 1, n) =~= objects.subrange(k, n));
    }
}

/// A list of objects gives back the objects it was written with. Objects
/// whose values hold no quote, written for keys that do not start with
/// whitespace, decode to exactly these objects in their order.
pub proof fn law_object_array_reads_objects(keys: Seq<Seq<char>>, objects: Seq<Seq<Seq<char>>>)
    requires
        plain_keys(keys),
        forall|j: int| 0 <= j < objects.len() ==> quotable(keys, #[trigger] objects[j]),
    ensures
        object_array(written_objects(keys, objects, 0), keys) == objects,
{
    let text = written_objects(keys, objects, 0);
    assert(text.subrange(0, text.len() as int) =~= text);
    lemma_objects_read(text, keys, objects, 0, 0);
    assert(objects.subrange(0, objects.len() as int) =~= objects);
}

/// Joining keeps out what neither the items nor the separator hold.
pub proof fn lemma_join_free_of(items: Seq<Seq<char>>, sep: Seq<char>, c: char)
    requires
        free_of(sep, c),
        forall|k: int| 0 <= k < items.len() ==> free_of(#[trigger] items[k], c),
    ensures
        free_of(join(items, sep), c),
    decreases items.len(),
{
    if items.len() == 1 {
        assert(free_of(items[0], c));
    } else if items.len() > 1 {
        lemma_join_free_of(items.drop_last(), sep, c);
        assert(free_of(items.last(), c));
    }
}

/// What the writer of objects adds of its own is braces, commas, spaces
/// and quotes: a character that is none of these, and that no key and no
/// value holds, is not in the written list.
pub proof fn lemma_written_objects_free_of(
    keys: Seq<Seq<char>>,
    objects: Seq<Seq<Seq<char>>>,
    k: int,
    c: char,
)
    requires
        0 <= k <= objects.len(),
        c != '{' && c != '}' && c != ',' && c != ' ' && c != '\'' && c != '=',
        forall|j: int| 0 <= j < keys.len() ==> free_of(#[trigger] keys[j], c),
        forall|j: int|
            0 <= j < objects.len() ==> (#[trigger] objects[j]).len() == keys.len() && forall|
                i: int,
            | 0 <= i < objects[j].len() ==> free_of(#[trigger] objects[j][i], c),
    ensures
        free_of(written_objects(keys, objects, k), c),
    decreases objects.len() - k,
{
    if k < objects.len() {
        let pats = object_patterns(keys);
        let values = objects[k];
        assert forall|j: int| 0 <= j < pats.len() implies free_of(#[trigger] pats[j].opener, c) by {
            assert(free_of(keys[j], c));
        }
        assert forall|j: int| 0 <= j < pats.len() implies free_of(#[trigger] values[j], c) by {}
        lemma_written_free_of(pats, values, 0, true, c);
        assert(free_of(written_object(keys, values), c));
        lemma_written_objects_free_of(keys, objects, k + 1, c);
    }
}

} // verus!
