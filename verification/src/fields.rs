//! The operations of the field grammar: taking one field out of a tag body
//! and decoding what stands between its quotes or brackets.

use crate::chars::{
    chars_of, find_char, find_occurrence, lemma_next_char, matches_at, next_char, next_occurrence,
    occurs_at, skip_space, skip_spaces, slice_of,
};
use crate::grammar::{
    chain, match_chain, pattern_views, Captured, ChainMatch, FieldPattern, FieldPatternView,
};
use crate::model::texts;
use crate::text::{
    lemma_trim_range_is_trim, split, split_from, trim, trim_bounds, trim_range, trimmed,
};
use vstd::prelude::*;

verus! {

/// What opens the field `key`: the key, `=`, and a quote or a bracket.
pub open spec fn field_opener(key: Seq<char>, bracketed: bool) -> Seq<char> {
    key + seq![
        '=',
        if bracketed {
            '['
        } else {
            '\''
        },
    ]
}

/// What closes a field: a bracket or a quote.
pub open spec fn field_closer(bracketed: bool) -> char {
    if bracketed {
        ']'
    } else {
        '\''
    }
}

/// The text of the first field `key` in `body`, taken by itself: what
/// stands between the first opener of the field and the first closer after
/// it. `None` when the opener does not occur or no closer follows it.
pub open spec fn field_text(body: Seq<char>, key: Seq<char>, bracketed: bool) -> Option<Seq<char>> {
    let opener = field_opener(key, bracketed);
    let start = next_occurrence(body, opener, 0);
    let text_start = start + opener.len();
    let close = next_char(body, field_closer(bracketed), text_start);
    if occurs_at(body, opener, start) && close < body.len() {
        Some(body.subrange(text_start, close))
    } else {
        None
    }
}

/// `e` without one quote at its start and one at its end, where there is one.
pub open spec fn unquote(e: Seq<char>) -> Seq<char> {
    let a: int = if e.len() > 0 && e[0] == '\'' {
        1
    } else {
        0
    };
    let end: int = if e.len() > a && e[e.len() - 1] == '\'' {
        e.len() - 1
    } else {
        e.len() as int
    };
    e.subrange(a, end)
}

/// The texts of a list, each without one quote at its start and one at
/// its end.
pub open spec fn unquoted(ls: Seq<Seq<char>>) -> Seq<Seq<char>> {
    Seq::new(ls.len(), |i: int| unquote(ls[i]))
}

/// The items of a comma-separated list: the stretches between the commas,
/// each trimmed and unquoted, without those of which nothing is left.
pub open spec fn flat_array(raw: Seq<char>) -> Seq<Seq<char>> {
    unquoted(trimmed(split(raw, ','))).filter(|t: Seq<char>| t.len() > 0)
}

/// The items of `raw[from..]`, read stretch by stretch.
pub open spec fn flat_array_from(raw: Seq<char>, from: int) -> Seq<Seq<char>>
    decreases raw.len() - from,
{
    let comma = next_char(raw, ',', from);
    let item = unquote(trim_range(raw, from, comma));
    let rest = if from <= comma < raw.len() {
        flat_array_from(raw, comma + 1)
    } else {
        Seq::empty()
    };
    if item.len() > 0 {
        seq![item] + rest
    } else {
        rest
    }
}

/// Reading stretch by stretch gives the items: what `flat_array_from`
/// computes from `from` on is the stretches from there on, trimmed and
/// unquoted, without the empty ones.
pub proof fn lemma_flat_array_from(raw: Seq<char>, from: int)
    requires
        0 <= from <= raw.len(),
    ensures
        flat_array_from(raw, from) == unquoted(trimmed(split_from(raw, ',', from))).filter(
            |t: Seq<char>| t.len() > 0,
        ),
    decreases raw.len() - from,
{
    let kept = |t: Seq<char>| t.len() > 0;
    lemma_next_char(raw, ',', from);
    let comma = next_char(raw, ',', from);
    lemma_trim_range_is_trim(raw, from, comma);
    let item = unquote(trim(raw.subrange(from, comma)));
    assert(seq![item].filter(kept) =~= if item.len() > 0 {
        seq![item]
    } else {
        Seq::empty()
    }) by {
        reveal(Seq::filter);
        assert(seq![item].drop_last() =~= Seq::<Seq<char>>::empty());
    }
    if comma < raw.len() {
        lemma_flat_array_from(raw, comma + 1);
        let rest = unquoted(trimmed(split_from(raw, ',', comma + 1)));
        assert(unquoted(trimmed(split_from(raw, ',', from))) =~= seq![item] + rest);
        Seq::filter_distributes_over_add(seq![item], rest, kept);
    } else {
        assert(unquoted(trimmed(split_from(raw, ',', from))) =~= seq![item]);
    }
}

/// The patterns of the fields of an object: each key quoted and required.
pub open spec fn object_patterns(keys: Seq<Seq<char>>) -> Seq<FieldPatternView> {
    Seq::new(
        keys.len(),
        |i: int| FieldPatternView { opener: field_opener(keys[i], false), bracketed: false, required: true },
    )
}

/// The texts of a match, with the empty text for a field that is not there.
pub open spec fn present_texts(caps: Seq<Option<Seq<char>>>) -> Seq<Seq<char>> {
    Seq::new(
        caps.len(),
        |i: int|
            match caps[i] {
                Some(t) => t,
                None => Seq::empty(),
            },
    )
}

/// The object that starts at `p`: `{`, the fields in their order with
/// commas between them, `}`, with any whitespace inside the braces and
/// around the commas.
pub open spec fn object_at(b: Seq<char>, pats: Seq<FieldPatternView>, p: int) -> Option<ChainMatch> {
    if 0 <= p < b.len() && b[p] == '{' {
        match chain(b, pats, 0, skip_spaces(b, p + 1, b.len() as int), true) {
            Some(m) => {
                let close = skip_spaces(b, m.end, b.len() as int);
                if 0 <= close < b.len() && b[close] == '}' {
                    Some(ChainMatch { captures: m.captures, end: close + 1 })
                } else {
                    None
                }
            },
            None => None,
        }
    } else {
        None
    }
}

/// The objects of `b[from..]`, left to right: each starts at the first
/// position where one can be read, and the search goes on behind its
/// closing brace. What is no object is passed over.
pub open spec fn objects_from(b: Seq<char>, pats: Seq<FieldPatternView>, from: int) -> Seq<
    Seq<Seq<char>>,
>
    decreases b.len() - from,
{
    if from < 0 || from >= b.len() {
        Seq::empty()
    } else {
        match object_at(b, pats, from) {
            Some(m) => if from < m.end {
                seq![present_texts(m.captures)] + objects_from(b, pats, m.end)
            } else {
                objects_from(b, pats, from + 1)
            },
            None => objects_from(b, pats, from + 1),
        }
    }
}

/// The objects of a list: for each, the texts of its fields in the order
/// of `keys`.
pub open spec fn object_array(raw: Seq<char>, keys: Seq<Seq<char>>) -> Seq<Seq<Seq<char>>> {
    objects_from(raw, object_patterns(keys), 0)
}

/// The views of a list of lists of strings.
pub open spec fn text_lists(v: Seq<Vec<String>>) -> Seq<Seq<Seq<char>>> {
    Seq::new(v.len(), |i: int| texts(v[i]@))
}

/// Whether two strings hold the same characters.
pub fn same_text(a: &str, b: &str) -> (r: bool)
    ensures
        r == (a@ == b@),
{
    let x = chars_of(a);
    let y = chars_of(b);
    if x.len() != y.len() {
        return false;
    }
    let mut i: usize = 0;
    while i < x.len()
        invariant
            i <= x.len(),
            x.len() == y.len(),
            x@ == a@,
            y@ == b@,
            forall|j: int| 0 <= j < i ==> x@[j] == y@[j],
        decreases x.len() - i,
    {
        if x[i] != y[i] {
            return false;
        }
        i += 1;
    }
    assert(x@ =~= y@);
    true
}

/// The opener of the field `key`, as characters.
pub fn opener_for(key: &str, bracketed: bool) -> (r: Vec<char>)
    ensures
        r@ == field_opener(key@, bracketed),
{
    let mut r = chars_of(key);
    r.push('=');
    r.push(
        if bracketed {
            '['
        } else {
            '\''
        },
    );
    proof {
        assert(r@ =~= field_opener(key@, bracketed));
    }
    r
}

fn extract_field(body: &str, key: &str, bracketed: bool) -> (r: Option<String>)
    ensures
        crate::grammar::capture_view(r) == field_text(body@, key@, bracketed),
{
    let b = chars_of(body);
    let opener = opener_for(key, bracketed);
    let start = find_occurrence(&b, &opener, 0);
    if !matches_at(&b, &opener, start) {
        return None;
    }
    let text_start = start + opener.len();
    let close = find_char(
        &b,
        if bracketed {
            ']'
        } else {
            '\''
        },
        text_start,
    );
    if close < b.len() {
        Some(slice_of(body, text_start, close))
    } else {
        None
    }
}

/// Takes the quoted field `key` out of `body`: the text between the first
/// `key='` and the next quote. The text may hold anything but a quote,
/// newlines too. `None` when `body` holds no such field.
pub fn extract_scalar_field(body: &str, key: &str) -> (r: Option<String>)
    ensures
        crate::grammar::capture_view(r) == field_text(body@, key@, false),
{
    extract_field(body, key, false)
}

/// Takes the bracketed field `key` out of `body`: the text between the
/// first `key=[` and the next `]`, not decoded. `None` when `body` holds no
/// such field.
pub fn extract_array_field(body: &str, key: &str) -> (r: Option<String>)
    ensures
        crate::grammar::capture_view(r) == field_text(body@, key@, true),
{
    extract_field(body, key, true)
}

/// Decodes a flag: `true` exactly as written is true, anything else false.
pub fn decode_bool_field(raw: &str) -> (r: bool)
    ensures
        r == (raw@ == "true"@),
{
    same_text(raw, "true")
}

/// Decodes a comma-separated list: each item is trimmed of whitespace,
/// loses one surrounding quote on either side, and is dropped if nothing is
/// left of it. The items keep their order.
pub fn parse_array(array_str: &str) -> (items: Vec<String>)
    ensures
        texts(items@) == flat_array(array_str@),
{
    let cs = chars_of(array_str);
    let mut items: Vec<String> = Vec::new();
    let mut from: usize = 0;
    proof {
        lemma_flat_array_from(cs@, 0);
        assert(texts(items@) + flat_array_from(cs@, 0) =~= flat_array(cs@));
    }
    loop
        invariant_except_break
            texts(items@) + flat_array_from(cs@, from as int) == flat_array(cs@),
        invariant
            cs@ == array_str@,
            from <= cs.len(),
        ensures
            texts(items@) == flat_array(cs@),
        decreases cs.len() - from,
    {
        let comma = find_char(&cs, ',', from);
        let (a, e) = trim_bounds(&cs, from, comma);
        let ghost trimmed = cs@.subrange(a as int, e as int);
        let a1: usize = if a < e && cs[a] == '\'' {
            a + 1
        } else {
            a
        };
        let e1: usize = if a1 < e && cs[e - 1] == '\'' {
            e - 1
        } else {
            e
        };
        let ghost item = cs@.subrange(a1 as int, e1 as int);
        proof {
            assert(item =~= unquote(trimmed));
        }
        let ghost before = texts(items@);
        if a1 < e1 {
            items.push(slice_of(array_str, a1, e1));
            proof {
                assert(texts(items@) =~= before + seq![item]);
            }
        }
        if comma < cs.len() {
            proof {
                assert(texts(items@) + flat_array_from(cs@, comma + 1) =~= before
                    + flat_array_from(cs@, from as int));
            }
            from = comma + 1;
        } else {
            proof {
                assert(texts(items@) =~= before + flat_array_from(cs@, from as int));
            }
            break ;
        }
    }
    items
}

/// Decodes a comma-separated list; another name of [`parse_array`].
pub fn decode_flat_array(raw: &str) -> (items: Vec<String>)
    ensures
        texts(items@) == flat_array(raw@),
{
    parse_array(raw)
}

/// The patterns of the fields of an object with the given keys.
pub fn object_patterns_for(keys: &Vec<String>) -> (pats: Vec<FieldPattern>)
    ensures
        pattern_views(pats@) == object_patterns(texts(keys@)),
{
    let mut pats: Vec<FieldPattern> = Vec::new();
    let mut i: usize = 0;
    while i < keys.len()
        invariant
            i <= keys.len(),
            pattern_views(pats@) == object_patterns(texts(keys@)).take(i as int),
        decreases keys.len() - i,
    {
        let ghost before = pattern_views(pats@);
        let pat = FieldPattern {
            opener: opener_for(keys[i].as_str(), false),
            bracketed: false,
            required: true,
        };
        pats.push(pat);
        proof {
            assert(pattern_views(pats@) =~= before.push(pat@));
            assert(pattern_views(pats@) =~= object_patterns(texts(keys@)).take(i + 1));
        }
        i += 1;
    }
    proof {
        assert(object_patterns(texts(keys@)).take(keys.len() as int) =~= object_patterns(
            texts(keys@),
        ));
    }
    pats
}

fn texts_of(captures: Vec<Option<String>>) -> (r: Vec<String>)
    ensures
        texts(r@) == present_texts(crate::grammar::capture_views(captures@)),
{
    let ghost all = present_texts(crate::grammar::capture_views(captures@));
    let mut r: Vec<String> = Vec::new();
    let mut captures = captures;
    let ghost n = captures.len();
    let mut i: usize = 0;
    while i < captures.len()
        invariant
            i <= captures.len(),
            captures.len() == n,
            all.len() == n,
            forall|j: int|
                i <= j < n ==> all[j] == present_texts(
                    crate::grammar::capture_views(captures@),
                )[j],
            texts(r@) == all.take(i as int),
        decreases captures.len() - i,
    {
        let ghost before = texts(r@);
        let mut taken: Option<String> = None;
        std::mem::swap(&mut taken, &mut captures[i]);
        let s = match taken {
            Some(s) => s,
            None => String::new(),
        };
        r.push(s);
        proof {
            assert(texts(r@) =~= before.push(s@));
            assert(texts(r@) =~= all.take(i + 1));
        }
        i += 1;
    }
    proof {
        assert(all.take(n as int) =~= all);
    }
    r
}

fn match_object(raw: &str, b: &Vec<char>, pats: &Vec<FieldPattern>, p: usize) -> (r: Option<
    Captured,
>)
    requires
        b@ == raw@,
        p < b.len(),
    ensures
        crate::grammar::match_view(r) == object_at(b@, pattern_views(pats@), p as int),
        r matches Some(m) ==> p < m.end <= b.len(),
{
    if b[p] != '{' {
        return None;
    }
    let inner = skip_space(b, p + 1, b.len());
    match match_chain(raw, b, pats, 0, inner, true) {
        Some(m) => {
            let close = skip_space(b, m.end, b.len());
            if close < b.len() && b[close] == '}' {
                Some(Captured { captures: m.captures, end: close + 1 })
            } else {
                None
            }
        },
        None => None,
    }
}

/// Decodes a list of objects. Every `{ ... }` of `raw` that holds the
/// fields `sub_schema`, each as `key='text'`, in that order and with commas
/// between them, gives one object: the texts of its fields in the order of
/// `sub_schema`. Whitespace may stand inside the braces and around the
/// commas. Objects are read left to right and do not nest; what is no
/// object is passed over.
pub fn decode_object_array(raw: &str, sub_schema: &Vec<String>) -> (objects: Vec<Vec<String>>)
    ensures
        text_lists(objects@) == object_array(raw@, texts(sub_schema@)),
{
    let b = chars_of(raw);
    let pats = object_patterns_for(sub_schema);
    let ghost views = pattern_views(pats@);
    let mut objects: Vec<Vec<String>> = Vec::new();
    let mut from: usize = 0;
    proof {
        assert(text_lists(objects@) + objects_from(b@, views, 0) =~= objects_from(b@, views, 0));
    }
    while from < b.len()
        invariant
            b@ == raw@,
            views == pattern_views(pats@),
            from <= b.len(),
            text_lists(objects@) + objects_from(b@, views, from as int) == objects_from(
                b@,
                views,
                0,
            ),
        decreases b.len() - from,
    {
        match match_object(raw, &b, &pats, from) {
            Some(m) => {
                let ghost before = text_lists(objects@);
                let ghost caps = m@.captures;
                let end = m.end;
                let fields = texts_of(m.captures);
                objects.push(fields);
                proof {
                    assert(text_lists(objects@) =~= before + seq![present_texts(caps)]);
                    assert(text_lists(objects@) + objects_from(b@, views, end as int) =~= before
                        + objects_from(b@, views, from as int));
                }
                from = end;
            },
            None => {
                from += 1;
            },
        }
    }
    proof {
        assert(text_lists(objects@) + objects_from(b@, views, from as int) =~= text_lists(
            objects@,
        ));
    }
    objects
}

} // verus!
