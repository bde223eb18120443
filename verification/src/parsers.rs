//! The short form of the endpoint tag: `promizer(type='..', format='..',
//! body=[..])`, written on one line.

use crate::chars::{
    chars_of, find_char, find_occurrence, matches_at, next_char, next_occurrence, occurs_at,
    slice_of,
};
use crate::fields::{flat_array, parse_array};
use crate::model::texts;
use vstd::prelude::*;

verus! {

/// What opens the short form, up to the text of the type.
pub open spec fn short_prefix() -> Seq<char> {
    "promizer(type='"@
}

/// What stands between the type and the format.
pub open spec fn short_format_mark() -> Seq<char> {
    "', format='"@
}

/// What stands between the format and the body.
pub open spec fn short_body_mark() -> Seq<char> {
    "', body=["@
}

/// What closes the short form.
pub open spec fn short_close() -> Seq<char> {
    "])"@
}

/// The three texts of a short tag.
pub struct ShortTag {
    pub method: Seq<char>,
    pub format: Seq<char>,
    pub body: Seq<char>,
}

/// The short tag that starts at `p`. The type runs to the first mark of
/// the format, the format to the first mark of the body, the body to the
/// first `])`; no line may end before that.
pub open spec fn short_tag_at(s: Seq<char>, p: int) -> Option<ShortTag> {
    let method_start = p + short_prefix().len();
    let method_end = next_occurrence(s, short_format_mark(), method_start);
    let format_start = method_end + short_format_mark().len();
    let format_end = next_occurrence(s, short_body_mark(), format_start);
    let body_start = format_end + short_body_mark().len();
    let body_end = next_occurrence(s, short_close(), body_start);
    if occurs_at(s, short_prefix(), p) && occurs_at(s, short_format_mark(), method_end)
        && occurs_at(s, short_body_mark(), format_end) && occurs_at(s, short_close(), body_end)
        && next_char(s, '\n', method_start) >= body_end {
        Some(
            ShortTag {
                method: s.subrange(method_start, method_end),
                format: s.subrange(format_start, format_end),
                body: s.subrange(body_start, body_end),
            },
        )
    } else {
        None
    }
}

/// The leftmost short tag that starts at or after `from`.
pub open spec fn short_tag_from(s: Seq<char>, from: int) -> Option<ShortTag>
    decreases s.len() - from,
{
    let p = next_occurrence(s, short_prefix(), from);
    if 0 <= from <= p < s.len() && occurs_at(s, short_prefix(), p) {
        match short_tag_at(s, p) {
            Some(t) => Some(t),
            None => short_tag_from(s, p + 1),
        }
    } else {
        None
    }
}

/// What `parse_promiser` gives for a text: the type, the format, and the
/// items of the body, decoded as a comma-separated list.
pub open spec fn short_tag_fields(s: Seq<char>) -> Option<(Seq<char>, Seq<char>, Seq<Seq<char>>)> {
    match short_tag_from(s, 0) {
        Some(t) => Some((t.method, t.format, flat_array(t.body))),
        None => None,
    }
}

/// The view of what `parse_promiser` returns.
pub open spec fn short_tag_view(r: Option<(String, String, Vec<String>)>) -> Option<
    (Seq<char>, Seq<char>, Seq<Seq<char>>),
> {
    match r {
        Some((method, format, body)) => Some((method@, format@, texts(body@))),
        None => None,
    }
}

/// Reads the first short tag of `input`: `promizer(type='T',
/// format='F', body=[B])`, all on one line, with the marks between the
/// texts written exactly so. Returns the type, the format, and the items
/// of the body: its stretches between commas, each trimmed and without one
/// surrounding quote on either side, those left out of which nothing
/// remains. An empty body gives no item. `None` when `input` holds no such
/// tag.
pub fn parse_promiser(input: &str) -> (r: Option<(String, String, Vec<String>)>)
    ensures
        short_tag_view(r) == short_tag_fields(input@),
{
    let s = chars_of(input);
    let prefix = chars_of("promizer(type='");
    let format_mark = chars_of("', format='");
    let body_mark = chars_of("', body=[");
    let close = chars_of("])");
    let mut from: usize = 0;
    loop
        invariant
            s@ == input@,
            prefix@ == short_prefix(),
            format_mark@ == short_format_mark(),
            body_mark@ == short_body_mark(),
            close@ == short_close(),
            from <= s.len(),
            short_tag_from(s@, from as int) == short_tag_from(s@, 0),
        decreases s.len() - from,
    {
        let p = find_occurrence(&s, &prefix, from);
        if p >= s.len() || !matches_at(&s, &prefix, p) {
            return None;
        }
        let method_start = p + prefix.len();
        let method_end = find_occurrence(&s, &format_mark, method_start);
        if matches_at(&s, &format_mark, method_end) {
            let format_start = method_end + format_mark.len();
            let format_end = find_occurrence(&s, &body_mark, format_start);
            if matches_at(&s, &body_mark, format_end) {
                let body_start = format_end + body_mark.len();
                let body_end = find_occurrence(&s, &close, body_start);
                if matches_at(&s, &close, body_end) && find_char(&s, '\n', method_start)
                    >= body_end {
                    let body = slice_of(input, body_start, body_end);
                    let items = parse_array(body.as_str());
                    return Some(
                        (
                            slice_of(input, method_start, method_end),
                            slice_of(input, format_start, format_end),
                            items,
                        ),
                    );
                }
            }
        }
        from = p + 1;
    }
}

} // verus!
