//! The tag locator: finds every `//marker(body)` in a text, in order of
//! appearance, without looking into the bodies.

use crate::chars::{
    chars_of, contains_seq, find_char, find_occurrence, lemma_next_char, lemma_next_occurrence,
    matches_at, next_char, next_occurrence, occurs_at, slice_of,
};
use vstd::prelude::*;

verus! {

/// One located tag: its marker, the raw text between its parentheses, and
/// where it stands in the input, as character offsets (`end_offset` is one
/// past the closing parenthesis).
#[derive(Debug, Clone, PartialEq, Eq)]
pub struct RawTag {
    pub name: String,
    pub body: String,
    pub start_offset: usize,
    pub end_offset: usize,
}

/// The view of a [`RawTag`].
pub struct RawTagView {
    pub name: Seq<char>,
    pub body: Seq<char>,
    pub start_offset: int,
    pub end_offset: int,
}

impl View for RawTag {
    type V = RawTagView;

    open spec fn view(&self) -> RawTagView {
        RawTagView {
            name: self.name@,
            body: self.body@,
            start_offset: self.start_offset as int,
            end_offset: self.end_offset as int,
        }
    }
}

/// The views of a list of tags.
pub open spec fn tag_views(tags: Seq<RawTag>) -> Seq<RawTagView> {
    Seq::new(tags.len(), |i: int| tags[i]@)
}

/// What opens a tag with the given marker: `//`, the marker, `(`.
pub open spec fn tag_opener(marker: Seq<char>) -> Seq<char> {
    seq!['/', '/'] + marker + seq!['(']
}

/// The tags of `text[from..]`, left to right. A tag starts at the first
/// opener and runs to the first `)` after it; the search goes on behind
/// that parenthesis. An opener that no `)` follows gives no tag.
pub open spec fn located(text: Seq<char>, marker: Seq<char>, from: int) -> Seq<RawTagView>
    decreases text.len() - from,
{
    let opener = tag_opener(marker);
    let start = next_occurrence(text, opener, from);
    let body_start = start + opener.len();
    let close = next_char(text, ')', body_start);
    if 0 <= from <= start && occurs_at(text, opener, start) && body_start <= close < text.len() {
        seq![
            RawTagView {
                name: marker,
                body: text.subrange(body_start, close),
                start_offset: start,
                end_offset: close + 1,
            },
        ] + located(text, marker, close + 1)
    } else {
        Seq::empty()
    }
}

/// Every located tag spans an opener, a body without `)` and a `)`; the
/// tags do not overlap, and they come in the order of their positions.
pub proof fn lemma_located(text: Seq<char>, marker: Seq<char>, from: int)
    requires
        0 <= from <= text.len(),
    ensures
        forall|k: int|
            #![trigger located(text, marker, from)[k]]
            0 <= k < located(text, marker, from).len() ==> {
                let t = located(text, marker, from)[k];
                &&& t.name == marker
                &&& from <= t.start_offset < t.end_offset <= text.len()
                &&& text.subrange(t.start_offset, t.end_offset) == tag_opener(marker) + t.body
                    + seq![')']
                &&& forall|j: int| 0 <= j < t.body.len() ==> t.body[j] != ')'
            },
        forall|k: int, l: int|
            #![trigger located(text, marker, from)[k], located(text, marker, from)[l]]
            0 <= k < l < located(text, marker, from).len() ==> located(
                text,
                marker,
                from,
            )[k].end_offset <= located(text, marker, from)[l].start_offset,
    decreases text.len() - from,
{
    let opener = tag_opener(marker);
    let start = next_occurrence(text, opener, from);
    let body_start = start + opener.len();
    let close = next_char(text, ')', body_start);
    lemma_next_occurrence(text, opener, from);
    if occurs_at(text, opener, start) && close < text.len() {
        lemma_next_char(text, ')', body_start);
        lemma_located(text, marker, close + 1);
        let tags = located(text, marker, from);
        let rest = located(text, marker, close + 1);
        let head = tags[0];
        assert(text.subrange(head.start_offset, head.end_offset) =~= opener + head.body + seq![')']);
        assert forall|k: int| 0 <= k < tags.len() implies {
            let t = #[trigger] tags[k];
            &&& t.name == marker
            &&& from <= t.start_offset < t.end_offset <= text.len()
            &&& text.subrange(t.start_offset, t.end_offset) == opener + t.body + seq![')']
            &&& forall|j: int| 0 <= j < t.body.len() ==> t.body[j] != ')'
        } by {
            if k > 0 {
                assert(tags[k] == rest[k - 1]);
            }
        }
        assert forall|k: int, l: int| 0 <= k < l < tags.len() implies (#[trigger] tags[k]).end_offset
            <= (#[trigger] tags[l]).start_offset by {
            assert(tags[l] == rest[l - 1]);
            if k > 0 {
                assert(tags[k] == rest[k - 1]);
            }
        }
    }
}

/// A text in which the opener does not occur holds no tag.
pub proof fn lemma_located_none(text: Seq<char>, marker: Seq<char>, from: int)
    requires
        0 <= from <= text.len(),
        !contains_seq(text, tag_opener(marker)),
    ensures
        located(text, marker, from) == Seq::<RawTagView>::empty(),
{
    lemma_next_occurrence(text, tag_opener(marker), from);
}

/// The opener of a tag with the given marker, as characters.
pub fn opener_of(marker: &str) -> (r: Vec<char>)
    ensures
        r@ == tag_opener(marker@),
{
    let name = chars_of(marker);
    let mut r: Vec<char> = Vec::new();
    r.push('/');
    r.push('/');
    let mut i: usize = 0;
    while i < name.len()
        invariant
            i <= name.len(),
            r@ == seq!['/', '/'] + name@.take(i as int),
        decreases name.len() - i,
    {
        r.push(name[i]);
        proof {
            assert(name@.take(i + 1) =~= name@.take(i as int).push(name@[i as int]));
            assert(r@ =~= seq!['/', '/'] + name@.take(i + 1));
        }
        i += 1;
    }
    r.push('(');
    proof {
        assert(name@.take(name.len() as int) =~= name@);
        assert(r@ =~= tag_opener(marker@));
    }
    r
}

/// Locates the tags with the given marker in `text`, in order of
/// appearance.
///
/// Each tag runs from `//marker(` to the first `)` that follows; its body
/// is the text between the two, taken as it is. Tags do not overlap: the
/// search for the next one starts behind the closing parenthesis of the
/// last. An opener that no `)` follows is passed over.
pub fn locate_tags(text: &str, marker: &str) -> (tags: Vec<RawTag>)
    ensures
        tag_views(tags@) == located(text@, marker@, 0),
{
    let cs = chars_of(text);
    let opener = opener_of(marker);
    let mut tags: Vec<RawTag> = Vec::new();
    let mut from: usize = 0;
    proof {
        assert(tag_views(tags@) + located(text@, marker@, 0) =~= located(text@, marker@, 0));
    }
    loop
        invariant_except_break
            tag_views(tags@) + located(cs@, marker@, from as int) == located(cs@, marker@, 0),
        invariant
            cs@ == text@,
            opener@ == tag_opener(marker@),
            from <= cs.len(),
        ensures
            tag_views(tags@) == located(cs@, marker@, 0),
        decreases cs.len() - from,
    {
        let start = find_occurrence(&cs, &opener, from);
        if !matches_at(&cs, &opener, start) {
            proof {
                assert(tag_views(tags@) + Seq::<RawTagView>::empty() =~= tag_views(tags@));
            }
            break ;
        }
        let body_start = start + opener.len();
        let close = find_char(&cs, ')', body_start);
        if close >= cs.len() {
            proof {
                assert(tag_views(tags@) + Seq::<RawTagView>::empty() =~= tag_views(tags@));
            }
            break ;
        }
        let tag = RawTag {
            name: marker.to_owned(),
            body: slice_of(text, body_start, close),
            start_offset: start,
            end_offset: close + 1,
        };
        let ghost before = tag_views(tags@);
        tags.push(tag);
        proof {
            assert(tag_views(tags@) =~= before + seq![tag@]);
            assert(tag_views(tags@) + located(cs@, marker@, close + 1) =~= before + located(
                cs@,
                marker@,
                from as int,
            ));
        }
        from = close + 1;
    }
    tags
}

} // verus!
