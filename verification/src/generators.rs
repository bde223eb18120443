//! A summary of one endpoint, read from the text of a tag by what it
//! mentions rather than by its fields.

use crate::chars::{
    chars_of, contains, contains_seq, find_char, lemma_next_char, next_char, slice_of,
};
use vstd::prelude::*;
use vstd::string::*;

verus! {

/// The method that a text mentions: `POST` before `GET`, else `Unknown`.
pub open spec fn method_of(content: Seq<char>) -> Seq<char> {
    if contains_seq(content, "POST"@) {
        "POST"@
    } else if contains_seq(content, "GET"@) {
        "GET"@
    } else {
        "Unknown"@
    }
}

/// The format that a text mentions: `raw-json`, else `Unknown`.
pub open spec fn format_of(content: Seq<char>) -> Seq<char> {
    if contains_seq(content, "raw-json"@) {
        "raw-json"@
    } else {
        "Unknown"@
    }
}

/// The text between the first `[` at or after `from` and the next `]`,
/// where the two stand on one line. A `[` whose line ends before a `]`
/// comes is passed over.
pub open spec fn bracket_text_from(s: Seq<char>, from: int) -> Option<Seq<char>>
    decreases s.len() - from,
{
    let open = next_char(s, '[', from);
    let close = next_char(s, ']', open + 1);
    let line_end = next_char(s, '\n', open + 1);
    if 0 <= from <= open < s.len() {
        if close < s.len() && close < line_end {
            Some(s.subrange(open + 1, close))
        } else {
            bracket_text_from(s, open + 1)
        }
    } else {
        None
    }
}

/// Whether `open` and `close` are a pair of brackets on one line: `[` and
/// the first `]` after it, with no newline between them.
pub open spec fn bracket_pair(s: Seq<char>, open: int, close: int) -> bool {
    &&& 0 <= open < close < s.len()
    &&& s[open] == '['
    &&& s[close] == ']'
    &&& forall|j: int| open < j < close ==> s[j] != ']' && s[j] != '\n'
}

/// Whether `t` is the text of the pair of brackets that opens at `open`,
/// and no pair opens between `from` and `open`.
pub open spec fn leftmost_pair(s: Seq<char>, from: int, open: int, t: Seq<char>) -> bool {
    &&& from <= open
    &&& bracket_pair(s, open, open + 1 + t.len())
    &&& t == s.subrange(open + 1, open + 1 + t.len())
    &&& forall|o: int, c: int| from <= o < open ==> !#[trigger] bracket_pair(s, o, c)
}

/// What `bracket_text_from` finds is the text of the leftmost pair of
/// brackets on one line; it finds nothing only where there is no such
/// pair.
pub proof fn law_bracket_text_is_leftmost_pair(s: Seq<char>, from: int)
    requires
        0 <= from <= s.len(),
    ensures
        bracket_text_from(s, from) matches Some(t) ==> exists|open: int| #[trigger]
            leftmost_pair(s, from, open, t),
        bracket_text_from(s, from) is None ==> forall|o: int, c: int|
            from <= o ==> !#[trigger] bracket_pair(s, o, c),
    decreases s.len() - from,
{
    let open = next_char(s, '[', from);
    lemma_next_char(s, '[', from);
    assert forall|o: int, c: int| from <= o < open implies !#[trigger] bracket_pair(s, o, c) by {
        if o < s.len() {
            assert(s[o] != '[');
        }
    }
    if open < s.len() {
        let close = next_char(s, ']', open + 1);
        let line_end = next_char(s, '\n', open + 1);
        lemma_next_char(s, ']', open + 1);
        lemma_next_char(s, '\n', open + 1);
        if close < s.len() && close < line_end {
            let t = bracket_text_from(s, from)->0;
            assert(t == s.subrange(open + 1, close));
            assert(leftmost_pair(s, from, open, t));
        } else {
            assert(bracket_text_from(s, from) == bracket_text_from(s, open + 1));
            law_bracket_text_is_leftmost_pair(s, open + 1);
            assert forall|c: int| !bracket_pair(s, open, c) by {
                if bracket_pair(s, open, c) {
                    assert(close == c);
                    assert(line_end > c);
                }
            }
            match bracket_text_from(s, open + 1) {
                Some(t) => {
                    let o = choose|o: int| #[trigger] leftmost_pair(s, open + 1, o, t);
                    assert(leftmost_pair(s, from, o, t));
                },
                None => {
                    assert forall|o: int, c: int| from <= o implies !#[trigger] bracket_pair(
                        s,
                        o,
                        c,
                    ) by {
                        if o > open {
                            assert(open + 1 <= o);
                        }
                    }
                },
            }
        }
    }
}

/// The body parameters that a text shows: its first bracketed text that
/// stands on one line, or a note that there is none.
pub open spec fn body_params_of(content: Seq<char>) -> Seq<char> {
    match bracket_text_from(content, 0) {
        Some(t) => t,
        None => "No body parameters found"@,
    }
}

/// The summary of an endpoint.
pub open spec fn summary_markdown(content: Seq<char>) -> Seq<char> {
    "# Endpoint Documentation\n\n**Method**: "@ + method_of(content) + "\n**Format**: "@
        + format_of(content) + "\n\n**Request Body**:\n"@ + body_params_of(content) + "\n"@
}

/// The method that `content` mentions: `POST` if it occurs anywhere in the
/// text, else `GET` if that occurs, else `Unknown`.
pub fn extract_method(content: &str) -> (r: String)
    ensures
        r@ == method_of(content@),
{
    if contains(content, "POST") {
        "POST".to_owned()
    } else if contains(content, "GET") {
        "GET".to_owned()
    } else {
        "Unknown".to_owned()
    }
}

/// The format that `content` mentions: `raw-json` if it occurs anywhere in
/// the text, else `Unknown`.
pub fn extract_format(content: &str) -> (r: String)
    ensures
        r@ == format_of(content@),
{
    if contains(content, "raw-json") {
        "raw-json".to_owned()
    } else {
        "Unknown".to_owned()
    }
}

/// The body parameters that `content` shows: what stands between the first
/// `[` and the next `]`, where no line ends between the two. When the text
/// holds no such brackets, the result says so.
pub fn extract_body_params(content: &str) -> (r: String)
    ensures
        r@ == body_params_of(content@),
{
    let cs = chars_of(content);
    let mut from: usize = 0;
    loop
        invariant
            cs@ == content@,
            from <= cs.len(),
            bracket_text_from(cs@, from as int) == bracket_text_from(cs@, 0),
        decreases cs.len() - from,
    {
        let open = find_char(&cs, '[', from);
        if open >= cs.len() {
            return "No body parameters found".to_owned();
        }
        let close = find_char(&cs, ']', open + 1);
        let line_end = find_char(&cs, '\n', open + 1);
        if close < cs.len() && close < line_end {
            return slice_of(content, open + 1, close);
        }
        from = open + 1;
    }
}

/// Renders the summary of an endpoint from the text of its tag: a title,
/// the method and the format that the text mentions, and its first
/// bracketed text as the request body.
pub fn generate_markdown(promiser_content: &str) -> (markdown: String)
    ensures
        markdown@ == summary_markdown(promiser_content@),
{
    let method = extract_method(promiser_content);
    let format = extract_format(promiser_content);
    let body_params = extract_body_params(promiser_content);
    let mut markdown = String::new();
    markdown.append("# Endpoint Documentation\n\n**Method**: ");
    markdown.append(method.as_str());
    markdown.append("\n**Format**: ");
    markdown.append(format.as_str());
    markdown.append("\n\n**Request Body**:\n");
    markdown.append(body_params.as_str());
    markdown.append("\n");
    proof {
        assert(markdown@ =~= summary_markdown(promiser_content@));
    }
    markdown
}

} // verus!
