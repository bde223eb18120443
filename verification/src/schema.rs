//! Field schemas and the resolver that applies one to a tag body.

use crate::fields::{
    decode_bool_field, decode_object_array, field_opener, flat_array, object_array, opener_for,
    parse_array, text_lists,
};
use crate::grammar::{
    capture_views, chain, find_match, first_match, law_first_match_is_leftmost_reading,
    lemma_chain_shape, pattern_views, reads_as, FieldPattern, FieldPatternView,
};
use crate::model::texts;
use crate::text::{normalize, normalize_lines, strip_literal_quotes, without_quotes};
use vstd::prelude::*;
use vstd::string::*;

verus! {

/// How the text of a field is written and decoded.
#[derive(Debug, Clone, PartialEq, Eq)]
pub enum FieldKind {
    /// `key='text'`, kept as it is.
    Scalar,
    /// `key=[a, 'b', c]`, a list of strings.
    StringArray,
    /// `key=[{...}, {...}]`, a list of objects whose fields have the given
    /// keys, each written `key='text'`, in this order.
    ObjectArray(Vec<String>),
    /// `key='true'` or anything else in quotes.
    Bool,
    /// `key=[text]`, kept without its single quotes.
    RawBlock,
}

/// The view of a [`FieldKind`].
pub enum FieldKindView {
    Scalar,
    StringArray,
    ObjectArray(Seq<Seq<char>>),
    Bool,
    RawBlock,
}

impl View for FieldKind {
    type V = FieldKindView;

    open spec fn view(&self) -> FieldKindView {
        match self {
            FieldKind::Scalar => FieldKindView::Scalar,
            FieldKind::StringArray => FieldKindView::StringArray,
            FieldKind::ObjectArray(keys) => FieldKindView::ObjectArray(texts(keys@)),
            FieldKind::Bool => FieldKindView::Bool,
            FieldKind::RawBlock => FieldKindView::RawBlock,
        }
    }
}

/// One field of a schema.
#[derive(Debug, Clone, PartialEq, Eq)]
pub struct FieldSpec {
    pub key: String,
    pub kind: FieldKind,
    pub required: bool,
}

/// The view of a [`FieldSpec`].
pub struct FieldSpecView {
    pub key: Seq<char>,
    pub kind: FieldKindView,
    pub required: bool,
}

impl View for FieldSpec {
    type V = FieldSpecView;

    open spec fn view(&self) -> FieldSpecView {
        FieldSpecView { key: self.key@, kind: self.kind@, required: self.required }
    }
}

/// The fields of one tag shape, in the order in which a tag writes them.
#[derive(Debug, Clone, PartialEq, Eq)]
pub struct FieldSchema {
    pub fields: Vec<FieldSpec>,
}

impl View for FieldSchema {
    type V = Seq<FieldSpecView>;

    open spec fn view(&self) -> Seq<FieldSpecView> {
        Seq::new(self.fields@.len(), |i: int| self.fields@[i]@)
    }
}

/// The decoded value of a field.
#[derive(Debug, Clone, PartialEq, Eq)]
pub enum FieldValue {
    Text(String),
    List(Vec<String>),
    Objects(Vec<Vec<String>>),
    Flag(bool),
}

/// The view of a [`FieldValue`].
pub enum FieldValueView {
    Text(Seq<char>),
    List(Seq<Seq<char>>),
    Objects(Seq<Seq<Seq<char>>>),
    Flag(bool),
}

impl View for FieldValue {
    type V = FieldValueView;

    open spec fn view(&self) -> FieldValueView {
        match self {
            FieldValue::Text(t) => FieldValueView::Text(t@),
            FieldValue::List(l) => FieldValueView::List(texts(l@)),
            FieldValue::Objects(o) => FieldValueView::Objects(text_lists(o@)),
            FieldValue::Flag(b) => FieldValueView::Flag(*b),
        }
    }
}

/// One resolved field: its key and its value.
#[derive(Debug, Clone, PartialEq, Eq)]
pub struct ParsedField {
    pub key: String,
    pub value: FieldValue,
}

/// The view of a [`ParsedField`].
pub struct ParsedFieldView {
    pub key: Seq<char>,
    pub value: FieldValueView,
}

impl View for ParsedField {
    type V = ParsedFieldView;

    open spec fn view(&self) -> ParsedFieldView {
        ParsedFieldView { key: self.key@, value: self.value@ }
    }
}

/// The fields of one resolved tag: one entry for each field of the schema,
/// in the order of the schema.
#[derive(Debug, Clone, PartialEq, Eq)]
pub struct ParsedFields {
    pub fields: Vec<ParsedField>,
}

impl View for ParsedFields {
    type V = Seq<ParsedFieldView>;

    open spec fn view(&self) -> Seq<ParsedFieldView> {
        Seq::new(self.fields@.len(), |i: int| self.fields@[i]@)
    }
}

/// A tag that does not match its schema, with its body as it was found.
#[derive(Debug, Clone, PartialEq, Eq)]
pub struct TagParseError {
    pub body: String,
}

/// Whether the text of a field of this kind stands in brackets.
pub open spec fn is_bracketed(kind: FieldKindView) -> bool {
    kind is StringArray || kind is ObjectArray || kind is RawBlock
}

/// The pattern by which a field is written.
pub open spec fn field_pattern(f: FieldSpecView) -> FieldPatternView {
    FieldPatternView {
        opener: field_opener(f.key, is_bracketed(f.kind)),
        bracketed: is_bracketed(f.kind),
        required: f.required,
    }
}

/// The patterns of the fields of a schema, in its order.
pub open spec fn schema_patterns(schema: Seq<FieldSpecView>) -> Seq<FieldPatternView> {
    Seq::new(schema.len(), |i: int| field_pattern(schema[i]))
}

/// The value of a field of the given kind whose text is `raw`.
pub open spec fn decode_text(kind: FieldKindView, raw: Seq<char>) -> FieldValueView {
    match kind {
        FieldKindView::Scalar => FieldValueView::Text(raw),
        FieldKindView::StringArray => FieldValueView::List(flat_array(raw)),
        FieldKindView::ObjectArray(keys) => FieldValueView::Objects(object_array(raw, keys)),
        FieldKindView::Bool => FieldValueView::Flag(raw == "true"@),
        FieldKindView::RawBlock => FieldValueView::Text(without_quotes(raw)),
    }
}

/// The value of a field of the given kind: decoded from its text, or from
/// the empty text when the field is not there.
pub open spec fn decode_capture(kind: FieldKindView, cap: Option<Seq<char>>) -> FieldValueView {
    decode_text(
        kind,
        match cap {
            Some(raw) => raw,
            None => Seq::empty(),
        },
    )
}

/// The fields of a schema with the values decoded from the captured texts.
pub open spec fn decoded(schema: Seq<FieldSpecView>, caps: Seq<Option<Seq<char>>>) -> Seq<
    ParsedFieldView,
> {
    Seq::new(
        schema.len(),
        |i: int| ParsedFieldView { key: schema[i].key, value: decode_capture(schema[i].kind, caps[i]) },
    )
}

/// What a tag body resolves to under a schema. The body is normalized line
/// by line; the patterns of the schema are then matched as one sequence, at
/// the leftmost place where they all match; the captured texts are decoded
/// each by its kind. `None` when the sequence matches nowhere.
pub open spec fn resolved(body: Seq<char>, schema: Seq<FieldSpecView>) -> Option<
    Seq<ParsedFieldView>,
> {
    match first_match(normalize_lines(body), schema_patterns(schema), 0) {
        Some(m) => Some(decoded(schema, m.captures)),
        None => None,
    }
}

/// A match found by `first_match` holds one capture for each pattern.
pub proof fn lemma_first_match_shape(b: Seq<char>, pats: Seq<FieldPatternView>, from: int)
    requires
        0 <= from <= b.len(),
    ensures
        first_match(b, pats, from) matches Some(m) ==> m.captures.len() == pats.len() && from
            <= m.end <= b.len(),
    decreases b.len() - from,
{
    lemma_chain_shape(b, pats, 0, from, true);
    if chain(b, pats, 0, from, true) is None && from < b.len() {
        lemma_first_match_shape(b, pats, from + 1);
    }
}

/// A body resolves exactly if it can be read: if its normalized form has,
/// at some place, a reading as the fields of the schema.
pub proof fn law_resolves_what_can_be_read(body: Seq<char>, schema: Seq<FieldSpecView>)
    ensures
        resolved(body, schema) is Some <==> exists|
            p: int,
            caps: Seq<Option<Seq<char>>>,
            end: int,
        |
            0 <= p <= normalize_lines(body).len() && #[trigger] reads_as(
                normalize_lines(body),
                schema_patterns(schema),
                0,
                p,
                true,
                caps,
                end,
            ),
{
    let b = normalize_lines(body);
    let pats = schema_patterns(schema);
    law_first_match_is_leftmost_reading(b, pats, 0);
    match first_match(b, pats, 0) {
        Some(m) => {
            let p = choose|p: int|
                0 <= p <= b.len() && #[trigger] reads_as(b, pats, 0, p, true, m.captures, m.end);
            assert(0 <= p <= b.len() && reads_as(b, pats, 0, p, true, m.captures, m.end));
        },
        None => {},
    }
}

impl FieldSpec {
    /// Whether the text of this field stands in brackets.
    pub fn bracketed(&self) -> (r: bool)
        ensures
            r == is_bracketed(self@.kind),
    {
        match &self.kind {
            FieldKind::Scalar => false,
            FieldKind::StringArray => true,
            FieldKind::ObjectArray(_) => true,
            FieldKind::Bool => false,
            FieldKind::RawBlock => true,
        }
    }

    /// The value of this field when its text is `raw`.
    pub fn decode(&self, raw: &str) -> (value: FieldValue)
        ensures
            value@ == decode_text(self@.kind, raw@),
    {
        match &self.kind {
            FieldKind::Scalar => FieldValue::Text(raw.to_owned()),
            FieldKind::StringArray => FieldValue::List(parse_array(raw)),
            FieldKind::ObjectArray(keys) => FieldValue::Objects(decode_object_array(raw, keys)),
            FieldKind::Bool => FieldValue::Flag(decode_bool_field(raw)),
            FieldKind::RawBlock => FieldValue::Text(strip_literal_quotes(raw)),
        }
    }
}

impl FieldSchema {
    /// The patterns of the fields, in the order of the schema.
    pub fn patterns(&self) -> (pats: Vec<FieldPattern>)
        ensures
            pattern_views(pats@) == schema_patterns(self@),
    {
        let mut pats: Vec<FieldPattern> = Vec::new();
        let mut i: usize = 0;
        while i < self.fields.len()
            invariant
                i <= self.fields.len(),
                pattern_views(pats@) == schema_patterns(self@).take(i as int),
            decreases self.fields.len() - i,
        {
            let ghost before = pattern_views(pats@);
            let field = &self.fields[i];
            let bracketed = field.bracketed();
            let pat = FieldPattern {
                opener: opener_for(field.key.as_str(), bracketed),
                bracketed,
                required: field.required,
            };
            pats.push(pat);
            proof {
                assert(pattern_views(pats@) =~= before.push(pat@));
                assert(pattern_views(pats@) =~= schema_patterns(self@).take(i + 1));
            }
            i += 1;
        }
        proof {
            assert(schema_patterns(self@).take(self.fields.len() as int) =~= schema_patterns(
                self@,
            ));
        }
        pats
    }

    fn decode_all(&self, captures: &Vec<Option<String>>) -> (parsed: ParsedFields)
        requires
            captures.len() == self.fields.len(),
        ensures
            parsed@ == decoded(self@, capture_views(captures@)),
    {
        let ghost all = decoded(self@, capture_views(captures@));
        let mut fields: Vec<ParsedField> = Vec::new();
        let mut i: usize = 0;
        while i < self.fields.len()
            invariant
                i <= self.fields.len(),
                captures.len() == self.fields.len(),
                all == decoded(self@, capture_views(captures@)),
                Seq::new(fields@.len(), |j: int| fields@[j]@) == all.take(i as int),
            decreases self.fields.len() - i,
        {
            let ghost before = Seq::new(fields@.len(), |j: int| fields@[j]@);
            let spec = &self.fields[i];
            let value = match &captures[i] {
                Some(raw) => spec.decode(raw.as_str()),
                None => {
                    let empty = String::new();
                    spec.decode(empty.as_str())
                },
            };
            let field = ParsedField { key: spec.key.clone(), value };
            fields.push(field);
            proof {
                assert(Seq::new(fields@.len(), |j: int| fields@[j]@) =~= before.push(field@));
                assert(Seq::new(fields@.len(), |j: int| fields@[j]@) =~= all.take(i + 1));
            }
            i += 1;
        }
        let parsed = ParsedFields { fields };
        proof {
            assert(all.take(self.fields.len() as int) =~= all);
        }
        parsed
    }
}

/// Resolves a tag body against a schema.
///
/// The body is normalized first: each of its lines is trimmed of
/// whitespace. The fields of the schema are then matched in their order,
/// separated by commas with any whitespace around them, at the leftmost
/// place of the body where the whole sequence matches. A required field
/// that cannot be matched rejects the tag, and the error carries the body
/// as it was given; a field that is not required and not there gets the
/// empty value of its kind.
pub fn resolve(body: &str, schema: &FieldSchema) -> (r: Result<ParsedFields, TagParseError>)
    ensures
        match r {
            Ok(parsed) => resolved(body@, schema@) == Some(parsed@),
            Err(e) => resolved(body@, schema@) is None && e.body@ == body@,
        },
{
    let normalized = normalize(body);
    let pats = schema.patterns();
    proof {
        lemma_first_match_shape(normalized@, pattern_views(pats@), 0);
    }
    match find_match(normalized.as_str(), &pats) {
        Some(m) => Ok(schema.decode_all(&m.captures)),
        None => Err(TagParseError { body: body.to_owned() }),
    }
}

} // verus!
