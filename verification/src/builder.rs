//! The two schemas that come with the library, and the builders that turn
//! resolved fields into document records.

use crate::fields::{decode_bool_field, text_lists};
use crate::model::{
    texts, EndpointDoc, EndpointDocView, FunctionDoc, FunctionDocView, Parameter, ParameterView,
    Response, ResponseView,
};
use crate::schema::{
    FieldKind, FieldKindView, FieldSchema, FieldSpec, FieldSpecView, FieldValue, FieldValueView,
    ParsedFieldView, ParsedFields,
};
use vstd::prelude::*;

verus! {

/// A required field of the given kind.
pub open spec fn required_field(key: Seq<char>, kind: FieldKindView) -> FieldSpecView {
    FieldSpecView { key, kind, required: true }
}

/// The flat schema, for the documentation of a function: `title`,
/// `description` and `developed_by`, each a quoted text.
pub open spec fn flat_fields() -> Seq<FieldSpecView> {
    seq![
        required_field("title"@, FieldKindView::Scalar),
        required_field("description"@, FieldKindView::Scalar),
        required_field("developed_by"@, FieldKindView::Scalar),
    ]
}

/// The keys of a parameter object, in the order in which they are written.
pub open spec fn parameter_keys() -> Seq<Seq<char>> {
    seq!["name"@, "location"@, "required"@, "type"@, "description"@]
}

/// The keys of a response object, in the order in which they are written.
pub open spec fn response_keys() -> Seq<Seq<char>> {
    seq!["code"@, "description"@, "schema"@]
}

/// The rich schema, for the documentation of an endpoint.
pub open spec fn rich_fields() -> Seq<FieldSpecView> {
    seq![
        required_field("path"@, FieldKindView::Scalar),
        required_field("url"@, FieldKindView::Scalar),
        required_field("type"@, FieldKindView::Scalar),
        required_field("format"@, FieldKindView::Scalar),
        required_field("description"@, FieldKindView::Scalar),
        required_field("parameters"@, FieldKindView::ObjectArray(parameter_keys())),
        required_field("responses"@, FieldKindView::ObjectArray(response_keys())),
        required_field("tags"@, FieldKindView::StringArray),
        required_field("security"@, FieldKindView::StringArray),
        required_field("consumes"@, FieldKindView::StringArray),
        required_field("produces"@, FieldKindView::StringArray),
        required_field("deprecated"@, FieldKindView::Bool),
        required_field("body"@, FieldKindView::RawBlock),
    ]
}

/// The value of the first field with the given key, from index `i` on.
pub open spec fn lookup_from(fields: Seq<ParsedFieldView>, key: Seq<char>, i: int) -> Option<
    FieldValueView,
>
    decreases fields.len() - i,
{
    if i < 0 || i >= fields.len() {
        None
    } else if fields[i].key == key {
        Some(fields[i].value)
    } else {
        lookup_from(fields, key, i + 1)
    }
}

/// The value of the first field with the given key.
pub open spec fn lookup(fields: Seq<ParsedFieldView>, key: Seq<char>) -> Option<FieldValueView> {
    lookup_from(fields, key, 0)
}

/// The text of the field `key`; empty when there is no such field or it
/// holds no text.
pub open spec fn text_of(fields: Seq<ParsedFieldView>, key: Seq<char>) -> Seq<char> {
    match lookup(fields, key) {
        Some(FieldValueView::Text(t)) => t,
        _ => Seq::empty(),
    }
}

/// The list of the field `key`; empty when there is no such field or it
/// holds no list.
pub open spec fn list_of(fields: Seq<ParsedFieldView>, key: Seq<char>) -> Seq<Seq<char>> {
    match lookup(fields, key) {
        Some(FieldValueView::List(l)) => l,
        _ => Seq::empty(),
    }
}

/// The objects of the field `key`; none when there is no such field or it
/// holds no objects.
pub open spec fn objects_of(fields: Seq<ParsedFieldView>, key: Seq<char>) -> Seq<Seq<Seq<char>>> {
    match lookup(fields, key) {
        Some(FieldValueView::Objects(o)) => o,
        _ => Seq::empty(),
    }
}

/// The flag of the field `key`; false when there is no such field or it
/// holds no flag.
pub open spec fn flag_of(fields: Seq<ParsedFieldView>, key: Seq<char>) -> bool {
    match lookup(fields, key) {
        Some(FieldValueView::Flag(b)) => b,
        _ => false,
    }
}

/// The text at position `i` of an object; empty when the object is shorter.
pub open spec fn text_at(object: Seq<Seq<char>>, i: int) -> Seq<char> {
    if 0 <= i < object.len() {
        object[i]
    } else {
        Seq::empty()
    }
}

/// The parameter that an object with the parameter keys stands for.
pub open spec fn parameter_of(object: Seq<Seq<char>>) -> ParameterView {
    ParameterView {
        name: text_at(object, 0),
        location: text_at(object, 1),
        required: text_at(object, 2) == "true"@,
        type_: text_at(object, 3),
        description: text_at(object, 4),
    }
}

/// The response that an object with the response keys stands for.
pub open spec fn response_of(object: Seq<Seq<char>>) -> ResponseView {
    ResponseView {
        code: text_at(object, 0),
        description: text_at(object, 1),
        schema: text_at(object, 2),
    }
}

/// The function record that resolved fields stand for.
pub open spec fn function_doc_of(fields: Seq<ParsedFieldView>) -> FunctionDocView {
    FunctionDocView {
        title: text_of(fields, "title"@),
        description: text_of(fields, "description"@),
        developed_by: text_of(fields, "developed_by"@),
    }
}

/// The endpoint record that resolved fields stand for.
pub open spec fn endpoint_doc_of(fields: Seq<ParsedFieldView>) -> EndpointDocView {
    EndpointDocView {
        path: text_of(fields, "path"@),
        base_url: text_of(fields, "url"@),
        method: text_of(fields, "type"@),
        format: text_of(fields, "format"@),
        body: text_of(fields, "body"@),
        description: text_of(fields, "description"@),
        parameters: parameters_of(objects_of(fields, "parameters"@)),
        responses: responses_of(objects_of(fields, "responses"@)),
        tags: list_of(fields, "tags"@),
        security: list_of(fields, "security"@),
        consumes: list_of(fields, "consumes"@),
        produces: list_of(fields, "produces"@),
        deprecated: flag_of(fields, "deprecated"@),
    }
}

fn required(key: &str, kind: FieldKind) -> (f: FieldSpec)
    ensures
        f@ == required_field(key@, kind@),
{
    FieldSpec { key: key.to_owned(), kind, required: true }
}

/// The keys of a parameter object, in the order in which they are written.
pub fn keys_of_parameter() -> (keys: Vec<String>)
    ensures
        texts(keys@) == parameter_keys(),
{
    let mut keys: Vec<String> = Vec::new();
    keys.push("name".to_owned());
    keys.push("location".to_owned());
    keys.push("required".to_owned());
    keys.push("type".to_owned());
    keys.push("description".to_owned());
    proof {
        assert(texts(keys@) =~= parameter_keys());
    }
    keys
}

/// The keys of a response object, in the order in which they are written.
pub fn keys_of_response() -> (keys: Vec<String>)
    ensures
        texts(keys@) == response_keys(),
{
    let mut keys: Vec<String> = Vec::new();
    keys.push("code".to_owned());
    keys.push("description".to_owned());
    keys.push("schema".to_owned());
    proof {
        assert(texts(keys@) =~= response_keys());
    }
    keys
}

/// The flat schema: `title`, `description`, `developed_by`.
pub fn flat_schema() -> (schema: FieldSchema)
    ensures
        schema@ == flat_fields(),
{
    let mut fields: Vec<FieldSpec> = Vec::new();
    fields.push(required("title", FieldKind::Scalar));
    fields.push(required("description", FieldKind::Scalar));
    fields.push(required("developed_by", FieldKind::Scalar));
    let schema = FieldSchema { fields };
    proof {
        assert(schema@ =~= flat_fields());
    }
    schema
}

/// The rich schema: `path`, `url`, `type`, `format`, `description`,
/// `parameters`, `responses`, `tags`, `security`, `consumes`, `produces`,
/// `deprecated`, `body`.
pub fn rich_schema() -> (schema: FieldSchema)
    ensures
        schema@ == rich_fields(),
{
    let mut fields: Vec<FieldSpec> = Vec::new();
    fields.push(required("path", FieldKind::Scalar));
    fields.push(required("url", FieldKind::Scalar));
    fields.push(required("type", FieldKind::Scalar));
    fields.push(required("format", FieldKind::Scalar));
    fields.push(required("description", FieldKind::Scalar));
    fields.push(required("parameters", FieldKind::ObjectArray(keys_of_parameter())));
    fields.push(required("responses", FieldKind::ObjectArray(keys_of_response())));
    fields.push(required("tags", FieldKind::StringArray));
    fields.push(required("security", FieldKind::StringArray));
    fields.push(required("consumes", FieldKind::StringArray));
    fields.push(required("produces", FieldKind::StringArray));
    fields.push(required("deprecated", FieldKind::Bool));
    fields.push(required("body", FieldKind::RawBlock));
    let schema = FieldSchema { fields };
    proof {
        assert(schema@ =~= rich_fields());
    }
    schema
}

fn copy_texts(v: &Vec<String>) -> (r: Vec<String>)
    ensures
        texts(r@) == texts(v@),
{
    let mut r: Vec<String> = Vec::new();
    let mut i: usize = 0;
    while i < v.len()
        invariant
            i <= v.len(),
            texts(r@) == texts(v@).take(i as int),
        decreases v.len() - i,
    {
        let ghost before = texts(r@);
        let s = v[i].clone();
        r.push(s);
        proof {
            assert(texts(r@) =~= before.push(s@));
            assert(texts(r@) =~= texts(v@).take(i + 1));
        }
        i += 1;
    }
    proof {
        assert(texts(v@).take(v.len() as int) =~= texts(v@));
    }
    r
}

fn copy_text_at(object: &Vec<String>, i: usize) -> (r: String)
    ensures
        r@ == text_at(texts(object@), i as int),
{
    if i < object.len() {
        object[i].clone()
    } else {
        String::new()
    }
}

fn parameter_from(object: &Vec<String>) -> (p: Parameter)
    ensures
        p@ == parameter_of(texts(object@)),
{
    let required = copy_text_at(object, 2);
    Parameter {
        name: copy_text_at(object, 0),
        location: copy_text_at(object, 1),
        required: decode_bool_field(required.as_str()),
        type_: copy_text_at(object, 3),
        description: copy_text_at(object, 4),
    }
}

fn response_from(object: &Vec<String>) -> (r: Response)
    ensures
        r@ == response_of(texts(object@)),
{
    Response {
        code: copy_text_at(object, 0),
        description: copy_text_at(object, 1),
        schema: copy_text_at(object, 2),
    }
}

impl ParsedFields {
    /// The value of the first field with the given key.
    pub fn get(&self, key: &str) -> (r: Option<&FieldValue>)
        ensures
            match r {
                Some(v) => lookup(self@, key@) == Some(v@),
                None => lookup(self@, key@) is None,
            },
    {
        let mut i: usize = 0;
        while i < self.fields.len()
            invariant
                i <= self.fields.len(),
                lookup_from(self@, key@, i as int) == lookup(self@, key@),
            decreases self.fields.len() - i,
        {
            if crate::fields::same_text(self.fields[i].key.as_str(), key) {
                return Some(&self.fields[i].value);
            }
            i += 1;
        }
        None
    }

    /// The text of the field `key`; empty when there is no such field or
    /// it holds no text.
    pub fn text(&self, key: &str) -> (r: String)
        ensures
            r@ == text_of(self@, key@),
    {
        match self.get(key) {
            Some(FieldValue::Text(t)) => t.clone(),
            _ => String::new(),
        }
    }

    /// The list of the field `key`; empty when there is no such field or
    /// it holds no list.
    pub fn list(&self, key: &str) -> (r: Vec<String>)
        ensures
            texts(r@) == list_of(self@, key@),
    {
        match self.get(key) {
            Some(FieldValue::List(l)) => copy_texts(l),
            _ => {
                let r: Vec<String> = Vec::new();
                proof {
                    assert(texts(r@) =~= list_of(self@, key@));
                }
                r
            },
        }
    }

    /// The flag of the field `key`; false when there is no such field or
    /// it holds no flag.
    pub fn flag(&self, key: &str) -> (r: bool)
        ensures
            r == flag_of(self@, key@),
    {
        match self.get(key) {
            Some(FieldValue::Flag(b)) => *b,
            _ => false,
        }
    }

    /// The objects of the field `key`; `None` when there is no such field
    /// or it holds no objects.
    pub fn objects(&self, key: &str) -> (r: Option<&Vec<Vec<String>>>)
        ensures
            match r {
                Some(o) => text_lists(o@) == objects_of(self@, key@),
                None => objects_of(self@, key@).len() == 0,
            },
    {
        match self.get(key) {
            Some(FieldValue::Objects(o)) => Some(o),
            _ => None,
        }
    }
}

/// The parameters that a list of objects stands for.
pub open spec fn parameters_of(objects: Seq<Seq<Seq<char>>>) -> Seq<ParameterView> {
    Seq::new(objects.len(), |i: int| parameter_of(objects[i]))
}

/// The responses that a list of objects stands for.
pub open spec fn responses_of(objects: Seq<Seq<Seq<char>>>) -> Seq<ResponseView> {
    Seq::new(objects.len(), |i: int| response_of(objects[i]))
}

/// The views of a list of parameters.
pub open spec fn parameter_views(ps: Seq<Parameter>) -> Seq<ParameterView> {
    Seq::new(ps.len(), |i: int| ps[i]@)
}

/// The views of a list of responses.
pub open spec fn response_views(rs: Seq<Response>) -> Seq<ResponseView> {
    Seq::new(rs.len(), |i: int| rs[i]@)
}

/// Turns objects with the parameter keys into parameters, one for one.
pub fn parameters_from(objects: &Vec<Vec<String>>) -> (r: Vec<Parameter>)
    ensures
        parameter_views(r@) == parameters_of(text_lists(objects@)),
{
    let ghost all = parameters_of(text_lists(objects@));
    let mut r: Vec<Parameter> = Vec::new();
    let mut i: usize = 0;
    while i < objects.len()
        invariant
            i <= objects.len(),
            all == parameters_of(text_lists(objects@)),
            parameter_views(r@) == all.take(i as int),
        decreases objects.len() - i,
    {
        let ghost before = parameter_views(r@);
        let p = parameter_from(&objects[i]);
        r.push(p);
        proof {
            assert(text_lists(objects@)[i as int] == texts(objects@[i as int]@));
            assert(parameter_views(r@) =~= before.push(p@));
            assert(parameter_views(r@) =~= all.take(i + 1));
        }
        i += 1;
    }
    proof {
        assert(all.take(objects.len() as int) =~= all);
    }
    r
}

/// Turns objects with the response keys into responses, one for one.
pub fn responses_from(objects: &Vec<Vec<String>>) -> (r: Vec<Response>)
    ensures
        response_views(r@) == responses_of(text_lists(objects@)),
{
    let ghost all = responses_of(text_lists(objects@));
    let mut r: Vec<Response> = Vec::new();
    let mut i: usize = 0;
    while i < objects.len()
        invariant
            i <= objects.len(),
            all == responses_of(text_lists(objects@)),
            response_views(r@) == all.take(i as int),
        decreases objects.len() - i,
    {
        let ghost before = response_views(r@);
        let p = response_from(&objects[i]);
        r.push(p);
        proof {
            assert(text_lists(objects@)[i as int] == texts(objects@[i as int]@));
            assert(response_views(r@) =~= before.push(p@));
            assert(response_views(r@) =~= all.take(i + 1));
        }
        i += 1;
    }
    proof {
        assert(all.take(objects.len() as int) =~= all);
    }
    r
}

/// Builds the record of a function from resolved fields. A field that is
/// missing, or that holds no text, gives the empty text.
pub fn build_function_doc(fields: &ParsedFields) -> (doc: FunctionDoc)
    ensures
        doc@ == function_doc_of(fields@),
{
    FunctionDoc {
        title: fields.text("title"),
        description: fields.text("description"),
        developed_by: fields.text("developed_by"),
    }
}

/// Builds the record of an endpoint from resolved fields. A field that is
/// missing, or that holds a value of another kind, gives the empty value
/// of its kind. `url` becomes the base URL and `type` the method; a
/// parameter is required when its `required` text is `true`.
pub fn build_endpoint_doc(fields: &ParsedFields) -> (doc: EndpointDoc)
    ensures
        doc@ == endpoint_doc_of(fields@),
{
    let parameters = match fields.objects("parameters") {
        Some(objects) => parameters_from(objects),
        None => Vec::new(),
    };
    let responses = match fields.objects("responses") {
        Some(objects) => responses_from(objects),
        None => Vec::new(),
    };
    let doc = EndpointDoc {
        path: fields.text("path"),
        base_url: fields.text("url"),
        method: fields.text("type"),
        format: fields.text("format"),
        body: fields.text("body"),
        description: fields.text("description"),
        parameters,
        responses,
        tags: fields.list("tags"),
        security: fields.list("security"),
        consumes: fields.list("consumes"),
        produces: fields.list("produces"),
        deprecated: fields.flag("deprecated"),
    };
    proof {
        assert(doc@.parameters =~= parameters_of(objects_of(fields@, "parameters"@)));
        assert(doc@.responses =~= responses_of(objects_of(fields@, "responses"@)));
    }
    doc
}

} // verus!
