//! Writing and reading back, for whole tags. A record that is written as
//! a tag resolves to itself, and a text that is one such tag renders the
//! block of that record.

use crate::builder::{
    flat_fields, lookup, lookup_from, parameter_keys, parameter_of, parameters_of, response_keys,
    responses_of, rich_fields,
};
use crate::chars::{is_space, lemma_next_char_found, next_occurrence, occurs_at};
use crate::fields::{field_closer, flat_array, object_array};
use crate::locator::{located, tag_opener, RawTagView};
use crate::model::{EndpointDocView, FunctionDocView, ParameterView, ResponseView};
use crate::pipeline::{
    endpoint_marker, endpoint_of_tag, endpoint_report, enriched, function_docs, function_marker,
    function_of_tag, function_report, outcome_for, DiagnosticView, FunctionDocsView, ReportView,
};
use crate::render::{bool_text, endpoint_markdown, function_markdown};
use crate::round_trip::{
    all_captured, free_of, law_flat_array_reads_items, law_object_array_reads_objects,
    law_single_line_tag_resolves, lemma_join_free_of, lemma_written_free_of,
    lemma_written_objects_free_of, plain_item, plain_keys, quotable, writable, written,
    written_objects,
};
use crate::schema::{decoded, is_bracketed, resolved, schema_patterns, ParsedFieldView};
use crate::text::{join, lemma_without_quotes_same, single_line, without_quotes};
use vstd::prelude::*;

verus! {

/// The body of a function tag that writes the three given texts.
pub open spec fn flat_tag_body(
    title: Seq<char>,
    description: Seq<char>,
    developed_by: Seq<char>,
) -> Seq<char> {
    written(schema_patterns(flat_fields()), seq![title, description, developed_by], 0, true)
}

/// Whether a text can stand between quotes on one line: it holds no quote
/// and no newline.
pub open spec fn plain_text(t: Seq<char>) -> bool {
    forall|j: int| 0 <= j < t.len() ==> t[j] != '\'' && t[j] != '\n'
}

proof fn lemma_flat_keys()
    ensures
        "title"@ == seq!['t', 'i', 't', 'l', 'e'],
        "description"@ == seq!['d', 'e', 's', 'c', 'r', 'i', 'p', 't', 'i', 'o', 'n'],
        "developed_by"@ == seq!['d', 'e', 'v', 'e', 'l', 'o', 'p', 'e', 'd', '_', 'b', 'y'],
{
    reveal_strlit("title");
    reveal_strlit("description");
    reveal_strlit("developed_by");
    assert("title"@ =~= seq!['t', 'i', 't', 'l', 'e']);
    assert("description"@ =~= seq!['d', 'e', 's', 'c', 'r', 'i', 'p', 't', 'i', 'o', 'n']);
    assert("developed_by"@ =~= seq!['d', 'e', 'v', 'e', 'l', 'o', 'p', 'e', 'd', '_', 'b', 'y']);
}

/// A function tag gives back the texts it was written with. For texts
/// without quotes and newlines, resolving the written body and building the
/// record gives a record that holds exactly these texts.
pub proof fn law_function_tag_round_trip(
    title: Seq<char>,
    description: Seq<char>,
    developed_by: Seq<char>,
)
    requires
        plain_text(title),
        plain_text(description),
        plain_text(developed_by),
    ensures
        function_of_tag(flat_tag_body(title, description, developed_by)) == Some(
            FunctionDocView { title, description, developed_by },
        ),
{
    let schema = flat_fields();
    let pats = schema_patterns(schema);
    let texts = seq![title, description, developed_by];
    lemma_flat_keys();
    assert forall|j: int| 0 <= j < 3 implies single_line(#[trigger] schema[j].key) && schema[j].key.len()
        > 0 && !is_space(schema[j].key[0]) && !is_bracketed(schema[j].kind) by {}
    assert forall|j: int| 0 <= j < pats.len() implies (#[trigger] pats[j]).opener.len() > 0
        && !is_space(pats[j].opener[0]) by {
        assert(pats[j].opener[0] == schema[j].key[0]);
    }
    assert(writable(pats, texts, 0));
    law_single_line_tag_resolves(schema, texts);
    let fields = decoded(schema, all_captured(texts, 0));
    assert forall|j: int| 0 <= j < 3 implies (#[trigger] fields[j]).key == schema[j].key by {}
    lemma_lookup_finds(fields, "title"@, 0);
    lemma_lookup_finds(fields, "description"@, 1);
    lemma_lookup_finds(fields, "developed_by"@, 2);
}

/// The first field with a key is the one that `lookup` finds.
pub proof fn lemma_lookup_finds(fields: Seq<ParsedFieldView>, key: Seq<char>, j: int)
    requires
        0 <= j < fields.len(),
        fields[j].key == key,
        forall|k: int| 0 <= k < j ==> fields[k].key != key,
    ensures
        lookup(fields, key) == Some(fields[j].value),
{
    lemma_lookup_from_finds(fields, key, j, 0);
}

proof fn lemma_lookup_from_finds(fields: Seq<ParsedFieldView>, key: Seq<char>, j: int, from: int)
    requires
        0 <= from <= j < fields.len(),
        fields[j].key == key,
        forall|k: int| from <= k < j ==> fields[k].key != key,
    ensures
        lookup_from(fields, key, from) == Some(fields[j].value),
    decreases j - from,
{
    if from < j {
        lemma_lookup_from_finds(fields, key, j, from + 1);
    }
}

proof fn lemma_rich_keys()
    ensures
        "path"@ == seq!['p', 'a', 't', 'h'],
        "url"@ == seq!['u', 'r', 'l'],
        "type"@ == seq!['t', 'y', 'p', 'e'],
        "format"@ == seq!['f', 'o', 'r', 'm', 'a', 't'],
        "description"@ == seq!['d', 'e', 's', 'c', 'r', 'i', 'p', 't', 'i', 'o', 'n'],
        "parameters"@ == seq!['p', 'a', 'r', 'a', 'm', 'e', 't', 'e', 'r', 's'],
        "responses"@ == seq!['r', 'e', 's', 'p', 'o', 'n', 's', 'e', 's'],
        "tags"@ == seq!['t', 'a', 'g', 's'],
        "security"@ == seq!['s', 'e', 'c', 'u', 'r', 'i', 't', 'y'],
        "consumes"@ == seq!['c', 'o', 'n', 's', 'u', 'm', 'e', 's'],
        "produces"@ == seq!['p', 'r', 'o', 'd', 'u', 'c', 'e', 's'],
        "deprecated"@ == seq!['d', 'e', 'p', 'r', 'e', 'c', 'a', 't', 'e', 'd'],
        "body"@ == seq!['b', 'o', 'd', 'y'],
{
    reveal_strlit("path");
    reveal_strlit("url");
    reveal_strlit("type");
    reveal_strlit("format");
    reveal_strlit("description");
    reveal_strlit("parameters");
    reveal_strlit("responses");
    reveal_strlit("tags");
    reveal_strlit("security");
    reveal_strlit("consumes");
    reveal_strlit("produces");
    reveal_strlit("deprecated");
    reveal_strlit("body");
    assert("path"@ =~= seq!['p', 'a', 't', 'h']);
    assert("url"@ =~= seq!['u', 'r', 'l']);
    assert("type"@ =~= seq!['t', 'y', 'p', 'e']);
    assert("format"@ =~= seq!['f', 'o', 'r', 'm', 'a', 't']);
    assert("description"@ =~= seq!['d', 'e', 's', 'c', 'r', 'i', 'p', 't', 'i', 'o', 'n']);
    assert("parameters"@ =~= seq!['p', 'a', 'r', 'a', 'm', 'e', 't', 'e', 'r', 's']);
    assert("responses"@ =~= seq!['r', 'e', 's', 'p', 'o', 'n', 's', 'e', 's']);
    assert("tags"@ =~= seq!['t', 'a', 'g', 's']);
    assert("security"@ =~= seq!['s', 'e', 'c', 'u', 'r', 'i', 't', 'y']);
    assert("consumes"@ =~= seq!['c', 'o', 'n', 's', 'u', 'm', 'e', 's']);
    assert("produces"@ =~= seq!['p', 'r', 'o', 'd', 'u', 'c', 'e', 's']);
    assert("deprecated"@ =~= seq!['d', 'e', 'p', 'r', 'e', 'c', 'a', 't', 'e', 'd']);
    assert("body"@ =~= seq!['b', 'o', 'd', 'y']);
}

/// The body of an endpoint tag that writes the given texts, one for each
/// field of the rich schema.
pub open spec fn rich_tag_body(texts: Seq<Seq<char>>) -> Seq<char> {
    written(schema_patterns(rich_fields()), texts, 0, true)
}

/// Whether thirteen texts can be written as the fields of an endpoint tag
/// on one line: none holds a newline, a quoted one holds no quote, a
/// bracketed one no `]`.
pub open spec fn rich_texts(texts: Seq<Seq<char>>) -> bool {
    &&& texts.len() == 13
    &&& forall|j: int| 0 <= j < 13 ==> single_line(#[trigger] texts[j])
    &&& forall|j: int, k: int|
        0 <= j < 13 && 0 <= k < (#[trigger] texts[j]).len() ==> #[trigger] texts[j][k]
            != field_closer(5 <= j <= 10 || j == 12)
}

/// An endpoint tag gives back the texts it was written with. Resolving
/// the written body and building the record gives a record whose path,
/// URL, method, format and description are exactly the texts written, and
/// whose other fields are what their texts decode to.
pub proof fn law_endpoint_tag_round_trip(texts: Seq<Seq<char>>)
    requires
        rich_texts(texts),
    ensures
        endpoint_of_tag(rich_tag_body(texts)) == Some(
            EndpointDocView {
                path: texts[0],
                base_url: texts[1],
                method: texts[2],
                format: texts[3],
                body: without_quotes(texts[12]),
                description: texts[4],
                parameters: parameters_of(object_array(texts[5], parameter_keys())),
                responses: responses_of(object_array(texts[6], response_keys())),
                tags: flat_array(texts[7]),
                security: flat_array(texts[8]),
                consumes: flat_array(texts[9]),
                produces: flat_array(texts[10]),
                deprecated: texts[11] == "true"@,
            },
        ),
{
    let schema = rich_fields();
    let pats = schema_patterns(schema);
    lemma_rich_keys();
    assert(schema.len() == 13);
    assert forall|j: int| 0 <= j < 13 implies single_line(#[trigger] schema[j].key) && schema[j].key.len()
        > 0 && !is_space(schema[j].key[0]) && is_bracketed(schema[j].kind) == (5 <= j <= 10 || j
        == 12) by {}
    assert forall|j: int| 0 <= j < pats.len() implies (#[trigger] pats[j]).opener.len() > 0
        && !is_space(pats[j].opener[0]) by {
        assert(pats[j].opener[0] == schema[j].key[0]);
    }
    assert(writable(pats, texts, 0));
    law_single_line_tag_resolves(schema, texts);
    let fields = decoded(schema, all_captured(texts, 0));
    assert(resolved(rich_tag_body(texts), schema) == Some(fields));
    assert(fields.len() == 13);
    assert forall|j: int| 0 <= j < 13 implies (#[trigger] fields[j]).key == schema[j].key by {}
    lemma_lookup_finds(fields, "path"@, 0);
    lemma_lookup_finds(fields, "url"@, 1);
    lemma_lookup_finds(fields, "type"@, 2);
    lemma_lookup_finds(fields, "format"@, 3);
    lemma_lookup_finds(fields, "description"@, 4);
    lemma_lookup_finds(fields, "parameters"@, 5);
    lemma_lookup_finds(fields, "responses"@, 6);
    lemma_lookup_finds(fields, "tags"@, 7);
    lemma_lookup_finds(fields, "security"@, 8);
    lemma_lookup_finds(fields, "consumes"@, 9);
    lemma_lookup_finds(fields, "produces"@, 10);
    lemma_lookup_finds(fields, "deprecated"@, 11);
    lemma_lookup_finds(fields, "body"@, 12);
}

/// A tag as it is written into a text: its opener, its body, `)`.
pub open spec fn tag_text(marker: Seq<char>, body: Seq<char>) -> Seq<char> {
    tag_opener(marker) + body + seq![')']
}

/// A text that is one tag holds that tag, with the body as it was written.
pub proof fn lemma_located_single(marker: Seq<char>, body: Seq<char>)
    requires
        free_of(body, ')'),
    ensures
        located(tag_text(marker, body), marker, 0) == seq![
            RawTagView {
                name: marker,
                body,
                start_offset: 0,
                end_offset: tag_text(marker, body).len() as int,
            },
        ],
{
    let opener = tag_opener(marker);
    let text = tag_text(marker, body);
    let body_start = opener.len() as int;
    let close = body_start + body.len();
    assert(text.subrange(0, body_start) =~= opener);
    assert(occurs_at(text, opener, 0));
    assert(next_occurrence(text, opener, 0) == 0);
    assert forall|j: int| body_start <= j < close implies text[j] != ')' by {
        assert(text[j] == body[j - body_start]);
    }
    lemma_next_char_found(text, ')', body_start, close);
    assert(text.subrange(body_start, close) =~= body);
    assert(next_occurrence(text, opener, close + 1) == text.len());
    assert(located(text, marker, close + 1) =~= Seq::<RawTagView>::empty());
    assert(located(text, marker, 0) =~= seq![
        RawTagView { name: marker, body, start_offset: 0, end_offset: text.len() as int },
    ]);
}

/// From a written function tag to its block. A text that is one function
/// tag, written with texts that hold no quote, newline or `)`, gives one
/// record with exactly these texts, no diagnostic, and as Markdown the
/// template of a function filled with them.
pub proof fn law_written_function_tag_renders(
    title: Seq<char>,
    description: Seq<char>,
    developed_by: Seq<char>,
    last_updated: Seq<char>,
)
    requires
        plain_text(title) && free_of(title, ')'),
        plain_text(description) && free_of(description, ')'),
        plain_text(developed_by) && free_of(developed_by, ')'),
    ensures
        ({
            let text = tag_text(
                function_marker(),
                flat_tag_body(title, description, developed_by),
            );
            let doc = FunctionDocView { title, description, developed_by };
            let found = function_docs(located(text, function_marker(), 0));
            &&& found == (FunctionDocsView { docs: seq![doc], diagnostics: Seq::empty() })
            &&& function_report(found.docs, Seq::empty(), last_updated).markdown
                == function_markdown(doc, last_updated)
        }),
{
    let schema = flat_fields();
    let pats = schema_patterns(schema);
    let texts = seq![title, description, developed_by];
    let body = flat_tag_body(title, description, developed_by);
    let doc = FunctionDocView { title, description, developed_by };
    lemma_flat_keys();
    assert forall|j: int| 0 <= j < pats.len() implies free_of(#[trigger] pats[j].opener, ')') by {
        assert(free_of(schema[j].key, ')'));
    }
    lemma_written_free_of(pats, texts, 0, true, ')');
    lemma_located_single(function_marker(), body);
    law_function_tag_round_trip(title, description, developed_by);
    let tags = located(tag_text(function_marker(), body), function_marker(), 0);
    assert(tags.len() == 1 && tags.last().body == body);
    assert(tags.drop_last() =~= Seq::<RawTagView>::empty());
    assert(function_docs(tags.drop_last()) == (FunctionDocsView {
        docs: Seq::empty(),
        diagnostics: Seq::empty(),
    }));
    let found = function_docs(tags);
    assert(found == crate::pipeline::with_function_tag(function_docs(tags.drop_last()), body));
    assert(found.docs =~= seq![doc]);
    assert(found.diagnostics =~= Seq::<DiagnosticView>::empty());
    let docs = seq![doc];
    assert(docs.drop_last() =~= Seq::<FunctionDocView>::empty());
    assert(function_report(docs.drop_last(), Seq::empty(), last_updated) == (ReportView {
        markdown: Seq::empty(),
        diagnostics: Seq::empty(),
    }));
    assert(docs.last() == doc);
    assert(enriched(doc, outcome_for(Seq::empty(), 0)) == doc);
    assert(function_report(docs, Seq::empty(), last_updated).markdown =~= function_markdown(
        doc,
        last_updated,
    ));
}

/// From a written endpoint tag to its block. A text that is one endpoint
/// tag, written on one line with texts that hold no `)`, gives no
/// diagnostic, and as Markdown the template of an endpoint filled with
/// what the texts decode to.
pub proof fn law_written_endpoint_tag_renders(texts: Seq<Seq<char>>)
    requires
        rich_texts(texts),
        forall|j: int| 0 <= j < 13 ==> free_of(#[trigger] texts[j], ')'),
    ensures
        endpoint_report(
            located(tag_text(endpoint_marker(), rich_tag_body(texts)), endpoint_marker(), 0),
        ) == (ReportView {
            markdown: endpoint_markdown(endpoint_of_tag(rich_tag_body(texts))->0),
            diagnostics: Seq::empty(),
        }),
        endpoint_of_tag(rich_tag_body(texts)) is Some,
{
    let schema = rich_fields();
    let pats = schema_patterns(schema);
    let body = rich_tag_body(texts);
    lemma_rich_keys();
    assert forall|j: int| 0 <= j < pats.len() implies free_of(#[trigger] pats[j].opener, ')') by {
        assert(free_of(schema[j].key, ')'));
    }
    lemma_written_free_of(pats, texts, 0, true, ')');
    lemma_located_single(endpoint_marker(), body);
    law_endpoint_tag_round_trip(texts);
    let tags = located(tag_text(endpoint_marker(), body), endpoint_marker(), 0);
    assert(tags.len() == 1 && tags.last().body == body);
    assert(tags.drop_last() =~= Seq::<RawTagView>::empty());
    assert(endpoint_report(tags.drop_last()) == (ReportView {
        markdown: Seq::empty(),
        diagnostics: Seq::empty(),
    }));
    let report = endpoint_report(tags);
    assert(report == crate::pipeline::with_endpoint_tag(endpoint_report(tags.drop_last()), body));
    assert(report.markdown =~= endpoint_markdown(endpoint_of_tag(body)->0));
    assert(report.diagnostics =~= Seq::<DiagnosticView>::empty());
}

/// The values by which a parameter is written, in the order of its keys.
pub open spec fn parameter_values(p: ParameterView) -> Seq<Seq<char>> {
    seq![p.name, p.location, bool_text(p.required), p.type_, p.description]
}

/// The values by which a response is written, in the order of its keys.
pub open spec fn response_values(r: ResponseView) -> Seq<Seq<char>> {
    seq![r.code, r.description, r.schema]
}

/// The texts by which an endpoint record is written, one for each field of
/// the rich schema: objects in braces, lists with a comma and a space
/// between their items, the flag as `true` or `false`.
pub open spec fn endpoint_texts(d: EndpointDocView) -> Seq<Seq<char>> {
    seq![
        d.path,
        d.base_url,
        d.method,
        d.format,
        d.description,
        written_objects(
            parameter_keys(),
            Seq::new(d.parameters.len(), |i: int| parameter_values(d.parameters[i])),
            0,
        ),
        written_objects(
            response_keys(),
            Seq::new(d.responses.len(), |i: int| response_values(d.responses[i])),
            0,
        ),
        join(d.tags, seq![',', ' ']),
        join(d.security, seq![',', ' ']),
        join(d.consumes, seq![',', ' ']),
        join(d.produces, seq![',', ' ']),
        bool_text(d.deprecated),
        d.body,
    ]
}

/// Whether a text can stand in a tag wherever a text is written: it holds
/// no quote, no newline and no `]`.
pub open spec fn tag_text_safe(t: Seq<char>) -> bool {
    free_of(t, '\'') && free_of(t, '\n') && free_of(t, ']')
}

/// Whether all items of a list can be written into a tag as they are.
pub open spec fn items_safe(items: Seq<Seq<char>>) -> bool {
    forall|k: int| 0 <= k < items.len() ==> plain_item(#[trigger] items[k]) && tag_text_safe(items[k])
}

/// Whether an endpoint record can be written as a tag on one line and read
/// back: its texts hold no quote, newline or `]`, and the items of its
/// lists are no empty texts, hold no comma, and have no whitespace at
/// their ends.
pub open spec fn writable_endpoint(d: EndpointDocView) -> bool {
    &&& tag_text_safe(d.path) && tag_text_safe(d.base_url) && tag_text_safe(d.method)
    &&& tag_text_safe(d.format) && tag_text_safe(d.description) && tag_text_safe(d.body)
    &&& items_safe(d.tags) && items_safe(d.security)
    &&& items_safe(d.consumes) && items_safe(d.produces)
    &&& forall|i: int|
        0 <= i < d.parameters.len() ==> {
            let p = #[trigger] d.parameters[i];
            tag_text_safe(p.name) && tag_text_safe(p.location) && tag_text_safe(p.type_)
                && tag_text_safe(p.description)
        }
    &&& forall|i: int|
        0 <= i < d.responses.len() ==> {
            let r = #[trigger] d.responses[i];
            tag_text_safe(r.code) && tag_text_safe(r.description) && tag_text_safe(r.schema)
        }
}

proof fn lemma_flag_text(b: bool)
    ensures
        (bool_text(b) == "true"@) == b,
        tag_text_safe(bool_text(b)),
{
    reveal_strlit("true");
    reveal_strlit("false");
    assert("true"@.len() == 4 && "false"@.len() == 5);
}

proof fn lemma_object_keys()
    ensures
        plain_keys(parameter_keys()),
        plain_keys(response_keys()),
        forall|j: int|
            0 <= j < 5 ==> free_of(#[trigger] parameter_keys()[j], '\n') && free_of(
                parameter_keys()[j],
                ']',
            ),
        forall|j: int|
            0 <= j < 3 ==> free_of(#[trigger] response_keys()[j], '\n') && free_of(
                response_keys()[j],
                ']',
            ),
        parameter_keys().len() == 5,
        response_keys().len() == 3,
{
    reveal_strlit("name");
    reveal_strlit("location");
    reveal_strlit("required");
    reveal_strlit("type");
    reveal_strlit("description");
    reveal_strlit("code");
    reveal_strlit("schema");
}

proof fn lemma_list_text(items: Seq<Seq<char>>)
    requires
        items_safe(items),
    ensures
        flat_array(join(items, seq![',', ' '])) == items,
        free_of(join(items, seq![',', ' ']), '\n'),
        free_of(join(items, seq![',', ' ']), ']'),
{
    law_flat_array_reads_items(items);
    lemma_join_free_of(items, seq![',', ' '], '\n');
    lemma_join_free_of(items, seq![',', ' '], ']');
}

proof fn lemma_parameters_text(ps: Seq<ParameterView>)
    requires
        forall|i: int|
            0 <= i < ps.len() ==> {
                let p = #[trigger] ps[i];
                tag_text_safe(p.name) && tag_text_safe(p.location) && tag_text_safe(p.type_)
                    && tag_text_safe(p.description)
            },
    ensures
        ({
            let text = written_objects(
                parameter_keys(),
                Seq::new(ps.len(), |i: int| parameter_values(ps[i])),
                0,
            );
            &&& parameters_of(object_array(text, parameter_keys())) == ps
            &&& free_of(text, '\n')
            &&& free_of(text, ']')
        }),
{
    let keys = parameter_keys();
    let objects = Seq::new(ps.len(), |i: int| parameter_values(ps[i]));
    lemma_object_keys();
    assert forall|j: int| 0 <= j < objects.len() implies quotable(keys, #[trigger] objects[j])
        && objects[j].len() == keys.len() && (forall|i: int|
        0 <= i < objects[j].len() ==> free_of(#[trigger] objects[j][i], '\n') && free_of(
            objects[j][i],
            ']',
        )) by {
        let p = ps[j];
        lemma_flag_text(p.required);
        assert(tag_text_safe(p.name) && tag_text_safe(p.location) && tag_text_safe(p.type_)
            && tag_text_safe(p.description));
    }
    law_object_array_reads_objects(keys, objects);
    lemma_written_objects_free_of(keys, objects, 0, '\n');
    lemma_written_objects_free_of(keys, objects, 0, ']');
    assert(parameters_of(objects) =~= ps) by {
        assert forall|i: int| 0 <= i < ps.len() implies parameter_of(objects[i]) == ps[i] by {
            lemma_flag_text(ps[i].required);
        }
    }
}

proof fn lemma_responses_text(rs: Seq<ResponseView>)
    requires
        forall|i: int|
            0 <= i < rs.len() ==> {
                let r = #[trigger] rs[i];
                tag_text_safe(r.code) && tag_text_safe(r.description) && tag_text_safe(r.schema)
            },
    ensures
        ({
            let text = written_objects(
                response_keys(),
                Seq::new(rs.len(), |i: int| response_values(rs[i])),
                0,
            );
            &&& responses_of(object_array(text, response_keys())) == rs
            &&& free_of(text, '\n')
            &&& free_of(text, ']')
        }),
{
    let keys = response_keys();
    let objects = Seq::new(rs.len(), |i: int| response_values(rs[i]));
    lemma_object_keys();
    assert forall|j: int| 0 <= j < objects.len() implies quotable(keys, #[trigger] objects[j])
        && objects[j].len() == keys.len() && (forall|i: int|
        0 <= i < objects[j].len() ==> free_of(#[trigger] objects[j][i], '\n') && free_of(
            objects[j][i],
            ']',
        )) by {
        let r = rs[j];
        assert(tag_text_safe(r.code) && tag_text_safe(r.description) && tag_text_safe(r.schema));
    }
    law_object_array_reads_objects(keys, objects);
    lemma_written_objects_free_of(keys, objects, 0, '\n');
    lemma_written_objects_free_of(keys, objects, 0, ']');
    assert(responses_of(objects) =~= rs);
}

/// An endpoint record gives back itself. A record that can be written as
/// a tag, written and resolved again, is the record that was written:
/// every text, every list with its items in order, every parameter and
/// response, and the flag.
pub proof fn law_endpoint_record_round_trip(d: EndpointDocView)
    requires
        writable_endpoint(d),
    ensures
        endpoint_of_tag(rich_tag_body(endpoint_texts(d))) == Some(d),
{
    let texts = endpoint_texts(d);
    lemma_parameters_text(d.parameters);
    lemma_responses_text(d.responses);
    lemma_list_text(d.tags);
    lemma_list_text(d.security);
    lemma_list_text(d.consumes);
    lemma_list_text(d.produces);
    lemma_flag_text(d.deprecated);
    lemma_without_quotes_same(d.body);
    assert(rich_texts(texts));
    law_endpoint_tag_round_trip(texts);
}

/// Whether no text of an endpoint record holds `c`.
pub open spec fn endpoint_free_of(d: EndpointDocView, c: char) -> bool {
    &&& free_of(d.path, c) && free_of(d.base_url, c) && free_of(d.method, c)
    &&& free_of(d.format, c) && free_of(d.description, c) && free_of(d.body, c)
    &&& forall|k: int| 0 <= k < d.tags.len() ==> free_of(#[trigger] d.tags[k], c)
    &&& forall|k: int| 0 <= k < d.security.len() ==> free_of(#[trigger] d.security[k], c)
    &&& forall|k: int| 0 <= k < d.consumes.len() ==> free_of(#[trigger] d.consumes[k], c)
    &&& forall|k: int| 0 <= k < d.produces.len() ==> free_of(#[trigger] d.produces[k], c)
    &&& forall|i: int|
        0 <= i < d.parameters.len() ==> {
            let p = #[trigger] d.parameters[i];
            free_of(p.name, c) && free_of(p.location, c) && free_of(p.type_, c) && free_of(
                p.description,
                c,
            )
        }
    &&& forall|i: int|
        0 <= i < d.responses.len() ==> {
            let r = #[trigger] d.responses[i];
            free_of(r.code, c) && free_of(r.description, c) && free_of(r.schema, c)
        }
}

proof fn lemma_endpoint_texts_without_parenthesis(d: EndpointDocView)
    requires
        endpoint_free_of(d, ')'),
    ensures
        forall|j: int| 0 <= j < 13 ==> free_of(#[trigger] endpoint_texts(d)[j], ')'),
{
    let c = ')';
    let sep = seq![',', ' '];
    reveal_strlit("true");
    reveal_strlit("false");
    reveal_strlit("name");
    reveal_strlit("location");
    reveal_strlit("required");
    reveal_strlit("type");
    reveal_strlit("description");
    reveal_strlit("code");
    reveal_strlit("schema");
    let parameters = Seq::new(d.parameters.len(), |i: int| parameter_values(d.parameters[i]));
    let responses = Seq::new(d.responses.len(), |i: int| response_values(d.responses[i]));
    assert forall|j: int| 0 <= j < parameters.len() implies (#[trigger] parameters[j]).len() == 5
        && forall|i: int| 0 <= i < parameters[j].len() ==> free_of(#[trigger] parameters[j][i], c) by {
        let p = d.parameters[j];
        assert(free_of(p.name, c) && free_of(p.location, c) && free_of(p.type_, c) && free_of(
            p.description,
            c,
        ));
    }
    assert forall|j: int| 0 <= j < responses.len() implies (#[trigger] responses[j]).len() == 3
        && forall|i: int| 0 <= i < responses[j].len() ==> free_of(#[trigger] responses[j][i], c) by {
        let r = d.responses[j];
        assert(free_of(r.code, c) && free_of(r.description, c) && free_of(r.schema, c));
    }
    lemma_written_objects_free_of(parameter_keys(), parameters, 0, c);
    lemma_written_objects_free_of(response_keys(), responses, 0, c);
    lemma_join_free_of(d.tags, sep, c);
    lemma_join_free_of(d.security, sep, c);
    lemma_join_free_of(d.consumes, sep, c);
    lemma_join_free_of(d.produces, sep, c);
}

/// From a written endpoint record to its block. A text that is one
/// endpoint tag, written from a record that can be written and whose texts
/// hold no `)`, gives no diagnostic, and as Markdown the block of exactly
/// that record.
pub proof fn law_written_endpoint_record_renders(d: EndpointDocView)
    requires
        writable_endpoint(d),
        endpoint_free_of(d, ')'),
    ensures
        endpoint_report(
            located(
                tag_text(endpoint_marker(), rich_tag_body(endpoint_texts(d))),
                endpoint_marker(),
                0,
            ),
        ) == (ReportView { markdown: endpoint_markdown(d), diagnostics: Seq::empty() }),
{
    let texts = endpoint_texts(d);
    law_endpoint_record_round_trip(d);
    lemma_parameters_text(d.parameters);
    lemma_responses_text(d.responses);
    lemma_list_text(d.tags);
    lemma_list_text(d.security);
    lemma_list_text(d.consumes);
    lemma_list_text(d.produces);
    lemma_flag_text(d.deprecated);
    assert(rich_texts(texts));
    lemma_endpoint_texts_without_parenthesis(d);
    law_written_endpoint_tag_renders(texts);
}

} // verus!
