//! From a source text to Markdown: tags are located, resolved, built into
//! records and rendered, one block per tag in order of appearance. A tag
//! that does not match its schema gives no block and one diagnostic.

use crate::builder::{
    build_endpoint_doc, build_function_doc, endpoint_doc_of, flat_fields, flat_schema,
    function_doc_of, parameter_keys, parameter_views, parameters_from, parameters_of, response_keys,
    response_views, responses_from, responses_of, rich_fields, rich_schema,
};
use crate::chars::contains_seq;
use crate::fields::{decode_object_array, object_array};
use crate::locator::{lemma_located_none, locate_tags, located, tag_opener, tag_views, RawTagView};
use crate::model::{EndpointDoc, EndpointDocView, FunctionDoc, FunctionDocView, Parameter, Response};
use crate::render::{endpoint_markdown, function_markdown, generate_markdown, render_function_doc};
use crate::schema::{resolve, resolved, TagParseError};
use crate::text::{strip_literal_quotes, without_quotes};
use vstd::prelude::*;
use vstd::string::*;

verus! {

/// Something to tell the operator; none of these stops the run.
#[derive(Debug, Clone, PartialEq, Eq)]
pub enum Diagnostic {
    /// A tag was found, but its body does not match the schema. The tag
    /// gives no output.
    SchemaMismatch { body: String },
    /// The description of the function with this title could not be
    /// enriched. Its description was rendered as the tag gives it.
    EnrichmentFailure { title: String },
}

/// The view of a [`Diagnostic`].
pub enum DiagnosticView {
    SchemaMismatch { body: Seq<char> },
    EnrichmentFailure { title: Seq<char> },
}

impl View for Diagnostic {
    type V = DiagnosticView;

    open spec fn view(&self) -> DiagnosticView {
        match self {
            Diagnostic::SchemaMismatch { body } => DiagnosticView::SchemaMismatch { body: body@ },
            Diagnostic::EnrichmentFailure { title } => DiagnosticView::EnrichmentFailure {
                title: title@,
            },
        }
    }
}

/// The views of a list of diagnostics.
pub open spec fn diagnostic_views(ds: Seq<Diagnostic>) -> Seq<DiagnosticView> {
    Seq::new(ds.len(), |i: int| ds[i]@)
}

/// The outcome of a run: the Markdown, and what there is to tell.
#[derive(Debug, Clone, PartialEq, Eq)]
pub struct Report {
    pub markdown: String,
    pub diagnostics: Vec<Diagnostic>,
}

/// The view of a [`Report`].
pub struct ReportView {
    pub markdown: Seq<char>,
    pub diagnostics: Seq<DiagnosticView>,
}

impl View for Report {
    type V = ReportView;

    open spec fn view(&self) -> ReportView {
        ReportView { markdown: self.markdown@, diagnostics: diagnostic_views(self.diagnostics@) }
    }
}

/// What came of enriching one description.
#[derive(Debug, Clone, PartialEq, Eq)]
pub enum Enrichment {
    /// Enrichment is switched off.
    Disabled,
    /// Enrichment was tried and failed, for whatever reason.
    Failed,
    /// Enrichment gave this text.
    Enhanced(String),
}

/// The view of an [`Enrichment`].
pub enum EnrichmentView {
    Disabled,
    Failed,
    Enhanced(Seq<char>),
}

impl View for Enrichment {
    type V = EnrichmentView;

    open spec fn view(&self) -> EnrichmentView {
        match self {
            Enrichment::Disabled => EnrichmentView::Disabled,
            Enrichment::Failed => EnrichmentView::Failed,
            Enrichment::Enhanced(t) => EnrichmentView::Enhanced(t@),
        }
    }
}

/// The views of a list of outcomes.
pub open spec fn enrichment_views(es: Seq<Enrichment>) -> Seq<EnrichmentView> {
    Seq::new(es.len(), |i: int| es[i]@)
}

/// The views of a list of function records.
pub open spec fn function_views(ds: Seq<FunctionDoc>) -> Seq<FunctionDocView> {
    Seq::new(ds.len(), |i: int| ds[i]@)
}

/// The function records found in a text, and the tags that were rejected.
#[derive(Debug, Clone, PartialEq, Eq)]
pub struct FunctionDocs {
    pub docs: Vec<FunctionDoc>,
    pub diagnostics: Vec<Diagnostic>,
}

/// The view of a [`FunctionDocs`].
pub struct FunctionDocsView {
    pub docs: Seq<FunctionDocView>,
    pub diagnostics: Seq<DiagnosticView>,
}

impl View for FunctionDocs {
    type V = FunctionDocsView;

    open spec fn view(&self) -> FunctionDocsView {
        FunctionDocsView {
            docs: function_views(self.docs@),
            diagnostics: diagnostic_views(self.diagnostics@),
        }
    }
}

/// The marker of the tags that document an endpoint.
pub open spec fn endpoint_marker() -> Seq<char> {
    "promizer"@
}

/// The marker of the tags that document a function.
pub open spec fn function_marker() -> Seq<char> {
    "codizer"@
}

/// The endpoint that a tag body describes, if it matches the rich schema.
pub open spec fn endpoint_of_tag(body: Seq<char>) -> Option<EndpointDocView> {
    match resolved(body, rich_fields()) {
        Some(fields) => Some(endpoint_doc_of(fields)),
        None => None,
    }
}

/// The function that a tag body describes, if it matches the flat schema.
pub open spec fn function_of_tag(body: Seq<char>) -> Option<FunctionDocView> {
    match resolved(body, flat_fields()) {
        Some(fields) => Some(function_doc_of(fields)),
        None => None,
    }
}

/// What one more endpoint tag adds to a report: its block, or a mismatch.
pub open spec fn with_endpoint_tag(report: ReportView, body: Seq<char>) -> ReportView {
    match endpoint_of_tag(body) {
        Some(doc) => ReportView {
            markdown: report.markdown + endpoint_markdown(doc),
            diagnostics: report.diagnostics,
        },
        None => ReportView {
            markdown: report.markdown,
            diagnostics: report.diagnostics.push(DiagnosticView::SchemaMismatch { body }),
        },
    }
}

/// The report on a list of endpoint tags: the blocks of those that match
/// the rich schema, in order, and a mismatch for each of the others.
pub open spec fn endpoint_report(tags: Seq<RawTagView>) -> ReportView
    decreases tags.len(),
{
    if tags.len() == 0 {
        ReportView { markdown: Seq::empty(), diagnostics: Seq::empty() }
    } else {
        with_endpoint_tag(endpoint_report(tags.drop_last()), tags.last().body)
    }
}

/// What one more function tag adds to the records found so far.
pub open spec fn with_function_tag(found: FunctionDocsView, body: Seq<char>) -> FunctionDocsView {
    match function_of_tag(body) {
        Some(doc) => FunctionDocsView { docs: found.docs.push(doc), diagnostics: found.diagnostics },
        None => FunctionDocsView {
            docs: found.docs,
            diagnostics: found.diagnostics.push(DiagnosticView::SchemaMismatch { body }),
        },
    }
}

/// The function records of a list of tags: the records of those that match
/// the flat schema, in order, and a mismatch for each of the others.
pub open spec fn function_docs(tags: Seq<RawTagView>) -> FunctionDocsView
    decreases tags.len(),
{
    if tags.len() == 0 {
        FunctionDocsView { docs: Seq::empty(), diagnostics: Seq::empty() }
    } else {
        with_function_tag(function_docs(tags.drop_last()), tags.last().body)
    }
}

/// The record with its description enriched: replaced by the enhanced
/// text if there is one, left as it is otherwise.
pub open spec fn enriched(doc: FunctionDocView, outcome: EnrichmentView) -> FunctionDocView {
    match outcome {
        EnrichmentView::Enhanced(text) => FunctionDocView {
            title: doc.title,
            description: text,
            developed_by: doc.developed_by,
        },
        _ => doc,
    }
}

/// The outcome that belongs to the record at index `i`: the one at the same
/// index, or `Disabled` when the list of outcomes is shorter.
pub open spec fn outcome_for(outcomes: Seq<EnrichmentView>, i: int) -> EnrichmentView {
    if 0 <= i < outcomes.len() {
        outcomes[i]
    } else {
        EnrichmentView::Disabled
    }
}

/// What one more function record adds to a report: its block, rendered
/// with the enriched description, and a warning if enrichment failed.
pub open spec fn with_function_doc(
    report: ReportView,
    doc: FunctionDocView,
    outcome: EnrichmentView,
    last_updated: Seq<char>,
) -> ReportView {
    ReportView {
        markdown: report.markdown + function_markdown(enriched(doc, outcome), last_updated),
        diagnostics: if outcome is Failed {
            report.diagnostics.push(DiagnosticView::EnrichmentFailure { title: doc.title })
        } else {
            report.diagnostics
        },
    }
}

/// The report on a list of function records, each with the outcome of its
/// enrichment.
pub open spec fn function_report(
    docs: Seq<FunctionDocView>,
    outcomes: Seq<EnrichmentView>,
    last_updated: Seq<char>,
) -> ReportView
    decreases docs.len(),
{
    if docs.len() == 0 {
        ReportView { markdown: Seq::empty(), diagnostics: Seq::empty() }
    } else {
        with_function_doc(
            function_report(docs.drop_last(), outcomes, last_updated),
            docs.last(),
            outcome_for(outcomes, docs.len() - 1),
            last_updated,
        )
    }
}

/// Resolves the body of an endpoint tag against the rich schema and builds
/// its record. A body that does not match is rejected, and the error
/// carries it.
pub fn parse_promiser_tag(tag: &str) -> (r: Result<EndpointDoc, TagParseError>)
    ensures
        match r {
            Ok(doc) => endpoint_of_tag(tag@) == Some(doc@),
            Err(e) => endpoint_of_tag(tag@) is None && e.body@ == tag@,
        },
{
    let schema = rich_schema();
    match resolve(tag, &schema) {
        Ok(fields) => Ok(build_endpoint_doc(&fields)),
        Err(e) => Err(e),
    }
}

/// Resolves the body of a function tag against the flat schema and builds
/// its record. A body that does not match is rejected, and the error
/// carries it.
pub fn parse_codizer_tag(tag: &str) -> (r: Result<FunctionDoc, TagParseError>)
    ensures
        match r {
            Ok(doc) => function_of_tag(tag@) == Some(doc@),
            Err(e) => function_of_tag(tag@) is None && e.body@ == tag@,
        },
{
    let schema = flat_schema();
    match resolve(tag, &schema) {
        Ok(fields) => Ok(build_function_doc(&fields)),
        Err(e) => Err(e),
    }
}

/// Documents the endpoints of a source text.
///
/// Every `//promizer(...)` tag of `contents` is resolved against the rich
/// schema. The Markdown holds the blocks of the tags that match, in the
/// order in which the tags appear; each tag that does not match gives no
/// output and one `SchemaMismatch` with its body, and the tags behind it
/// are still processed. A text without tags gives empty Markdown.
pub fn parse_promiser_tags(contents: &str) -> (report: Report)
    ensures
        report@ == endpoint_report(located(contents@, endpoint_marker(), 0)),
        !contains_seq(contents@, tag_opener(endpoint_marker())) ==> report@.markdown.len() == 0
            && report@.diagnostics.len() == 0,
{
    proof {
        if !contains_seq(contents@, tag_opener(endpoint_marker())) {
            lemma_located_none(contents@, endpoint_marker(), 0);
        }
    }
    let tags = locate_tags(contents, "promizer");
    let ghost all = tag_views(tags@);
    let mut report = Report { markdown: String::new(), diagnostics: Vec::new() };
    proof {
        assert(all.take(0) =~= Seq::<RawTagView>::empty());
        assert(report@.diagnostics =~= Seq::<DiagnosticView>::empty());
    }
    let mut i: usize = 0;
    while i < tags.len()
        invariant
            i <= tags.len(),
            all == tag_views(tags@),
            report@ == endpoint_report(all.take(i as int)),
        decreases tags.len() - i,
    {
        let ghost before = report@;
        proof {
            assert(all.take(i + 1).drop_last() =~= all.take(i as int));
            assert(all.take(i + 1).last() == tags@[i as int]@);
        }
        match parse_promiser_tag(tags[i].body.as_str()) {
            Ok(doc) => {
                let block = generate_markdown(&doc);
                report.markdown.append(block.as_str());
            },
            Err(e) => {
                let d = Diagnostic::SchemaMismatch { body: e.body };
                report.diagnostics.push(d);
                proof {
                    assert(report@.diagnostics =~= before.diagnostics.push(d@));
                }
            },
        }
        i += 1;
    }
    proof {
        assert(all.take(tags.len() as int) =~= all);
    }
    report
}

/// Collects the function records of a source text.
///
/// Every `//codizer(...)` tag of `contents` is resolved against the flat
/// schema. The records of the tags that match come in the order in which
/// the tags appear; each tag that does not match gives one
/// `SchemaMismatch` with its body.
pub fn collect_function_docs(contents: &str) -> (found: FunctionDocs)
    ensures
        found@ == function_docs(located(contents@, function_marker(), 0)),
        !contains_seq(contents@, tag_opener(function_marker())) ==> found@.docs.len() == 0
            && found@.diagnostics.len() == 0,
{
    proof {
        if !contains_seq(contents@, tag_opener(function_marker())) {
            lemma_located_none(contents@, function_marker(), 0);
        }
    }
    let tags = locate_tags(contents, "codizer");
    let ghost all = tag_views(tags@);
    let mut found = FunctionDocs { docs: Vec::new(), diagnostics: Vec::new() };
    proof {
        assert(all.take(0) =~= Seq::<RawTagView>::empty());
        assert(found@.docs =~= Seq::<FunctionDocView>::empty());
        assert(found@.diagnostics =~= Seq::<DiagnosticView>::empty());
    }
    let mut i: usize = 0;
    while i < tags.len()
        invariant
            i <= tags.len(),
            all == tag_views(tags@),
            found@ == function_docs(all.take(i as int)),
        decreases tags.len() - i,
    {
        let ghost before = found@;
        proof {
            assert(all.take(i + 1).drop_last() =~= all.take(i as int));
            assert(all.take(i + 1).last() == tags@[i as int]@);
        }
        match parse_codizer_tag(tags[i].body.as_str()) {
            Ok(doc) => {
                found.docs.push(doc);
                proof {
                    assert(found@.docs =~= before.docs.push(doc@));
                    assert(found@.diagnostics =~= before.diagnostics);
                }
            },
            Err(e) => {
                let d = Diagnostic::SchemaMismatch { body: e.body };
                found.diagnostics.push(d);
                proof {
                    assert(found@.docs =~= before.docs);
                    assert(found@.diagnostics =~= before.diagnostics.push(d@));
                }
            },
        }
        i += 1;
    }
    proof {
        assert(all.take(tags.len() as int) =~= all);
    }
    found
}

/// The outcome of one call of the enrichment service: the enhanced text
/// when the call gave one, a failure when it gave none, whatever the
/// reason.
pub fn outcome_of(answer: Option<String>) -> (outcome: Enrichment)
    ensures
        outcome@ == match answer {
            Some(text) => EnrichmentView::Enhanced(text@),
            None => EnrichmentView::Failed,
        },
{
    match answer {
        Some(text) => Enrichment::Enhanced(text),
        None => Enrichment::Failed,
    }
}

/// Applies the outcome of an enrichment to a record: an enhanced text
/// replaces the description; otherwise the record stays as it is.
pub fn enrich(doc: &FunctionDoc, outcome: &Enrichment) -> (r: FunctionDoc)
    ensures
        r@ == enriched(doc@, outcome@),
{
    match outcome {
        Enrichment::Enhanced(text) => FunctionDoc {
            title: doc.title.clone(),
            description: text.clone(),
            developed_by: doc.developed_by.clone(),
        },
        _ => FunctionDoc {
            title: doc.title.clone(),
            description: doc.description.clone(),
            developed_by: doc.developed_by.clone(),
        },
    }
}

/// Renders function records, each with the outcome of its enrichment.
///
/// The outcome at index `i` belongs to the record at index `i`; a record
/// without an outcome is rendered as with `Disabled`. The blocks come in
/// the order of the records. A failed enrichment renders the description
/// unchanged and adds one `EnrichmentFailure`.
pub fn render_function_docs(
    docs: &Vec<FunctionDoc>,
    outcomes: &Vec<Enrichment>,
    last_updated: &str,
) -> (report: Report)
    ensures
        report@ == function_report(
            function_views(docs@),
            enrichment_views(outcomes@),
            last_updated@,
        ),
{
    let ghost all = function_views(docs@);
    let ghost outs = enrichment_views(outcomes@);
    let mut report = Report { markdown: String::new(), diagnostics: Vec::new() };
    proof {
        assert(all.take(0) =~= Seq::<FunctionDocView>::empty());
        assert(report@.diagnostics =~= Seq::<DiagnosticView>::empty());
    }
    let mut i: usize = 0;
    while i < docs.len()
        invariant
            i <= docs.len(),
            all == function_views(docs@),
            outs == enrichment_views(outcomes@),
            report@ == function_report(all.take(i as int), outs, last_updated@),
        decreases docs.len() - i,
    {
        let ghost before = report@;
        proof {
            assert(all.take(i + 1).drop_last() =~= all.take(i as int));
            assert(all.take(i + 1).last() == docs@[i as int]@);
        }
        let disabled = Enrichment::Disabled;
        let outcome = if i < outcomes.len() {
            &outcomes[i]
        } else {
            &disabled
        };
        let doc = enrich(&docs[i], outcome);
        let block = render_function_doc(&doc, last_updated);
        report.markdown.append(block.as_str());
        match outcome {
            Enrichment::Failed => {
                let d = Diagnostic::EnrichmentFailure { title: docs[i].title.clone() };
                report.diagnostics.push(d);
                proof {
                    assert(report@.diagnostics =~= before.diagnostics.push(d@));
                }
            },
            _ => {},
        }
        i += 1;
    }
    proof {
        assert(all.take(docs.len() as int) =~= all);
    }
    report
}

/// Documents the functions of a source text, without enrichment.
///
/// Every `//codizer(...)` tag of `contents` is resolved against the flat
/// schema. The Markdown holds the blocks of the tags that match, in the
/// order in which the tags appear; each tag that does not match gives no
/// output and one `SchemaMismatch` with its body.
pub fn parse_codizer_tags(contents: &str, last_updated: &str) -> (report: Report)
    ensures
        report@.markdown == function_report(
            function_docs(located(contents@, function_marker(), 0)).docs,
            Seq::empty(),
            last_updated@,
        ).markdown,
        report@.diagnostics == function_docs(
            located(contents@, function_marker(), 0),
        ).diagnostics,
        !contains_seq(contents@, tag_opener(function_marker())) ==> report@.markdown.len() == 0
            && report@.diagnostics.len() == 0,
{
    let found = collect_function_docs(contents);
    let outcomes: Vec<Enrichment> = Vec::new();
    proof {
        assert(enrichment_views(outcomes@) =~= Seq::<EnrichmentView>::empty());
    }
    let rendered = render_function_docs(&found.docs, &outcomes, last_updated);
    Report { markdown: rendered.markdown, diagnostics: found.diagnostics }
}

/// Decodes a list of parameter objects, written `{name='..',
/// location='..', required='..', type='..', description='..'}`. The text
/// is read as it is given: what stands between the quotes of a value is
/// the value.
pub fn parse_parameters_flexible(params_str: &str) -> (r: Vec<Parameter>)
    ensures
        parameter_views(r@) == parameters_of(object_array(params_str@, parameter_keys())),
{
    let keys = crate::builder::keys_of_parameter();
    let objects = decode_object_array(params_str, &keys);
    parameters_from(&objects)
}

/// Decodes a list of response objects, written `{code='..',
/// description='..', schema='..'}`. The text is read as it is given: what
/// stands between the quotes of a value is the value.
pub fn parse_responses_flexible(responses_str: &str) -> (r: Vec<Response>)
    ensures
        response_views(r@) == responses_of(object_array(responses_str@, response_keys())),
{
    let keys = crate::builder::keys_of_response();
    let objects = decode_object_array(responses_str, &keys);
    responses_from(&objects)
}

/// Removes the single quotes from a block of JSON-like text and leaves
/// everything else as it is, whitespace too. The text is not read as JSON.
pub fn clean_json_string(json_str: &str) -> (r: String)
    ensures
        r@ == without_quotes(json_str@),
{
    strip_literal_quotes(json_str)
}

/// The path of the output file: the path of the input with `suffix`
/// behind it.
pub fn output_path(input: &str, suffix: &str) -> (r: String)
    ensures
        r@ == input@ + suffix@,
{
    let mut r = input.to_owned();
    r.append(suffix);
    r
}

} // verus!
