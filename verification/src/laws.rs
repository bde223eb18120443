//! What holds of the pipeline as a whole: no tags give no output, blocks
//! keep the order of their tags, every rejected tag is reported, and failed
//! enrichment changes no Markdown.

use crate::chars::contains_seq;
use crate::locator::{lemma_located, lemma_located_none, located, tag_opener, RawTagView};
use crate::model::{EndpointDocView, FunctionDocView};
use crate::pipeline::{
    endpoint_marker, endpoint_of_tag, endpoint_report, enriched, function_docs, function_marker,
    function_of_tag, function_report, outcome_for, DiagnosticView, EnrichmentView, FunctionDocsView,
    ReportView,
};
use crate::render::{endpoint_markdown, function_markdown};
use vstd::prelude::*;

verus! {

/// The block that an endpoint tag contributes: its Markdown if the body
/// matches the rich schema, nothing otherwise.
pub open spec fn endpoint_block(body: Seq<char>) -> Seq<char> {
    match endpoint_of_tag(body) {
        Some(doc) => endpoint_markdown(doc),
        None => Seq::empty(),
    }
}

/// The blocks that endpoint tags contribute, one for each tag.
pub open spec fn endpoint_blocks(tags: Seq<RawTagView>) -> Seq<Seq<char>> {
    Seq::new(tags.len(), |k: int| endpoint_block(tags[k].body))
}

/// The blocks of function records, each rendered with the outcome of its
/// enrichment.
pub open spec fn function_blocks(
    docs: Seq<FunctionDocView>,
    outcomes: Seq<EnrichmentView>,
    last_updated: Seq<char>,
) -> Seq<Seq<char>> {
    Seq::new(
        docs.len(),
        |k: int| function_markdown(enriched(docs[k], outcome_for(outcomes, k)), last_updated),
    )
}

/// Where block `k` starts in the concatenation of `blocks`: behind the
/// blocks before it.
pub open spec fn block_start(blocks: Seq<Seq<char>>, k: int) -> int {
    blocks.take(k).flatten().len() as int
}

/// A text in which no tag opens gives an empty report: no Markdown and no
/// diagnostics, for endpoints and for functions alike.
pub proof fn law_no_tags_no_output(text: Seq<char>, last_updated: Seq<char>)
    ensures
        !contains_seq(text, tag_opener(endpoint_marker())) ==> endpoint_report(
            located(text, endpoint_marker(), 0),
        ) == (ReportView { markdown: Seq::empty(), diagnostics: Seq::empty() }),
        !contains_seq(text, tag_opener(function_marker())) ==> function_docs(
            located(text, function_marker(), 0),
        ) == (FunctionDocsView { docs: Seq::empty(), diagnostics: Seq::empty() }),
        !contains_seq(text, tag_opener(function_marker())) ==> function_report(
            function_docs(located(text, function_marker(), 0)).docs,
            Seq::empty(),
            last_updated,
        ) == (ReportView { markdown: Seq::empty(), diagnostics: Seq::empty() }),
{
    if !contains_seq(text, tag_opener(endpoint_marker())) {
        lemma_located_none(text, endpoint_marker(), 0);
    }
    if !contains_seq(text, tag_opener(function_marker())) {
        lemma_located_none(text, function_marker(), 0);
    }
}

/// Rendering depends on the record alone: whatever two renderings of one
/// record give, with one time of the last update, is the same text.
pub proof fn law_rendering_repeats(
    endpoint: EndpointDocView,
    function: FunctionDocView,
    last_updated: Seq<char>,
    first: Seq<char>,
    second: Seq<char>,
)
    ensures
        first == endpoint_markdown(endpoint) && second == endpoint_markdown(endpoint) ==> first
            == second,
        first == function_markdown(function, last_updated) && second == function_markdown(
            function,
            last_updated,
        ) ==> first == second,
{
}

/// The Markdown of a report on endpoint tags is the blocks of the tags,
/// one after the other in the order of the tags.
pub proof fn law_endpoint_markdown_is_blocks_in_order(tags: Seq<RawTagView>)
    ensures
        endpoint_report(tags).markdown == endpoint_blocks(tags).flatten(),
    decreases tags.len(),
{
    let blocks = endpoint_blocks(tags);
    blocks.lemma_flatten_and_flatten_alt_are_equivalent();
    if tags.len() > 0 {
        law_endpoint_markdown_is_blocks_in_order(tags.drop_last());
        assert(blocks.drop_last() =~= endpoint_blocks(tags.drop_last()));
        blocks.drop_last().lemma_flatten_and_flatten_alt_are_equivalent();
        assert(endpoint_report(tags).markdown =~= endpoint_report(tags.drop_last()).markdown
            + endpoint_block(tags.last().body));
    }
}

/// The Markdown of a report on function records is the blocks of the
/// records, one after the other in the order of the records.
pub proof fn law_function_markdown_is_blocks_in_order(
    docs: Seq<FunctionDocView>,
    outcomes: Seq<EnrichmentView>,
    last_updated: Seq<char>,
)
    ensures
        function_report(docs, outcomes, last_updated).markdown == function_blocks(
            docs,
            outcomes,
            last_updated,
        ).flatten(),
    decreases docs.len(),
{
    let blocks = function_blocks(docs, outcomes, last_updated);
    blocks.lemma_flatten_and_flatten_alt_are_equivalent();
    if docs.len() > 0 {
        law_function_markdown_is_blocks_in_order(docs.drop_last(), outcomes, last_updated);
        assert(blocks.drop_last() =~= function_blocks(docs.drop_last(), outcomes, last_updated));
        blocks.drop_last().lemma_flatten_and_flatten_alt_are_equivalent();
    }
}

/// The concatenation of the first `k` blocks is the start of the
/// concatenation of all of them.
pub proof fn lemma_blocks_grow(blocks: Seq<Seq<char>>, k: int)
    requires
        0 <= k <= blocks.len(),
    ensures
        block_start(blocks, k) <= blocks.flatten().len(),
        blocks.flatten().subrange(0, block_start(blocks, k)) == blocks.take(k).flatten(),
    decreases blocks.len(),
{
    if k == blocks.len() {
        assert(blocks.take(k) =~= blocks);
        assert(blocks.flatten().subrange(0, blocks.flatten().len() as int) =~= blocks.flatten());
    } else {
        lemma_blocks_grow(blocks.drop_last(), k);
        assert(blocks.drop_last().take(k) =~= blocks.take(k));
        blocks.lemma_flatten_and_flatten_alt_are_equivalent();
        blocks.drop_last().lemma_flatten_and_flatten_alt_are_equivalent();
        let n = block_start(blocks, k);
        assert(blocks.flatten().subrange(0, n) =~= blocks.drop_last().flatten().subrange(0, n));
    }
}

/// Block `k` stands whole in the concatenation, from where the blocks
/// before it end.
pub proof fn lemma_block_in_place(blocks: Seq<Seq<char>>, k: int)
    requires
        0 <= k < blocks.len(),
    ensures
        block_start(blocks, k + 1) == block_start(blocks, k) + blocks[k].len(),
        block_start(blocks, k + 1) <= blocks.flatten().len(),
        blocks.flatten().subrange(block_start(blocks, k), block_start(blocks, k + 1)) == blocks[k],
{
    let upto = blocks.take(k + 1);
    assert(upto.drop_last() =~= blocks.take(k));
    assert(upto.last() == blocks[k]);
    upto.lemma_flatten_and_flatten_alt_are_equivalent();
    upto.drop_last().lemma_flatten_and_flatten_alt_are_equivalent();
    lemma_blocks_grow(blocks, k + 1);
    let start = block_start(blocks, k);
    let end = block_start(blocks, k + 1);
    assert(blocks.flatten().subrange(start, end) =~= blocks.flatten().subrange(0, end).subrange(
        start,
        end,
    ));
    assert(upto.flatten().subrange(start, end) =~= blocks[k]);
}

/// Blocks keep their order. In a concatenation of blocks, an earlier block
/// stands whole before a later one.
pub proof fn law_blocks_stand_in_order(blocks: Seq<Seq<char>>, k: int, l: int)
    requires
        0 <= k < l < blocks.len(),
    ensures
        block_start(blocks, k) + blocks[k].len() <= block_start(blocks, l),
        block_start(blocks, l) + blocks[l].len() <= blocks.flatten().len(),
        blocks.flatten().subrange(block_start(blocks, k), block_start(blocks, k) + blocks[k].len())
            == blocks[k],
        blocks.flatten().subrange(block_start(blocks, l), block_start(blocks, l) + blocks[l].len())
            == blocks[l],
{
    lemma_block_in_place(blocks, k);
    lemma_block_in_place(blocks, l);
    lemma_blocks_grow(blocks.take(l), k + 1);
    assert(blocks.take(l).take(k + 1) =~= blocks.take(k + 1));
}

/// Blocks keep the order of their tags. Of two tags of a text, the one
/// that comes first in the list stands first in the text, and its block
/// stands whole before the block of the other in the Markdown.
pub proof fn law_blocks_keep_tag_order(text: Seq<char>, k: int, l: int)
    requires
        0 <= k < l < located(text, endpoint_marker(), 0).len(),
    ensures
        ({
            let tags = located(text, endpoint_marker(), 0);
            let blocks = endpoint_blocks(tags);
            let markdown = endpoint_report(tags).markdown;
            &&& tags[k].end_offset <= tags[l].start_offset
            &&& block_start(blocks, k) + blocks[k].len() <= block_start(blocks, l)
            &&& block_start(blocks, l) + blocks[l].len() <= markdown.len()
            &&& markdown.subrange(block_start(blocks, k), block_start(blocks, k) + blocks[k].len())
                == endpoint_block(tags[k].body)
            &&& markdown.subrange(block_start(blocks, l), block_start(blocks, l) + blocks[l].len())
                == endpoint_block(tags[l].body)
        }),
{
    let tags = located(text, endpoint_marker(), 0);
    lemma_located(text, endpoint_marker(), 0);
    law_endpoint_markdown_is_blocks_in_order(tags);
    law_blocks_stand_in_order(endpoint_blocks(tags), k, l);
}

/// The records and the mismatches of function tags, each in the order of
/// the tags: the records are those of the tags that match the flat
/// schema, the mismatches hold the bodies of the tags that do not.
pub proof fn law_function_tags_split_in_order(tags: Seq<RawTagView>)
    ensures
        function_docs(tags).docs == tags.filter(
            |t: RawTagView| function_of_tag(t.body) is Some,
        ).map_values(|t: RawTagView| function_of_tag(t.body)->0),
        function_docs(tags).diagnostics == tags.filter(
            |t: RawTagView| function_of_tag(t.body) is None,
        ).map_values(|t: RawTagView| DiagnosticView::SchemaMismatch { body: t.body }),
    decreases tags.len(),
{
    reveal(Seq::filter);
    let accepted = |t: RawTagView| function_of_tag(t.body) is Some;
    let rejected = |t: RawTagView| function_of_tag(t.body) is None;
    let doc = |t: RawTagView| function_of_tag(t.body)->0;
    let mismatch = |t: RawTagView| DiagnosticView::SchemaMismatch { body: t.body };
    if tags.len() > 0 {
        law_function_tags_split_in_order(tags.drop_last());
        let last = tags.last();
        if accepted(last) {
            assert(tags.filter(accepted) == tags.drop_last().filter(accepted).push(last));
            assert(tags.filter(rejected) == tags.drop_last().filter(rejected));
            assert(tags.filter(accepted).map_values(doc) =~= tags.drop_last().filter(
                accepted,
            ).map_values(doc).push(doc(last)));
        } else {
            assert(tags.filter(accepted) == tags.drop_last().filter(accepted));
            assert(tags.filter(rejected) == tags.drop_last().filter(rejected).push(last));
            assert(tags.filter(rejected).map_values(mismatch) =~= tags.drop_last().filter(
                rejected,
            ).map_values(mismatch).push(mismatch(last)));
        }
    } else {
        assert(tags.filter(accepted).map_values(doc) =~= Seq::<FunctionDocView>::empty());
        assert(tags.filter(rejected).map_values(mismatch) =~= Seq::<DiagnosticView>::empty());
    }
}

/// One mismatch for each endpoint tag that is rejected, in the order of
/// the tags, each with the body of its tag.
pub proof fn law_rejected_endpoint_tags_are_reported(tags: Seq<RawTagView>)
    ensures
        endpoint_report(tags).diagnostics == tags.filter(
            |t: RawTagView| endpoint_of_tag(t.body) is None,
        ).map_values(|t: RawTagView| DiagnosticView::SchemaMismatch { body: t.body }),
    decreases tags.len(),
{
    reveal(Seq::filter);
    let rejected = |t: RawTagView| endpoint_of_tag(t.body) is None;
    let mismatch = |t: RawTagView| DiagnosticView::SchemaMismatch { body: t.body };
    if tags.len() > 0 {
        law_rejected_endpoint_tags_are_reported(tags.drop_last());
        let last = tags.last();
        if rejected(last) {
            assert(tags.filter(rejected) == tags.drop_last().filter(rejected).push(last));
            assert(tags.filter(rejected).map_values(mismatch) =~= tags.drop_last().filter(
                rejected,
            ).map_values(mismatch).push(mismatch(last)));
        } else {
            assert(tags.filter(rejected) == tags.drop_last().filter(rejected));
        }
    } else {
        assert(tags.filter(rejected).map_values(mismatch) =~= Seq::<DiagnosticView>::empty());
    }
}

/// Enrichment that fails changes no Markdown. When every outcome is
/// `Failed` or `Disabled`, the Markdown is that of a run without
/// enrichment.
pub proof fn law_failed_enrichment_is_no_enrichment(
    docs: Seq<FunctionDocView>,
    outcomes: Seq<EnrichmentView>,
    last_updated: Seq<char>,
)
    requires
        forall|i: int| 0 <= i < outcomes.len() ==> !(outcomes[i] is Enhanced),
    ensures
        function_report(docs, outcomes, last_updated).markdown == function_report(
            docs,
            Seq::empty(),
            last_updated,
        ).markdown,
    decreases docs.len(),
{
    if docs.len() > 0 {
        law_failed_enrichment_is_no_enrichment(docs.drop_last(), outcomes, last_updated);
        let outcome = outcome_for(outcomes, docs.len() - 1);
        assert(enriched(docs.last(), outcome) == docs.last());
        assert(enriched(docs.last(), outcome_for(Seq::empty(), docs.len() - 1)) == docs.last());
    }
}

} // verus!
