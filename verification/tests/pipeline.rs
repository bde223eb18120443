use promizer::locator::{locate_tags, RawTag};
use promizer::model::FunctionDoc;
use promizer::pipeline::{
    collect_function_docs, enrich, output_path, parse_codizer_tags, parse_promiser_tags,
    render_function_docs, Diagnostic, Enrichment,
};

const RICH_A: &str = "//promizer(path='/a', url='http://h', type='GET', format='raw-json', description='first', parameters=[], responses=[], tags=[], security=[], consumes=[], produces=[], deprecated='false', body=[])";
const RICH_B: &str = "//promizer(path='/b', url='http://h', type='POST', format='raw-json', description='second', parameters=[], responses=[], tags=[], security=[], consumes=[], produces=[], deprecated='true', body=[])";
const BLOCK_A: &str =
    "# http://h/a\n\n**Method**: GET\n**Format**: raw-json\n\n**Description**: first\n\n---\n\n";
const BLOCK_B: &str = "# http://h/b\n\n**DEPRECATED**\n\n**Method**: POST\n**Format**: raw-json\n\n**Description**: second\n\n---\n\n";

#[test]
fn text_without_tags_gives_empty_output() {
    for input in ["", "fn main() {}\n// promizer is great\n", "//promize(path='x')", "/promizer(a)"] {
        let report = parse_promiser_tags(input);
        assert_eq!(report.markdown, "");
        assert!(report.diagnostics.is_empty());
        let report = parse_codizer_tags(input, "now");
        assert_eq!(report.markdown, "");
        assert!(report.diagnostics.is_empty());
    }
}

#[test]
fn tags_are_located_with_their_offsets() {
    let tags = locate_tags("ab //codizer(x='1') é //codizer() //codizer(open", "codizer");
    assert_eq!(
        tags,
        vec![
            RawTag {
                name: "codizer".to_string(),
                body: "x='1'".to_string(),
                start_offset: 3,
                end_offset: 19,
            },
            RawTag {
                name: "codizer".to_string(),
                body: String::new(),
                start_offset: 22,
                end_offset: 33,
            },
        ]
    );
    assert_eq!(locate_tags("//codizer(a)", "promizer"), Vec::new());
    assert_eq!(locate_tags("//x(a\nb)", "x")[0].body, "a\nb");
}

#[test]
fn blocks_come_in_the_order_of_their_tags() {
    let input = format!("fn a() {{}}\n{}\nfn b() {{}}\n{}\n", RICH_A, RICH_B);
    assert_eq!(parse_promiser_tags(&input).markdown, format!("{}{}", BLOCK_A, BLOCK_B));
    let input = format!("{}{}", RICH_B, RICH_A);
    assert_eq!(parse_promiser_tags(&input).markdown, format!("{}{}", BLOCK_B, BLOCK_A));
}

#[test]
fn rejected_tag_does_not_stop_the_tags_behind_it() {
    let input = format!("{}\n//promizer(path='/broken')\n{}", RICH_A, RICH_B);
    let report = parse_promiser_tags(&input);
    assert_eq!(report.markdown, format!("{}{}", BLOCK_A, BLOCK_B));
    assert_eq!(
        report.diagnostics,
        vec![Diagnostic::SchemaMismatch { body: "path='/broken'".to_string() }]
    );
}

#[test]
fn families_are_located_independently() {
    let input = format!("//codizer(title='T', description='D', developed_by='B')\n{}", RICH_A);
    assert_eq!(parse_promiser_tags(&input).markdown, BLOCK_A);
    assert_eq!(
        parse_codizer_tags(&input, "").markdown,
        "# T\n\n## Description\n\nD\n\n## Developed by\n\nB\n\n---\n\n"
    );
}

#[test]
fn multi_line_tag_is_found_and_normalized() {
    let input = "//codizer(\n    title='Add',\n    description='Adds\n      two numbers',\n    developed_by='Team A'\n)";
    let report = parse_codizer_tags(input, "");
    assert!(report.diagnostics.is_empty());
    assert_eq!(
        report.markdown,
        "# Add\n\n## Description\n\nAdds\ntwo numbers\n\n## Developed by\n\nTeam A\n\n---\n\n"
    );
}

fn doc(title: &str, description: &str) -> FunctionDoc {
    FunctionDoc {
        title: title.to_string(),
        description: description.to_string(),
        developed_by: "B".to_string(),
    }
}

#[test]
fn enhanced_text_replaces_the_description() {
    let d = doc("T", "old");
    assert_eq!(enrich(&d, &Enrichment::Enhanced("new".to_string())), doc("T", "new"));
    assert_eq!(enrich(&d, &Enrichment::Failed), d);
    assert_eq!(enrich(&d, &Enrichment::Disabled), d);
}

#[test]
fn failed_enrichment_renders_as_disabled_and_warns() {
    let docs = vec![doc("One", "first"), doc("Two", "second"), doc("Three", "third")];
    let disabled = render_function_docs(&docs, &Vec::new(), "now");
    let failed = render_function_docs(
        &docs,
        &vec![Enrichment::Failed, Enrichment::Failed, Enrichment::Failed],
        "now",
    );
    assert_eq!(failed.markdown, disabled.markdown);
    assert!(disabled.diagnostics.is_empty());
    assert_eq!(
        failed.diagnostics,
        vec![
            Diagnostic::EnrichmentFailure { title: "One".to_string() },
            Diagnostic::EnrichmentFailure { title: "Two".to_string() },
            Diagnostic::EnrichmentFailure { title: "Three".to_string() },
        ]
    );
    assert_eq!(
        render_function_docs(
            &docs,
            &vec![Enrichment::Disabled, Enrichment::Disabled, Enrichment::Disabled],
            "now"
        ),
        disabled
    );
}

#[test]
fn outcomes_apply_to_the_records_at_their_index() {
    let docs = vec![doc("One", "first"), doc("Two", "second"), doc("Three", "third")];
    let report = render_function_docs(
        &docs,
        &vec![Enrichment::Enhanced("better".to_string()), Enrichment::Failed],
        "",
    );
    assert_eq!(
        report.markdown,
        "# One\n\n## Description\n\nbetter\n\n## Developed by\n\nB\n\n---\n\n\
# Two\n\n## Description\n\nsecond\n\n## Developed by\n\nB\n\n---\n\n\
# Three\n\n## Description\n\nthird\n\n## Developed by\n\nB\n\n---\n\n"
    );
    assert_eq!(report.diagnostics, vec![Diagnostic::EnrichmentFailure { title: "Two".to_string() }]);
}

#[test]
fn collected_records_render_like_the_direct_run() {
    let input = "//codizer(title='A', description='a', developed_by='x') //codizer(bad) //codizer(title='B', description='b', developed_by='y')";
    let found = collect_function_docs(input);
    assert_eq!(found.docs.len(), 2);
    assert_eq!(found.docs[1].title, "B");
    assert_eq!(found.diagnostics, vec![Diagnostic::SchemaMismatch { body: "bad".to_string() }]);
    let direct = parse_codizer_tags(input, "t");
    let stepwise = render_function_docs(&found.docs, &Vec::new(), "t");
    assert_eq!(direct.markdown, stepwise.markdown);
    assert_eq!(direct.diagnostics, found.diagnostics);
}

#[test]
fn output_path_appends_the_suffix() {
    assert_eq!(output_path("src/api.rs", "_api_documentation.md"), "src/api.rs_api_documentation.md");
    assert_eq!(output_path("", ".md"), ".md");
    assert_eq!(output_path("a", ""), "a");
}
