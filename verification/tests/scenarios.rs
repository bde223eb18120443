use promizer::pipeline::{parse_codizer_tags, parse_promiser_tags, Diagnostic};

#[test]
fn flat_tag_renders_title_description_and_author() {
    let input = "//codizer(title='Add', description='Adds two numbers', developed_by='Team A')";
    let report = parse_codizer_tags(input, "");
    assert!(report.diagnostics.is_empty());
    let lines: Vec<&str> = report.markdown.lines().collect();
    for expected in ["# Add", "## Description", "Adds two numbers", "## Developed by", "Team A"] {
        assert!(lines.contains(&expected), "missing line {:?} in {:?}", expected, report.markdown);
    }
    assert_eq!(
        report.markdown,
        "# Add\n\n## Description\n\nAdds two numbers\n\n## Developed by\n\nTeam A\n\n---\n\n"
    );
}

#[test]
fn rich_tag_with_empty_arrays_renders_responses_only() {
    let input = "//promizer(path='/users', url='https://api.example.com', type='GET', format='raw-json', description='List users', parameters=[], responses=[{code='200', description='OK', schema='User[]'}], tags=[], security=[], consumes=[], produces=[], deprecated='false', body=[])";
    let report = parse_promiser_tags(input);
    assert!(report.diagnostics.is_empty());
    let md = report.markdown;
    assert!(md.starts_with("# https://api.example.com/users\n"));
    assert!(!md.contains("**DEPRECATED**"));
    assert!(md.contains("\n## Responses\n"));
    assert!(md.contains("### 200\n"));
    assert!(!md.contains("## Parameters"));
    assert_eq!(
        md,
        "# https://api.example.com/users\n\n**Method**: GET\n**Format**: raw-json\n\n**Description**: List users\n\n## Responses\n\n### 200\n- Description: OK\n- Schema: User[]\n\n\n---\n\n"
    );
}

#[test]
fn malformed_tag_is_reported_and_skipped() {
    let input = "//codizer(title='X')\n//codizer(title='Add', description='Adds', developed_by='A')";
    let report = parse_codizer_tags(input, "");
    assert_eq!(
        report.diagnostics,
        vec![Diagnostic::SchemaMismatch { body: "title='X'".to_string() }]
    );
    assert_eq!(
        report.markdown,
        "# Add\n\n## Description\n\nAdds\n\n## Developed by\n\nA\n\n---\n\n"
    );
    let alone = parse_codizer_tags("//codizer(title='X')", "");
    assert_eq!(alone.markdown, "");
    assert_eq!(alone.diagnostics.len(), 1);
}
