use promizer::chars::{chars_of, contains, is_space_char};
use promizer::model::{EndpointDoc, Parameter, Response};
use promizer::pipeline::{parse_codizer_tags, parse_promiser_tag, parse_promiser_tags};
use promizer::render::generate_markdown;

#[test]
fn whitespace_is_what_the_standard_library_calls_whitespace() {
    for code in 0..=0x10FFFFu32 {
        if let Some(c) = char::from_u32(code) {
            assert_eq!(is_space_char(c), c.is_whitespace(), "U+{:04X}", code);
        }
    }
}

#[test]
fn characters_and_containment() {
    assert_eq!(chars_of("aé日"), vec!['a', 'é', '日']);
    assert_eq!(chars_of(""), Vec::<char>::new());
    assert!(contains("abc", "bc"));
    assert!(contains("abc", ""));
    assert!(contains("", ""));
    assert!(!contains("abc", "cb"));
    assert!(!contains("", "a"));
    assert!(!contains("ab", "abc"));
}

fn flat_tag(title: &str, description: &str, developed_by: &str) -> String {
    format!(
        "//codizer(title='{}', description='{}', developed_by='{}')",
        title, description, developed_by
    )
}

#[test]
fn function_texts_are_read_back_from_the_block() {
    let cases = [
        ("Add", "Adds two numbers", "Team A"),
        ("", "", ""),
        ("description=", "title='", "x, developed_by="),
        ("  padded  ", "commas, and [brackets] {braces}", "é 日本"),
        ("# heading", "## Description", "---"),
    ];
    for (title, description, developed_by) in cases {
        let description = description.replace('\'', "");
        let report = parse_codizer_tags(&flat_tag(title, &description, developed_by), "");
        assert!(report.diagnostics.is_empty(), "title {:?}", title);
        let lines: Vec<&str> = report.markdown.split('\n').collect();
        assert_eq!(lines.len(), 13, "markdown {:?}", report.markdown);
        assert_eq!(lines[0], format!("# {}", title));
        assert_eq!(lines[2], "## Description");
        assert_eq!(lines[4], description);
        assert_eq!(lines[6], "## Developed by");
        assert_eq!(lines[8], developed_by);
        assert_eq!(lines[10], "---");
        for i in [1, 3, 5, 7, 9, 11, 12] {
            assert_eq!(lines[i], "");
        }
    }
}

#[test]
fn function_block_shows_the_time_on_a_line_of_its_own() {
    let report = parse_codizer_tags(&flat_tag("T", "D", "B"), "2024-01-01");
    let lines: Vec<&str> = report.markdown.split('\n').collect();
    assert_eq!(
        lines,
        vec![
            "# T", "", "## Description", "", "D", "", "## Developed by", "", "B", "",
            "_Last updated: 2024-01-01_", "", "---", "", "",
        ]
    );
}

#[test]
fn endpoint_texts_are_read_back_from_the_block() {
    let tag = "//promizer(path='/users', url='https://api.example.com', type='GET', format='raw-json', description='List users', parameters=[{name='page', location='query', required='false', type='int', description='Page number'}], responses=[], tags=[users, list], security=[], consumes=[], produces=[application/json], deprecated='true', body=[])";
    let report = parse_promiser_tags(tag);
    assert!(report.diagnostics.is_empty());
    let lines: Vec<&str> = report.markdown.split('\n').collect();
    assert_eq!(
        &lines[..8],
        &[
            "# https://api.example.com/users",
            "",
            "**DEPRECATED**",
            "",
            "**Method**: GET",
            "**Format**: raw-json",
            "",
            "**Description**: List users",
        ]
    );
    assert!(lines.contains(&"**Tags**: users, list"));
    assert!(lines.contains(&"**Produces**: application/json"));
    assert!(lines.contains(&"- **page** (query, int)"));
    assert!(lines.contains(&"  - Required: false"));
}

fn written(doc: &EndpointDoc) -> String {
    let parameters: Vec<String> = doc
        .parameters
        .iter()
        .map(|p| {
            format!(
                "{{name='{}', location='{}', required='{}', type='{}', description='{}'}}",
                p.name, p.location, p.required, p.type_, p.description
            )
        })
        .collect();
    let responses: Vec<String> = doc
        .responses
        .iter()
        .map(|r| {
            format!("{{code='{}', description='{}', schema='{}'}}", r.code, r.description, r.schema)
        })
        .collect();
    format!(
        "path='{}', url='{}', type='{}', format='{}', description='{}', parameters=[{}], responses=[{}], tags=[{}], security=[{}], consumes=[{}], produces=[{}], deprecated='{}', body=[{}]",
        doc.path,
        doc.base_url,
        doc.method,
        doc.format,
        doc.description,
        parameters.join(", "),
        responses.join(", "),
        doc.tags.join(", "),
        doc.security.join(", "),
        doc.consumes.join(", "),
        doc.produces.join(", "),
        doc.deprecated,
        doc.body
    )
}

fn sample_records() -> Vec<EndpointDoc> {
    let full = EndpointDoc {
        path: "/users/{id}".to_string(),
        base_url: "https://api.example.com".to_string(),
        method: "PUT".to_string(),
        format: "raw-json".to_string(),
        body: "{name: string, tags: a b}".to_string(),
        description: "Updates a user, fully".to_string(),
        parameters: vec![
            Parameter {
                name: "id".to_string(),
                location: "path".to_string(),
                required: true,
                type_: "int".to_string(),
                description: "The id, as given".to_string(),
            },
            Parameter {
                name: "dry".to_string(),
                location: "query".to_string(),
                required: false,
                type_: "bool".to_string(),
                description: String::new(),
            },
        ],
        responses: vec![
            Response {
                code: "200".to_string(),
                description: "OK".to_string(),
                schema: "User".to_string(),
            },
            Response {
                code: "404".to_string(),
                description: "No such user".to_string(),
                schema: "{error: string}".to_string(),
            },
        ],
        tags: vec!["users".to_string(), "admin area".to_string()],
        security: vec!["apiKey".to_string()],
        consumes: vec!["application/json".to_string()],
        produces: vec!["application/json".to_string(), "text/plain".to_string()],
        deprecated: true,
    };
    let empty = EndpointDoc {
        path: String::new(),
        base_url: String::new(),
        method: String::new(),
        format: String::new(),
        body: String::new(),
        description: String::new(),
        parameters: Vec::new(),
        responses: Vec::new(),
        tags: Vec::new(),
        security: Vec::new(),
        consumes: Vec::new(),
        produces: Vec::new(),
        deprecated: false,
    };
    vec![full, empty]
}

#[test]
fn endpoint_record_written_and_resolved_is_itself() {
    for doc in sample_records() {
        assert_eq!(parse_promiser_tag(&written(&doc)), Ok(doc));
    }
}

#[test]
fn written_endpoint_record_renders_its_block() {
    for doc in sample_records() {
        let text = format!("//promizer({})", written(&doc));
        let report = parse_promiser_tags(&text);
        assert!(report.diagnostics.is_empty());
        assert_eq!(report.markdown, generate_markdown(&doc));
    }
}
