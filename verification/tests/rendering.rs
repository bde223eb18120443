use promizer::model::{EndpointDoc, FunctionDoc, Parameter, Response};
use promizer::render::{generate_markdown, render_function_doc};

fn endpoint() -> EndpointDoc {
    EndpointDoc {
        path: "/users".to_string(),
        base_url: "https://api.example.com".to_string(),
        method: "GET".to_string(),
        format: "raw-json".to_string(),
        body: String::new(),
        description: "List users".to_string(),
        parameters: Vec::new(),
        responses: Vec::new(),
        tags: Vec::new(),
        security: Vec::new(),
        consumes: Vec::new(),
        produces: Vec::new(),
        deprecated: false,
    }
}

#[test]
fn bare_endpoint_renders_heading_summary_and_rule() {
    assert_eq!(
        generate_markdown(&endpoint()),
        "# https://api.example.com/users\n\n**Method**: GET\n**Format**: raw-json\n\n**Description**: List users\n\n---\n\n"
    );
}

#[test]
fn deprecated_endpoint_shows_the_banner_after_the_title() {
    let mut doc = endpoint();
    doc.deprecated = true;
    assert!(generate_markdown(&doc)
        .starts_with("# https://api.example.com/users\n\n**DEPRECATED**\n\n**Method**: GET\n"));
}

#[test]
fn full_endpoint_renders_every_section_in_order() {
    let doc = EndpointDoc {
        path: "/users/{id}".to_string(),
        base_url: "https://api.example.com".to_string(),
        method: "POST".to_string(),
        format: "raw-json".to_string(),
        body: "{name: string}".to_string(),
        description: "Updates a user".to_string(),
        parameters: vec![
            Parameter {
                name: "id".to_string(),
                location: "path".to_string(),
                required: true,
                type_: "int".to_string(),
                description: "The id".to_string(),
            },
            Parameter {
                name: "q".to_string(),
                location: "query".to_string(),
                required: false,
                type_: "string".to_string(),
                description: "Search".to_string(),
            },
        ],
        responses: vec![
            Response {
                code: "200".to_string(),
                description: "OK".to_string(),
                schema: "User".to_string(),
            },
            Response {
                code: "404".to_string(),
                description: "Missing".to_string(),
                schema: "Error".to_string(),
            },
        ],
        tags: vec!["users".to_string(), "admin".to_string()],
        security: vec!["apiKey".to_string()],
        consumes: vec!["application/json".to_string()],
        produces: vec!["application/json".to_string(), "text/plain".to_string(), "x".to_string()],
        deprecated: true,
    };
    let expected = "# https://api.example.com/users/{id}\n\n\
**DEPRECATED**\n\n\
**Method**: POST\n\
**Format**: raw-json\n\
\n**Description**: Updates a user\n\
\n**Tags**: users, admin\n\
\n**Security**: apiKey\n\
\n**Consumes**: application/json\n\
\n**Produces**: application/json, text/plain, x\n\
\n## Parameters\n\n\
- **id** (path, int)\n  - Type: int\n  - Description: The id\n  - Required: true\n\n\
- **q** (query, string)\n  - Type: string\n  - Description: Search\n  - Required: false\n\n\
\n## Responses\n\n\
### 200\n- Description: OK\n- Schema: User\n\n\
### 404\n- Description: Missing\n- Schema: Error\n\n\
\n## Request Body\n\n\
```json\n{name: string}\n```\n\
\n---\n\n";
    assert_eq!(generate_markdown(&doc), expected);
}

#[test]
fn function_block_shows_the_time_only_when_given() {
    let doc = FunctionDoc {
        title: "Add".to_string(),
        description: "Adds two numbers".to_string(),
        developed_by: "Team A".to_string(),
    };
    assert_eq!(
        render_function_doc(&doc, ""),
        "# Add\n\n## Description\n\nAdds two numbers\n\n## Developed by\n\nTeam A\n\n---\n\n"
    );
    assert_eq!(
        render_function_doc(&doc, "2024-05-01 10:00"),
        "# Add\n\n## Description\n\nAdds two numbers\n\n## Developed by\n\nTeam A\n\n_Last updated: 2024-05-01 10:00_\n\n---\n\n"
    );
}

#[test]
fn rendering_twice_gives_the_same_text() {
    let mut doc = endpoint();
    doc.tags = vec!["a".to_string(), "b".to_string()];
    assert_eq!(generate_markdown(&doc), generate_markdown(&doc));
    let f = FunctionDoc {
        title: "T".to_string(),
        description: "D".to_string(),
        developed_by: "B".to_string(),
    };
    assert_eq!(render_function_doc(&f, "now"), render_function_doc(&f, "now"));
}
