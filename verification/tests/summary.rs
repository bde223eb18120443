use promizer::generators::{extract_body_params, extract_format, extract_method, generate_markdown};
use promizer::parsers::parse_promiser;

#[test]
fn method_is_post_before_get() {
    assert_eq!(extract_method("type='POST'"), "POST");
    assert_eq!(extract_method("type='GET'"), "GET");
    assert_eq!(extract_method("GET and POST"), "POST");
    assert_eq!(extract_method("get post"), "Unknown");
    assert_eq!(extract_method(""), "Unknown");
    assert_eq!(extract_method("xPOSTx"), "POST");
}

#[test]
fn format_is_raw_json_or_unknown() {
    assert_eq!(extract_format("format='raw-json'"), "raw-json");
    assert_eq!(extract_format("format='json'"), "Unknown");
    assert_eq!(extract_format("raw-jso"), "Unknown");
}

#[test]
fn body_parameters_are_the_first_bracketed_text_on_one_line() {
    assert_eq!(extract_body_params("body=[a, b] [c]"), "a, b");
    assert_eq!(extract_body_params("body=[]"), "");
    assert_eq!(extract_body_params("[a\nb] [c]"), "c");
    assert_eq!(extract_body_params("no brackets"), "No body parameters found");
    assert_eq!(extract_body_params("[open"), "No body parameters found");
}

#[test]
fn summary_follows_the_template() {
    assert_eq!(
        generate_markdown("promizer(type='POST', format='raw-json', body=[name, age])"),
        "# Endpoint Documentation\n\n**Method**: POST\n**Format**: raw-json\n\n**Request Body**:\nname, age\n"
    );
    assert_eq!(
        generate_markdown(""),
        "# Endpoint Documentation\n\n**Method**: Unknown\n**Format**: Unknown\n\n**Request Body**:\nNo body parameters found\n"
    );
}

#[test]
fn short_tag_gives_type_format_and_items() {
    assert_eq!(
        parse_promiser("//promizer(type='POST', format='raw-json', body=[name, age ,  city])"),
        Some((
            "POST".to_string(),
            "raw-json".to_string(),
            vec!["name".to_string(), "age".to_string(), "city".to_string()],
        ))
    );
    assert_eq!(
        parse_promiser("promizer(type='', format='', body=[])"),
        Some((String::new(), String::new(), Vec::new()))
    );
    assert_eq!(
        parse_promiser("promizer(type='GET', format='raw-json', body=[])"),
        Some(("GET".to_string(), "raw-json".to_string(), Vec::new()))
    );
    assert_eq!(parse_promiser("promizer(type='POST', format='raw-json')"), None);
    assert_eq!(parse_promiser("promizer(type='POST' , format='raw-json', body=[])"), None);
    assert_eq!(parse_promiser(""), None);
}

#[test]
fn short_tag_items_are_decoded_as_a_list() {
    let items = |body: &str| {
        parse_promiser(&format!("promizer(type='T', format='F', body=[{}])", body)).unwrap().2
    };
    assert_eq!(items(""), Vec::<String>::new());
    assert_eq!(items("  "), Vec::<String>::new());
    assert_eq!(items(" , ,"), Vec::<String>::new());
    assert_eq!(items("a"), vec!["a"]);
    assert_eq!(items(" a , ,b,"), vec!["a", "b"]);
    assert_eq!(items("'name', 'age' ,city"), vec!["name", "age", "city"]);
    assert_eq!(items("''a'', ''"), vec!["'a'"]);
}
