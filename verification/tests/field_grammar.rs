use promizer::builder::{flat_schema, rich_schema};
use promizer::fields::{
    decode_bool_field, decode_flat_array, decode_object_array, extract_array_field,
    extract_scalar_field, parse_array, same_text,
};
use promizer::pipeline::{
    clean_json_string, parse_codizer_tag, parse_parameters_flexible, parse_promiser_tag,
    parse_responses_flexible,
};
use promizer::model::{Parameter, Response};
use promizer::schema::{
    resolve, FieldKind, FieldSchema, FieldSpec, FieldValue, ParsedField, TagParseError,
};
use promizer::text::{normalize, strip_literal_quotes};

fn strings(items: &[&str]) -> Vec<String> {
    items.iter().map(|s| s.to_string()).collect()
}

#[test]
fn scalar_field_is_the_text_between_its_quotes() {
    assert_eq!(extract_scalar_field("title='Add'", "title"), Some("Add".to_string()));
    assert_eq!(extract_scalar_field("a, title='', b", "title"), Some(String::new()));
    assert_eq!(
        extract_scalar_field("title='two\nlines', title='second'", "title"),
        Some("two\nlines".to_string())
    );
    assert_eq!(extract_scalar_field("title=[Add]", "title"), None);
    assert_eq!(extract_scalar_field("title='Add", "title"), None);
    assert_eq!(extract_scalar_field("", "title"), None);
}

#[test]
fn array_field_is_the_raw_text_between_its_brackets() {
    assert_eq!(extract_array_field("tags=[a, 'b']", "tags"), Some("a, 'b'".to_string()));
    assert_eq!(extract_array_field("tags=[]", "tags"), Some(String::new()));
    assert_eq!(extract_array_field("tags=[a[0]]", "tags"), Some("a[0".to_string()));
    assert_eq!(extract_array_field("tags='a'", "tags"), None);
    assert_eq!(extract_array_field("tags=[a", "tags"), None);
}

#[test]
fn flat_array_items_are_trimmed_unquoted_and_not_empty() {
    assert_eq!(parse_array("a, b,c"), strings(&["a", "b", "c"]));
    assert_eq!(parse_array("'a' , 'b c'"), strings(&["a", "b c"]));
    assert_eq!(parse_array(""), Vec::<String>::new());
    assert_eq!(parse_array(" , ,"), Vec::<String>::new());
    assert_eq!(parse_array("a,,b, '' ,c"), strings(&["a", "b", "c"]));
    assert_eq!(parse_array("''a'', 'b, c'"), strings(&["'a'", "b", "c"]));
    assert_eq!(parse_array("'"), Vec::<String>::new());
    assert_eq!(parse_array("'a, b'"), strings(&["a", "b"]));
    assert_eq!(parse_array(" ' a ' "), strings(&[" a "]));
    assert_eq!(decode_flat_array("x,\n y"), strings(&["x", "y"]));
}

#[test]
fn flag_is_true_only_for_the_exact_word() {
    assert!(decode_bool_field("true"));
    assert!(!decode_bool_field("True"));
    assert!(!decode_bool_field("TRUE"));
    assert!(!decode_bool_field(" true"));
    assert!(!decode_bool_field("false"));
    assert!(!decode_bool_field(""));
    assert!(!decode_bool_field("yes"));
}

#[test]
fn quotes_are_all_removed() {
    assert_eq!(strip_literal_quotes("{'a': 'b'}"), "{a: b}");
    assert_eq!(strip_literal_quotes("''''"), "");
    assert_eq!(strip_literal_quotes("no quotes"), "no quotes");
    assert_eq!(strip_literal_quotes(""), "");
    assert_eq!(strip_literal_quotes("'é'\n\"x\""), "é\n\"x\"");
}

#[test]
fn json_like_text_loses_its_quotes_and_nothing_else() {
    assert_eq!(clean_json_string("  {'a': 1}  "), "  {a: 1}  ");
    assert_eq!(clean_json_string("  {'a': 1,\n    'b': 'c'}  "), "  {a: 1,\n    b: c}  ");
    assert_eq!(clean_json_string("\t'\t\n"), "\t\t\n");
    assert_eq!(clean_json_string(""), "");
    for input in ["", "  {'a': 1}  ", "''", " x \n y "] {
        assert_eq!(clean_json_string(input), strip_literal_quotes(input));
    }
}

#[test]
fn normalization_trims_each_line_and_keeps_the_lines() {
    assert_eq!(normalize("  a  \n\tb\t\n c"), "a\nb\nc");
    assert_eq!(normalize("a\n\n  \nb"), "a\n\n\nb");
    assert_eq!(normalize("a\n"), "a\n");
    assert_eq!(normalize("\n"), "\n");
    assert_eq!(normalize("   "), "");
    assert_eq!(normalize("a  b"), "a  b");
    assert_eq!(normalize("a\r\nb\r\n"), "a\nb\n");
}

#[test]
fn same_text_compares_characters() {
    assert!(same_text("", ""));
    assert!(same_text("abc", "abc"));
    assert!(!same_text("abc", "abd"));
    assert!(!same_text("abc", "ab"));
    assert!(!same_text("é", "e"));
}

#[test]
fn objects_hold_their_texts_in_key_order() {
    let keys = strings(&["code", "description", "schema"]);
    assert_eq!(
        decode_object_array(
            "{code='200', description='OK', schema='User[]'}, {code='404', description='Missing', schema=''}",
            &keys
        ),
        vec![strings(&["200", "OK", "User[]"]), strings(&["404", "Missing", ""])]
    );
    assert_eq!(decode_object_array("", &keys), Vec::<Vec<String>>::new());
    assert_eq!(
        decode_object_array("{description='OK', code='200', schema='S'}", &keys),
        Vec::<Vec<String>>::new()
    );
    assert_eq!(
        decode_object_array("{code='1', description='2'}{code='3', description='4', schema='5'}", &keys),
        vec![strings(&["3", "4", "5"])]
    );
    assert_eq!(decode_object_array("{}{ }", &Vec::new()), vec![Vec::<String>::new(), Vec::new()]);
}

#[test]
fn parameters_and_responses_are_decoded_from_objects() {
    assert_eq!(
        parse_parameters_flexible(
            "{name='id', location='path', required='true', type='int', description='The id'},\n   {\n      name='q',\n      location='query',\n      required='no',\n      type='string',\n      description='Search'\n   }"
        ),
        vec![
            Parameter {
                name: "id".to_string(),
                location: "path".to_string(),
                required: true,
                type_: "int".to_string(),
                description: "The id".to_string(),
            },
            Parameter {
                name: "q".to_string(),
                location: "query".to_string(),
                required: false,
                type_: "string".to_string(),
                description: "Search".to_string(),
            },
        ]
    );
    assert_eq!(parse_parameters_flexible(""), Vec::new());
    assert_eq!(
        parse_parameters_flexible(
            "{name='id', location='path', required='true', type='int', description='first line  \n     second line'}"
        ),
        vec![Parameter {
            name: "id".to_string(),
            location: "path".to_string(),
            required: true,
            type_: "int".to_string(),
            description: "first line  \n     second line".to_string(),
        }]
    );
    assert_eq!(
        parse_responses_flexible("{code=' 200 ', description='a \n  b', schema='\tS'}"),
        vec![Response {
            code: " 200 ".to_string(),
            description: "a \n  b".to_string(),
            schema: "\tS".to_string(),
        }]
    );
    assert_eq!(
        parse_responses_flexible("{code='200', description='OK', schema='User'}"),
        vec![Response {
            code: "200".to_string(),
            description: "OK".to_string(),
            schema: "User".to_string(),
        }]
    );
    assert_eq!(parse_responses_flexible("{code='200'}"), Vec::new());
}

#[test]
fn flat_tag_resolves_to_its_three_texts() {
    let doc = parse_codizer_tag("title='Add', description='Adds two numbers', developed_by='Team A'")
        .unwrap();
    assert_eq!(doc.title, "Add");
    assert_eq!(doc.description, "Adds two numbers");
    assert_eq!(doc.developed_by, "Team A");
}

#[test]
fn flat_tag_tolerates_lines_and_indentation() {
    let doc = parse_codizer_tag(
        "\n    title='Add'   ,\n    description='Adds\n        two numbers'\n    ,developed_by='Team A'\n",
    )
    .unwrap();
    assert_eq!(doc.title, "Add");
    assert_eq!(doc.description, "Adds\ntwo numbers");
    assert_eq!(doc.developed_by, "Team A");
}

#[test]
fn missing_required_field_rejects_the_tag_with_its_body() {
    assert_eq!(
        parse_codizer_tag("  title='X' "),
        Err(TagParseError { body: "  title='X' ".to_string() })
    );
    assert_eq!(
        parse_codizer_tag("title='X', developed_by='Y', description='Z'"),
        Err(TagParseError { body: "title='X', developed_by='Y', description='Z'".to_string() })
    );
    assert!(parse_promiser_tag("path='/a', url='u'").is_err());
    assert!(parse_codizer_tag("").is_err());
}

#[test]
fn rich_tag_resolves_every_kind_of_field() {
    let doc = parse_promiser_tag(
        "path='/users/{id}',\n url='https://api.example.com',\n type='POST',\n format='raw-json',\n description='Updates a user',\n parameters=[{name='id', location='path', required='true', type='int', description='The id'}],\n responses=[{code='200', description='OK', schema='User'}, {code='404', description='Missing', schema='Error'}],\n tags=['users', admin],\n security=[apiKey],\n consumes=[application/json],\n produces=['application/json', 'text/plain'],\n deprecated='true',\n body=[{'name': 'string'}]",
    )
    .unwrap();
    assert_eq!(doc.path, "/users/{id}");
    assert_eq!(doc.base_url, "https://api.example.com");
    assert_eq!(doc.method, "POST");
    assert_eq!(doc.format, "raw-json");
    assert_eq!(doc.description, "Updates a user");
    assert_eq!(doc.parameters.len(), 1);
    assert_eq!(doc.parameters[0].name, "id");
    assert!(doc.parameters[0].required);
    assert_eq!(doc.responses.len(), 2);
    assert_eq!(doc.responses[1].code, "404");
    assert_eq!(doc.responses[1].schema, "Error");
    assert_eq!(doc.tags, strings(&["users", "admin"]));
    assert_eq!(doc.security, strings(&["apiKey"]));
    assert_eq!(doc.consumes, strings(&["application/json"]));
    assert_eq!(doc.produces, strings(&["application/json", "text/plain"]));
    assert!(doc.deprecated);
    assert_eq!(doc.body, "{name: string}");
}

#[test]
fn bracketed_text_ends_where_the_next_field_follows() {
    let doc = parse_promiser_tag(
        "path='/a', url='u', type='GET', format='f', description='d', parameters=[], responses=[{code='200', description='OK', schema='User[]'}], tags=[a[1]], security=[], consumes=[], produces=[], deprecated='false', body=[x[0]]",
    )
    .unwrap();
    assert_eq!(doc.responses.len(), 1);
    assert_eq!(doc.responses[0].schema, "User[]");
    assert_eq!(doc.tags, strings(&["a[1]"]));
    assert_eq!(doc.body, "x[0");
}

#[test]
fn optional_field_gets_the_empty_value_when_absent() {
    let schema = FieldSchema {
        fields: vec![
            FieldSpec { key: "name".to_string(), kind: FieldKind::Scalar, required: true },
            FieldSpec { key: "labels".to_string(), kind: FieldKind::StringArray, required: false },
            FieldSpec { key: "hidden".to_string(), kind: FieldKind::Bool, required: false },
            FieldSpec { key: "note".to_string(), kind: FieldKind::Scalar, required: true },
        ],
    };
    let parsed = resolve("name='n', note='t'", &schema).unwrap();
    assert_eq!(
        parsed.fields,
        vec![
            ParsedField { key: "name".to_string(), value: FieldValue::Text("n".to_string()) },
            ParsedField { key: "labels".to_string(), value: FieldValue::List(Vec::new()) },
            ParsedField { key: "hidden".to_string(), value: FieldValue::Flag(false) },
            ParsedField { key: "note".to_string(), value: FieldValue::Text("t".to_string()) },
        ]
    );
    let parsed = resolve("name='n', hidden='true', note='t'", &schema).unwrap();
    assert_eq!(parsed.flag("hidden"), true);
    assert_eq!(parsed.list("labels"), Vec::<String>::new());
    assert_eq!(parsed.text("note"), "t");
    assert_eq!(parsed.text("absent"), "");
    assert!(parsed.get("absent").is_none());
    assert!(parsed.objects("labels").is_none());
    let parsed = resolve("name='n', labels=[a, b], note='t'", &schema).unwrap();
    assert_eq!(parsed.list("labels"), strings(&["a", "b"]));
    assert!(resolve("name='n', labels=[a, b]", &schema).is_err());
}

#[test]
fn built_in_schemas_list_their_fields_in_order() {
    let flat: Vec<String> = flat_schema().fields.into_iter().map(|f| f.key).collect();
    assert_eq!(flat, strings(&["title", "description", "developed_by"]));
    let rich = rich_schema();
    let keys: Vec<String> = rich.fields.iter().map(|f| f.key.clone()).collect();
    assert_eq!(
        keys,
        strings(&[
            "path", "url", "type", "format", "description", "parameters", "responses", "tags",
            "security", "consumes", "produces", "deprecated", "body",
        ])
    );
    assert!(rich.fields.iter().all(|f| f.required));
    assert_eq!(
        rich.fields[5].kind,
        FieldKind::ObjectArray(strings(&["name", "location", "required", "type", "description"]))
    );
    assert_eq!(rich.fields[12].kind, FieldKind::RawBlock);
    assert_eq!(rich.fields[11].kind, FieldKind::Bool);
}
