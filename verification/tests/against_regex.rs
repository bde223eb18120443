//! The grammar is that of a handful of regular expressions. These tests hold
//! the library against the `regex` crate on the same inputs.

use promizer::fields::{decode_object_array, extract_array_field, extract_scalar_field};
use promizer::generators::extract_body_params;
use promizer::locator::locate_tags;
use promizer::parsers::parse_promiser;
use promizer::pipeline::parse_promiser_tag;
use promizer::text::normalize;
use regex::Regex;

/// The items of a comma-separated list: trimmed, without one quote on
/// either side, and not empty.
fn list_items(raw: &str) -> Vec<String> {
    raw.split(',')
        .map(|s| s.trim())
        .map(|s| s.strip_prefix('\'').unwrap_or(s))
        .map(|s| s.strip_suffix('\'').unwrap_or(s).to_string())
        .filter(|s| !s.is_empty())
        .collect()
}

const RICH: &str = r"(?sx)
    path='(?P<path>[^']*)'
    \s*,\s*
    url='(?P<url>[^']*)'
    \s*,\s*
    type='(?P<type>[^']*)'
    \s*,\s*
    format='(?P<format>[^']*)'
    \s*,\s*
    description='(?P<description>[^']*)'
    \s*,\s*
    parameters=\[(?P<parameters>.*?)\]
    \s*,\s*
    responses=\[(?P<responses>.*?)\]
    \s*,\s*
    tags=\[(?P<tags>.*?)\]
    \s*,\s*
    security=\[(?P<security>.*?)\]
    \s*,\s*
    consumes=\[(?P<consumes>.*?)\]
    \s*,\s*
    produces=\[(?P<produces>.*?)\]
    \s*,\s*
    deprecated='(?P<deprecated>[^']*)'
    \s*,\s*
    body=\[(?P<body>.*?)\]
";

const RICH_INPUTS: [&str; 12] = [
    "path='/users', url='https://api.example.com', type='GET', format='raw-json', description='List users', parameters=[], responses=[{code='200', description='OK', schema='User[]'}], tags=[], security=[], consumes=[], produces=[], deprecated='false', body=[]",
    "path='/a',url='u',type='POST',format='f',description='d',parameters=[x],responses=[y],tags=[a, b],security=[s],consumes=[c],produces=[p],deprecated='true',body=[{'k': 'v'}]",
    "junk before path='/a' , url='u'\n,\n type='POST',format='f',description='two\n   lines',parameters=[],responses=[],tags=[],security=[],consumes=[],produces=[],deprecated='true',body=[b] junk after",
    "path='/a', url='u', type='POST', format='f', description='d', parameters=[a]b], c], responses=[], tags=[], security=[], consumes=[], produces=[], deprecated='x', body=[]",
    "path='broken path='/a', url='u', type='POST', format='f', description='d', parameters=[], responses=[], tags=[], security=[], consumes=[], produces=[], deprecated='x', body=[]",
    "path='/a', url='u', type='POST', format='f', description='d', parameters=[], responses=[], tags=[], security=[], consumes=[], produces=[], deprecated='x'",
    "path='/a', url='u', type='POST', format='f', description='d'",
    "url='u', path='/a', type='POST', format='f', description='d', parameters=[], responses=[], tags=[], security=[], consumes=[], produces=[], deprecated='x', body=[]",
    "path='/a' url='u', type='POST', format='f', description='d', parameters=[], responses=[], tags=[], security=[], consumes=[], produces=[], deprecated='x', body=[]",
    "",
    "path='1', url='2', type='3', format='4', description='5', parameters=[6], responses=[7], tags=[8], security=[9], consumes=[10], produces=[11], deprecated='12', body=[13], path='/a', url='u', type='POST', format='f', description='d', parameters=[], responses=[], tags=[], security=[], consumes=[], produces=[], deprecated='x', body=[]",
    "path='/a', url='u', type='POST', format='f', description='d', parameters=[], responses=[], tags=[ 't1' , t2 ], security=[], consumes=[], produces=[] ,\t deprecated='true' ,\u{a0}body=[ a ] ]",
];

#[test]
fn rich_tag_matches_where_the_expression_matches() {
    let re = Regex::new(RICH).unwrap();
    for input in RICH_INPUTS {
        let cleaned = normalize(input);
        let expected = re.captures(&cleaned);
        let got = parse_promiser_tag(input);
        assert_eq!(got.is_ok(), expected.is_some(), "input {:?}", input);
        if let (Ok(doc), Some(caps)) = (got, expected) {
            assert_eq!(doc.path, &caps["path"], "input {:?}", input);
            assert_eq!(doc.base_url, &caps["url"]);
            assert_eq!(doc.method, &caps["type"]);
            assert_eq!(doc.format, &caps["format"]);
            assert_eq!(doc.description, &caps["description"]);
            assert_eq!(doc.deprecated, &caps["deprecated"] == "true");
            assert_eq!(doc.body, caps["body"].replace('\'', ""), "input {:?}", input);
            let tags = list_items(&caps["tags"]);
            assert_eq!(doc.tags, tags, "input {:?}", input);
        }
    }
}

#[test]
fn objects_are_those_the_expression_finds() {
    let re = Regex::new(
        r"(?sx)
        \{
        \s*code='([^']*)'
        \s*,\s*
        description='([^']*)'
        \s*,\s*
        schema='([^']*)'
        \s*\}
    ",
    )
    .unwrap();
    let keys = vec!["code".to_string(), "description".to_string(), "schema".to_string()];
    let inputs = [
        "",
        "{code='200', description='OK', schema='User[]'}",
        "{ code='200' ,\n description='OK',schema='S' } , {code='404', description='Not found', schema=''}",
        "{code='200', description='OK'} {code='1', description='2', schema='3'}",
        "{{code='200', description='OK', schema='S'}}",
        "{code='200', description='OK', schema='S' x}{code='a',description='b',schema='c'}",
        "{code='200', description='{code='1', description='2', schema='3'}",
        "code='200', description='OK', schema='S'",
        "{code='a}', description='b', schema='c'}",
    ];
    for input in inputs {
        let expected: Vec<Vec<String>> = re
            .captures_iter(input)
            .map(|c| vec![c[1].to_string(), c[2].to_string(), c[3].to_string()])
            .collect();
        assert_eq!(decode_object_array(input, &keys), expected, "input {:?}", input);
    }
}

#[test]
fn single_fields_are_those_the_expression_finds() {
    let scalar = Regex::new(r"(?s)name='([^']*)'").unwrap();
    let array = Regex::new(r"(?s)name=\[(.*?)\]").unwrap();
    let inputs = [
        "",
        "name='a'",
        "x name='a\nb' name='c'",
        "name='a",
        "rename='a', name=[1, 2] name=[3]",
        "name=[a[0]]",
        "name=[",
        "name=name='x'",
    ];
    for input in inputs {
        let expected = scalar.captures(input).map(|c| c[1].to_string());
        assert_eq!(extract_scalar_field(input, "name"), expected, "input {:?}", input);
        let expected = array.captures(input).map(|c| c[1].to_string());
        assert_eq!(extract_array_field(input, "name"), expected, "input {:?}", input);
    }
}

#[test]
fn tags_are_those_the_expression_finds() {
    let re = Regex::new(r"(?s)//promizer\((.*?)\)").unwrap();
    let inputs = [
        "",
        "no tags here",
        "//promizer(a)",
        "x //promizer(a) y //promizer(b\nc) //promizer() //promizer(",
        "//promizer(//promizer(a))",
        "// promizer(a) //promizer (b) //Promizer(c) /promizer(d)",
        "//promizer(é ü) //promizer(日本)",
    ];
    for input in inputs {
        let expected: Vec<String> = re.captures_iter(input).map(|c| c[1].to_string()).collect();
        let got: Vec<String> = locate_tags(input, "promizer").into_iter().map(|t| t.body).collect();
        assert_eq!(got, expected, "input {:?}", input);
    }
}

#[test]
fn short_tag_is_the_one_the_expression_finds() {
    let re = Regex::new(r"promizer\(type='(.*?)', format='(.*?)', body=\[(.*?)\]\)").unwrap();
    let inputs = [
        "",
        "promizer(type='POST', format='raw-json', body=[a, b , c])",
        "promizer(type='POST', format='raw-json', body=[])",
        "x promizer(type='A', format='B', format='C', body=[d], body=[e])]) y",
        "promizer(type='A',format='B', body=[c])",
        "promizer(type='A\n', format='B', body=[c]) promizer(type='D', format='E', body=[f])",
        "promizer(type='A', format='B', body=[c]\n)",
        "promizer(type='promizer(type='A', format='B', body=[c])",
        "promizer(type='A', format='B', body=[c] promizer(type='D', format='E', body=[ f ,, g ])",
        "promizer(type='A', format='B', body=[\u{a0}c\t,  d\u{3000}])",
    ];
    for input in inputs {
        let expected = re.captures(input).map(|c| {
            (c[1].to_string(), c[2].to_string(), list_items(&c[3]))
        });
        assert_eq!(parse_promiser(input), expected, "input {:?}", input);
    }
}

#[test]
fn body_parameters_are_those_the_expression_finds() {
    let re = Regex::new(r"\[(.*?)\]").unwrap();
    let inputs = ["", "[a]", "x [a, b] [c]", "[a\n] [b]", "[[a]]", "]a[", "[a", "[\r]", "[]"];
    for input in inputs {
        let expected = match re.captures(input) {
            Some(c) => c[1].to_string(),
            None => "No body parameters found".to_string(),
        };
        assert_eq!(extract_body_params(input), expected, "input {:?}", input);
    }
}

#[test]
fn lines_are_trimmed_as_the_standard_library_trims() {
    let inputs = [
        "",
        "a",
        "  a  ",
        " a \n\t b\t\n\nc \r\n d",
        "\n",
        " \n ",
        "\u{a0}x\u{2003}\n\u{3000}y\u{85}",
        "a\u{200b}",
    ];
    for input in inputs {
        let expected = input.split('\n').map(|line| line.trim()).collect::<Vec<_>>().join("\n");
        assert_eq!(normalize(input), expected, "input {:?}", input);
    }
}
