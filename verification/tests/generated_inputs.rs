//! The library against the `regex` crate on inputs drawn from the pieces
//! that the grammar is made of. The draws are fixed: the generator is
//! seeded with a constant.

use promizer::fields::{decode_object_array, extract_array_field, extract_scalar_field};
use promizer::generators::extract_body_params;
use promizer::locator::locate_tags;
use promizer::parsers::parse_promiser;
use promizer::pipeline::parse_promiser_tag;
use promizer::text::normalize;
use regex::Regex;

/// The items of a comma-separated list: trimmed, without one quote on
/// either side, and not empty.
fn list_items(raw: &str) -> Vec<String> {
    raw.split(',')
        .map(|s| s.trim())
        .map(|s| s.strip_prefix('\'').unwrap_or(s))
        .map(|s| s.strip_suffix('\'').unwrap_or(s).to_string())
        .filter(|s| !s.is_empty())
        .collect()
}

struct Draw(u64);

impl Draw {
    fn next(&mut self) -> u64 {
        self.0 ^= self.0 << 13;
        self.0 ^= self.0 >> 7;
        self.0 ^= self.0 << 17;
        self.0
    }

    fn below(&mut self, n: usize) -> usize {
        (self.next() % (n as u64)) as usize
    }

    fn pieces(&mut self, from: &[&str], at_most: usize) -> String {
        let n = self.below(at_most + 1);
        let mut s = String::new();
        for _ in 0..n {
            s.push_str(from[self.below(from.len())]);
        }
        s
    }

    fn mutated(&mut self, valid: &[&str], noise: &[&str], at_most: usize) -> String {
        let mut parts: Vec<&str> = valid.to_vec();
        for _ in 0..self.below(at_most + 1) {
            match self.below(4) {
                0 if !parts.is_empty() => {
                    let i = self.below(parts.len());
                    parts.remove(i);
                }
                1 => {
                    let i = self.below(parts.len() + 1);
                    parts.insert(i, noise[self.below(noise.len())]);
                }
                2 if parts.len() > 1 => {
                    let i = self.below(parts.len());
                    let j = self.below(parts.len());
                    parts.swap(i, j);
                }
                _ if !parts.is_empty() => {
                    let i = self.below(parts.len());
                    parts[i] = noise[self.below(noise.len())];
                }
                _ => {}
            }
        }
        parts.concat()
    }
}

#[test]
fn drawn_single_fields_agree() {
    let scalar = Regex::new(r"(?s)key='([^']*)'").unwrap();
    let array = Regex::new(r"(?s)key=\[(.*?)\]").unwrap();
    let pieces = ["key", "=", "'", "[", "]", "key='", "key=[", "a", " ", "\n", ",", "é", "ke"];
    let mut draw = Draw(0x9E3779B97F4A7C15);
    for _ in 0..3000 {
        let input = draw.pieces(&pieces, 12);
        let expected = scalar.captures(&input).map(|c| c[1].to_string());
        assert_eq!(extract_scalar_field(&input, "key"), expected, "input {:?}", input);
        let expected = array.captures(&input).map(|c| c[1].to_string());
        assert_eq!(extract_array_field(&input, "key"), expected, "input {:?}", input);
    }
}

#[test]
fn drawn_objects_agree() {
    let re = Regex::new(r"(?sx) \{ \s*a='([^']*)' \s*,\s* b='([^']*)' \s*\}").unwrap();
    let keys = vec!["a".to_string(), "b".to_string()];
    let pieces = [
        "{", "}", "a='", "b='", "'", ",", " ", "\n", "x", "a='1'", "b='2'", "{a='1',b='2'}", "\t",
        "\u{a0}", "a=", "{ a='",
    ];
    let valid = ["{", " ", "a='1'", " ", ",", "\n", "b='2'", " ", "}"];
    let mut draw = Draw(0xD1B54A32D192ED03);
    for round in 0..3000 {
        let input = if round % 2 == 0 {
            draw.pieces(&pieces, 14)
        } else {
            let first = draw.mutated(&valid, &pieces, 2);
            let second = draw.mutated(&valid, &pieces, 2);
            format!("{}{}{}", first, pieces[draw.below(pieces.len())], second)
        };
        let expected: Vec<Vec<String>> =
            re.captures_iter(&input).map(|c| vec![c[1].to_string(), c[2].to_string()]).collect();
        assert_eq!(decode_object_array(&input, &keys), expected, "input {:?}", input);
    }
}

#[test]
fn drawn_tags_agree() {
    let re = Regex::new(r"(?s)//m\((.*?)\)").unwrap();
    let pieces = ["//m(", ")", "(", "/", "m", "//", "m(", "a", "\n", " ", "//m(b)", "é"];
    let mut draw = Draw(0x2545F4914F6CDD1D);
    for _ in 0..3000 {
        let input = draw.pieces(&pieces, 14);
        let expected: Vec<(String, usize, usize)> = re
            .captures_iter(&input)
            .map(|c| {
                let whole = c.get(0).unwrap();
                (
                    c[1].to_string(),
                    input[..whole.start()].chars().count(),
                    input[..whole.end()].chars().count(),
                )
            })
            .collect();
        let got: Vec<(String, usize, usize)> = locate_tags(&input, "m")
            .into_iter()
            .map(|t| (t.body, t.start_offset, t.end_offset))
            .collect();
        assert_eq!(got, expected, "input {:?}", input);
    }
}

#[test]
fn drawn_short_tags_agree() {
    let re = Regex::new(r"promizer\(type='(.*?)', format='(.*?)', body=\[(.*?)\]\)").unwrap();
    let valid = ["promizer(type='", "A", "', format='", "B", "', body=[", "c, d", "])"];
    let noise = [
        "promizer(type='", "', format='", "', body=[", "])", "]", ")", "'", ",", " ", "\n", "x",
        "\r", "",
    ];
    let mut draw = Draw(0x853C49E6748FEA9B);
    for round in 0..3000 {
        let input = if round % 3 == 0 {
            draw.pieces(&noise, 12)
        } else {
            let first = draw.mutated(&valid, &noise, 3);
            let second = draw.mutated(&valid, &noise, 1);
            format!("{}{}", first, second)
        };
        let expected = re.captures(&input).map(|c| {
            (c[1].to_string(), c[2].to_string(), list_items(&c[3]))
        });
        assert_eq!(parse_promiser(&input), expected, "input {:?}", input);
    }
}

#[test]
fn drawn_body_parameters_agree() {
    let re = Regex::new(r"\[(.*?)\]").unwrap();
    let pieces = ["[", "]", "\n", "a", " ", ",", "[b]", "\r"];
    let mut draw = Draw(0xDA942042E4DD58B5);
    for _ in 0..3000 {
        let input = draw.pieces(&pieces, 10);
        let expected = match re.captures(&input) {
            Some(c) => c[1].to_string(),
            None => "No body parameters found".to_string(),
        };
        assert_eq!(extract_body_params(&input), expected, "input {:?}", input);
    }
}

#[test]
fn drawn_rich_tags_agree() {
    let re = Regex::new(
        r"(?sx)
        path='(?P<path>[^']*)' \s*,\s* url='(?P<url>[^']*)' \s*,\s* type='(?P<type>[^']*)'
        \s*,\s* format='(?P<format>[^']*)' \s*,\s* description='(?P<description>[^']*)'
        \s*,\s* parameters=\[(?P<parameters>.*?)\] \s*,\s* responses=\[(?P<responses>.*?)\]
        \s*,\s* tags=\[(?P<tags>.*?)\] \s*,\s* security=\[(?P<security>.*?)\]
        \s*,\s* consumes=\[(?P<consumes>.*?)\] \s*,\s* produces=\[(?P<produces>.*?)\]
        \s*,\s* deprecated='(?P<deprecated>[^']*)' \s*,\s* body=\[(?P<body>.*?)\]
    ",
    )
    .unwrap();
    let valid = [
        "path='", "/a", "'", ", ", "url='", "u", "'", ",", "type='", "GET", "'", " ,", "format='",
        "f", "'", ",\n  ", "description='", "d", "'", ", ", "parameters=[", "p", "]", ", ",
        "responses=[", "r[]", "]", ", ", "tags=[", "t", "]", ", ", "security=[", "s", "]", ", ",
        "consumes=[", "c", "]", ", ", "produces=[", "o", "]", ", ", "deprecated='", "true", "'",
        ", ", "body=[", "{'k': 1}", "]",
    ];
    let noise = [
        "'", "]", "[", ",", " ", "\n", "x", "], ", "tags=[", "path='", "body=[", "deprecated='",
        "  \t", "",
    ];
    let mut draw = Draw(0xC2B2AE3D27D4EB4F);
    let mut matched = 0;
    for _ in 0..2000 {
        let input = draw.mutated(&valid, &noise, 3);
        let cleaned = normalize(&input);
        let expected = re.captures(&cleaned);
        let got = parse_promiser_tag(&input);
        assert_eq!(got.is_ok(), expected.is_some(), "input {:?}", input);
        if let (Ok(doc), Some(caps)) = (got, expected) {
            matched += 1;
            assert_eq!(doc.path, &caps["path"], "input {:?}", input);
            assert_eq!(doc.base_url, &caps["url"], "input {:?}", input);
            assert_eq!(doc.method, &caps["type"], "input {:?}", input);
            assert_eq!(doc.format, &caps["format"], "input {:?}", input);
            assert_eq!(doc.description, &caps["description"], "input {:?}", input);
            assert_eq!(doc.deprecated, &caps["deprecated"] == "true", "input {:?}", input);
            assert_eq!(doc.body, caps["body"].replace('\'', ""), "input {:?}", input);
            let consumes = list_items(&caps["consumes"]);
            assert_eq!(doc.consumes, consumes, "input {:?}", input);
        }
    }
    assert!(matched > 200, "only {} inputs matched", matched);
}
