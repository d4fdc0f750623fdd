use cairo_fuzz::json::{find_function, get_type_args, last_segment_of, parse_json, JsonValue};

fn artifact_text() -> String {
    let mut s = String::new();
    s.push_str("{");
    s.push_str("\"hints\": {\"0\": []},");
    s.push_str("\"identifiers\": {");
    s.push_str("\"__main__.fuzzme\": {\"pc\": 7, \"type\": \"function\"},");
    s.push_str("\"__main__.fuzzme.Args\": {\"size\": 2, \"members\": {");
    s.push_str("\"a\": {\"cairo_type\": \"felt\", \"offset\": 0},");
    s.push_str("\"b\": {\"cairo_type\": \"felt*\", \"offset\": 1}");
    s.push_str("}}");
    s.push_str("}}");
    s
}

#[test]
fn parse_json_reads_the_function_descriptor() {
    let f = parse_json(&artifact_text(), &"fuzzme".to_string()).unwrap();
    assert_eq!(f.name, "fuzzme");
    assert_eq!(f.entrypoint, "7");
    assert_eq!(f.num_args, 2);
    assert_eq!(f.type_args, vec!["felt".to_string(), "felt*".to_string()]);
    assert!(f.hints);
    assert!(f.decorators.is_empty());
}

#[test]
fn parse_json_misses_unknown_functions() {
    assert!(parse_json(&artifact_text(), &"other".to_string()).is_none());
}

#[test]
fn parse_json_rejects_broken_text() {
    assert!(parse_json(&"{not json".to_string(), &"fuzzme".to_string()).is_none());
}

#[test]
fn hints_flag_defaults_to_false() {
    let text = "{\"identifiers\": {\
        \"m.f\": {\"pc\": 1, \"type\": \"function\"},\
        \"m.f.Args\": {\"size\": 0, \"members\": {}}}}"
        .to_string();
    let f = parse_json(&text, &"f".to_string()).unwrap();
    assert!(!f.hints);
    assert_eq!(f.num_args, 0);
    assert_eq!(f.type_args.len(), 0);
}

#[test]
fn find_function_walks_a_built_document() {
    let args = JsonValue::Obj(vec![
        ("size".to_string(), JsonValue::Num(Some(1), "1".to_string())),
        (
            "members".to_string(),
            JsonValue::Obj(vec![(
                "x".to_string(),
                JsonValue::Obj(vec![(
                    "cairo_type".to_string(),
                    JsonValue::Str("felt".to_string()),
                )]),
            )]),
        ),
    ]);
    let entry = JsonValue::Obj(vec![
        ("pc".to_string(), JsonValue::Num(Some(3), "3".to_string())),
        ("type".to_string(), JsonValue::Str("function".to_string())),
    ]);
    let doc = JsonValue::Obj(vec![(
        "identifiers".to_string(),
        JsonValue::Obj(vec![
            ("pkg.mod.target".to_string(), entry),
            ("pkg.mod.target.Args".to_string(), args),
        ]),
    )]);
    let f = find_function(&doc, &"target".to_string()).unwrap();
    assert_eq!(f.name, "target");
    assert_eq!(f.entrypoint, "3");
    assert_eq!(f.num_args, 1);
    assert_eq!(f.type_args, vec!["felt".to_string()]);
    assert!(!f.hints);
}

#[test]
fn find_function_skips_incomplete_matches() {
    let doc = JsonValue::Obj(vec![(
        "identifiers".to_string(),
        JsonValue::Obj(vec![(
            "a.target".to_string(),
            JsonValue::Obj(vec![(
                "type".to_string(),
                JsonValue::Str("function".to_string()),
            )]),
        )]),
    )]);
    assert!(find_function(&doc, &"target".to_string()).is_none());
}

#[test]
fn get_type_args_collects_member_types_in_order() {
    let members = JsonValue::Obj(vec![
        (
            "a".to_string(),
            JsonValue::Obj(vec![(
                "cairo_type".to_string(),
                JsonValue::Str("felt".to_string()),
            )]),
        ),
        ("b".to_string(), JsonValue::Obj(vec![])),
    ]);
    let args = get_type_args(&members);
    assert_eq!(args, vec!["felt".to_string(), "null".to_string()]);
}

#[test]
fn last_segment_takes_what_follows_the_last_dot() {
    assert_eq!(last_segment_of("a.b.c"), "c");
    assert_eq!(last_segment_of("plain"), "plain");
    assert_eq!(last_segment_of("trailing."), "");
    assert_eq!(last_segment_of(""), "");
}
