use lfm_pc_agent::reason::{
    accept_action, chat_completions_url, extract_json, first_balanced_object, frame_action, models_url, next_rung,
    png_data_url, response_formats, Action, ParseError, ResponseFormat, Rung,
};
use serde_json::Value;

/// Decodes a framed object the way the agent's serde decoder reads it, for the fields the
/// tests use.
fn decode(blob: &str) -> Result<Action, String> {
    let v: Value = serde_json::from_str(blob).map_err(|e| e.to_string())?;
    let obj = v.as_object().ok_or_else(|| "not an object".to_string())?;
    let opt = |k: &str| -> Result<Option<String>, String> {
        match obj.get(k) {
            None | Some(Value::Null) => Ok(None),
            Some(Value::String(s)) => Ok(Some(s.clone())),
            Some(_) => Err(format!("invalid type for {k}")),
        }
    };
    let id = match obj.get("id") {
        None | Some(Value::Null) => None,
        Some(v) => Some(v.as_i64().ok_or_else(|| "invalid id".to_string())?),
    };
    // A `String` field may be missing (it defaults to empty) but not null.
    let req = |k: &str| -> Result<String, String> {
        match obj.get(k) {
            None => Ok(String::new()),
            Some(Value::String(s)) => Ok(s.clone()),
            Some(_) => Err(format!("invalid type for {k}")),
        }
    };
    Ok(Action {
        thought: req("thought")?,
        action: req("action")?,
        id,
        text: opt("text")?,
        keys: opt("keys")?,
        app: opt("app")?,
    })
}

fn parse_action(text: &str) -> Result<Action, ParseError> {
    let blob = frame_action(text)?;
    let decoded = decode(&blob);
    accept_action(blob, decoded)
}

#[test]
fn braces_inside_string_values_survive() {
    // The regression: a '}' inside a string value must not close the object early.
    let a = parse_action(r#"{"action":"type","text":"press the } key"}"#).unwrap();
    assert_eq!(a.action, "type");
    assert_eq!(a.text.as_deref(), Some("press the } key"));

    let b = parse_action(r#"{"action":"done","text":"saved {report}.txt"}"#).unwrap();
    assert_eq!(b.text.as_deref(), Some("saved {report}.txt"));
}

#[test]
fn tolerates_markdown_fences_and_prose() {
    let a =
        parse_action("Sure! Here is the action:\n```json\n{\"action\":\"key\",\"keys\":\"cmd+s\"}\n```")
            .unwrap();
    assert_eq!(a.action, "key");
    assert_eq!(a.keys.as_deref(), Some("cmd+s"));
}

#[test]
fn escaped_quotes_do_not_end_the_string() {
    let a = parse_action(r#"{"action":"type","text":"say \"hi\" }now"}"#).unwrap();
    assert_eq!(a.text.as_deref(), Some(r#"say "hi" }now"#));
}

#[test]
fn rejects_non_json_and_empty_action() {
    assert!(parse_action("no json here").is_err());
    assert!(parse_action(r#"{"thought":"hi"}"#).is_err());
}

#[test]
fn extract_json_takes_the_first_balanced_object() {
    assert_eq!(extract_json("x {\"a\":{\"b\":1}} {\"c\":2}").as_deref(), Some("{\"a\":{\"b\":1}}"));
    assert_eq!(extract_json("```json\n{\"action\":\"wait\"}\n```").as_deref(), Some("{\"action\":\"wait\"}"));
    assert_eq!(extract_json("```{\"action\":\"wait\"}```").as_deref(), Some("{\"action\":\"wait\"}"));
}

#[test]
fn extract_json_none_without_object_or_when_unclosed() {
    assert_eq!(extract_json(""), None);
    assert_eq!(extract_json("no braces"), None);
    assert_eq!(extract_json("{\"a\": {\"b\": 1}"), None);
    assert_eq!(extract_json("{\"a\": \"}"), None);
}

#[test]
fn extract_json_result_is_a_balanced_piece_of_the_reply() {
    let reply = "I think: {\"action\":\"type\",\"text\":\"a{b}c\\\"}\"} and more";
    let b = extract_json(reply).unwrap();
    assert!(reply.contains(&b));
    assert!(b.starts_with('{') && b.ends_with('}'));
    assert_eq!(b, "{\"action\":\"type\",\"text\":\"a{b}c\\\"}\"}");
    // Extracting again gives the same object.
    assert_eq!(extract_json(&b).as_deref(), Some(b.as_str()));
}

#[test]
fn parse_errors_name_their_cause() {
    match parse_action("  nothing here  ") {
        Err(ParseError::NoJson { raw }) => assert_eq!(raw, "nothing here"),
        other => panic!("unexpected {other:?}"),
    }
    let e = parse_action("{\"thought\":\"hi\"}").unwrap_err();
    assert_eq!(e.message(), "model returned no 'action' field: {\"thought\":\"hi\"}");
    let e = parse_action("{\"action\": 5}").unwrap_err();
    assert!(matches!(e, ParseError::Invalid { .. }));
    assert_eq!(e.message(), "could not parse action JSON: {\"action\": 5}");
    let e = parse_action("nope").unwrap_err();
    assert_eq!(e.message(), "model did not return JSON. Raw output:\nnope");
}

#[test]
fn accept_action_passes_a_named_action_through() {
    let a = Action { action: "click".to_string(), id: Some(3), ..Default::default() };
    let r = accept_action("{}".to_string(), Ok(a)).unwrap();
    assert_eq!(r.action, "click");
    assert_eq!(r.id, Some(3));
    let r = accept_action("{x}".to_string(), Err("bad".to_string()));
    match r {
        Err(ParseError::Invalid { blob, cause }) => {
            assert_eq!(blob, "{x}");
            assert_eq!(cause, "bad");
        }
        other => panic!("unexpected {other:?}"),
    }
}

#[test]
fn ladder_goes_from_strict_to_free() {
    assert_eq!(
        response_formats(true),
        vec![ResponseFormat::JsonSchema, ResponseFormat::JsonObject, ResponseFormat::Free]
    );
    assert_eq!(response_formats(false), vec![ResponseFormat::Free]);
    match next_rung(true, 0, Err("e0".to_string())) {
        Rung::Retry(f) => assert_eq!(f, ResponseFormat::JsonObject),
        other => panic!("unexpected {other:?}"),
    }
    match next_rung(true, 1, Err("e1".to_string())) {
        Rung::Retry(f) => assert_eq!(f, ResponseFormat::Free),
        other => panic!("unexpected {other:?}"),
    }
    match next_rung(true, 2, Err("e2".to_string())) {
        Rung::GiveUp(m) => assert_eq!(m, "e2"),
        other => panic!("unexpected {other:?}"),
    }
    match next_rung(false, 0, Err("only".to_string())) {
        Rung::GiveUp(m) => assert_eq!(m, "only"),
        other => panic!("unexpected {other:?}"),
    }
    let a = Action { action: "wait".to_string(), ..Default::default() };
    match next_rung(true, 0, Ok(a)) {
        Rung::Accept(a) => assert_eq!(a.action, "wait"),
        other => panic!("unexpected {other:?}"),
    }
}

#[test]
fn endpoints_ignore_trailing_slashes() {
    assert_eq!(chat_completions_url("http://127.0.0.1:8080"), "http://127.0.0.1:8080/v1/chat/completions");
    assert_eq!(chat_completions_url("http://127.0.0.1:8080//"), "http://127.0.0.1:8080/v1/chat/completions");
    assert_eq!(models_url("http://h:1/"), "http://h:1/v1/models");
    assert_eq!(png_data_url("QUJD"), "data:image/png;base64,QUJD");
}

#[test]
fn first_balanced_object_does_not_trim_fences() {
    assert_eq!(first_balanced_object("```{\"a\":\"}\"}```").as_deref(), Some("{\"a\":\"}\"}"));
    assert_eq!(first_balanced_object("{{}"), None);
    assert_eq!(first_balanced_object("x{}{}").as_deref(), Some("{}"));
}

#[test]
fn extracting_again_gives_the_same_object() {
    for reply in [
        "x {\"a\":{\"b\":1}} {\"c\":2}",
        "```json\n{\"action\":\"wait\"}\n```",
        "Sure: {\"action\":\"type\",\"text\":\"a } b \\\" {\"} trailing",
    ] {
        let once = extract_json(reply).unwrap();
        assert_eq!(extract_json(&once).as_deref(), Some(once.as_str()));
    }
}

#[test]
fn null_string_fields_are_refused_but_null_options_are_not() {
    assert!(parse_action(r#"{"action":null}"#).is_err());
    assert!(parse_action(r#"{"action":"wait","thought":null}"#).is_err());
    let a = parse_action(r#"{"action":"wait","text":null,"id":null}"#).unwrap();
    assert_eq!(a.text, None);
    assert_eq!(a.id, None);
}
