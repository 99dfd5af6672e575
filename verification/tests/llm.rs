//! Requests to a model and its replies.

use agentworld::json::Json;
use agentworld::llm::{
    read_answer, Format, GenerateRequest, LlmError, MockClient, Options,
};
use serde_json::Value;

fn value(j: &Json) -> Value {
    match j {
        Json::Null => Value::Null,
        Json::Bool(b) => Value::Bool(*b),
        Json::U64(n) => Value::from(*n),
        Json::I64(n) => Value::from(*n),
        Json::Real(text) => serde_json::from_str(text).unwrap(),
        Json::Str(s) => Value::String(s.clone()),
        Json::Array(v) => Value::Array(v.iter().map(value).collect()),
        Json::Object(fields) => {
            let mut m = serde_json::Map::new();
            for (k, v) in fields {
                m.insert(k.clone(), value(v));
            }
            Value::Object(m)
        }
    }
}

#[test]
fn mock_client_returns_queued_replies_in_order() {
    let mut m = MockClient::new(vec!["first", "second"]);
    let r1 = m.generate(GenerateRequest {
        model: "test".into(),
        prompt: "a".into(),
        system: None,
        options: None,
        format: None,
        stream: false,
    });
    assert_eq!(r1.response, "first");
    let r2 = m.generate(GenerateRequest {
        model: "test".into(),
        prompt: "b".into(),
        system: None,
        options: None,
        format: None,
        stream: false,
    });
    assert_eq!(r2.response, "second");
    assert_eq!(m.calls().len(), 2);
}

#[test]
fn mock_client_returns_placeholder_when_exhausted() {
    let mut m = MockClient::new(vec![]);
    let r = m.generate(GenerateRequest {
        model: "test".into(),
        prompt: "a".into(),
        system: None,
        options: None,
        format: None,
        stream: false,
    });
    assert_eq!(r.response, "(no reply queued)");
}

#[test]
fn request_serializes_skipping_optionals() {
    let req = GenerateRequest {
        model: "gemma3:4b".into(),
        prompt: "hello".into(),
        system: None,
        options: None,
        format: None,
        stream: false,
    };
    let s = serde_json::to_string(&value(&req.to_json())).unwrap();
    assert!(s.contains("\"model\":\"gemma3:4b\""));
    assert!(!s.contains("system"));
    assert!(!s.contains("format"));
}

#[test]
fn request_with_json_format_serializes_correctly() {
    let req = GenerateRequest {
        model: "x".into(),
        prompt: "y".into(),
        system: Some("be brief".into()),
        options: Some(Options { temperature: Some("0.2".into()), num_predict: Some(256), num_ctx: Some(4096) }),
        format: Some(Format::Json),
        stream: false,
    };
    let s = serde_json::to_string(&value(&req.to_json())).unwrap();
    assert!(s.contains("\"format\":\"json\""));
    assert!(s.contains("\"temperature\":0.2"));
    assert!(s.contains("\"num_predict\":256"));
    assert!(s.contains("\"system\":\"be brief\""));
}

#[test]
fn answers_are_replies_or_errors() {
    let ok = read_answer(200, r#"{"response":"hi","model":"m","total_duration":5}"#).unwrap();
    assert_eq!(ok.response, "hi");
    assert_eq!(ok.model, "m");
    assert_eq!(ok.total_duration, Some(5));
    assert_eq!(ok.eval_count, None);
    assert!(matches!(
        read_answer(404, "no such model"),
        Err(LlmError::BadStatus { status: 404, body }) if body == "no such model"
    ));
    assert!(matches!(read_answer(200, "nonsense"), Err(LlmError::Http(_))));
    assert!(matches!(read_answer(299, r#"{"response":"hi"}"#), Err(LlmError::Http(_))));
    assert!(matches!(
        read_answer(200, r#"{"response":"hi","model":"m","eval_count":"many"}"#),
        Err(LlmError::Http(_))
    ));
}

#[test]
fn replies_that_name_a_field_twice_are_refused() {
    let once = r#"{"model": "m", "response": "{\"model\": 1}", "extra": 1, "extra": 2}"#;
    assert_eq!(read_answer(200, once).unwrap().model, "m");
    let twice = r#"{"model": "m", "response": "r", "model": "m"}"#;
    assert!(matches!(read_answer(200, twice), Err(LlmError::Http(_))));
}

#[test]
fn options_start_empty_and_copy() {
    let o = Options::default();
    assert!(o.temperature.is_none() && o.num_predict.is_none() && o.num_ctx.is_none());
    let c = Options { temperature: Some("0.2".into()), num_predict: Some(3), num_ctx: None }.clone();
    assert_eq!((c.temperature.as_deref(), c.num_predict, c.num_ctx), (Some("0.2"), Some(3), None));
}
