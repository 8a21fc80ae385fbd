use pdf_ocr::error::AppError;
use pdf_ocr::server::{
    check_status, extract_markdown, health_next, markdown_from_answer, markdown_from_payload,
    probe_accepted,
    transport_error, HealthStep, JsonValue, OcrEndpoint, OcrRequest,
};

fn s(text: &str) -> JsonValue {
    JsonValue::String(text.to_string())
}

fn obj(members: Vec<(&str, JsonValue)>) -> JsonValue {
    JsonValue::Object(members.into_iter().map(|(k, v)| (k.to_string(), v)).collect())
}

#[test]
fn extracts_openai_chat_completion_content() {
    let response = obj(vec![(
        "choices",
        JsonValue::Array(vec![obj(vec![("message", obj(vec![("content", s("# Heading\n\nBody"))]))])]),
    )]);

    assert_eq!(
        extract_markdown(&response).as_deref(),
        Some("# Heading\n\nBody")
    );
}

#[test]
fn extracts_openai_chat_completion_content_parts() {
    let response = obj(vec![(
        "choices",
        JsonValue::Array(vec![obj(vec![(
            "message",
            obj(vec![(
                "content",
                JsonValue::Array(vec![
                    obj(vec![("type", s("text")), ("text", s("# Heading"))]),
                    obj(vec![("type", s("text")), ("text", s("Body"))]),
                ]),
            )]),
        )])]),
    )]);

    assert_eq!(
        extract_markdown(&response).as_deref(),
        Some("# Heading\nBody")
    );
}

#[test]
fn extracts_legacy_fields_in_order() {
    let response = obj(vec![
        ("data", obj(vec![("text", s("from data"))])),
        ("content", JsonValue::Number("3".to_string())),
        ("result", obj(vec![("markdown", s("from result"))])),
    ]);
    assert_eq!(extract_markdown(&response).as_deref(), Some("from data"));
    let blank_parts = obj(vec![
        (
            "choices",
            JsonValue::Array(vec![obj(vec![(
                "message",
                obj(vec![(
                    "content",
                    JsonValue::Array(vec![obj(vec![("type", s("image")), ("text", s("x"))])]),
                )]),
            )])]),
        ),
        ("markdown", s("legacy")),
    ]);
    assert_eq!(extract_markdown(&blank_parts).as_deref(), Some("legacy"));
    assert_eq!(extract_markdown(&obj(vec![("text", JsonValue::Null)])), None);
}

#[test]
fn endpoint_trims_slashes_and_routes_requests() {
    let openai = OcrEndpoint::new("http://localhost:8000/v1//");
    assert_eq!(openai.base_url, "http://localhost:8000/v1");
    assert!(openai.uses_chat_completions());
    match openai.plan_request("deepseek-ocr", 3, "WEBP") {
        OcrRequest::ChatCompletion { url, model, prompt, image_url } => {
            assert_eq!(url, "http://localhost:8000/v1/chat/completions");
            assert_eq!(model, "deepseek-ocr");
            assert_eq!(
                prompt,
                "Extract the text from page 3 as clean Markdown. Return only Markdown without code fences or commentary."
            );
            assert_eq!(image_url, "data:image/webp;base64,WEBP");
        }
        OcrRequest::Legacy { .. } => panic!("expected a chat completion"),
    }
    let legacy = OcrEndpoint::new("http://host:9000/");
    assert!(!legacy.uses_chat_completions());
    match legacy.plan_request("m", 12, "WEBP") {
        OcrRequest::Legacy { url, image_base64, mime_type, page } => {
            assert_eq!(url, "http://host:9000/ocr");
            assert_eq!(image_base64, "WEBP");
            assert_eq!(mime_type, "image/webp");
            assert_eq!(page, 12);
        }
        OcrRequest::ChatCompletion { .. } => panic!("expected a legacy request"),
    }
}

#[test]
fn health_check_probes_in_order_until_accepted() {
    let endpoint = OcrEndpoint::new("http://h/v1");
    match health_next(&endpoint, &[]) {
        HealthStep::Probe(url) => assert_eq!(url, "http://h/v1/models"),
        _ => panic!("expected a probe"),
    }
    match health_next(&endpoint, &[false]) {
        HealthStep::Probe(url) => assert_eq!(url, "http://h/v1/health"),
        _ => panic!("expected a probe"),
    }
    match health_next(&endpoint, &[false, false]) {
        HealthStep::Probe(url) => assert_eq!(url, "http://h/v1"),
        _ => panic!("expected a probe"),
    }
    assert!(matches!(health_next(&endpoint, &[false, true]), HealthStep::Healthy));
    match health_next(&endpoint, &[false, false, false]) {
        HealthStep::Unreachable(AppError::ServerUnreachable(base)) => assert_eq!(base, "http://h/v1"),
        _ => panic!("expected unreachable"),
    }
    assert!(probe_accepted(Some(200)));
    assert!(probe_accepted(Some(404)));
    assert!(!probe_accepted(Some(500)));
    assert!(!probe_accepted(None));
}

#[test]
fn answers_are_classified() {
    assert!(matches!(transport_error(4, true, "slow"), AppError::Timeout(4)));
    match transport_error(4, false, "refused") {
        AppError::InferenceError(m) => assert_eq!(m, "refused"),
        _ => panic!("expected inference error"),
    }
    assert!(check_status(1, true, "200 OK", "{}").is_ok());
    match check_status(2, false, "500 Internal Server Error", "oops") {
        Err(AppError::InferenceError(m)) => {
            assert_eq!(m, "Seite 2: HTTP 500 Internal Server Error - oops")
        }
        _ => panic!("expected inference error"),
    }
    match markdown_from_answer(5, &Err("bad json".to_string())) {
        Err(AppError::Json(m)) => assert_eq!(m, "bad json"),
        _ => panic!("expected json error"),
    }
    match markdown_from_answer(5, &Ok(obj(vec![]))) {
        Err(AppError::InferenceError(m)) => {
            assert_eq!(m, "Seite 5: OCR-Antwort enthaelt kein Markdown/Text-Feld")
        }
        _ => panic!("expected inference error"),
    }
    assert_eq!(
        markdown_from_answer(5, &Ok(obj(vec![("markdown", s("ok"))]))).ok(),
        Some("ok".to_string())
    );
}

#[test]
fn error_messages_match_the_user_texts() {
    assert_eq!(
        AppError::ServerUnreachable("http://x".to_string()).message(),
        "Server nicht erreichbar unter http://x. Laeuft deepseek-ocr.rs im Server-Modus?"
    );
    assert_eq!(AppError::Timeout(17).message(), "Timeout bei Seite 17");
    assert_eq!(AppError::CacheDirUnavailable.message(), "Kein Cache-Verzeichnis verfuegbar");
    assert_eq!(AppError::Io("disk".to_string()).message(), "I/O Fehler: disk");
}

#[test]
fn payloads_are_parsed_then_read() {
    assert_eq!(
        markdown_from_payload(1, r##"{"choices":[{"message":{"content":"# Page"}}]}"##).ok(),
        Some("# Page".to_string())
    );
    assert_eq!(
        markdown_from_payload(1, r#"{"data":{"text":"legacy"}}"#).ok(),
        Some("legacy".to_string())
    );
    match markdown_from_payload(2, "not json") {
        Err(AppError::Json(m)) => assert!(m.contains("expected"), "message {}", m),
        _ => panic!("expected a JSON error"),
    }
    match markdown_from_payload(3, "[1]") {
        Err(AppError::InferenceError(m)) => {
            assert_eq!(m, "Seite 3: OCR-Antwort enthaelt kein Markdown/Text-Feld")
        }
        _ => panic!("expected an inference error"),
    }
}
