use receipt_annotator::ocr::{
    authorization, build_ocr_request, completions_url, failure_text, reply_text, resolve_ocr_config, JsonValue,
    DEFAULT_OCR_MODEL, DEFAULT_OCR_URL, OCR_PROMPT,
};

fn obj(members: Vec<(&str, JsonValue)>) -> JsonValue {
    JsonValue::Object(members.into_iter().map(|(k, v)| (k.to_string(), v)).collect())
}

fn text(s: &str) -> JsonValue {
    JsonValue::Text(s.to_string())
}

#[test]
fn config_falls_back_to_defaults() {
    let c = resolve_ocr_config(None, None, None);
    assert_eq!(c.url, DEFAULT_OCR_URL);
    assert_eq!(c.model, DEFAULT_OCR_MODEL);
    assert_eq!(c.api_key, "");
    let c = resolve_ocr_config(Some("http://ocr:9/v1".to_string()), Some("m".to_string()), Some("k".to_string()));
    assert_eq!((c.url.as_str(), c.model.as_str(), c.api_key.as_str()), ("http://ocr:9/v1", "m", "k"));
}

#[test]
fn endpoint_drops_trailing_slashes() {
    assert_eq!(completions_url("http://x/v1"), "http://x/v1/chat/completions");
    assert_eq!(completions_url("http://x/v1//"), "http://x/v1/chat/completions");
    assert_eq!(completions_url(""), "/chat/completions");
}

#[test]
fn bearer_header_only_with_a_key() {
    assert_eq!(authorization(""), None);
    assert_eq!(authorization("abc"), Some("Bearer abc".to_string()));
}

#[test]
fn request_carries_the_image_as_base64() {
    let c = resolve_ocr_config(Some("http://h/v1/".to_string()), None, Some("key".to_string()));
    let r = build_ocr_request(&c, "data/uploads/x.PNG", b"hi");
    assert_eq!(r.url, "http://h/v1/chat/completions");
    assert_eq!(r.image_url, "data:image/png;base64,aGk=");
    assert_eq!(r.prompt, OCR_PROMPT);
    assert_eq!(r.max_tokens, 50);
    assert_eq!(r.timeout_secs, 120);
    assert_eq!(r.authorization.as_deref(), Some("Bearer key"));
    let r = build_ocr_request(&c, "y.jpg", b"");
    assert_eq!(r.image_url, "data:image/jpeg;base64,");
    let r = build_ocr_request(&c, "y.webp", &[0xff, 0xfe, 0x00, 0x01]);
    assert_eq!(r.image_url, "data:image/webp;base64,//4AAQ==");
}

#[test]
fn reply_content_is_read_from_the_first_choice() {
    let reply = obj(vec![(
        "choices",
        JsonValue::Array(vec![obj(vec![("message", obj(vec![("role", text("assistant")), ("content", text("12-03-2024"))]))])]),
    )]);
    assert_eq!(reply_text(&reply), "12-03-2024");
}

#[test]
fn malformed_replies_give_error_texts() {
    let missing = "ERROR: no choices in response";
    assert_eq!(reply_text(&obj(vec![])), missing);
    assert_eq!(reply_text(&JsonValue::Null), missing);
    assert_eq!(reply_text(&obj(vec![("choices", JsonValue::Array(vec![]))])), missing);
    assert_eq!(reply_text(&obj(vec![("choices", text("x"))])), missing);
    assert_eq!(reply_text(&obj(vec![("choices", JsonValue::Array(vec![obj(vec![])]))])), missing);
    assert_eq!(
        reply_text(&obj(vec![("choices", JsonValue::Array(vec![obj(vec![("message", obj(vec![]))])]))])),
        missing
    );
    assert_eq!(
        reply_text(&obj(vec![(
            "choices",
            JsonValue::Array(vec![obj(vec![("message", obj(vec![("content", JsonValue::Null)]))])])
        )])),
        "ERROR: empty content"
    );
    assert_eq!(failure_text("timed out"), "ERROR: timed out");
}

#[test]
fn image_base64_covers_every_padding_case() {
    let c = resolve_ocr_config(None, None, None);
    assert_eq!(build_ocr_request(&c, "a.jpg", b"hello").image_url, "data:image/jpeg;base64,aGVsbG8=");
    assert_eq!(build_ocr_request(&c, "a.jpg", b"hell").image_url, "data:image/jpeg;base64,aGVsbA==");
    assert_eq!(build_ocr_request(&c, "a.jpg", b"hel").image_url, "data:image/jpeg;base64,aGVs");
    assert_eq!(build_ocr_request(&c, "a.jpg", &[0xfb, 0xef, 0xbe]).image_url, "data:image/jpeg;base64,++++");
}
