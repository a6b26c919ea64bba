use scene_journal::classifier::{extract_json, parse_classification, response_text, ClassifierError};

#[test]
fn response_text_finds_first_text_item() {
    let body = "{\"content\":[{\"type\":\"thinking\",\"thinking\":\"hm\"},{\"type\":\"text\",\"text\":\"a meadow\"},{\"type\":\"text\",\"text\":\"later\"}]}";
    assert_eq!(response_text(body.as_bytes()), Some("a meadow".to_string()));
}

#[test]
fn response_text_fails_on_foreign_shapes() {
    assert_eq!(response_text(b"not json"), None);
    assert_eq!(response_text(b"{\"content\":\"flat\"}"), None);
    assert_eq!(response_text(b"{\"content\":[{\"type\":\"image\"}]}"), None);
    assert_eq!(response_text(b"{}"), None);
}

#[test]
fn extracts_first_to_last_brace() {
    let text = b"noise {\"a\":1} middle {\"b\":2} tail";
    let payload = extract_json(text).unwrap();
    assert_eq!(payload, b"{\"a\":1} middle {\"b\":2}".to_vec());
}

#[test]
fn extracts_bare_object() {
    let payload = extract_json(b"{}").unwrap();
    assert_eq!(payload, b"{}".to_vec());
}

#[test]
fn extraction_fails_without_braces() {
    assert!(extract_json(b"no json here at all").is_none());
    assert!(extract_json(b"").is_none());
}

#[test]
fn extraction_fails_on_reversed_braces() {
    assert!(extract_json(b"} backwards {").is_none());
    assert!(extract_json(b"only open {").is_none());
    assert!(extract_json(b"} only close").is_none());
}

#[test]
fn parses_wrapped_classification() {
    let text = "Sure! Here you go: {\"label\":\"Forest\",\"description\":\"A dense pine forest.\",\"tags\":[\"forest\",\"green\",\"trees\"],\"confidence\":0.92} Hope that helps!";
    let c = parse_classification(text.as_bytes()).unwrap();
    assert_eq!(c.label, "Forest");
    assert_eq!(c.description, "A dense pine forest.");
    assert_eq!(c.tags, vec!["forest".to_string(), "green".to_string(), "trees".to_string()]);
    assert_eq!(c.confidence, Some("0.92".to_string()));
}

#[test]
fn parses_strict_payload_without_confidence() {
    let text = "{\"label\":\"Desert\",\"description\":\"Dry dunes.\",\"tags\":[\"sand\",\"dunes\",\"dry\"]}";
    let c = parse_classification(text.as_bytes()).unwrap();
    assert_eq!(c.label, "Desert");
    assert_eq!(c.confidence, None);
}

#[test]
fn null_confidence_counts_as_absent() {
    let text = "{\"label\":\"Sea\",\"description\":\"Open water.\",\"tags\":[\"sea\"],\"confidence\":null}";
    let c = parse_classification(text.as_bytes()).unwrap();
    assert_eq!(c.confidence, None);
}

#[test]
fn unknown_fields_are_ignored() {
    let text = "{\"label\":\"Bog\",\"description\":\"Wet moss.\",\"tags\":[\"moss\"],\"mood\":\"calm\"}";
    let c = parse_classification(text.as_bytes()).unwrap();
    assert_eq!(c.label, "Bog");
}

#[test]
fn fails_without_any_payload() {
    let r = parse_classification(b"I could not classify this image, sorry.");
    assert_eq!(r.unwrap_err(), ClassifierError::NoPayload);
}

#[test]
fn fails_on_missing_required_fields() {
    let r = parse_classification(b"{\"label\":\"Forest\"}");
    assert_eq!(r.unwrap_err(), ClassifierError::InvalidPayload);
    let r = parse_classification(b"{\"description\":\"x\",\"tags\":[\"a\"]}");
    assert_eq!(r.unwrap_err(), ClassifierError::InvalidPayload);
}

#[test]
fn fails_on_wrongly_typed_fields() {
    let r = parse_classification(b"{\"label\":7,\"description\":\"x\",\"tags\":[\"a\"]}");
    assert_eq!(r.unwrap_err(), ClassifierError::InvalidPayload);
    let r = parse_classification(b"{\"label\":\"x\",\"description\":\"y\",\"tags\":\"not-a-list\"}");
    assert_eq!(r.unwrap_err(), ClassifierError::InvalidPayload);
    let r = parse_classification(
        b"{\"label\":\"x\",\"description\":\"y\",\"tags\":[\"a\"],\"confidence\":\"high\"}",
    );
    assert_eq!(r.unwrap_err(), ClassifierError::InvalidPayload);
}

#[test]
fn fails_on_malformed_candidate() {
    let r = parse_classification(b"prefix { not json } suffix");
    assert_eq!(r.unwrap_err(), ClassifierError::InvalidPayload);
}
