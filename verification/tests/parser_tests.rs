use cardgen::parser::parse_raw_output;

#[test]
fn parses_simple_json_array() {
    let raw = r#"[
        {"front": "What is 2+2?", "back": "4", "source_url": "https://example.com"},
        {"question": "Capital of France", "answer": "Paris", "source_excerpt": "European capitals"}
    ]"#;

    let notes = parse_raw_output(raw).unwrap();
    assert_eq!(notes.len(), 2);
    assert_eq!(notes[0].fields[0].name, "front");
    assert_eq!(notes[0].fields[1].name, "back");
    assert_eq!(
        notes[0].source.as_ref().unwrap().url.as_deref(),
        Some("https://example.com")
    );
    assert_eq!(notes[1].fields[0].value, "Capital of France");
    assert!(notes[1]
        .source
        .as_ref()
        .unwrap()
        .excerpt
        .as_ref()
        .unwrap()
        .contains("European capitals"));
}

#[test]
fn parses_code_fenced_output() {
    let raw = "\n```json\n[\n  {\"front\": \"Q1\", \"back\": \"A1\"}\n]\n```\n";

    let notes = parse_raw_output(raw).unwrap();
    assert_eq!(notes.len(), 1);
    assert_eq!(notes[0].fields[0].value, "Q1");
}

#[test]
fn skips_invalid_cards() {
    let raw = r#"[
        {"front": "Valid", "back": "Answer"},
        {"front": "", "back": ""}
    ]"#;

    let notes = parse_raw_output(raw).unwrap();
    assert_eq!(notes.len(), 1);
    assert_eq!(notes[0].fields.len(), 2);
}

#[test]
fn parses_source_object() {
    let raw = r#"{
        "cards": [
            {
                "front": "Fact",
                "back": "Detail",
                "source": {
                    "title": "Article",
                    "url": "https://example.org",
                    "excerpt": "Relevant snippet"
                }
            }
        ]
    }"#;

    let notes = parse_raw_output(raw).unwrap();
    assert_eq!(notes.len(), 1);
    let source = notes[0].source.as_ref().unwrap();
    assert_eq!(source.url.as_deref(), Some("https://example.org"));
    assert_eq!(source.title.as_deref(), Some("Article"));
    assert_eq!(source.excerpt.as_deref(), Some("Relevant snippet"));
}

#[test]
fn cards_and_flashcards_wrappers_parse_alike() {
    let bare = r#"[{"front": "Q", "back": "A"}]"#;
    let cards = r#"{"cards": [{"front": "Q", "back": "A"}]}"#;
    let flashcards = r#"{"flashcards": [{"front": "Q", "back": "A"}]}"#;

    let a = parse_raw_output(bare).unwrap();
    let b = parse_raw_output(cards).unwrap();
    let c = parse_raw_output(flashcards).unwrap();
    assert_eq!(a, b);
    assert_eq!(a, c);
}

#[test]
fn all_invalid_cards_fail_the_call() {
    let raw = r#"[{"front": "", "back": ""}, 17, null]"#;
    let err = parse_raw_output(raw).unwrap_err();
    assert!(err.is_invalid_input());
    assert_eq!(err.message(), "AI response did not contain any flashcards");
}

#[test]
fn empty_response_is_rejected() {
    let err = parse_raw_output("   \n\t ").unwrap_err();
    assert!(err.is_invalid_input());
    assert_eq!(err.message(), "AI response was empty");
}

#[test]
fn field_names_deduplicate_case_insensitively() {
    let raw = r#"[{"Front": "a", "front": "b", "back": "c"}]"#;
    let notes = parse_raw_output(raw).unwrap();
    assert_eq!(notes.len(), 1);
    assert_eq!(notes[0].fields.len(), 2);
    assert_eq!(notes[0].fields[0].name, "Front");
    assert_eq!(notes[0].fields[0].value, "a");
    assert_eq!(notes[0].fields[1].value, "c");
}

#[test]
fn string_card_splits_on_separator() {
    let raw = r#"["Capital of France :: Paris"]"#;
    let notes = parse_raw_output(raw).unwrap();
    assert_eq!(notes.len(), 1);
    assert_eq!(notes[0].fields[0].name, "Front");
    assert_eq!(notes[0].fields[0].value, "Capital of France");
    assert_eq!(notes[0].fields[1].name, "Back");
    assert_eq!(notes[0].fields[1].value, "Paris");
}

#[test]
fn bracket_scan_recovers_array_from_prose() {
    let raw = "Here are your cards: [{\"front\": \"Q\", \"back\": \"A\"}] enjoy!";
    let notes = parse_raw_output(raw).unwrap();
    assert_eq!(notes.len(), 1);
    assert_eq!(notes[0].fields[0].value, "Q");
}

#[test]
fn extra_fields_keep_original_names_after_front_and_back() {
    let raw = r#"[{"front": "Q", "back": "A", "Hint": "think", "empty": "   "}]"#;
    let notes = parse_raw_output(raw).unwrap();
    assert_eq!(notes[0].fields.len(), 3);
    assert_eq!(notes[0].fields[2].name, "Hint");
    assert_eq!(notes[0].fields[2].value, "think");
}

#[test]
fn nested_fields_object_contributes_extras() {
    let raw = r#"[{"front": "Q", "back": "A", "fields": {"Context": "chapter two"}}]"#;
    let notes = parse_raw_output(raw).unwrap();
    assert_eq!(notes[0].fields.len(), 3);
    assert_eq!(notes[0].fields[2].name, "Context");
    assert_eq!(notes[0].fields[2].value, "chapter two");
}

#[test]
fn alias_keys_populate_front_and_back() {
    let raw = r#"[{"q": "Short?", "a": "Yes"}]"#;
    let notes = parse_raw_output(raw).unwrap();
    assert_eq!(notes.len(), 1);
    assert_eq!(notes[0].fields[0].name, "q");
    assert_eq!(notes[0].fields[0].value, "Short?");
    assert_eq!(notes[0].fields[1].name, "a");
}

#[test]
fn source_string_with_embedded_url_splits() {
    let raw = r#"[{"front": "Q", "back": "A", "source": "see https://example.net/page."}]"#;
    let notes = parse_raw_output(raw).unwrap();
    let source = notes[0].source.as_ref().unwrap();
    assert_eq!(source.url.as_deref(), Some("https://example.net/page"));
    assert_eq!(source.excerpt.as_deref(), Some("see"));
}

#[test]
fn numeric_and_boolean_values_become_literal_text() {
    let raw = r#"[{"front": 42, "back": true}]"#;
    let notes = parse_raw_output(raw).unwrap();
    assert_eq!(notes[0].fields[0].value, "42");
    assert_eq!(notes[0].fields[1].value, "true");
}

#[test]
fn container_values_keep_compact_json_text() {
    let raw = r#"[{"front": "Q", "back": [1, 2]}]"#;
    let notes = parse_raw_output(raw).unwrap();
    assert_eq!(notes[0].fields[1].value, "[1,2]");
}
