use cardgen::boundary::FileMessage;
use cardgen::boundary::GenerateFlashcardsRequest;
use cardgen::boundary::build_style_examples;
use cardgen::boundary::gather_style_examples;
use cardgen::boundary::payload_from_request;
use cardgen::boundary::resolve_api_key_override;
use cardgen::boundary::resolve_provider_with_config;
use cardgen::boundary::split_note_fields;
use cardgen::config::AiGenerationConfig;
use cardgen::config::ProviderApiKey;
use cardgen::controller::AiGenerationController;
use cardgen::input::InputProcessor;
use cardgen::input::PrepareStep;
use cardgen::input::filename_from_url;
use cardgen::input::prepare_extracted;
use cardgen::input::prepare_fetched;
use cardgen::input::html_to_text;
use cardgen::input::normalize_whitespace;
use cardgen::prompt::build_flashcard_prompt;
use cardgen::providers::AiProvider;
use cardgen::providers::interpret_models_response;
use cardgen::providers::models_request;
use cardgen::providers::provider_factory;
use cardgen::providers::require_api_key;
use cardgen::types::FilePayload;
use cardgen::types::GeneratedField;
use cardgen::types::GenerationConstraints;
use cardgen::types::GenerationRequest;
use cardgen::types::InputPayload;
use cardgen::types::ProviderKind;
use cardgen::types::StyleExample;

fn base_request(input: InputPayload) -> GenerationRequest {
    GenerationRequest::new(
        ProviderKind::OpenAi,
        input,
        GenerationConstraints::default(),
        Some("test-key".to_string()),
        None,
        Vec::new(),
    )
}

fn chars(s: &str) -> Vec<char> {
    s.chars().collect()
}

#[test]
fn text_input_never_fails_and_never_comes_back_empty() {
    let request = base_request(InputPayload::Text("  Hello\n\n\nworld  ".to_string()));
    match InputProcessor::prepare(&request).unwrap() {
        PrepareStep::Ready(p) => {
            assert_eq!(p.text, "Hello\n\nworld");
            assert!(p.source_url.is_none());
            assert!(p.file.is_none());
        }
        _ => panic!("text input should be ready"),
    }
}

#[test]
fn blank_text_input_is_rejected() {
    let request = base_request(InputPayload::Text("   \n  ".to_string()));
    let err = InputProcessor::prepare(&request).unwrap_err();
    assert_eq!(err.message(), "input did not contain any readable content");
}

#[test]
fn url_input_asks_for_a_fetch() {
    let request = base_request(InputPayload::Url("https://example.com/doc".to_string()));
    match InputProcessor::prepare(&request).unwrap() {
        PrepareStep::FetchUrl(u) => assert_eq!(u, "https://example.com/doc"),
        _ => panic!("url input needs a fetch"),
    }
}

#[test]
fn plain_text_file_is_decoded() {
    let file = FilePayload::new(
        "notes.txt".to_string(),
        b"alpha beta".to_vec(),
        None,
    );
    let request = base_request(InputPayload::File(file));
    match InputProcessor::prepare(&request).unwrap() {
        PrepareStep::Ready(p) => {
            assert_eq!(p.text, "alpha beta");
            assert!(p.file.is_some());
        }
        _ => panic!("file input should be ready"),
    }
}

#[test]
fn html_file_is_stripped_to_visible_text() {
    let file = FilePayload::new(
        "page.html".to_string(),
        b"<html><body><p>Hello <b>world</b></p></body></html>".to_vec(),
        None,
    );
    let request = base_request(InputPayload::File(file));
    match InputProcessor::prepare(&request).unwrap() {
        PrepareStep::Ready(p) => assert_eq!(p.text, "Hello world"),
        _ => panic!("file input should be ready"),
    }
}

#[test]
fn pdf_file_becomes_an_extraction_step() {
    let file = FilePayload::new(
        "paper.pdf".to_string(),
        b"%PDF-1.4 such bytes".to_vec(),
        None,
    );
    let request = base_request(InputPayload::File(file));
    match InputProcessor::prepare(&request).unwrap() {
        PrepareStep::ExtractPdf { source_url, file } => {
            assert!(source_url.is_none());
            assert_eq!(file.filename, "paper.pdf");
            assert_eq!(file.data, b"%PDF-1.4 such bytes".to_vec());
        }
        _ => panic!("pdf files need extraction"),
    }
}

#[test]
fn unreadable_pdf_is_rejected() {
    let file = FilePayload::new(
        "broken.pdf".to_string(),
        b"not a real pdf".to_vec(),
        None,
    );
    let err = prepare_extracted(None, file, None).unwrap_err();
    assert_eq!(err.message(), "unable to read PDF input");
}

#[test]
fn extracted_pdf_text_is_normalized_and_payload_kept() {
    let file = FilePayload::new(
        "paper.pdf".to_string(),
        b"%PDF".to_vec(),
        Some("application/pdf".to_string()),
    );
    let processed = prepare_extracted(
        Some("https://example.com/paper.pdf".to_string()),
        file,
        Some("  First line 


 Second line ".to_string()),
    )
    .unwrap();
    assert_eq!(processed.text, "First line

Second line");
    assert_eq!(
        processed.source_url.as_deref(),
        Some("https://example.com/paper.pdf")
    );
    assert_eq!(processed.file.unwrap().filename, "paper.pdf");
}

#[test]
fn html_to_text_joins_fragments_with_spaces() {
    let text = html_to_text("<div>  one  <span>two</span>\n<p>three</p></div>");
    assert_eq!(text, "one two three");
}

#[test]
fn normalize_whitespace_collapses_blank_runs() {
    let out = normalize_whitespace(&chars("  a  \n\n\n\n  b  \nc\n\n"));
    let s: String = out.iter().collect();
    assert_eq!(s, "a\n\nb\nc");
}

#[test]
fn filename_comes_from_last_url_segment() {
    assert_eq!(
        filename_from_url("https://example.com/papers/intro.pdf").as_deref(),
        Some("intro.pdf")
    );
    assert!(filename_from_url("not a url").is_none());
}

#[test]
fn prompt_carries_count_override_and_source() {
    let input = cardgen::input::ProcessedInput {
        text: "Body text".to_string(),
        source_url: Some("https://example.com/a".to_string()),
        file: None,
    };
    let mut constraints = GenerationConstraints::default();
    constraints.max_cards = Some(7);
    constraints.prompt_override = Some("Keep it simple".to_string());
    let prompt = build_flashcard_prompt(&input, &constraints, &Vec::new());
    assert!(prompt.contains("between 3 and 7"));
    assert!(prompt.contains("Additional instructions:\nKeep it simple"));
    assert!(prompt.contains("Source URL: https://example.com/a"));
    assert!(prompt.contains("Body text"));
    assert!(!prompt.contains("Match the tone"));
}

#[test]
fn prompt_serializes_style_examples() {
    let input = cardgen::input::ProcessedInput {
        text: "Body".to_string(),
        source_url: None,
        file: None,
    };
    let examples = vec![StyleExample {
        fields: vec![GeneratedField::new("Front", "What is ice?")],
    }];
    let prompt = build_flashcard_prompt(&input, &GenerationConstraints::default(), &examples);
    assert!(prompt.contains("Match the tone and structure of these existing cards:"));
    assert!(prompt.contains("What is ice?"));
    assert!(prompt.contains("between 3 and 10"));
}

#[test]
fn factory_rejects_custom_provider_and_missing_keys() {
    let err = provider_factory(
        &ProviderKind::Custom("acme".to_string()),
        Some("k".to_string()),
        None,
    )
    .unwrap_err();
    assert_eq!(
        err.message(),
        "unsupported provider: acme. Please choose Gemini, OpenRouter, OpenAI, or Perplexity"
    );

    let err = provider_factory(&ProviderKind::Gemini, None, None).unwrap_err();
    assert_eq!(err.message(), "Gemini API key is required");

    let err = require_api_key("OpenAI", Some("   ".to_string())).unwrap_err();
    assert_eq!(err.message(), "OpenAI API key is required");
}

#[test]
fn gemini_request_carries_model_and_escaped_prompt() {
    let adapter = provider_factory(
        &ProviderKind::Gemini,
        Some(" g-key ".to_string()),
        Some("gemini-pro".to_string()),
    )
    .unwrap();
    let request = base_request(InputPayload::Text("say \"hi\"".to_string()));
    let input = cardgen::input::ProcessedInput {
        text: "say \"hi\"".to_string(),
        source_url: None,
        file: None,
    };
    let call = adapter.build_generate_request(&request, &input);
    assert_eq!(
        call.url,
        "https://generativelanguage.googleapis.com/v1beta/models/gemini-pro:generateContent"
    );
    assert!(call.post);
    assert_eq!(call.query, Some(("key".to_string(), "g-key".to_string())));
    let body = call.body.unwrap();
    assert!(body.contains("say \\\"hi\\\""));
    assert!(body.contains("\"responseMimeType\":\"application/json\""));
}

#[test]
fn chat_request_uses_bearer_and_default_model() {
    let adapter = provider_factory(
        &ProviderKind::OpenAi,
        Some("o-key".to_string()),
        None,
    )
    .unwrap();
    let request = base_request(InputPayload::Text("content".to_string()));
    let input = cardgen::input::ProcessedInput {
        text: "content".to_string(),
        source_url: None,
        file: None,
    };
    let call = adapter.build_generate_request(&request, &input);
    assert_eq!(call.url, "https://api.openai.com/v1/chat/completions");
    assert_eq!(call.bearer_token.as_deref(), Some("o-key"));
    let body = call.body.unwrap();
    assert!(body.starts_with("{\"model\":\"gpt-4o-mini\""));
    assert!(body.contains("\"max_tokens\":2048,\"temperature\":0.3}"));
}

#[test]
fn chat_response_yields_first_nonblank_content_and_tokens() {
    let adapter = provider_factory(
        &ProviderKind::OpenAi,
        Some("o-key".to_string()),
        None,
    )
    .unwrap();
    let request = base_request(InputPayload::Text("content".to_string()));
    let body = r#"{
        "choices": [
            {"message": {"content": "   "}},
            {"message": {"content": "[{\"front\":\"Q\",\"back\":\"A\"}]"}}
        ],
        "usage": {"total_tokens": 321}
    }"#;
    let response = adapter
        .interpret_generate_response(&request, 200, body)
        .unwrap();
    assert_eq!(response.raw_output, "[{\"front\":\"Q\",\"back\":\"A\"}]");
    assert_eq!(response.model.as_deref(), Some("gpt-4o-mini"));
    assert_eq!(response.tokens_used, Some(321));
}

#[test]
fn provider_error_envelope_is_upstream() {
    let adapter = provider_factory(
        &ProviderKind::OpenAi,
        Some("o-key".to_string()),
        None,
    )
    .unwrap();
    let request = base_request(InputPayload::Text("content".to_string()));
    let body = r#"{"error": {"message": "quota exceeded"}}"#;
    let err = adapter
        .interpret_generate_response(&request, 200, body)
        .unwrap_err();
    assert!(err.is_upstream());
    assert_eq!(err.message(), "OpenAI API error: quota exceeded");
}

#[test]
fn http_failure_status_is_upstream() {
    let adapter = provider_factory(
        &ProviderKind::Gemini,
        Some("g-key".to_string()),
        None,
    )
    .unwrap();
    let request = base_request(InputPayload::Text("content".to_string()));
    let err = adapter
        .interpret_generate_response(&request, 503, "irrelevant")
        .unwrap_err();
    assert!(err.is_upstream());
    assert_eq!(err.message(), "Gemini request failed with HTTP status 503");
}

#[test]
fn gemini_response_reads_candidate_parts() {
    let adapter = provider_factory(
        &ProviderKind::Gemini,
        Some("g-key".to_string()),
        Some("gemini-pro".to_string()),
    )
    .unwrap();
    let request = base_request(InputPayload::Text("content".to_string()));
    let body = r#"{"candidates": [{"content": {"parts": [{"text": "cards here"}]}}]}"#;
    let response = adapter
        .interpret_generate_response(&request, 200, body)
        .unwrap();
    assert_eq!(response.raw_output, "cards here");
    assert_eq!(response.tokens_used, None);
}

#[test]
fn model_listing_sorts_and_deduplicates() {
    let body = r#"{"data": [{"id": "zeta"}, {"id": "alpha"}, {"id": "zeta"}, {"id": "  "}]}"#;
    let models = interpret_models_response(&ProviderKind::OpenAi, 200, body).unwrap();
    assert_eq!(models, vec!["alpha".to_string(), "zeta".to_string()]);
}

#[test]
fn gemini_model_names_lose_their_prefix() {
    let body = r#"{"models": [{"name": "models/gemini-pro"}, {"name": "models/aqa"}]}"#;
    let models = interpret_models_response(&ProviderKind::Gemini, 200, body).unwrap();
    assert_eq!(models, vec!["aqa".to_string(), "gemini-pro".to_string()]);
}

#[test]
fn perplexity_models_accept_bare_strings() {
    let body = r#"{"models": ["sonar", {"id": "sonar-pro"}, 7]}"#;
    let models = interpret_models_response(&ProviderKind::Perplexity, 200, body).unwrap();
    assert_eq!(models, vec!["sonar".to_string(), "sonar-pro".to_string()]);
    let err = interpret_models_response(&ProviderKind::Perplexity, 200, r#"{"other": 1}"#)
        .unwrap_err();
    assert_eq!(
        err.message(),
        "Perplexity models response did not include a data array"
    );
}

#[test]
fn models_request_shapes_follow_the_provider() {
    let call = models_request(&ProviderKind::Gemini, Some("g".to_string())).unwrap();
    assert_eq!(
        call.url,
        "https://generativelanguage.googleapis.com/v1beta/models"
    );
    assert!(!call.post);
    assert_eq!(call.query, Some(("key".to_string(), "g".to_string())));

    let call = models_request(&ProviderKind::OpenRouter, Some("r".to_string())).unwrap();
    assert_eq!(call.url, "https://openrouter.ai/api/v1/models");
    assert_eq!(call.bearer_token.as_deref(), Some("r"));

    let err = models_request(&ProviderKind::Custom("acme".to_string()), None).unwrap_err();
    assert_eq!(
        err.message(),
        "model discovery is not supported for provider: acme"
    );
}

#[test]
fn config_defaults_fill_key_model_and_count() {
    let mut config = AiGenerationConfig::default();
    config.api_keys = vec![ProviderApiKey::new(
        ProviderKind::OpenAi,
        Some("stored-key".to_string()),
    )];
    config.preferred_model = Some("preferred".to_string());
    config.default_max_cards = Some(4);
    let request = GenerationRequest::new(
        ProviderKind::OpenAi,
        InputPayload::Text("t".to_string()),
        GenerationConstraints::default(),
        None,
        None,
        Vec::new(),
    );
    let filled = AiGenerationController::apply_config_defaults(request, &config);
    assert_eq!(filled.api_key.as_deref(), Some("stored-key"));
    assert_eq!(filled.model.as_deref(), Some("preferred"));
    assert_eq!(filled.constraints.max_cards, Some(4));
}

#[test]
fn truncation_keeps_the_first_notes_in_order() {
    let raw = r#"[
        {"front": "1", "back": "a"},
        {"front": "2", "back": "b"},
        {"front": "3", "back": "c"},
        {"front": "4", "back": "d"},
        {"front": "5", "back": "e"}
    ]"#;
    let mut constraints = GenerationConstraints::default();
    constraints.max_cards = Some(2);
    let config = AiGenerationConfig::default();
    let outcome =
        AiGenerationController::complete_generation(&config, &constraints, raw.to_string())
            .unwrap();
    assert_eq!(outcome.notes.len(), 2);
    assert_eq!(outcome.notes[0].fields[0].value, "1");
    assert_eq!(outcome.notes[1].fields[0].value, "2");
    assert_eq!(outcome.raw_response, raw);
}

#[test]
fn constraints_backfill_ids_and_clear_blank_sources() {
    let raw = r#"[{"front": "Q", "back": "A", "source_url": "   "}]"#;
    let mut constraints = GenerationConstraints::default();
    constraints.note_type_id = Some(cardgen::types::NotetypeId(7));
    constraints.deck_id = Some(cardgen::types::DeckId(9));
    let config = AiGenerationConfig::default();
    let outcome =
        AiGenerationController::complete_generation(&config, &constraints, raw.to_string())
            .unwrap();
    let note = &outcome.notes[0];
    assert_eq!(note.note_type_id, Some(cardgen::types::NotetypeId(7)));
    assert_eq!(note.deck_id, Some(cardgen::types::DeckId(9)));
    assert!(note.source.is_none());
}

#[test]
fn boundary_constraints_treat_zero_as_absent() {
    let req = GenerateFlashcardsRequest {
        provider: 0,
        input_type: 1,
        text: "hello".to_string(),
        url: String::new(),
        file: None,
        max_cards: 0,
        note_type_id: 0,
        use_default_note_type: true,
        deck_id: 11,
        prompt_override: "  ".to_string(),
        model_override: "m1".to_string(),
    };
    let constraints = AiGenerationController::build_constraints(&req);
    assert!(constraints.max_cards.is_none());
    assert!(constraints.note_type_id.is_none());
    assert!(constraints.use_default_note_type);
    assert_eq!(constraints.deck_id, Some(cardgen::types::DeckId(11)));
    assert!(constraints.prompt_override.is_none());
    assert_eq!(constraints.model_override.as_deref(), Some("m1"));
}

#[test]
fn payload_variants_check_their_content() {
    let mut req = GenerateFlashcardsRequest {
        provider: 0,
        input_type: 1,
        text: "  some text  ".to_string(),
        url: String::new(),
        file: None,
        max_cards: 0,
        note_type_id: 0,
        use_default_note_type: false,
        deck_id: 0,
        prompt_override: String::new(),
        model_override: String::new(),
    };
    match payload_from_request(&req).unwrap() {
        InputPayload::Text(t) => assert_eq!(t, "some text"),
        _ => panic!("expected text payload"),
    }

    req.input_type = 2;
    let err = payload_from_request(&req).unwrap_err();
    assert_eq!(err.message(), "no URL provided for generation");

    req.input_type = 3;
    let err = payload_from_request(&req).unwrap_err();
    assert_eq!(err.message(), "missing file payload");

    req.file = Some(FileMessage {
        filename: String::new(),
        data: b"bytes".to_vec(),
        mimetype: " ".to_string(),
    });
    match payload_from_request(&req).unwrap() {
        InputPayload::File(f) => {
            assert_eq!(f.filename, "upload");
            assert_eq!(f.data, b"bytes".to_vec());
            assert!(f.mimetype.is_none());
        }
        _ => panic!("expected file payload"),
    }

    req.input_type = 0;
    let err = payload_from_request(&req).unwrap_err();
    assert_eq!(err.message(), "no input provided for flashcard generation");
}

#[test]
fn provider_resolution_prefers_explicit_codes() {
    let mut config = AiGenerationConfig::default();
    config.selected_provider = Some(ProviderKind::Perplexity);
    assert_eq!(resolve_provider_with_config(2, &config).as_str(), "openrouter");
    assert_eq!(resolve_provider_with_config(0, &config).as_str(), "perplexity");
    assert_eq!(resolve_provider_with_config(4, &config).as_str(), "openai");
}

#[test]
fn api_key_override_beats_stored_key() {
    let mut config = AiGenerationConfig::default();
    config.api_keys = vec![ProviderApiKey::new(
        ProviderKind::Gemini,
        Some("stored".to_string()),
    )];
    assert_eq!(
        resolve_api_key_override(" fresh ", &config, &ProviderKind::Gemini).as_deref(),
        Some("fresh")
    );
    assert_eq!(
        resolve_api_key_override("  ", &config, &ProviderKind::Gemini).as_deref(),
        Some("stored")
    );
}

#[test]
fn note_field_records_split_on_the_unit_separator() {
    let parts = split_note_fields("front\u{1f}back\u{1f}extra");
    assert_eq!(
        parts,
        vec!["front".to_string(), "back".to_string(), "extra".to_string()]
    );
}

#[test]
fn style_examples_are_capped_and_need_a_note_type() {
    let names = vec!["Front".to_string()];
    let records: Vec<String> = (0..8).map(|i| format!("value {i}")).collect();
    let capped = gather_style_examples(
        &Some(cardgen::types::NotetypeId(1)),
        &names,
        &records,
    );
    assert_eq!(capped.len(), 5);
    assert_eq!(capped[0].fields[0].value, "value 0");
    assert_eq!(capped[4].fields[0].value, "value 4");

    let none = gather_style_examples(&None, &names, &records);
    assert!(none.is_empty());
    let no_names = gather_style_examples(
        &Some(cardgen::types::NotetypeId(1)),
        &Vec::new(),
        &records,
    );
    assert!(no_names.is_empty());
}

#[test]
fn style_examples_pair_names_with_nonblank_values() {
    let names = vec!["Front".to_string(), "Back".to_string()];
    let records = vec![
        "Q1\u{1f}  A1  ".to_string(),
        "  \u{1f}   ".to_string(),
        "Q3".to_string(),
    ];
    let examples = build_style_examples(&names, &records);
    assert_eq!(examples.len(), 2);
    assert_eq!(examples[0].fields.len(), 2);
    assert_eq!(examples[0].fields[1].name, "Back");
    assert_eq!(examples[0].fields[1].value, "A1");
    assert_eq!(examples[1].fields.len(), 1);
    assert_eq!(examples[1].fields[0].value, "Q3");
}

#[test]
fn provider_names_round_trip() {
    assert_eq!(ProviderKind::from_str("gemini").as_str(), "gemini");
    assert_eq!(ProviderKind::from_str("openai").as_str(), "openai");
    match ProviderKind::from_str("acme") {
        ProviderKind::Custom(name) => assert_eq!(name, "acme"),
        _ => panic!("unknown names become custom"),
    }
}

#[test]
fn nonpositive_card_count_falls_back_to_ten() {
    let input = cardgen::input::ProcessedInput {
        text: "Body".to_string(),
        source_url: None,
        file: None,
    };
    let mut constraints = GenerationConstraints::default();
    constraints.max_cards = Some(0);
    let prompt = build_flashcard_prompt(&input, &constraints, &Vec::new());
    assert!(prompt.contains("between 3 and 10"));
}

#[test]
fn fetched_html_body_is_prepared_like_a_file() {
    let body = b"<html><body><h1>Title</h1><p>Par one.</p></body></html>".to_vec();
    let step = prepare_fetched(
        "https://example.com/page",
        200,
        Some("text/html; charset=utf-8"),
        body,
    )
    .unwrap();
    match step {
        PrepareStep::Ready(processed) => {
            assert_eq!(processed.text, "Title Par one.");
            assert_eq!(
                processed.source_url.as_deref(),
                Some("https://example.com/page")
            );
            assert!(processed.file.is_none());
        }
        _ => panic!("html bodies are ready at once"),
    }
}

#[test]
fn fetched_plain_body_keeps_its_text() {
    let step = prepare_fetched(
        "https://example.com/notes",
        200,
        Some("text/plain"),
        b"  line one \n\n line two ".to_vec(),
    )
    .unwrap();
    match step {
        PrepareStep::Ready(processed) => assert_eq!(processed.text, "line one\n\nline two"),
        _ => panic!("plain bodies are ready at once"),
    }
}

#[test]
fn fetched_failure_status_is_upstream() {
    let err = prepare_fetched("https://example.com/doc", 404, None, Vec::new()).unwrap_err();
    assert!(err.is_upstream());
    assert_eq!(err.message(), "fetching the URL failed with HTTP status 404");
}

#[test]
fn fetched_pdf_body_becomes_an_extraction_step() {
    let step = prepare_fetched(
        "https://example.com/papers/intro.pdf",
        200,
        Some("application/pdf"),
        b"%PDF bytes".to_vec(),
    )
    .unwrap();
    match step {
        PrepareStep::ExtractPdf { source_url, file } => {
            assert_eq!(
                source_url.as_deref(),
                Some("https://example.com/papers/intro.pdf")
            );
            assert_eq!(file.filename, "intro.pdf");
            assert_eq!(file.mimetype.as_deref(), Some("application/pdf"));
            assert_eq!(file.data, b"%PDF bytes".to_vec());
        }
        _ => panic!("pdf bodies need extraction"),
    }
}

#[test]
fn oversized_token_counts_are_dropped() {
    let adapter = provider_factory(
        &ProviderKind::OpenAi,
        Some("o-key".to_string()),
        None,
    )
    .unwrap();
    let request = base_request(InputPayload::Text("content".to_string()));
    let body = r#"{
        "choices": [{"message": {"content": "text"}}],
        "usage": {"total_tokens": 99999999999999999999999999}
    }"#;
    let response = adapter
        .interpret_generate_response(&request, 200, body)
        .unwrap();
    assert_eq!(response.tokens_used, None);
}

#[test]
fn missing_content_is_an_invalid_input_error() {
    let adapter = provider_factory(
        &ProviderKind::OpenAi,
        Some("o-key".to_string()),
        None,
    )
    .unwrap();
    let request = base_request(InputPayload::Text("content".to_string()));
    let err = adapter
        .interpret_generate_response(&request, 200, r#"{"choices": []}"#)
        .unwrap_err();
    assert!(err.is_invalid_input());
    assert_eq!(err.message(), "OpenAI did not return any content");
}

#[test]
fn perplexity_body_uses_its_own_token_budget() {
    let adapter = provider_factory(
        &ProviderKind::Perplexity,
        Some("p-key".to_string()),
        None,
    )
    .unwrap();
    let request = base_request(InputPayload::Text("content".to_string()));
    let input = cardgen::input::ProcessedInput {
        text: "content".to_string(),
        source_url: None,
        file: None,
    };
    let call = adapter.build_generate_request(&request, &input);
    let body = call.body.unwrap();
    assert!(body.contains("\"max_tokens\":1800,"));

    let adapter = provider_factory(
        &ProviderKind::OpenRouter,
        Some("r-key".to_string()),
        None,
    )
    .unwrap();
    let call = adapter.build_generate_request(&request, &input);
    assert!(call.body.unwrap().contains("\"max_tokens\":2048,"));
}

#[test]
fn non_object_models_body_is_rejected() {
    let err = interpret_models_response(&ProviderKind::OpenAi, 200, "[1, 2]").unwrap_err();
    assert_eq!(err.message(), "OpenAI models response was not valid JSON");
    let err = interpret_models_response(&ProviderKind::Gemini, 200, "3").unwrap_err();
    assert_eq!(err.message(), "Gemini models response was not valid JSON");
}
