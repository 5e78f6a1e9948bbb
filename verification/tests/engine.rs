//! The chat engine's behavior on concrete conversations: chunking,
//! model resolution, the retry schedule, and the streaming fold.

use sazid::chunker::Chunkifier;
use sazid::errors::GPTConnectorError;
use sazid::errors::TransportClass;
use sazid::resolver::select_model;
use sazid::session::Session;
use sazid::session::SessionConfig;
use sazid::transaction::ChatTransaction;
use sazid::transaction::ChoiceDelta;
use sazid::transaction::StreamFragment;
use sazid::transaction::StreamState;
use sazid::transaction::StreamedResponse;
use sazid::transport::classify_status;
use sazid::transport::simulate_transient_failures;
use sazid::transport::BackoffPolicy;
use sazid::types::format_chat_message;
use sazid::types::Commands;
use sazid::types::GPTSettings;
use sazid::types::Model;
use sazid::types::Role;

fn token_count(s: &str) -> usize {
    (s.chars().count() + 3) / 4
}

#[test]
fn chunker_reconstructs_input() {
    let text = String::from("line one\nline two\nline three\nline four");
    let (chunks, warnings) = Chunkifier::chunkify_input(&text, 4);
    assert!(warnings.is_empty());
    assert!(chunks.len() > 1);
    for chunk in &chunks {
        assert!(token_count(chunk) <= 4);
    }
    assert_eq!(chunks.join("\n"), text);
}

#[test]
fn chunker_emits_oversized_line_whole() {
    let text = String::from("short\nthis single line is far too long for the budget\nshort");
    let (chunks, warnings) = Chunkifier::chunkify_input(&text, 3);
    assert_eq!(chunks.join("\n"), text);
    assert_eq!(warnings.len(), 1);
    let w = &warnings[0];
    assert_eq!(
        chunks[w.chunk_index],
        "this single line is far too long for the budget"
    );
    assert_eq!(w.token_count, token_count(&chunks[w.chunk_index]));
    assert!(w.token_count > 3);
}

#[test]
fn chunker_is_deterministic() {
    let text = String::from("alpha\nbeta\ngamma");
    let (first, _) = Chunkifier::chunkify_input(&text, 2);
    let (second, _) = Chunkifier::chunkify_input(&text, 2);
    assert_eq!(first, second);
}

#[test]
fn chunker_respects_model_limit() {
    let text = String::from("aaaa\nbbbb\ncccc");
    // model limit 514 leaves a budget of 2 tokens after the reserved
    // overhead of 512, below the caller's limit of 100
    let (chunks, warnings) = Chunkifier::parse_input(&text, 100, 514);
    assert!(warnings.is_empty());
    for chunk in &chunks {
        assert!(token_count(chunk) <= 2);
    }
    assert_eq!(chunks.join("\n"), text);
}

#[test]
fn model_resolution_prefers_default() {
    let settings = GPTSettings::default();
    let catalog = Some(vec![
        String::from("gpt-4"),
        String::from("gpt-3.5-turbo"),
        String::from("gpt-3.5-turbo-16k"),
    ]);
    let model = select_model(&catalog, &settings).unwrap();
    assert_eq!(model.name, "gpt-4");
}

#[test]
fn model_resolution_falls_back() {
    let mut settings = GPTSettings::default();
    settings.fallback = Model::gpt3_turbo();
    let catalog = Some(vec![String::from("gpt-3.5-turbo")]);
    let model = select_model(&catalog, &settings).unwrap();
    assert_eq!(model.name, "gpt-3.5-turbo");
}

#[test]
fn model_resolution_empty_catalog_is_fetch_failure() {
    let settings = GPTSettings::default();
    let err = select_model(&Some(Vec::new()), &settings).unwrap_err();
    assert!(matches!(err, GPTConnectorError::CatalogFetchFailed));
    let err = select_model(&None, &settings).unwrap_err();
    assert!(matches!(err, GPTConnectorError::CatalogFetchFailed));
}

#[test]
fn model_resolution_names_both_attempts() {
    let settings = GPTSettings::default();
    let catalog = Some(vec![String::from("some-other-model")]);
    match select_model(&catalog, &settings).unwrap_err() {
        GPTConnectorError::ModelUnavailable {
            default_name,
            fallback_name,
        } => {
            assert_eq!(default_name, "gpt-4");
            assert_eq!(fallback_name, "gpt-3.5-turbo-16k");
        }
        other => panic!("expected ModelUnavailable, got {:?}", other),
    }
}

#[test]
fn retry_terminates_within_the_ceiling_plus_one_wait() {
    let policy = BackoffPolicy::standard();
    let (attempts, elapsed_ms) = simulate_transient_failures(&policy);
    assert!(elapsed_ms >= 60_000);
    assert!(elapsed_ms < 65_000);
    // 500, 1000, 2000, 4000, then 5000 per retry until the ceiling
    assert_eq!(elapsed_ms, 62_500);
    assert_eq!(attempts, 16);
}

#[test]
fn transient_and_fatal_failures_are_told_apart() {
    assert_eq!(classify_status(503), TransportClass::Transient);
    assert_eq!(classify_status(500), TransportClass::Transient);
    assert_eq!(classify_status(408), TransportClass::Transient);
    assert_eq!(classify_status(401), TransportClass::Fatal);
    assert_eq!(classify_status(400), TransportClass::Fatal);
    assert_eq!(classify_status(429), TransportClass::Fatal);
}

fn delta(
    index: usize,
    role: Option<Role>,
    content: Option<&str>,
    finish_reason: Option<&str>,
) -> ChoiceDelta {
    ChoiceDelta {
        index,
        role,
        content: content.map(String::from),
        finish_reason: finish_reason.map(String::from),
    }
}

fn fragment_transaction(deltas: Vec<ChoiceDelta>) -> ChatTransaction {
    ChatTransaction::StreamResponse(StreamedResponse::from_fragment(&StreamFragment {
        choices: deltas,
    }))
}

#[test]
fn folding_three_fragments_yields_one_closed_transaction() {
    let mut session = Session::new();
    session.process_response_handler(fragment_transaction(vec![delta(
        0,
        Some(Role::Assistant),
        Some("Hel"),
        None,
    )]));
    session.process_response_handler(fragment_transaction(vec![delta(0, None, Some("lo"), None)]));
    session.process_response_handler(fragment_transaction(vec![delta(0, None, None, Some("stop"))]));
    assert_eq!(session.transactions.len(), 1);
    match &session.transactions[0] {
        ChatTransaction::StreamResponse(sr) => {
            assert_eq!(sr.state, StreamState::Closed);
            assert_eq!(sr.choices.len(), 1);
            assert_eq!(sr.choices[0].content, "Hello");
            assert!(matches!(sr.choices[0].role, Some(Role::Assistant)));
            assert_eq!(sr.choices[0].finish_reason.as_deref(), Some("stop"));
        }
        _ => panic!("expected a streamed transaction"),
    }
}

#[test]
fn fragment_after_terminal_finish_opens_a_new_transaction() {
    let mut session = Session::new();
    session.process_response_handler(fragment_transaction(vec![delta(
        0,
        Some(Role::Assistant),
        Some("done"),
        Some("stop"),
    )]));
    session.process_response_handler(fragment_transaction(vec![delta(
        0,
        None,
        Some("late"),
        None,
    )]));
    assert_eq!(session.transactions.len(), 2);
    match &session.transactions[0] {
        ChatTransaction::StreamResponse(sr) => {
            assert_eq!(sr.state, StreamState::Closed);
            assert_eq!(sr.choices[0].content, "done");
        }
        _ => panic!("expected a streamed transaction"),
    }
    match &session.transactions[1] {
        ChatTransaction::StreamResponse(sr) => {
            assert_eq!(sr.state, StreamState::Open);
            assert_eq!(sr.choices[0].content, "late");
        }
        _ => panic!("expected a streamed transaction"),
    }
}

#[test]
fn channel_close_marks_the_open_stream_closed() {
    let mut session = Session::new();
    session.process_response_handler(fragment_transaction(vec![delta(
        0,
        Some(Role::Assistant),
        Some("partial"),
        None,
    )]));
    session.close_open_stream();
    match &session.transactions[0] {
        ChatTransaction::StreamResponse(sr) => {
            assert_eq!(sr.state, StreamState::Closed);
            assert_eq!(sr.choices[0].content, "partial");
        }
        _ => panic!("expected a streamed transaction"),
    }
}

#[test]
fn request_response_appends_the_built_request() {
    let mut session = Session::new();
    let input = String::from("hello there");
    session.request_response(&input, Commands { commands: Vec::new() });
    assert_eq!(session.transactions.len(), 1);
    match &session.transactions[0] {
        ChatTransaction::Request(req) => {
            assert_eq!(req.model, session.config.model.name);
            assert_eq!(req.messages.len(), 1);
            assert!(matches!(req.messages[0].role, Role::User));
            assert_eq!(req.messages[0].content, "hello there");
            assert!(req.functions.is_none());
            assert_eq!(req.stream, session.config.stream_response);
        }
        _ => panic!("expected a request transaction"),
    }
}

#[test]
fn sequential_dispatches_never_cross() {
    let mut session = Session::new();
    let first = String::from("first question");
    session.request_response(&first, Commands { commands: Vec::new() });
    session.process_response_handler(fragment_transaction(vec![delta(
        0,
        Some(Role::Assistant),
        Some("one"),
        Some("stop"),
    )]));
    let second = String::from("second question");
    session.request_response(&second, Commands { commands: Vec::new() });
    session.process_response_handler(fragment_transaction(vec![delta(
        0,
        Some(Role::Assistant),
        Some("two"),
        Some("stop"),
    )]));
    assert_eq!(session.transactions.len(), 4);
    match &session.transactions[1] {
        ChatTransaction::StreamResponse(sr) => {
            assert_eq!(sr.state, StreamState::Closed);
            assert_eq!(sr.choices[0].content, "one");
        }
        _ => panic!("expected the first reply"),
    }
    match &session.transactions[3] {
        ChatTransaction::StreamResponse(sr) => {
            assert_eq!(sr.state, StreamState::Closed);
            assert_eq!(sr.choices[0].content, "two");
        }
        _ => panic!("expected the second reply"),
    }
}

#[test]
fn functions_are_included_exactly_when_enabled() {
    let mut session = Session::new();
    session.config.include_functions = true;
    let input = String::from("use a tool");
    let catalog = Commands {
        commands: vec![sazid::types::Command {
            name: String::from("list_files"),
            description: Some(String::from("list the files under a path")),
            parameters: None,
        }],
    };
    session.request_response(&input, catalog);
    match &session.transactions[0] {
        ChatTransaction::Request(req) => {
            let functions = req.functions.as_ref().expect("catalog should be included");
            assert_eq!(functions.commands.len(), 1);
            assert_eq!(functions.commands[0].name, "list_files");
        }
        _ => panic!("expected a request transaction"),
    }
}

#[test]
fn oversized_input_is_flagged_but_still_sent() {
    let mut session = Session::new();
    // budget is min(1024, 8192 - 512) = 1024 tokens; one 5000-character
    // line encodes to 1250 tokens, so it overflows but must still go out
    let input = "a".repeat(5000);
    let warnings = session.request_response(&input, Commands { commands: Vec::new() });
    assert_eq!(warnings.len(), 1);
    assert_eq!(warnings[0].chunk_index, 0);
    assert_eq!(warnings[0].token_count, 1250);
    match &session.transactions[0] {
        ChatTransaction::Request(req) => {
            assert_eq!(req.messages.len(), 1);
            assert_eq!(req.messages[0].content.len(), 5000);
        }
        _ => panic!("expected a request transaction"),
    }
}

#[test]
fn within_budget_input_raises_no_warnings() {
    let mut session = Session::new();
    let input = String::from("a short question");
    let warnings = session.request_response(&input, Commands { commands: Vec::new() });
    assert!(warnings.is_empty());
}

#[test]
fn chat_messages_render_with_their_speaker_tags() {
    assert_eq!(
        format_chat_message(Role::User, String::from("hi")),
        "You: hi\n\r"
    );
    assert_eq!(
        format_chat_message(Role::Assistant, String::from("hello")),
        "GPT: hello\n\r"
    );
    assert_eq!(format_chat_message(Role::System, String::from("x")), "");
}

#[test]
fn session_ids_are_decimal_clock_values() {
    let id = SessionConfig::generate_session_id();
    assert!(!id.is_empty());
    assert!(id.chars().all(|c| c.is_ascii_digit()));
}

#[test]
fn session_paths_follow_the_naming_scheme() {
    assert_eq!(
        Session::get_session_filename(String::from("17")),
        "17.json"
    );
    assert_eq!(
        Session::get_session_filepath(String::from("17")),
        "session_data/17.json"
    );
    assert_eq!(
        Session::get_last_session_file_path(),
        "session_data/last_session.txt"
    );
}

#[test]
fn prompt_message_carries_the_preamble() {
    let mut config = SessionConfig::default();
    config.prompt = String::from("be terse");
    let m = config.prompt_message();
    assert!(matches!(m.role, Role::System));
    assert_eq!(m.content, "be terse");
}

#[test]
fn default_settings_name_the_stock_models() {
    let settings = GPTSettings::default();
    assert_eq!(settings.default.name, "gpt-4");
    assert_eq!(settings.default.token_limit, 8192);
    assert_eq!(settings.fallback.name, "gpt-3.5-turbo-16k");
    assert_eq!(settings.fallback.token_limit, 16384);
    assert!(settings.load_session.is_none());
    assert!(settings.save_session.is_none());
}

#[test]
fn unparsable_settings_fall_back_to_defaults() {
    let fallback = GPTSettings::from_parsed(None);
    assert_eq!(fallback.default.name, "gpt-4");
    let mut custom = GPTSettings::default();
    custom.default = Model::gpt3_turbo();
    let kept = GPTSettings::from_parsed(Some(custom));
    assert_eq!(kept.default.name, "gpt-3.5-turbo");
}
