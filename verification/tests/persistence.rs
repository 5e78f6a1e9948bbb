//! Session persistence on concrete sessions: the save/load round trip,
//! the fallback to a fresh session, the chat log's line format, and the
//! manager's file naming and ingestion log.

use sazid::persist::ingest_log_content;
use sazid::persist::session_filename_from_parts;
use sazid::persist::tag_from_seed;
use sazid::persist::SessionManager;
use sazid::request::ChatRequest;
use sazid::session::Session;
use sazid::transaction::ChatChoice;
use sazid::transaction::ChatResponse;
use sazid::transaction::ChatTransaction;
use sazid::transaction::StreamChoice;
use sazid::transaction::StreamState;
use sazid::transaction::StreamedResponse;
use sazid::types::Command;
use sazid::types::CommandParameters;
use sazid::types::CommandProperty;
use sazid::types::Commands;
use sazid::types::Message;
use sazid::types::Role;

fn sample_session() -> Session {
    let mut session = Session::new();
    session.config.prompt = String::from("be helpful");
    session.transactions.push(ChatTransaction::Request(ChatRequest {
        model: String::from("gpt-4"),
        messages: vec![Message {
            role: Role::User,
            content: String::from("what is 2+2?\nanswer briefly"),
        }],
        functions: Some(Commands {
            commands: vec![Command {
                name: String::from("calculator"),
                description: Some(String::from("evaluate arithmetic")),
                parameters: Some(CommandParameters {
                    param_type: String::from("object"),
                    required: vec![String::from("expression")],
                    properties: vec![(
                        String::from("expression"),
                        CommandProperty {
                            property_type: String::from("string"),
                            description: None,
                            enum_values: Some(vec![String::from("a"), String::from("b")]),
                        },
                    )],
                }),
            }],
        }),
        stream: true,
    }));
    session.transactions.push(ChatTransaction::Response(ChatResponse {
        choices: vec![ChatChoice {
            role: Role::Assistant,
            content: String::from("4"),
        }],
    }));
    session.transactions.push(ChatTransaction::StreamResponse(StreamedResponse {
        choices: vec![StreamChoice {
            role: Some(Role::Assistant),
            content: String::from("four; anything with \"quotes\" and ; semicolons"),
            finish_reason: Some(String::from("stop")),
        }],
        state: StreamState::Closed,
    }));
    session
}

#[test]
fn saving_and_loading_gives_the_session_back() {
    let session = sample_session();
    let data = session.save_session();
    let loaded = Session::from_save_data(Some(&data));
    // the encoding is deterministic and one-to-one, so re-saving the
    // loaded session must reproduce the file text exactly
    assert_eq!(loaded.save_session(), data);
    assert_eq!(loaded.transactions.len(), 3);
    assert_eq!(loaded.config.prompt, "be helpful");
    assert_eq!(loaded.config.session_id, session.config.session_id);
    match &loaded.transactions[0] {
        ChatTransaction::Request(req) => {
            assert_eq!(req.model, "gpt-4");
            assert_eq!(req.messages[0].content, "what is 2+2?\nanswer briefly");
            let functions = req.functions.as_ref().unwrap();
            let params = functions.commands[0].parameters.as_ref().unwrap();
            assert_eq!(params.properties[0].0, "expression");
            assert_eq!(
                params.properties[0].1.enum_values.as_ref().unwrap(),
                &vec![String::from("a"), String::from("b")]
            );
        }
        _ => panic!("expected the request back"),
    }
    match &loaded.transactions[2] {
        ChatTransaction::StreamResponse(sr) => {
            assert_eq!(sr.state, StreamState::Closed);
            assert_eq!(
                sr.choices[0].content,
                "four; anything with \"quotes\" and ; semicolons"
            );
        }
        _ => panic!("expected the streamed reply back"),
    }
}

#[test]
fn loading_a_missing_session_yields_a_fresh_one() {
    let loaded = Session::from_save_data(None);
    assert!(loaded.transactions.is_empty());
    assert_eq!(loaded.config.model.name, "gpt-4");
    let by_id = Session::load_session_by_id(String::from("nonexistent-id"), None);
    assert!(by_id.transactions.is_empty());
}

#[test]
fn loading_corrupt_data_yields_a_fresh_one() {
    let garbage = String::from("this is not a session file");
    let loaded = Session::from_save_data(Some(&garbage));
    assert!(loaded.transactions.is_empty());
    let session = sample_session();
    let mut truncated = session.save_session();
    truncated.pop();
    let loaded = Session::from_save_data(Some(&truncated));
    assert!(loaded.transactions.is_empty());
}

#[test]
fn test_session_management() {
    let manager = SessionManager::new(String::from("./"));

    // session filename generation
    let filename = manager.new_session_filename();
    assert!(filename.contains("_"));
    assert!(filename.ends_with(".json"));

    // session saving and loading through the line format
    let messages = vec![Message {
        role: Role::User,
        content: String::from("Test message"),
    }];
    let content = manager.save_chat_to_session(&messages);
    let loaded = manager.load_session(Some(&content));
    assert_eq!(loaded.len(), 1);
    assert!(matches!(loaded[0].role, Role::User));
    assert_eq!(loaded[0].content, "Test message");
}

#[test]
fn test_save_ingested_data_log() {
    let manager = SessionManager::new(String::from("./"));
    let filename = "test_session";
    let (log_file, content) = manager.save_ingested_data_log(filename, "test_data", 1, 500);
    assert_eq!(log_file, "test_session_ingest.json");
    assert!(content.contains("test_data"));
    assert!(content.contains("\"chunk_num\":1"));
    assert!(content.contains("\"tokens_used\":500"));
}

#[test]
fn the_line_format_round_trips_a_chat_log() {
    let manager = SessionManager::new(String::from("./"));
    let messages = vec![
        Message {
            role: Role::System,
            content: String::from("you are a calculator"),
        },
        Message {
            role: Role::User,
            content: String::from("what is 2+2? note the colon: kept"),
        },
        Message {
            role: Role::Assistant,
            content: String::from("4"),
        },
    ];
    let content = manager.save_chat_to_session(&messages);
    let loaded = manager.load_session(Some(&content));
    assert_eq!(loaded.len(), 3);
    for (before, after) in messages.iter().zip(loaded.iter()) {
        assert_eq!(before.content, after.content);
        assert_eq!(
            std::mem::discriminant(&before.role),
            std::mem::discriminant(&after.role)
        );
    }
}

#[test]
fn lines_that_are_not_messages_are_skipped() {
    let manager = SessionManager::new(String::from("./"));
    let content = String::from(
        "system: be nice\nnot a message line\nuser:   hello   \nnarrator: unknown role\nassistant: hi",
    );
    let loaded = manager.load_session(Some(&content));
    assert_eq!(loaded.len(), 3);
    assert!(matches!(loaded[0].role, Role::System));
    assert_eq!(loaded[0].content, "be nice");
    assert!(matches!(loaded[1].role, Role::User));
    assert_eq!(loaded[1].content, "hello");
    assert!(matches!(loaded[2].role, Role::Assistant));
    assert_eq!(loaded[2].content, "hi");
}

#[test]
fn stray_whitespace_is_trimmed_from_line_contents() {
    let manager = SessionManager::new(String::from("./"));
    let content = String::from("user: hello\r\nassistant: hi\u{00A0}");
    let loaded = manager.load_session(Some(&content));
    assert_eq!(loaded.len(), 2);
    assert_eq!(loaded[0].content, "hello");
    assert_eq!(loaded[1].content, "hi");
}

#[test]
fn a_missing_session_file_yields_an_empty_log() {
    let manager = SessionManager::new(String::from("./"));
    let loaded = manager.load_session(None);
    assert!(loaded.is_empty());
}

#[test]
fn manager_starts_with_a_uuid_session_id() {
    let manager = SessionManager::new(String::from("/tmp/sessions"));
    assert_eq!(manager.session_id.chars().count(), 36);
    assert_eq!(manager.base_dir, "/tmp/sessions");
    assert_eq!(manager.tokens_per_chunk, 4);
}

#[test]
fn tags_and_filenames_are_deterministic_in_their_parts() {
    assert_eq!(tag_from_seed(0xabcd), "abcd");
    assert_eq!(tag_from_seed(0), "0000");
    assert_eq!(
        session_filename_from_parts(&String::from("202401011200"), &String::from("abcd")),
        "202401011200_abcd.json"
    );
}

#[test]
fn ingest_log_entries_escape_their_text() {
    let content = ingest_log_content("a \"quoted\" path\\name", 2, "202401011200", 7);
    assert_eq!(
        content,
        "{\"chunk_num\":2,\"file_path\":\"a \\\"quoted\\\" path\\\\name\",\"timestamp\":\"202401011200\",\"tokens_used\":7}"
    );
}
