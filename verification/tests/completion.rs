use minimal_notes::text::same_text;
use minimal_notes::llm_client::common::GeminiRoleMapper;
use minimal_notes::llm_client::common::RequestMessage;
use minimal_notes::llm_client::common::RoleMapper;
use minimal_notes::llm_client::gemini_client::completion_contents;
use minimal_notes::llm_client::gemini_client::completion_text;
use minimal_notes::llm_client::gemini_client::last_user_prompt;
use minimal_notes::llm_client::gemini_client::Candidate;
use minimal_notes::llm_client::gemini_client::CompletionError;
use minimal_notes::llm_client::gemini_client::Content;
use minimal_notes::llm_client::gemini_client::GeminiResponse;
use minimal_notes::llm_client::gemini_client::Part;

fn message(role: &str, content: &str) -> RequestMessage {
    RequestMessage { role: role.to_string(), content: content.to_string() }
}

fn candidate(parts: Option<Vec<Part>>) -> Candidate {
    Candidate {
        content: Content { role: Some("model".to_string()), parts },
        finish_reason: "STOP".to_string(),
        index: 0,
    }
}

#[test]
fn roles_map_to_user_and_model() {
    let mapper = GeminiRoleMapper::new();
    assert_eq!(mapper.map_role("user"), "user");
    assert_eq!(mapper.map_role("assistant"), "model");
    assert_eq!(mapper.map_role("system"), "user");
    assert_eq!(mapper.map_role("tool"), "user");
    assert_eq!(mapper.map_role(""), "user");
}

#[test]
fn messages_are_mapped_in_order() {
    let mapper = GeminiRoleMapper::new();
    let messages = vec![message("system", "s"), message("assistant", "a"), message("user", "u")];
    let out = mapper.map_messages(&messages, |m: &RequestMessage, role: &'static str| {
        format!("{}:{}", role, m.content)
    });
    assert_eq!(out, vec!["user:s", "model:a", "user:u"]);
    let none: Vec<String> = mapper.map_messages(&[], |m: &RequestMessage, _role: &'static str| m.content.clone());
    assert!(none.is_empty());
}

#[test]
fn same_text_compares_characters() {
    assert!(same_text("user", "user"));
    assert!(!same_text("user", "User"));
    assert!(!same_text("user", "users"));
    assert!(same_text("", ""));
}

#[test]
fn completion_is_the_first_text() {
    let response = GeminiResponse {
        candidates: vec![
            candidate(Some(vec![Part { text: Some(" over the".to_string()) }, Part { text: None }])),
            candidate(Some(vec![Part { text: Some("second".to_string()) }])),
        ],
    };
    assert_eq!(completion_text(&response), Ok(" over the".to_string()));
}

#[test]
fn completion_without_parts_is_three_dots() {
    let response = GeminiResponse { candidates: vec![candidate(None)] };
    assert_eq!(completion_text(&response), Ok("...".to_string()));
}

#[test]
fn completion_without_text_is_an_error() {
    let empty = GeminiResponse { candidates: Vec::new() };
    assert_eq!(completion_text(&empty), Err(CompletionError::NoText));
    let no_parts = GeminiResponse { candidates: vec![candidate(Some(Vec::new()))] };
    assert_eq!(completion_text(&no_parts), Err(CompletionError::NoText));
    let no_text = GeminiResponse {
        candidates: vec![candidate(Some(vec![Part { text: None }, Part { text: Some("x".to_string()) }]))],
    };
    assert_eq!(completion_text(&no_text), Err(CompletionError::NoText));
    assert_eq!(CompletionError::NoText.message(), "No text found in Gemini API response");
}

#[test]
fn prompt_is_the_last_user_message() {
    let messages = vec![
        message("user", "first"),
        message("assistant", "reply"),
        message("user", "second"),
        message("assistant", "again"),
    ];
    assert_eq!(last_user_prompt(&messages), Ok("second".to_string()));
}

#[test]
fn prompt_is_missing_without_a_user_message() {
    assert_eq!(last_user_prompt(&[]), Err(CompletionError::NoUserMessage));
    assert_eq!(last_user_prompt(&[message("assistant", "x")]), Err(CompletionError::NoUserMessage));
    assert_eq!(
        last_user_prompt(&[message("user", "x"), message("user", "")]),
        Err(CompletionError::NoUserMessage)
    );
    assert_eq!(
        CompletionError::NoUserMessage.message(),
        "No user message found in the conversation"
    );
}

#[test]
fn request_holds_instruction_then_prompt() {
    let contents = completion_contents("The quick brown fox");
    assert_eq!(contents.len(), 2);
    for content in &contents {
        assert_eq!(content.role.as_deref(), Some("user"));
        assert_eq!(content.parts.as_ref().unwrap().len(), 1);
    }
    let first = contents[0].parts.as_ref().unwrap()[0].text.clone().unwrap();
    assert!(first.starts_with("You are an autocomplete assistant. Only return 2-5 words"));
    assert!(first.ends_with("to ensure proper word separation."));
    let second = contents[1].parts.as_ref().unwrap()[0].text.clone().unwrap();
    assert_eq!(second, "The quick brown fox");
}
