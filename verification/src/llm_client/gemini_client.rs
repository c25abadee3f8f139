//! The shape of a completion request and response, and what is read out of
//! a response.

use vstd::prelude::*;
use vstd::string::StringExecFns;
use crate::llm_client::common::RequestMessage;
use crate::text::same_text;

verus! {

/// One turn of a request or a response.
#[derive(Debug)]
pub struct Content {
    pub role: Option<String>,
    pub parts: Option<Vec<Part>>,
}

/// One piece of a turn.
#[derive(Debug)]
pub struct Part {
    pub text: Option<String>,
}

/// How much the provider may think before it answers.
#[derive(Debug)]
pub struct ThinkingConfig {
    pub thinking_budget: i32,
}

/// A decoded response.
#[derive(Debug)]
pub struct GeminiResponse {
    pub candidates: Vec<Candidate>,
}

/// One candidate answer.
#[derive(Debug)]
pub struct Candidate {
    pub content: Content,
    pub finish_reason: String,
    pub index: u32,
}

/// Why no completion could be read out.
#[derive(Clone, Copy, Debug, PartialEq, Eq, Structural)]
pub enum CompletionError {
    /// The response holds no candidate, or its first candidate has parts
    /// but no text in the first of them.
    NoText,
    /// The conversation holds no user message with text.
    NoUserMessage,
}

impl CompletionError {
    /// The message shown for this error.
    pub fn message(&self) -> (text: String)
        ensures
            text@ == (match *self {
                CompletionError::NoText => "No text found in Gemini API response"@,
                CompletionError::NoUserMessage => "No user message found in the conversation"@,
            }),
    {
        match self {
            CompletionError::NoText => String::from_str("No text found in Gemini API response"),
            CompletionError::NoUserMessage => String::from_str(
                "No user message found in the conversation",
            ),
        }
    }
}

/// The instruction that precedes every prompt.
pub open spec fn instruction() -> Seq<char> {
    "You are an autocomplete assistant. Only return 2-5 words to continue the user's sentence. If the user's sentence does not end with a space or punctuation, start your completion with a space to ensure proper word separation."@
}

/// Whether a turn is a user turn with exactly one part holding `text`.
pub open spec fn is_user_turn(content: Content, text: Seq<char>) -> bool {
    &&& content.role is Some
    &&& content.role->Some_0@ == "user"@
    &&& content.parts is Some
    &&& content.parts->Some_0@.len() == 1
    &&& content.parts->Some_0@[0].text is Some
    &&& content.parts->Some_0@[0].text->Some_0@ == text
}

/// Builds a user turn with one part.
pub fn user_turn(text: &str) -> (content: Content)
    ensures
        is_user_turn(content, text@),
{
    let mut parts: Vec<Part> = Vec::new();
    parts.push(Part { text: Some(String::from_str(text)) });
    Content { role: Some(String::from_str("user")), parts: Some(parts) }
}

/// The turns of a completion request: the instruction, then the prompt,
/// both as user turns.
pub fn completion_contents(prompt: &str) -> (contents: Vec<Content>)
    ensures
        contents@.len() == 2,
        is_user_turn(contents@[0], instruction()),
        is_user_turn(contents@[1], prompt@),
{
    let mut contents: Vec<Content> = Vec::new();
    contents.push(
        user_turn(
            "You are an autocomplete assistant. Only return 2-5 words to continue the user's sentence. If the user's sentence does not end with a space or punctuation, start your completion with a space to ensure proper word separation.",
        ),
    );
    contents.push(user_turn(prompt));
    contents
}

/// The text a response stands for: the text of the first part of the first
/// candidate; three dots where that candidate has no parts at all; nothing
/// where there is no candidate, no first part, or no text in it.
pub open spec fn completion_of(response: GeminiResponse) -> Option<Seq<char>> {
    if response.candidates@.len() == 0 {
        None
    } else {
        match response.candidates@[0].content.parts {
            None => Some("..."@),
            Some(parts) => if parts@.len() == 0 {
                None
            } else {
                match parts@[0].text {
                    Some(text) => Some(text@),
                    None => None,
                }
            },
        }
    }
}

/// Reads the completion out of a response.
pub fn completion_text(response: &GeminiResponse) -> (r: Result<String, CompletionError>)
    ensures
        match completion_of(*response) {
            Some(text) => r is Ok && r->Ok_0@ == text,
            None => r == Err::<String, CompletionError>(CompletionError::NoText),
        },
{
    if response.candidates.len() == 0 {
        return Err(CompletionError::NoText);
    }
    match &response.candidates[0].content.parts {
        None => Ok(String::from_str("...")),
        Some(parts) => {
            if parts.len() == 0 {
                return Err(CompletionError::NoText);
            }
            match &parts[0].text {
                Some(text) => Ok(text.clone()),
                None => Err(CompletionError::NoText),
            }
        },
    }
}

/// The content of the last user message of a conversation, if there is one.
pub open spec fn last_user_content(messages: Seq<RequestMessage>) -> Option<Seq<char>>
    decreases messages.len(),
{
    if messages.len() == 0 {
        None
    } else if messages.last().role@ == "user"@ {
        Some(messages.last().content@)
    } else {
        last_user_content(messages.drop_last())
    }
}

/// Picks the prompt of a conversation: the content of its last user message.
/// A conversation without a user message, or whose last user message is
/// empty, has none.
pub fn last_user_prompt(messages: &[RequestMessage]) -> (r: Result<String, CompletionError>)
    ensures
        match last_user_content(messages@) {
            Some(text) => if text.len() == 0 {
                r == Err::<String, CompletionError>(CompletionError::NoUserMessage)
            } else {
                r is Ok && r->Ok_0@ == text
            },
            None => r == Err::<String, CompletionError>(CompletionError::NoUserMessage),
        },
{
    let mut i: usize = messages.len();
    assert(messages@.take(i as int) =~= messages@);
    while i > 0
        invariant
            i <= messages@.len(),
            last_user_content(messages@) == last_user_content(messages@.take(i as int)),
        decreases i,
    {
        let msg = &messages[i - 1];
        proof {
            let head = messages@.take(i as int);
            assert(head.last() == messages@[i - 1]);
            assert(head.drop_last() =~= messages@.take(i - 1));
        }
        if same_text(msg.role.as_str(), "user") {
            if msg.content.as_str().is_empty() {
                return Err(CompletionError::NoUserMessage);
            }
            return Ok(msg.content.clone());
        }
        i -= 1;
    }
    Err(CompletionError::NoUserMessage)
}

} // verus!
