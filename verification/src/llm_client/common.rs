//! Chat messages and the mapping of their roles to a provider's roles.

use vstd::prelude::*;
use crate::text::same_text;

verus! {

/// One message of a conversation.
#[derive(Debug, Clone)]
pub struct RequestMessage {
    pub role: String,
    pub content: String,
}

/// What a chat completion brought back.
#[derive(Debug, Clone)]
pub struct ChatCompletionResponse {
    pub text_response: Option<String>,
    pub tool_calls: Vec<ToolCall>,
}

/// A tool call requested by the provider.
#[derive(Debug, Clone)]
pub struct ToolCall {
    pub id: String,
    pub call_type: String,
    pub function: ToolCallFunction,
}

/// The function a tool call names, with its arguments as text.
#[derive(Debug, Clone)]
pub struct ToolCallFunction {
    pub name: String,
    pub arguments: String,
}

/// Whether `out` is what `mapper` makes of a message, handed a provider
/// role that reads `role`.
pub open spec fn converted<F, T>(mapper: F, message: RequestMessage, role: Seq<char>, out: T) -> bool where
    F: Fn(&RequestMessage, &'static str) -> T,
 {
    exists|r: &'static str| #[trigger] r@ == role && mapper.ensures((&message, r), out)
}

/// Maps the roles of a conversation to the roles a provider knows.
pub trait RoleMapper {
    /// The provider's role for a given role.
    spec fn provider_role(&self, role: Seq<char>) -> Seq<char>;

    /// Returns the provider's role for a given role.
    fn map_role(&self, role: &str) -> (r: &'static str)
        ensures
            r@ == self.provider_role(role@),
    ;

    /// Converts every message with the given function, which is handed the
    /// message and the provider's role for it. The results are in the order
    /// of the messages.
    fn map_messages<F, T>(&self, messages: &[RequestMessage], mapper: F) -> (out: Vec<T>) where
        F: Fn(&RequestMessage, &'static str) -> T,

        requires
            forall|i: int, r: &'static str|
                0 <= i < messages@.len() && r@ == self.provider_role(messages@[i].role@)
                    ==> mapper.requires((&#[trigger] messages@[i], r)),
        ensures
            out@.len() == messages@.len(),
            forall|i: int|
                0 <= i < messages@.len() ==> converted(
                    mapper,
                    messages@[i],
                    self.provider_role(messages@[i].role@),
                    #[trigger] out@[i],
                ),
    {
        let mut out: Vec<T> = Vec::new();
        let mut i: usize = 0;
        while i < messages.len()
            invariant
                i <= messages@.len(),
                out@.len() == i,
                forall|j: int, r: &'static str|
                    0 <= j < messages@.len() && r@ == self.provider_role(messages@[j].role@)
                        ==> mapper.requires((&#[trigger] messages@[j], r)),
                forall|j: int|
                    0 <= j < i ==> converted(
                        mapper,
                        messages@[j],
                        self.provider_role(messages@[j].role@),
                        #[trigger] out@[j],
                    ),
            decreases messages@.len() - i,
        {
            let msg = &messages[i];
            let provider_role = self.map_role(msg.role.as_str());
            let item = mapper(msg, provider_role);
            proof {
                assert(mapper.ensures((&messages@[i as int], provider_role), item));
                assert(converted(
                    mapper,
                    messages@[i as int],
                    self.provider_role(messages@[i as int].role@),
                    item,
                ));
            }
            out.push(item);
            i += 1;
        }
        out
    }
}

/// The role mapping of the Gemini API, which knows `user` and `model`.
pub struct GeminiRoleMapper;

impl GeminiRoleMapper {
    /// Creates the mapper.
    pub fn new() -> (m: GeminiRoleMapper)
        ensures
            m == GeminiRoleMapper,
    {
        GeminiRoleMapper
    }
}

impl RoleMapper for GeminiRoleMapper {
    /// `assistant` becomes `model`; every other role, `system` and unknown
    /// ones included, becomes `user`.
    open spec fn provider_role(&self, role: Seq<char>) -> Seq<char> {
        if role == "assistant"@ {
            "model"@
        } else {
            "user"@
        }
    }

    fn map_role(&self, role: &str) -> (r: &'static str) {
        if same_text(role, "assistant") {
            "model"
        } else {
            "user"
        }
    }
}

} // verus!
