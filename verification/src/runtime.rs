//! The runtime: how a prompt is completed by the configured provider.
use vstd::prelude::*;

use crate::config::{ProviderConfig, ProviderKind};
use crate::text::{trim_trailing_slashes, without_trailing_slashes};

verus! {

/// A chat completion request to an OpenAI-compatible endpoint.
#[derive(Debug, Clone)]
pub struct ChatRequest {
    /// The endpoint the request is posted to.
    pub url: String,
    /// The environment variable that holds the API key.
    pub api_key_env: String,
    /// The model asked for.
    pub model: String,
    /// The user's prompt, sent as the only message.
    pub prompt: String,
}

/// What completing a prompt takes: an answer at once, or a request to send.
#[derive(Debug, Clone)]
pub enum Completion {
    Answer(String),
    Remote(ChatRequest),
}

/// The prefix of every answer of the mock provider.
pub open spec fn mock_prefix() -> Seq<char> {
    "mock-response: "@
}

/// The base URL used when the provider names none.
pub open spec fn default_base_url() -> Seq<char> {
    "https://api.openai.com/v1"@
}

/// The environment variable used when the provider names none.
pub open spec fn default_api_key_env() -> Seq<char> {
    "OPENAI_API_KEY"@
}

/// The text of an optional value, or `default` when there is none.
pub open spec fn text_or(t: Option<String>, default: Seq<char>) -> Seq<char> {
    match t {
        Some(s) => s@,
        None => default,
    }
}

/// The endpoint of chat completions under the base URL `base`.
pub open spec fn completions_url(base: Seq<char>) -> Seq<char> {
    without_trailing_slashes(base) + "/chat/completions"@
}

/// `c` is how the provider `provider` completes `prompt`: the mock provider
/// answers at once with the prompt behind a fixed prefix; an OpenAI-compatible
/// one is sent a request for the configured model.
pub open spec fn planned_completion(provider: ProviderConfig, prompt: Seq<char>, c: Completion) -> bool {
    match provider.kind {
        ProviderKind::Mock => c matches Completion::Answer(a) && a@ == mock_prefix() + prompt,
        ProviderKind::OpenaiCompatible => c matches Completion::Remote(q) && {
            &&& q.url@ == completions_url(text_or(provider.base_url, default_base_url()))
            &&& q.api_key_env@ == text_or(provider.api_key_env, default_api_key_env())
            &&& q.model@ == provider.model@
            &&& q.prompt@ == prompt
        },
    }
}

/// The whole prompt reaches the provider: the mock provider answers
/// `mock-response: ` followed by the entire prompt, and an OpenAI-compatible
/// provider is sent the entire prompt for the configured model.
pub proof fn lemma_completion_carries_whole_prompt(
    provider: ProviderConfig,
    prompt: Seq<char>,
    c: Completion,
)
    requires
        planned_completion(provider, prompt, c),
    ensures
        provider.kind == ProviderKind::Mock ==> (c matches Completion::Answer(a) && a@
            == "mock-response: "@ + prompt && a@.len() == prompt.len() + 15 && a@.skip(15)
            == prompt),
        provider.kind == ProviderKind::OpenaiCompatible ==> (c matches Completion::Remote(q)
            && q.prompt@ == prompt && q.model@ == provider.model@),
{
    reveal_strlit("mock-response: ");
    if let Completion::Answer(a) = c {
        if provider.kind == ProviderKind::Mock {
            assert(a@.skip(15) =~= prompt);
        }
    }
}

/// Completes prompts with one provider.
#[derive(Debug, Clone)]
pub struct Runtime {
    provider: ProviderConfig,
}

impl Runtime {
    /// The provider of this runtime.
    pub closed spec fn provider(&self) -> ProviderConfig {
        self.provider
    }

    /// A runtime that uses `provider`.
    pub fn new(provider: ProviderConfig) -> (r: Runtime)
        ensures
            r.provider() == provider,
    {
        Runtime { provider }
    }

    /// How `prompt` is completed by this runtime's provider.
    pub fn plan_completion(&self, prompt: &str) -> (r: Completion)
        ensures
            planned_completion(self.provider(), prompt@, r),
    {
        match self.provider.kind {
            ProviderKind::Mock => {
                let mut a = String::from_str("mock-response: ");
                a.append(prompt);
                Completion::Answer(a)
            },
            ProviderKind::OpenaiCompatible => {
                let api_key_env = match &self.provider.api_key_env {
                    Some(k) => k.clone(),
                    None => String::from_str("OPENAI_API_KEY"),
                };
                let mut url = match &self.provider.base_url {
                    Some(b) => trim_trailing_slashes(b.as_str()),
                    None => trim_trailing_slashes("https://api.openai.com/v1"),
                };
                url.append("/chat/completions");
                Completion::Remote(
                    ChatRequest {
                        url,
                        api_key_env,
                        model: self.provider.model.clone(),
                        prompt: String::from_str(prompt),
                    },
                )
            },
        }
    }
}

/// Whether an HTTP status code reports success: a code from 200 to 299.
pub fn is_success_status(code: u16) -> (r: bool)
    ensures
        r == (200 <= code && code <= 299),
{
    200 <= code && code <= 299
}

/// What came back from a chat completion endpoint: a refusal with its status
/// and body, or a success with the first choice's message content, if it has one.
#[derive(Debug, Clone)]
pub enum ModelReply {
    Failed { status: String, body: String },
    Succeeded { content: Option<String> },
}

/// Why a remote completion yielded no answer.
#[derive(Debug, Clone, PartialEq, Eq)]
pub enum RemoteError {
    /// The endpoint refused the request with this status and body.
    Rejected { status: String, body: String },
    /// The reply holds no message content.
    MissingContent,
}

impl RemoteError {
    /// The message that describes this error.
    pub fn message(&self) -> (r: String)
        ensures
            self matches RemoteError::Rejected { status, body } ==> r@ == "模型请求失败: "@ + status@
                + " "@ + body@,
            self is MissingContent ==> r@ == "响应缺少 choices[0].message.content"@,
    {
        match self {
            RemoteError::Rejected { status, body } => {
                let mut r = String::from_str("模型请求失败: ");
                r.append(status.as_str());
                r.append(" ");
                r.append(body.as_str());
                r
            },
            RemoteError::MissingContent => String::from_str("响应缺少 choices[0].message.content"),
        }
    }
}

/// The answer a reply of the endpoint gives: its message content on success;
/// a refusal, or a success without content, is an error.
pub fn completion_answer(reply: ModelReply) -> (r: Result<String, RemoteError>)
    ensures
        reply matches ModelReply::Failed { status, body } ==> r == Err::<String, RemoteError>(
            RemoteError::Rejected { status, body },
        ),
        reply matches ModelReply::Succeeded { content } ==> r == match content {
            Some(c) => Ok::<String, RemoteError>(c),
            None => Err::<String, RemoteError>(RemoteError::MissingContent),
        },
{
    match reply {
        ModelReply::Failed { status, body } => Err(RemoteError::Rejected { status, body }),
        ModelReply::Succeeded { content } => match content {
            Some(c) => Ok(c),
            None => Err(RemoteError::MissingContent),
        },
    }
}

} // verus!
