//! The local completion server: what a request asks for, and what it is answered.

pub mod http;

use crate::config::Defaults;
use crate::json;
use crate::json::{Json, Num, Tree};
use crate::options::Options;
use crate::prompt;
use crate::prompt::{is_known_role, MessageError};
use crate::runner;
use crate::runner::{check_budget, BudgetError};
use crate::text;
use crate::text::{common_tokens, same};
use vstd::prelude::*;
use vstd::string::*;

verus! {

#[derive(Debug, Clone, Copy, PartialEq, Eq, Structural)]
pub enum ApiKind {
    Chat,
    Completion,
}

/// The name that the model answers to.
pub open spec fn model_text() -> Seq<char> {
    "cherenkov"@
}

pub fn model_name() -> (r: &'static str)
    ensures
        r@ == model_text(),
{
    "cherenkov"
}

/// What a client asks for.
#[derive(Debug)]
pub struct Request {
    pub prompt: String,
    /// The prompt before the last user message.
    pub stable_prefix: String,
    /// The prompt up to the end of the last message.
    pub message_prefix: String,
    pub max_tokens: usize,
    pub stream: bool,
    pub include_usage: bool,
    pub no_eos: bool,
}

/// A request that was tokenized and that the policies allow.
#[derive(Debug)]
pub struct PreparedRequest {
    pub request: Request,
    pub ids: Vec<u32>,
    pub boundaries: Vec<usize>,
    pub options: Options,
}

/// Why a request is refused.
#[derive(Debug)]
pub enum RequestError {
    NotObject,
    Model,
    /// A sampling parameter that is not the greedy one, and the value that it may have.
    Greedy(&'static str, bool),
    Unsupported(&'static str),
    ResponseFormat,
    MaxTokens,
    Stream,
    StreamOptions,
    IncludeUsage,
    Messages,
    Message(MessageError),
    Prompt,
    OutputPolicy,
    Budget(BudgetError),
}

impl RequestError {
    pub open spec fn text(self) -> Seq<char> {
        match self {
            RequestError::NotObject => "request must be a JSON object"@,
            RequestError::Model => "model must be cherenkov"@,
            RequestError::Greedy(key, one) => key@ + (if one {
                " must be 1; this engine uses greedy decoding"@
            } else {
                " must be 0; this engine uses greedy decoding"@
            }),
            RequestError::Unsupported(key) => key@ + " is not supported"@,
            RequestError::ResponseFormat => "only text response_format is supported"@,
            RequestError::MaxTokens => "max_tokens must be a positive integer"@,
            RequestError::Stream => "stream must be boolean"@,
            RequestError::StreamOptions => "stream_options must be an object"@,
            RequestError::IncludeUsage => "include_usage must be boolean"@,
            RequestError::Messages => "messages must be an array"@,
            RequestError::Message(e) => e.text(),
            RequestError::Prompt => "prompt must be a string"@,
            RequestError::OutputPolicy => "max_tokens exceeds server output policy"@,
            RequestError::Budget(e) => e.text(),
        }
    }

    pub fn message(&self) -> (r: String)
        ensures
            r@ == self.text(),
    {
        match self {
            RequestError::NotObject => "request must be a JSON object".to_owned(),
            RequestError::Model => "model must be cherenkov".to_owned(),
            RequestError::Greedy(key, one) => {
                let mut out: String = (*key).to_owned();
                out.append(
                    if *one {
                        " must be 1; this engine uses greedy decoding"
                    } else {
                        " must be 0; this engine uses greedy decoding"
                    },
                );
                out
            },
            RequestError::Unsupported(key) => {
                let mut out: String = (*key).to_owned();
                out.append(" is not supported");
                out
            },
            RequestError::ResponseFormat => "only text response_format is supported".to_owned(),
            RequestError::MaxTokens => "max_tokens must be a positive integer".to_owned(),
            RequestError::Stream => "stream must be boolean".to_owned(),
            RequestError::StreamOptions => "stream_options must be an object".to_owned(),
            RequestError::IncludeUsage => "include_usage must be boolean".to_owned(),
            RequestError::Messages => "messages must be an array".to_owned(),
            RequestError::Message(e) => e.message(),
            RequestError::Prompt => "prompt must be a string".to_owned(),
            RequestError::OutputPolicy => "max_tokens exceeds server output policy".to_owned(),
            RequestError::Budget(e) => e.message(),
        }
    }
}

/// The sampling parameters, in the order in which they are looked at, each with whether it
/// must be one rather than zero.
pub open spec fn greedy_keys() -> Seq<(&'static str, bool)> {
    seq![
        ("temperature", false),
        ("top_p", true),
        ("n", true),
        ("presence_penalty", false),
        ("frequency_penalty", false),
    ]
}

/// The parameters that must be absent, in the order in which they are looked at.
pub open spec fn unsupported_keys() -> Seq<&'static str> {
    seq![
        "tools",
        "tool_choice",
        "functions",
        "function_call",
        "stop",
        "logprobs",
        "top_logprobs",
        "logit_bias",
        "suffix",
    ]
}

/// Whether a sampling parameter leaves decoding greedy.
pub open spec fn stays_greedy(v: Tree, key: (&'static str, bool)) -> bool {
    match json::at(v, key.0@) {
        Tree::Null => true,
        Tree::Number(n) => json::stands_for(
            n,
            if key.1 {
                1
            } else {
                0
            },
        ),
        _ => false,
    }
}

/// Whether a parameter is absent.
pub open spec fn absent(v: Tree, key: &'static str) -> bool {
    json::at(v, key@) is Null
}

/// Whether a request may be for this model.
pub open spec fn for_model(v: Tree) -> bool {
    json::at(v, "model"@) is Null || json::at(v, "model"@) == Tree::Text(model_text())
}

/// Whether a request leaves the response's format to be text.
pub open spec fn text_format(v: Tree) -> bool {
    json::at(v, "response_format"@) is Null || json::at(v, "response_format"@) == Tree::Object(
        Map::<Seq<char>, Tree>::empty().insert("type"@, Tree::Text("text"@)),
    )
}

/// Whether nothing that the engine cannot do is asked for.
pub open spec fn plain(v: Tree) -> bool {
    &&& v is Object
    &&& for_model(v)
    &&& forall|i: int| 0 <= i < greedy_keys().len() ==> stays_greedy(v, #[trigger] greedy_keys()[i])
    &&& forall|i: int| 0 <= i < unsupported_keys().len() ==> absent(v, #[trigger] unsupported_keys()[i])
    &&& text_format(v)
}

/// Whether an error is the first thing that a request asks for and the engine cannot do.
pub open spec fn overreach(v: Tree, error: RequestError) -> bool {
    match error {
        RequestError::NotObject => !(v is Object),
        RequestError::Model => v is Object && !for_model(v),
        RequestError::Greedy(key, one) => v is Object && for_model(v) && exists|i: int|
            0 <= i < greedy_keys().len() && #[trigger] greedy_keys()[i] == (key, one) && !stays_greedy(
                v,
                greedy_keys()[i],
            ) && forall|k: int| 0 <= k < i ==> stays_greedy(v, #[trigger] greedy_keys()[k]),
        RequestError::Unsupported(key) => {
            &&& v is Object
            &&& for_model(v)
            &&& forall|i: int| 0 <= i < greedy_keys().len() ==> stays_greedy(v, #[trigger] greedy_keys()[i])
            &&& exists|i: int|
                0 <= i < unsupported_keys().len() && #[trigger] unsupported_keys()[i] == key && !absent(v, key)
                    && forall|k: int| 0 <= k < i ==> absent(v, #[trigger] unsupported_keys()[k])
        },
        RequestError::ResponseFormat => {
            &&& v is Object
            &&& for_model(v)
            &&& forall|i: int| 0 <= i < greedy_keys().len() ==> stays_greedy(v, #[trigger] greedy_keys()[i])
            &&& forall|i: int| 0 <= i < unsupported_keys().len() ==> absent(v, #[trigger] unsupported_keys()[i])
            &&& !text_format(v)
        },
        _ => false,
    }
}

fn is_greedy(v: &Json, key: &'static str, one: bool) -> (r: bool)
    ensures
        r == stays_greedy(v.tree(), (key, one)),
{
    match v.get(key) {
        Some(Json::Null) => true,
        Some(n) => n.is_number(one),
        None => true,
    }
}

/// Accepts a request that asks for nothing that the engine cannot do.
fn check_plain(v: &Json) -> (r: Result<(), RequestError>)
    ensures
        match r {
            Ok(()) => plain(v.tree()),
            Err(e) => overreach(v.tree(), e),
        },
{
    if !v.is_object() {
        return Err(RequestError::NotObject);
    }
    let own: bool = match v.get("model") {
        Some(Json::Null) => true,
        Some(m) => m.is_text(model_name()),
        None => true,
    };
    if !own {
        return Err(RequestError::Model);
    }
    let keys: [(&'static str, bool); 5] = [
        ("temperature", false),
        ("top_p", true),
        ("n", true),
        ("presence_penalty", false),
        ("frequency_penalty", false),
    ];
    assert(keys@ =~= greedy_keys());
    let mut i: usize = 0;
    while i < 5
        invariant
            i <= 5,
            keys@ == greedy_keys(),
            v.tree() is Object,
            for_model(v.tree()),
            forall|k: int| 0 <= k < i ==> stays_greedy(v.tree(), #[trigger] greedy_keys()[k]),
        decreases 5 - i,
    {
        if !is_greedy(v, keys[i].0, keys[i].1) {
            assert(greedy_keys()[i as int] == (keys@[i as int].0, keys@[i as int].1));
            return Err(RequestError::Greedy(keys[i].0, keys[i].1));
        }
        i = i + 1;
    }
    let banned: [&'static str; 9] = [
        "tools",
        "tool_choice",
        "functions",
        "function_call",
        "stop",
        "logprobs",
        "top_logprobs",
        "logit_bias",
        "suffix",
    ];
    assert(banned@ =~= unsupported_keys());
    let mut j: usize = 0;
    while j < 9
        invariant
            j <= 9,
            banned@ == unsupported_keys(),
            v.tree() is Object,
            for_model(v.tree()),
            forall|k: int| 0 <= k < greedy_keys().len() ==> stays_greedy(v.tree(), #[trigger] greedy_keys()[k]),
            forall|k: int| 0 <= k < j ==> absent(v.tree(), #[trigger] unsupported_keys()[k]),
        decreases 9 - j,
    {
        if !v.null_at(banned[j]) {
            assert(unsupported_keys()[j as int] == banned@[j as int]);
            return Err(RequestError::Unsupported(banned[j]));
        }
        j = j + 1;
    }
    let format: bool = match v.get("response_format") {
        Some(Json::Null) => true,
        Some(f) => f.holds_only("type", "text"),
        None => true,
    };
    if !format {
        return Err(RequestError::ResponseFormat);
    }
    Ok(())
}

/// The output limit that a request names: the newer parameter counts before the older.
pub open spec fn named_tokens(v: Tree) -> Option<Tree> {
    if !(json::at(v, "max_completion_tokens"@) is Null) {
        Some(json::at(v, "max_completion_tokens"@))
    } else if !(json::at(v, "max_tokens"@) is Null) {
        Some(json::at(v, "max_tokens"@))
    } else {
        None
    }
}

/// The output limit of a request; nothing where it names one that is no positive integer.
pub open spec fn token_limit(v: Tree, defaults: Defaults) -> Option<usize> {
    match named_tokens(v) {
        None => Some(defaults.max_tokens),
        Some(Tree::Number(Num::Unsigned(n))) => if 0 < n <= usize::MAX {
            Some(n as usize)
        } else {
            None
        },
        Some(_) => None,
    }
}

fn read_token_limit(v: &Json, defaults: &Defaults) -> (r: Option<usize>)
    ensures
        r == token_limit(v.tree(), *defaults),
{
    let named: Option<&Json> = if !v.null_at("max_completion_tokens") {
        v.get("max_completion_tokens")
    } else if !v.null_at("max_tokens") {
        v.get("max_tokens")
    } else {
        None
    };
    match named {
        None => Some(defaults.max_tokens),
        Some(n) => match n.as_u64() {
            Some(n) => if 0 < n && n <= usize::MAX as u64 {
                Some(n as usize)
            } else {
                None
            },
            None => None,
        },
    }
}

/// Whether a request streams; nothing where it says so with anything but a boolean.
pub open spec fn streams(v: Tree, defaults: Defaults) -> Option<bool> {
    match json::field(v, "stream"@) {
        None => Some(defaults.stream),
        Some(Tree::Bool(b)) => Some(b),
        Some(_) => None,
    }
}

/// Whether a request wants its usage told.
pub open spec fn tells_usage(v: Tree, defaults: Defaults) -> Result<bool, RequestError> {
    match json::at(v, "stream_options"@) {
        Tree::Null => Ok(defaults.include_usage),
        Tree::Object(o) => match json::field(Tree::Object(o), "include_usage"@) {
            None => Ok(defaults.include_usage),
            Some(Tree::Bool(b)) => Ok(b),
            Some(_) => Err(RequestError::IncludeUsage),
        },
        _ => Err(RequestError::StreamOptions),
    }
}

fn read_stream(v: &Json, defaults: &Defaults) -> (r: Option<bool>)
    ensures
        r == streams(v.tree(), *defaults),
{
    match v.get("stream") {
        None => Some(defaults.stream),
        Some(b) => b.as_bool(),
    }
}

fn read_usage(v: &Json, defaults: &Defaults) -> (r: Result<bool, RequestError>)
    ensures
        r == tells_usage(v.tree(), *defaults),
{
    match v.get("stream_options") {
        None => Ok(defaults.include_usage),
        Some(o) => {
            if o.is_null() {
                return Ok(defaults.include_usage);
            }
            if !o.is_object() {
                return Err(RequestError::StreamOptions);
            }
            match o.get("include_usage") {
                None => Ok(defaults.include_usage),
                Some(b) => match b.as_bool() {
                    Some(b) => Ok(b),
                    None => Err(RequestError::IncludeUsage),
                },
            }
        },
    }
}

/// The role that a message is shown under.
pub open spec fn shown_role(role: Seq<char>) -> Seq<char> {
    if role == "developer"@ {
        "system"@
    } else {
        role
    }
}

/// A message as the prompt shows it.
pub open spec fn turn(message: Tree) -> Seq<char> {
    "<|im_start|>"@ + shown_role(json::at(message, "role"@)->Text_0) + "\n"@ + json::at(message, "content"@)->Text_0
        + "<|im_end|>\n"@
}

/// Messages as the prompt shows them.
pub open spec fn turns(messages: Seq<Tree>) -> Seq<char>
    decreases messages.len(),
{
    if messages.len() == 0 {
        ""@
    } else {
        turns(messages.drop_last()) + turn(messages.last())
    }
}

/// What stands before the last user message.
pub open spec fn before_user(messages: Seq<Tree>) -> Seq<char>
    decreases messages.len(),
{
    if messages.len() == 0 {
        ""@
    } else if prompt::from_user(messages.last()) {
        turns(messages.drop_last())
    } else {
        before_user(messages.drop_last())
    }
}

/// How the answer to a conversation begins.
pub open spec fn opening() -> Seq<char> {
    "<|im_start|>assistant\n<think>\n\n</think>\n\n"@
}

/// Whether an error is the one that a message gives: the role is looked at first, then the
/// tool calls, then the content.
pub open spec fn turn_refuses(message: Tree, error: MessageError) -> bool {
    match json::at(message, "role"@) {
        Tree::Text(role) => if !prompt::known_role(role) {
            error matches MessageError::UnsupportedRole(named) && named@ == role
        } else if !(json::at(message, "tool_calls"@) is Null) {
            error is ToolCalls
        } else {
            !(json::at(message, "content"@) is Text) && error is ContentNotText
        },
        _ => error is RoleNotText,
    }
}

/// The three prefixes of a conversation's prompt.
struct Conversation {
    prompt: String,
    stable_prefix: String,
    message_prefix: String,
}

fn push_turn(prompt: &mut String, role: &str, content: &str)
    ensures
        final(prompt)@ == old(prompt)@ + ("<|im_start|>"@ + role@ + "\n"@ + content@ + "<|im_end|>\n"@),
{
    prompt.append("<|im_start|>");
    prompt.append(role);
    prompt.append("\n");
    prompt.append(content);
    prompt.append("<|im_end|>\n");
    assert(prompt@ =~= old(prompt)@ + ("<|im_start|>"@ + role@ + "\n"@ + content@ + "<|im_end|>\n"@));
}

fn read_messages(messages: &Vec<Json>) -> (r: Result<Conversation, MessageError>)
    ensures
        ({
            let all = prompt::trees(messages@);
            match r {
                Ok(c) => {
                    &&& all.len() > 0
                    &&& forall|i: int| 0 <= i < all.len() ==> prompt::showable(#[trigger] all[i])
                    &&& c.prompt@ == turns(all) + opening()
                    &&& c.stable_prefix@ == before_user(all)
                    &&& c.message_prefix@ == turns(all)
                },
                Err(e) => messages_refused(all, e),
            }
        }),
{
    let ghost all = prompt::trees(messages@);
    if messages.len() == 0 {
        return Err(MessageError::Empty);
    }
    let mut text: String = String::new();
    let mut stable: String = String::new();
    let mut i: usize = 0;
    proof {
        reveal_strlit("");
        assert(all.take(0) =~= Seq::<Tree>::empty());
        assert(text@ =~= ""@);
        assert(stable@ =~= ""@);
    }
    while i < messages.len()
        invariant
            i <= messages@.len(),
            0 < messages@.len(),
            all == prompt::trees(messages@),
            text@ == turns(all.take(i as int)),
            stable@ == before_user(all.take(i as int)),
            forall|k: int| 0 <= k < i ==> prompt::showable(#[trigger] all[k]),
        decreases messages@.len() - i,
    {
        let message: &Json = &messages[i];
        assert(all[i as int] == message.tree());
        assert(all.take(i + 1).drop_last() =~= all.take(i as int));
        assert(all.take(i + 1).last() == message.tree());
        let role: &str = match message.text_at("role") {
            Some(role) => role,
            None => {
                assert(turn_refuses(all[i as int], MessageError::RoleNotText));
                return Err(MessageError::RoleNotText);
            },
        };
        if !is_known_role(role) {
            let error = MessageError::UnsupportedRole(role.to_owned());
            assert(turn_refuses(all[i as int], error));
            return Err(error);
        }
        if !message.null_at("tool_calls") {
            assert(turn_refuses(all[i as int], MessageError::ToolCalls));
            return Err(MessageError::ToolCalls);
        }
        if same(role, "user") {
            stable = text.clone();
        }
        let shown: &str = if same(role, "developer") {
            "system"
        } else {
            role
        };
        let content: &str = match message.text_at("content") {
            Some(content) => content,
            None => {
                assert(turn_refuses(all[i as int], MessageError::ContentNotText));
                return Err(MessageError::ContentNotText);
            },
        };
        push_turn(&mut text, shown, content);
        i = i + 1;
    }
    assert(all.take(i as int) =~= all);
    let message_prefix: String = text.clone();
    text.append("<|im_start|>assistant\n<think>\n\n</think>\n\n");
    Ok(Conversation { prompt: text, stable_prefix: stable, message_prefix })
}

/// Whether an error is the first that a conversation gives.
pub open spec fn messages_refused(messages: Seq<Tree>, error: MessageError) -> bool {
    match error {
        MessageError::Empty => messages.len() == 0,
        _ => exists|i: int|
            0 <= i < messages.len() && turn_refuses(#[trigger] messages[i], error) && forall|k: int|
                0 <= k < i ==> prompt::showable(#[trigger] messages[k]),
    }
}

/// Whether a request's parameters can be read.
pub open spec fn readable(v: Tree, defaults: Defaults) -> bool {
    plain(v) && token_limit(v, defaults) is Some && streams(v, defaults) is Some && tells_usage(v, defaults) is Ok
}

/// What a request asks for, and otherwise the first reason against it.
pub open spec fn parsed(v: Tree, kind: ApiKind, defaults: Defaults, r: Result<Request, RequestError>) -> bool {
    match r {
        Ok(request) => {
            &&& readable(v, defaults)
            &&& token_limit(v, defaults) == Some(request.max_tokens)
            &&& streams(v, defaults) == Some(request.stream)
            &&& tells_usage(v, defaults) == Ok::<bool, RequestError>(request.include_usage)
            &&& request.no_eos == defaults.no_eos
            &&& match kind {
                ApiKind::Chat => {
                    &&& json::at(v, "messages"@) matches Tree::Array(messages)
                    &&& messages.len() > 0
                    &&& forall|i: int| 0 <= i < messages.len() ==> prompt::showable(#[trigger] messages[i])
                    &&& request.prompt@ == turns(messages) + opening()
                    &&& request.stable_prefix@ == before_user(messages)
                    &&& request.message_prefix@ == turns(messages)
                },
                ApiKind::Completion => {
                    &&& json::at(v, "prompt"@) == Tree::Text(request.prompt@)
                    &&& request.stable_prefix@ == ""@
                    &&& request.message_prefix@ == ""@
                },
            }
        },
        Err(RequestError::MaxTokens) => plain(v) && token_limit(v, defaults) is None,
        Err(RequestError::Stream) => plain(v) && token_limit(v, defaults) is Some && streams(v, defaults) is None,
        Err(RequestError::StreamOptions) => plain(v) && token_limit(v, defaults) is Some && streams(v, defaults) is Some
            && tells_usage(v, defaults) == Err::<bool, RequestError>(RequestError::StreamOptions),
        Err(RequestError::IncludeUsage) => plain(v) && token_limit(v, defaults) is Some && streams(v, defaults) is Some
            && tells_usage(v, defaults) == Err::<bool, RequestError>(RequestError::IncludeUsage),
        Err(RequestError::Messages) => readable(v, defaults) && kind is Chat && !(json::at(v, "messages"@) is Array),
        Err(RequestError::Message(e)) => {
            &&& readable(v, defaults)
            &&& kind is Chat
            &&& json::at(v, "messages"@) matches Tree::Array(messages) && messages_refused(messages, e)
        },
        Err(RequestError::Prompt) => readable(v, defaults) && kind is Completion && !(json::at(v, "prompt"@) is Text),
        Err(e) => overreach(v, e),
    }
}

/// Reads what a client asks for.
pub fn parse_request(v: &Json, kind: ApiKind, defaults: &Defaults) -> (r: Result<Request, RequestError>)
    ensures
        parsed(v.tree(), kind, *defaults, r),
{
    match check_plain(v) {
        Ok(()) => {},
        Err(e) => return Err(e),
    }
    let max_tokens: usize = match read_token_limit(v, defaults) {
        Some(n) => n,
        None => return Err(RequestError::MaxTokens),
    };
    let stream: bool = match read_stream(v, defaults) {
        Some(b) => b,
        None => return Err(RequestError::Stream),
    };
    let include_usage: bool = match read_usage(v, defaults) {
        Ok(b) => b,
        Err(e) => return Err(e),
    };
    let conversation: Conversation = match kind {
        ApiKind::Chat => match v.get("messages") {
            Some(Json::Array(messages)) => {
                assert(json::at(v.tree(), "messages"@)->Array_0 =~= prompt::trees(messages@));
                match read_messages(messages) {
                    Ok(c) => c,
                    Err(e) => return Err(RequestError::Message(e)),
                }
            },
            _ => return Err(RequestError::Messages),
        },
        ApiKind::Completion => match v.text_at("prompt") {
            Some(text) => {
                proof {
                    reveal_strlit("");
                    assert(Seq::<char>::empty() =~= ""@);
                }
                Conversation { prompt: text.to_owned(), stable_prefix: String::new(), message_prefix: String::new() }
            },
            None => return Err(RequestError::Prompt),
        },
    };
    Ok(
        Request {
            prompt: conversation.prompt,
            stable_prefix: conversation.stable_prefix,
            message_prefix: conversation.message_prefix,
            max_tokens,
            stream,
            include_usage,
            no_eos: defaults.no_eos,
        },
    )
}

impl Request {
    /// Accepts a tokenized request under the policies. `stable` and `message` are the tokens
    /// of the two prefixes.
    pub fn prepare(
        self,
        ids: Vec<u32>,
        stable: &[u32],
        message: &[u32],
        options: &Options,
        max_output_tokens: usize,
    ) -> (r: Result<PreparedRequest, RequestError>)
        ensures
            match r {
                Ok(p) => {
                    &&& self.max_tokens <= max_output_tokens
                    &&& runner::budget_fault(ids@.len() as usize, self.max_tokens, options.drafts as usize, options.max_ctx) is None
                    &&& p.request == self
                    &&& p.ids@ == ids@
                    &&& p.boundaries@ == seq![
                        text::agreement(ids@, stable@, 0) as usize,
                        text::agreement(ids@, message@, 0) as usize,
                    ]
                    &&& p.options == (Options { no_eos: self.no_eos, ..*options })
                },
                Err(RequestError::OutputPolicy) => self.max_tokens > max_output_tokens,
                Err(RequestError::Budget(e)) => self.max_tokens <= max_output_tokens && runner::budget_fault(
                    ids@.len() as usize,
                    self.max_tokens,
                    options.drafts as usize,
                    options.max_ctx,
                ) == Some(e),
                Err(_) => false,
            },
    {
        if self.max_tokens > max_output_tokens {
            return Err(RequestError::OutputPolicy);
        }
        match check_budget(ids.len(), self.max_tokens, options.drafts as usize, options.max_ctx) {
            Ok(()) => {},
            Err(e) => return Err(RequestError::Budget(e)),
        }
        let mut boundaries: Vec<usize> = Vec::new();
        boundaries.push(common_tokens(ids.as_slice(), stable));
        boundaries.push(common_tokens(ids.as_slice(), message));
        let mut own: Options = *options;
        own.no_eos = self.no_eos;
        assert(boundaries@ =~= seq![
            text::agreement(ids@, stable@, 0) as usize,
            text::agreement(ids@, message@, 0) as usize,
        ]);
        Ok(PreparedRequest { request: self, ids, boundaries, options: own })
    }
}

proof fn lemma_stable_in_turns(messages: Seq<Tree>)
    ensures
        before_user(messages).is_prefix_of(turns(messages)),
    decreases messages.len(),
{
    if messages.len() > 0 {
        lemma_stable_in_turns(messages.drop_last());
        let shorter = turns(messages.drop_last());
        let all = turns(messages);
        assert(all == shorter + turn(messages.last()));
        if !prompt::from_user(messages.last()) {
            let b = before_user(messages);
            assert(b =~= shorter.subrange(0, b.len() as int));
            assert(all.subrange(0, b.len() as int) =~= b);
        } else {
            assert(all.subrange(0, shorter.len() as int) =~= shorter);
        }
    }
}

/// Of a conversation's prompt, what stands before the last user message begins what the
/// messages show, and that begins the prompt.
pub proof fn law_prefixes_nested(v: Tree, defaults: Defaults, request: Request)
    requires
        parsed(v, ApiKind::Chat, defaults, Ok(request)),
    ensures
        request.stable_prefix@.is_prefix_of(request.message_prefix@),
        request.message_prefix@.is_prefix_of(request.prompt@),
{
    let messages = json::at(v, "messages"@)->Array_0;
    lemma_stable_in_turns(messages);
    assert(request.prompt@.subrange(0, turns(messages).len() as int) =~= turns(messages));
}

/// Adding messages to a conversation leaves what the earlier ones show at the beginning, so
/// that a stored prefix serves the next turn.
pub proof fn law_conversation_grows_behind(messages: Seq<Tree>, more: Seq<Tree>)
    ensures
        turns(messages).is_prefix_of(turns(messages + more)),
    decreases more.len(),
{
    if more.len() == 0 {
        assert(messages + more =~= messages);
    } else {
        law_conversation_grows_behind(messages, more.drop_last());
        assert((messages + more).drop_last() =~= messages + more.drop_last());
        let a = turns(messages);
        let shorter = turns(messages + more.drop_last());
        assert(turns(messages + more).subrange(0, a.len() as int) =~= shorter.subrange(0, a.len() as int));
    }
}

/// A request that names no parameter gets the defaults.
pub proof fn law_defaults_apply(v: Tree, kind: ApiKind, defaults: Defaults, request: Request)
    requires
        parsed(v, kind, defaults, Ok(request)),
        json::field(v, "max_completion_tokens"@) is None,
        json::field(v, "max_tokens"@) is None,
        json::field(v, "stream"@) is None,
        json::field(v, "stream_options"@) is None,
    ensures
        request.max_tokens == defaults.max_tokens,
        request.stream == defaults.stream,
        request.include_usage == defaults.include_usage,
        request.no_eos == defaults.no_eos,
{
}

/// A prepared request has room in the context for its prompt, output and drafts, and its
/// boundaries lie within the prompt.
pub proof fn law_prepared_fits(
    r: PreparedRequest,
    ids: Seq<u32>,
    stable: Seq<u32>,
    message: Seq<u32>,
    max_ctx: usize,
    drafts: usize,
)
    requires
        runner::budget_fault(ids.len() as usize, r.request.max_tokens, drafts, max_ctx) is None,
        r.ids@ == ids,
        ids.len() <= usize::MAX,
        r.boundaries@ == seq![text::agreement(ids, stable, 0) as usize, text::agreement(ids, message, 0) as usize],
    ensures
        ids.len() + r.request.max_tokens + drafts <= max_ctx,
        r.boundaries@[0] <= ids.len(),
        r.boundaries@[1] <= ids.len(),
{
    assert(ids.take(0) =~= stable.take(0));
    assert(ids.take(0) =~= message.take(0));
    text::law_agreement_is_longest(ids, stable, 0);
    text::law_agreement_is_longest(ids, message, 0);
}

/// Where a request goes.
#[derive(Debug, Clone, Copy, PartialEq, Eq, Structural)]
pub enum Route {
    Health,
    Models,
    Generate(ApiKind),
    Unknown,
}

pub open spec fn route_of(method: Seq<char>, path: Seq<char>) -> Route {
    if method == "GET"@ && path == "/health"@ {
        Route::Health
    } else if method == "GET"@ && path == "/v1/models"@ {
        Route::Models
    } else if method == "POST"@ && path == "/v1/chat/completions"@ {
        Route::Generate(ApiKind::Chat)
    } else if method == "POST"@ && path == "/v1/completions"@ {
        Route::Generate(ApiKind::Completion)
    } else {
        Route::Unknown
    }
}

pub fn route(method: &str, path: &str) -> (r: Route)
    ensures
        r == route_of(method@, path@),
{
    if same(method, "GET") && same(path, "/health") {
        Route::Health
    } else if same(method, "GET") && same(path, "/v1/models") {
        Route::Models
    } else if same(method, "POST") && same(path, "/v1/chat/completions") {
        Route::Generate(ApiKind::Chat)
    } else if same(method, "POST") && same(path, "/v1/completions") {
        Route::Generate(ApiKind::Completion)
    } else {
        Route::Unknown
    }
}

/// An object with one entry.
pub open spec fn one(key: Seq<char>, value: Tree) -> Map<Seq<char>, Tree> {
    Map::<Seq<char>, Tree>::empty().insert(key, value)
}

/// What a health request is answered.
pub fn health_body() -> (r: Json)
    ensures
        r.tree() == Tree::Object(one("status"@, Tree::Text("ok"@))),
{
    Json::object().with("status", Json::text("ok"))
}

/// The one model that is served.
pub open spec fn model_entry() -> Tree {
    Tree::Object(
        one("id"@, Tree::Text(model_text())).insert("object"@, Tree::Text("model"@)).insert(
            "created"@,
            Tree::Number(Num::Unsigned(0)),
        ).insert("owned_by"@, Tree::Text("local"@)),
    )
}

/// What a request for the list of models is answered.
pub fn models_body() -> (r: Json)
    ensures
        r.tree() == Tree::Object(
            one("object"@, Tree::Text("list"@)).insert("data"@, Tree::Array(seq![model_entry()])),
        ),
{
    let entry = Json::object().with("id", Json::text(model_name())).with("object", Json::text("model")).with(
        "created",
        Json::unsigned(0),
    ).with("owned_by", Json::text("local"));
    let mut list: Vec<Json> = Vec::new();
    list.push(entry);
    let data = Json::Array(list);
    assert(data.tree()->Array_0 =~= seq![model_entry()]);
    Json::object().with("object", Json::text("list")).with("data", data)
}

/// What a refused request is answered.
pub open spec fn error_tree(status: u16, message: Seq<char>) -> Tree {
    Tree::Object(
        one(
            "error"@,
            Tree::Object(
                one("message"@, Tree::Text(message)).insert(
                    "type"@,
                    Tree::Text(
                        if status >= 500 {
                            "server_error"@
                        } else {
                            "invalid_request_error"@
                        },
                    ),
                ).insert("param"@, Tree::Null).insert("code"@, Tree::Null),
            ),
        ),
    )
}

pub fn error_body(status: u16, message: &str) -> (r: Json)
    ensures
        r.tree() == error_tree(status, message@),
{
    let kind: &str = if status >= 500 {
        "server_error"
    } else {
        "invalid_request_error"
    };
    let inner = Json::object().with("message", Json::text(message)).with("type", Json::text(kind)).with(
        "param",
        Json::Null,
    ).with("code", Json::Null);
    Json::object().with("error", inner)
}

/// Whether one more connection may be read while so many are.
pub fn admits_reader(active: usize, limit: usize) -> (r: bool)
    ensures
        r == (active < limit),
{
    active < limit
}

/// Reads a generation request's body, or tells why it is no JSON.
pub fn read_body(body: &[u8]) -> (r: Result<Json, String>)
    ensures
        match r {
            Ok(v) => json::json_text(body@) == Ok::<Tree, Seq<char>>(v.tree()),
            Err(m) => json::json_text(body@) matches Err(e) && m@ == "invalid JSON: "@ + e,
        },
{
    match json::parse(body) {
        Ok(v) => Ok(v),
        Err(e) => {
            let mut message: String = "invalid JSON: ".to_owned();
            message.append(e.as_str());
            Err(message)
        },
    }
}

/// Why a connection is turned away before its request is looked at.
#[derive(Debug, Clone, Copy, PartialEq, Eq, Structural)]
pub enum Refusal {
    TooManyConnections,
    UnknownEndpoint,
    QueueFull,
    ModelUnavailable,
}

impl Refusal {
    pub open spec fn code(self) -> u16 {
        if self is UnknownEndpoint {
            404
        } else {
            503
        }
    }

    pub open spec fn text(self) -> Seq<char> {
        match self {
            Refusal::TooManyConnections => "too many connections"@,
            Refusal::UnknownEndpoint => "unknown endpoint"@,
            Refusal::QueueFull => "generation queue is full"@,
            Refusal::ModelUnavailable => "model unavailable"@,
        }
    }

    /// The status that the client gets.
    pub fn status(&self) -> (r: u16)
        ensures
            r == self.code(),
    {
        match self {
            Refusal::UnknownEndpoint => 404,
            _ => 503,
        }
    }

    pub fn message(&self) -> (r: &'static str)
        ensures
            r@ == self.text(),
    {
        match self {
            Refusal::TooManyConnections => "too many connections",
            Refusal::UnknownEndpoint => "unknown endpoint",
            Refusal::QueueFull => "generation queue is full",
            Refusal::ModelUnavailable => "model unavailable",
        }
    }
}

/// A message is shown under its own role, and a developer's as the system's; so two messages are
/// shown under one role only where their roles are equal, or are the system's and a developer's.
pub proof fn law_roles_are_kept(role: Seq<char>, other: Seq<char>)
    ensures
        role == "system"@ || role == "user"@ || role == "assistant"@ ==> shown_role(role) == role,
        role == "developer"@ ==> shown_role(role) == "system"@,
        shown_role(role) == shown_role(other) ==> role == other || ((role == "system"@ || role == "developer"@) && (other
            == "system"@ || other == "developer"@)),
{
    reveal_strlit("system");
    reveal_strlit("user");
    reveal_strlit("assistant");
    reveal_strlit("developer");
    assert("system"@.len() != "developer"@.len());
    assert("user"@.len() != "developer"@.len());
    assert("assistant"@[0] != "developer"@[0]);
}

/// Every message of a conversation stands in the prompt, in its place: behind what the messages
/// before it show, under its role, with its content, between its marks. The prompt ends with the
/// opening of the answer, and shows nothing else.
pub proof fn law_messages_are_shown(v: Tree, defaults: Defaults, request: Request, i: int)
    requires
        parsed(v, ApiKind::Chat, defaults, Ok(request)),
        json::at(v, "messages"@) matches Tree::Array(messages) && 0 <= i < messages.len(),
    ensures
        ({
            let messages = json::at(v, "messages"@)->Array_0;
            let before = turns(messages.take(i));
            let role = json::at(messages[i], "role"@)->Text_0;
            let shown = if role == "developer"@ {
                "system"@
            } else {
                role
            };
            let content = json::at(messages[i], "content"@)->Text_0;
            let through = before + "<|im_start|>"@ + shown + "\n"@ + content + "<|im_end|>\n"@;
            &&& json::at(messages[i], "role"@) is Text
            &&& json::at(messages[i], "content"@) is Text
            &&& through == turns(messages.take(i + 1))
            &&& through.is_prefix_of(request.prompt@)
            &&& i + 1 == messages.len() ==> request.prompt@ == through
                + "<|im_start|>assistant\n<think>\n\n</think>\n\n"@
            &&& i + 1 == messages.len() ==> request.message_prefix@ == through
            &&& i == 0 ==> before.len() == 0
        }),
{
    let messages = json::at(v, "messages"@)->Array_0;
    assert(prompt::showable(messages[i]));
    assert(messages.take(i + 1).drop_last() =~= messages.take(i));
    assert(messages.take(i + 1).last() == messages[i]);
    let part = turns(messages.take(i + 1));
    assert(part =~= turns(messages.take(i)) + "<|im_start|>"@ + shown_role(json::at(messages[i], "role"@)->Text_0)
        + "\n"@ + json::at(messages[i], "content"@)->Text_0 + "<|im_end|>\n"@);
    assert(messages.take(i + 1) + messages.skip(i + 1) =~= messages);
    law_conversation_grows_behind(messages.take(i + 1), messages.skip(i + 1));
    let all = turns(messages);
    assert(part == all.subrange(0, part.len() as int));
    assert(request.prompt@.subrange(0, part.len() as int) =~= part);
    if i + 1 == messages.len() {
        assert(messages.take(i + 1) =~= messages);
    }
    if i == 0 {
        reveal_strlit("");
        assert(messages.take(0) =~= Seq::<Tree>::empty());
    }
}

/// The stable prefix of a conversation is what the messages before its last user message show;
/// without a user message there is none.
pub proof fn law_stable_before_last_user(v: Tree, defaults: Defaults, request: Request, last: int)
    requires
        parsed(v, ApiKind::Chat, defaults, Ok(request)),
        json::at(v, "messages"@) matches Tree::Array(messages) && -1 <= last < messages.len() && (last >= 0 ==> json::at(
            messages[last],
            "role"@,
        ) == Tree::Text("user"@)) && forall|k: int|
            last < k < messages.len() ==> json::at(#[trigger] messages[k], "role"@) != Tree::Text("user"@),
    ensures
        request.stable_prefix@ == if last < 0 {
            Seq::<char>::empty()
        } else {
            turns(json::at(v, "messages"@)->Array_0.take(last))
        },
{
    let messages = json::at(v, "messages"@)->Array_0;
    lemma_last_user(messages, last);
}

proof fn lemma_last_user(messages: Seq<Tree>, last: int)
    requires
        -1 <= last < messages.len(),
        last >= 0 ==> json::at(messages[last], "role"@) == Tree::Text("user"@),
        forall|k: int|
            last < k < messages.len() ==> json::at(#[trigger] messages[k], "role"@) != Tree::Text("user"@),
    ensures
        before_user(messages) == if last < 0 {
            Seq::<char>::empty()
        } else {
            turns(messages.take(last))
        },
    decreases messages.len(),
{
    reveal_strlit("");
    if messages.len() == 0 {
        assert(before_user(messages) =~= Seq::<char>::empty());
    } else if last == messages.len() - 1 {
        assert(messages.drop_last() =~= messages.take(last));
        assert(messages.last() == messages[last]);
    } else {
        assert(messages.last() == messages[messages.len() - 1]);
        lemma_last_user(messages.drop_last(), last);
        if last >= 0 {
            assert(messages.drop_last().take(last) =~= messages.take(last));
        }
    }
}

/// A request is read exactly where it is an object for this model, asks for greedy decoding and
/// for nothing that the engine cannot do, names its output limit, its streaming and its usage as
/// it should, and holds a conversation whose every message can be shown, or a prompt.
pub proof fn law_request_read_exactly(v: Json, kind: ApiKind, defaults: Defaults, r: Result<Request, RequestError>)
    requires
        call_ensures(parse_request, (&v, kind, &defaults), r),
    ensures
        r is Ok <==> {
            let t = v.tree();
            let newer = json::at(t, "max_completion_tokens"@);
            let older = json::at(t, "max_tokens"@);
            let named = if newer is Null {
                older
            } else {
                newer
            };
            let options = json::at(t, "stream_options"@);
            &&& t is Object
            &&& json::at(t, "model"@) is Null || json::at(t, "model"@) == Tree::Text("cherenkov"@)
            &&& json::at(t, "temperature"@) is Null || (json::at(t, "temperature"@) matches Tree::Number(n)
                && json::stands_for(n, 0))
            &&& json::at(t, "top_p"@) is Null || (json::at(t, "top_p"@) matches Tree::Number(n) && json::stands_for(n, 1))
            &&& json::at(t, "n"@) is Null || (json::at(t, "n"@) matches Tree::Number(n) && json::stands_for(n, 1))
            &&& json::at(t, "presence_penalty"@) is Null || (json::at(t, "presence_penalty"@) matches Tree::Number(n)
                && json::stands_for(n, 0))
            &&& json::at(t, "frequency_penalty"@) is Null || (json::at(t, "frequency_penalty"@) matches Tree::Number(n)
                && json::stands_for(n, 0))
            &&& json::at(t, "tools"@) is Null && json::at(t, "tool_choice"@) is Null
            &&& json::at(t, "functions"@) is Null && json::at(t, "function_call"@) is Null
            &&& json::at(t, "stop"@) is Null && json::at(t, "suffix"@) is Null
            &&& json::at(t, "logprobs"@) is Null && json::at(t, "top_logprobs"@) is Null
            &&& json::at(t, "logit_bias"@) is Null
            &&& json::at(t, "response_format"@) is Null || json::at(t, "response_format"@) == Tree::Object(
                Map::<Seq<char>, Tree>::empty().insert("type"@, Tree::Text("text"@)),
            )
            &&& named is Null || (named matches Tree::Number(Num::Unsigned(n)) && 0 < n <= usize::MAX)
            &&& json::field(t, "stream"@) is None || json::at(t, "stream"@) is Bool
            &&& options is Null || (options is Object && (json::field(options, "include_usage"@) is None || json::at(
                options,
                "include_usage"@,
            ) is Bool))
            &&& kind is Completion ==> json::at(t, "prompt"@) is Text
            &&& kind is Chat ==> (json::at(t, "messages"@) matches Tree::Array(messages) && messages.len() > 0
                && forall|i: int|
                #![trigger messages[i]]
                0 <= i < messages.len() ==> {
                    let role = json::at(messages[i], "role"@);
                    &&& role == Tree::Text("system"@) || role == Tree::Text("developer"@) || role == Tree::Text(
                        "user"@,
                    ) || role == Tree::Text("assistant"@)
                    &&& json::at(messages[i], "content"@) is Text
                    &&& json::at(messages[i], "tool_calls"@) is Null
                })
        },
{
    let t = v.tree();
    let greedy = greedy_keys();
    let banned = unsupported_keys();
    assert(greedy[0] == ("temperature", false) && greedy[1] == ("top_p", true) && greedy[2] == ("n", true));
    assert(greedy[3] == ("presence_penalty", false) && greedy[4] == ("frequency_penalty", false));
    assert(banned[0] == "tools" && banned[1] == "tool_choice" && banned[2] == "functions");
    assert(banned[3] == "function_call" && banned[4] == "stop" && banned[5] == "logprobs");
    assert(banned[6] == "top_logprobs" && banned[7] == "logit_bias" && banned[8] == "suffix");
    if json::at(t, "messages"@) is Array {
        let messages = json::at(t, "messages"@)->Array_0;
        if kind is Chat && r is Ok {
            assert forall|i: int| #![trigger messages[i]] 0 <= i < messages.len() implies prompt::showable(messages[i]) by {}
        }
    }
}

/// The newer name of the output limit counts before the older, and the default where neither is
/// given; streaming and usage are what the request says, and else the defaults.
pub proof fn law_request_settings(v: Json, kind: ApiKind, defaults: Defaults, request: Request)
    requires
        call_ensures(parse_request, (&v, kind, &defaults), Ok(request)),
    ensures
        ({
            let t = v.tree();
            let newer = json::at(t, "max_completion_tokens"@);
            let older = json::at(t, "max_tokens"@);
            let options = json::at(t, "stream_options"@);
            &&& !(newer is Null) ==> newer == Tree::Number(Num::Unsigned(request.max_tokens as u64))
            &&& newer is Null && !(older is Null) ==> older == Tree::Number(Num::Unsigned(request.max_tokens as u64))
            &&& newer is Null && older is Null ==> request.max_tokens == defaults.max_tokens
            &&& json::field(t, "stream"@) is None ==> request.stream == defaults.stream
            &&& json::field(t, "stream"@) is Some ==> json::at(t, "stream"@) == Tree::Bool(request.stream)
            &&& options is Null || json::field(options, "include_usage"@) is None ==> request.include_usage
                == defaults.include_usage
            &&& !(options is Null) && json::field(options, "include_usage"@) is Some ==> json::at(
                options,
                "include_usage"@,
            ) == Tree::Bool(request.include_usage)
            &&& request.no_eos == defaults.no_eos
            &&& kind is Completion ==> json::at(t, "prompt"@) == Tree::Text(request.prompt@)
            &&& kind is Completion ==> request.stable_prefix@.len() == 0 && request.message_prefix@.len() == 0
        }),
{
    reveal_strlit("");
}

/// A refused request's error names what is wrong with it.
pub proof fn law_request_errors(v: Json, kind: ApiKind, defaults: Defaults, e: RequestError)
    requires
        call_ensures(parse_request, (&v, kind, &defaults), Err(e)),
    ensures
        match e {
            RequestError::NotObject => !(v.tree() is Object),
            RequestError::Model => !(json::at(v.tree(), "model"@) is Null) && json::at(v.tree(), "model"@) != Tree::Text(
                "cherenkov"@,
            ),
            RequestError::Greedy(key, one) => !(json::at(v.tree(), key@) is Null) && !(json::at(v.tree(), key@) matches Tree::Number(
                n,
            ) && json::stands_for(
                n,
                if one {
                    1
                } else {
                    0
                },
            )),
            RequestError::Unsupported(key) => !(json::at(v.tree(), key@) is Null),
            RequestError::ResponseFormat => !(json::at(v.tree(), "response_format"@) is Null),
            RequestError::MaxTokens => !(json::at(v.tree(), "max_completion_tokens"@) is Null) || !(json::at(
                v.tree(),
                "max_tokens"@,
            ) is Null),
            RequestError::Stream => json::field(v.tree(), "stream"@) is Some && !(json::at(v.tree(), "stream"@) is Bool),
            RequestError::StreamOptions => !(json::at(v.tree(), "stream_options"@) is Null) && !(json::at(
                v.tree(),
                "stream_options"@,
            ) is Object),
            RequestError::IncludeUsage => json::field(json::at(v.tree(), "stream_options"@), "include_usage"@) is Some
                && !(json::at(json::at(v.tree(), "stream_options"@), "include_usage"@) is Bool),
            RequestError::Messages => kind is Chat && !(json::at(v.tree(), "messages"@) is Array),
            RequestError::Message(_) => kind is Chat && json::at(v.tree(), "messages"@) is Array,
            RequestError::Prompt => kind is Completion && !(json::at(v.tree(), "prompt"@) is Text),
            RequestError::OutputPolicy => false,
            RequestError::Budget(_) => false,
        },
{
}

/// A request is prepared exactly where its output limit is within the policy and prompt, output
/// and drafts fit the context; its boundaries are how many of its first tokens each prefix shares.
pub proof fn law_prepared_exactly(
    request: Request,
    ids: Vec<u32>,
    stable: &[u32],
    message: &[u32],
    options: Options,
    max_output_tokens: usize,
    r: Result<PreparedRequest, RequestError>,
)
    requires
        call_ensures(Request::prepare, (request, ids, stable, message, &options, max_output_tokens), r),
        ids@.len() <= usize::MAX,
    ensures
        r is Ok <==> {
            &&& request.max_tokens <= max_output_tokens
            &&& ids@.len() > 0
            &&& ids@.len() + request.max_tokens + options.drafts <= options.max_ctx
        },
        r matches Err(RequestError::OutputPolicy) ==> request.max_tokens > max_output_tokens,
        r matches Err(e) ==> e is OutputPolicy || e is Budget,
        r matches Ok(p) ==> {
            let first = p.boundaries@[0] as int;
            let second = p.boundaries@[1] as int;
            &&& p.ids@ == ids@
            &&& p.request == request
            &&& p.options == (Options { no_eos: request.no_eos, ..options })
            &&& p.boundaries@.len() == 2
            &&& first <= ids@.len() && first <= stable@.len() && ids@.take(first) == stable@.take(first)
            &&& first == ids@.len() || first == stable@.len() || ids@[first] != stable@[first]
            &&& second <= ids@.len() && second <= message@.len() && ids@.take(second) == message@.take(second)
            &&& second == ids@.len() || second == message@.len() || ids@[second] != message@[second]
        },
{
    assert(ids@.take(0) =~= stable@.take(0));
    assert(ids@.take(0) =~= message@.take(0));
    text::law_agreement_is_longest(ids@, stable@, 0);
    text::law_agreement_is_longest(ids@, message@, 0);
}

/// Each endpoint answers to its own method and path, and nothing else is known.
pub proof fn law_routes_exact(method: &str, path: &str, r: Route)
    requires
        call_ensures(route, (method, path), r),
    ensures
        r is Health <==> method@ == "GET"@ && path@ == "/health"@,
        r is Models <==> method@ == "GET"@ && path@ == "/v1/models"@,
        r == Route::Generate(ApiKind::Chat) <==> method@ == "POST"@ && path@ == "/v1/chat/completions"@,
        r == Route::Generate(ApiKind::Completion) <==> method@ == "POST"@ && path@ == "/v1/completions"@,
{
    reveal_strlit("GET");
    reveal_strlit("POST");
    reveal_strlit("/health");
    reveal_strlit("/v1/models");
    reveal_strlit("/v1/chat/completions");
    reveal_strlit("/v1/completions");
    assert("GET"@.len() == 3 && "POST"@.len() == 4);
    assert("/health"@.len() == 7 && "/v1/models"@.len() == 10);
    assert("/v1/chat/completions"@.len() == 20 && "/v1/completions"@.len() == 15);
}

/// An error's body carries its message as it is, and blames the server exactly for statuses from
/// 500 on.
pub proof fn law_error_body(status: u16, message: &str, r: Json)
    requires
        call_ensures(error_body, (status, message), r),
    ensures
        ({
            let inner = json::at(r.tree(), "error"@);
            &&& json::at(inner, "message"@) == Tree::Text(message@)
            &&& status >= 500 ==> json::at(inner, "type"@) == Tree::Text("server_error"@)
            &&& status < 500 ==> json::at(inner, "type"@) == Tree::Text("invalid_request_error"@)
            &&& json::field(inner, "param"@) == Some(Tree::Null)
            &&& json::field(inner, "code"@) == Some(Tree::Null)
        }),
{
    reveal_strlit("message");
    reveal_strlit("type");
    reveal_strlit("param");
    reveal_strlit("code");
    assert("message"@.len() == 7 && "type"@.len() == 4 && "param"@.len() == 5 && "code"@.len() == 4);
    assert("type"@[0] != "code"@[0]);
}

/// A connection that is turned away gets the status 404 where its endpoint is unknown, and 503
/// where the server has no room or no model.
pub proof fn law_refusal_status(refusal: Refusal, r: u16)
    requires
        call_ensures(Refusal::status, (&refusal,), r),
    ensures
        refusal is UnknownEndpoint ==> r == 404,
        refusal is TooManyConnections || refusal is QueueFull || refusal is ModelUnavailable ==> r == 503,
{
}

/// As many connections are read at once as the limit says.
pub proof fn law_readers_limited(active: usize, limit: usize, r: bool)
    requires
        call_ensures(admits_reader, (active, limit), r),
    ensures
        r <==> active + 1 <= limit,
{
}

} // verus!
