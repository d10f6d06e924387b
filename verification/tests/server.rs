use cherenkov::config::Defaults;
use cherenkov::json::{self, parse, Json};
use cherenkov::options::Options;
use cherenkov::runner::BudgetError;
use cherenkov::server::{
    admits_reader, error_body, health_body, models_body, parse_request, read_body, route, ApiKind, Refusal, Request,
    RequestError, Route,
};

fn read(text: &str) -> Json {
    parse(text.as_bytes()).unwrap_or_else(|e| panic!("{e}"))
}

fn shown(value: &Json) -> String {
    String::from_utf8(json::write(value).unwrap()).unwrap()
}

fn chat(text: &str) -> Result<Request, RequestError> {
    parse_request(&read(text), ApiKind::Chat, &Defaults::default())
}

fn completion(text: &str) -> Result<Request, RequestError> {
    parse_request(&read(text), ApiKind::Completion, &Defaults::default())
}

fn refused(text: &str) -> String {
    completion(text).err().unwrap().message()
}

#[test]
fn a_chat_becomes_a_prompt_with_nested_prefixes() {
    let r = chat(
        r#"{"model":"cherenkov","messages":[{"role":"developer","content":"S"},{"role":"user","content":"U"}],"max_tokens":7}"#,
    )
    .unwrap();
    let stable = "<|im_start|>system\nS<|im_end|>\n";
    let message = "<|im_start|>system\nS<|im_end|>\n<|im_start|>user\nU<|im_end|>\n";
    assert_eq!(r.stable_prefix, stable);
    assert_eq!(r.message_prefix, message);
    assert_eq!(r.prompt, format!("{message}<|im_start|>assistant\n<think>\n\n</think>\n\n"));
    assert!(r.prompt.starts_with(&r.message_prefix) && r.message_prefix.starts_with(&r.stable_prefix));
    assert_eq!(r.max_tokens, 7);
}

#[test]
fn a_grown_conversation_keeps_its_beginning() {
    let one = chat(r#"{"messages":[{"role":"user","content":"a"}]}"#).unwrap();
    let two = chat(
        r#"{"messages":[{"role":"user","content":"a"},{"role":"assistant","content":"b"},{"role":"user","content":"c"}]}"#,
    )
    .unwrap();
    assert!(two.message_prefix.starts_with(&one.message_prefix));
    assert!(two.stable_prefix.starts_with(&one.message_prefix));
}

#[test]
fn defaults_fill_what_a_request_leaves_open() {
    let defaults = Defaults { max_tokens: 11, no_eos: true, stream: true, include_usage: true };
    let r = parse_request(&read(r#"{"prompt":"x"}"#), ApiKind::Completion, &defaults).unwrap();
    assert_eq!((r.max_tokens, r.no_eos, r.stream, r.include_usage), (11, true, true, true));
    assert_eq!((r.prompt.as_str(), r.stable_prefix.as_str(), r.message_prefix.as_str()), ("x", "", ""));
}

#[test]
fn the_newer_token_limit_goes_first() {
    let r = completion(r#"{"prompt":"x","max_tokens":3,"max_completion_tokens":5}"#).unwrap();
    assert_eq!(r.max_tokens, 5);
    let s = completion(r#"{"prompt":"x","max_tokens":3,"max_completion_tokens":null}"#).unwrap();
    assert_eq!(s.max_tokens, 3);
}

#[test]
fn requests_that_ask_too_much_are_refused() {
    assert!(matches!(completion("[]"), Err(RequestError::NotObject)));
    assert_eq!(refused(r#"{"model":"gpt"}"#), "model must be cherenkov");
    assert_eq!(refused(r#"{"temperature":0.7}"#), "temperature must be 0; this engine uses greedy decoding");
    assert_eq!(refused(r#"{"n":2}"#), "n must be 1; this engine uses greedy decoding");
    for key in ["tools", "tool_choice", "functions", "function_call", "stop", "logprobs", "top_logprobs", "logit_bias", "suffix"] {
        assert_eq!(refused(&format!("{{\"{key}\":1}}")), format!("{key} is not supported"));
    }
    assert_eq!(refused(r#"{"response_format":{"type":"json"}}"#), "only text response_format is supported");
    assert_eq!(refused(r#"{"max_tokens":0}"#), "max_tokens must be a positive integer");
    assert_eq!(refused(r#"{"max_tokens":1.5}"#), "max_tokens must be a positive integer");
    assert_eq!(refused(r#"{"stream":1}"#), "stream must be boolean");
    assert_eq!(refused(r#"{"stream_options":[]}"#), "stream_options must be an object");
    assert_eq!(refused(r#"{"stream_options":{"include_usage":1}}"#), "include_usage must be boolean");
    assert_eq!(refused("{}"), "prompt must be a string");
    assert_eq!(chat("{}").err().unwrap().message(), "messages must be an array");
    assert_eq!(chat(r#"{"messages":[]}"#).err().unwrap().message(), "messages must not be empty");
}

#[test]
fn neutral_settings_are_accepted() {
    let r = completion(
        r#"{"prompt":"x","temperature":0,"top_p":1.0,"n":1,"presence_penalty":0,"frequency_penalty":null,"response_format":{"type":"text"},"stop":null,"stream":true,"stream_options":{"include_usage":true}}"#,
    )
    .unwrap();
    assert!(r.stream && r.include_usage);
}

#[test]
fn prepared_requests_fit() {
    let request = || completion(r#"{"prompt":"x","max_tokens":4}"#).unwrap();
    let options = Options { max_ctx: 10, drafts: 1, ..Options::default() };
    let p = request().prepare(vec![1, 2, 3], &[1, 2], &[1, 2, 9], &options, 100).unwrap();
    assert_eq!(p.ids, vec![1, 2, 3]);
    assert_eq!(p.boundaries, vec![2, 2]);
    assert!(p.ids.len() + p.request.max_tokens + usize::from(p.options.drafts) <= p.options.max_ctx);
    assert!(matches!(
        request().prepare(vec![1], &[], &[], &options, 3),
        Err(RequestError::OutputPolicy)
    ));
    assert!(matches!(
        request().prepare(vec![], &[], &[], &options, 100),
        Err(RequestError::Budget(BudgetError::EmptyPrompt))
    ));
    assert!(matches!(
        request().prepare(vec![1; 6], &[], &[], &options, 100),
        Err(RequestError::Budget(_))
    ));
}

#[test]
fn endpoints_are_routed() {
    assert_eq!(route("GET", "/health"), Route::Health);
    assert_eq!(route("GET", "/v1/models"), Route::Models);
    assert_eq!(route("POST", "/v1/chat/completions"), Route::Generate(ApiKind::Chat));
    assert_eq!(route("POST", "/v1/completions"), Route::Generate(ApiKind::Completion));
    assert_eq!(route("GET", "/v1/completions"), Route::Unknown);
    assert_eq!(route("POST", "/health"), Route::Unknown);
}

#[test]
fn fixed_bodies_are_written() {
    assert_eq!(shown(&health_body()), r#"{"status":"ok"}"#);
    let models = models_body();
    assert_eq!(models.text_at("object"), Some("list"));
    assert_eq!(
        shown(&error_body(400, "no")),
        r#"{"error":{"code":null,"message":"no","param":null,"type":"invalid_request_error"}}"#
    );
    assert_eq!(error_body(503, "x").get("error").unwrap().text_at("type"), Some("server_error"));
}

#[test]
fn bodies_are_read() {
    assert!(read_body(b"{}").is_ok());
    assert!(read_body(b"{").err().unwrap().starts_with("invalid JSON: "));
}

#[test]
fn readers_are_limited() {
    assert!(admits_reader(0, 1));
    assert!(!admits_reader(1, 1));
}

#[test]
fn refusals_have_a_status() {
    assert_eq!(Refusal::UnknownEndpoint.status(), 404);
    assert_eq!(Refusal::QueueFull.status(), 503);
    assert_eq!(Refusal::TooManyConnections.status(), 503);
    assert_eq!(Refusal::ModelUnavailable.status(), 503);
    assert!(!Refusal::QueueFull.message().is_empty());
}
