use cherenkov::json::{parse, Json};
use cherenkov::prompt::template::{is_narrow, is_tame};
use cherenkov::prompt::{
    common_prefix, embedded_template, is_known_role, text_messages, ChatTemplate, MessageError, Prompt, PromptError,
};

fn read(text: &str) -> Json {
    parse(text.as_bytes()).unwrap_or_else(|e| panic!("{e}"))
}

fn list(text: &str) -> Vec<Json> {
    match read(text) {
        Json::Array(messages) => messages,
        _ => panic!("not a list"),
    }
}

const TEMPLATE: &str = "{% for m in messages %}<{{ m.role }}>{{ m.content }}</{{ m.role }}>\n{% endfor %}{% if add_generation_prompt %}<assistant>{% endif %}";

#[test]
fn prefixes_end_between_characters() {
    assert_eq!(common_prefix("abc", "abd"), 2);
    assert_eq!(common_prefix("aé", "aè"), 1);
    assert_eq!(common_prefix("aé", "aéx"), 3);
    assert_eq!(common_prefix("", "x"), 0);
}

#[test]
fn raw_prompts_have_no_boundary() {
    let p = Prompt::raw("hello".to_owned());
    assert_eq!(p.text, "hello");
    assert_eq!(p.boundaries, [0, 0]);
}

#[test]
fn boundaries_are_shared_with_the_other_renderings() {
    let p = Prompt::rendered("héllo world<a>".to_owned(), "héllo world", Some("hé!"));
    assert_eq!(p.boundaries, [3, 12]);
    let q = Prompt::rendered("abc".to_owned(), "abd", None);
    assert_eq!(q.boundaries, [0, 2]);
}

#[test]
fn roles_are_known() {
    for role in ["system", "developer", "user", "assistant"] {
        assert!(is_known_role(role));
    }
    assert!(!is_known_role("tool") && !is_known_role("User"));
}

#[test]
fn messages_are_checked() {
    let error = |text: &str| text_messages(&list(text)).err().unwrap();
    assert!(matches!(error("[]"), MessageError::Empty));
    assert!(matches!(error(r#"[{"content":"x"}]"#), MessageError::RoleNotText));
    assert_eq!(error(r#"[{"role":"tool","content":"x"}]"#).message(), "unsupported role tool");
    assert!(matches!(error(r#"[{"role":"user","content":[]}]"#), MessageError::ContentNotText));
    assert_eq!(
        error(r#"[{"role":"user","content":"x","tool_calls":[]}]"#).message(),
        "tool calls are not supported"
    );
    let good = text_messages(&list(r#"[{"role":"developer","content":"x","tool_calls":null}]"#)).unwrap();
    assert_eq!(good[0].text_at("role"), Some("system"));
    assert_eq!(good[0].text_at("content"), Some("x"));
}

#[test]
fn a_chat_is_rendered_with_its_boundaries() {
    let template = ChatTemplate::new(TEMPLATE.to_owned()).unwrap();
    let p = template
        .chat(&list(r#"[{"role":"developer","content":"be brief"},{"role":"user","content":"hi"}]"#))
        .unwrap();
    assert_eq!(p.text, "<system>be brief</system>\n<user>hi</user>\n<assistant>");
    assert_eq!(p.boundaries[0], "<system>be brief</system>\n<user>".len());
    assert_eq!(p.boundaries[1], "<system>be brief</system>\n<user>hi</user>\n".len());
}

#[test]
fn a_single_question_is_a_chat_of_one() {
    let template = ChatTemplate::new(TEMPLATE.to_owned()).unwrap();
    assert_eq!(template.user("why?").unwrap().text, "<user>why?</user>\n<assistant>");
}

#[test]
fn templates_trim_and_know_text_methods() {
    let source = "{% if true %}\n  {{ messages[0].content.strip() }}|{{ messages[0].role.upper() }}\n{% endif %}\n";
    let template = ChatTemplate::new(source.to_owned()).unwrap();
    assert_eq!(template.user("  x ").unwrap().text, "  x|USER\n");
}

#[test]
fn templates_may_raise() {
    let template = ChatTemplate::new("{{ raise_exception('no ' ~ messages[0].content) }}".to_owned()).unwrap();
    let error = template.user("good").err().unwrap();
    assert!(matches!(error, PromptError::Render(_)));
    assert!(error.message().starts_with("chat template: ") && error.message().contains("no good"));
}

#[test]
fn broken_templates_do_not_compile() {
    let error = ChatTemplate::new("{% if %}".to_owned()).err().unwrap();
    assert!(error.message().starts_with("compiling checkpoint chat template: "));
}

#[test]
fn endless_templates_run_out_of_fuel() {
    let source = "{% for a in range(10000) %}{% for b in range(10000) %}x{% endfor %}{% endfor %}";
    let template = ChatTemplate::new(source.to_owned()).unwrap();
    assert!(matches!(template.user("x"), Err(PromptError::Render(_))));
}

#[test]
fn bad_messages_are_not_rendered() {
    let template = ChatTemplate::new(TEMPLATE.to_owned()).unwrap();
    let error = template.chat(&[]).err().unwrap();
    assert_eq!(error.message(), "messages must not be empty");
}

#[test]
fn the_template_file_goes_first() {
    let config: &[u8] = br#"{"chat_template":"config"}"#;
    let own = ChatTemplate::load(Some("file".to_owned()), Some(config)).unwrap().unwrap();
    assert_eq!(own.user("x").unwrap().text, "file");
    let other = ChatTemplate::load(None, Some(config)).unwrap().unwrap();
    assert_eq!(other.user("x").unwrap().text, "config");
    assert!(ChatTemplate::load(None, None).unwrap().is_none());
    assert!(ChatTemplate::load(None, Some(b"{}")).unwrap().is_none());
    let error = ChatTemplate::load(None, Some(b"{")).err().unwrap();
    assert!(error.message().starts_with("reading tokenizer configuration: "));
}

#[test]
fn the_default_of_several_templates_is_taken() {
    let several = read(
        r#"{"chat_template":[{"name":"rag","template":"r"},{"name":"default","template":"d"},{"name":"default","template":"e"}]}"#,
    );
    assert_eq!(embedded_template(&several), Some("d".to_owned()));
    assert_eq!(embedded_template(&read(r#"{"chat_template":"one"}"#)), Some("one".to_owned()));
    assert_eq!(embedded_template(&read(r#"{"chat_template":[]}"#)), None);
    assert_eq!(embedded_template(&read(r#"{"chat_template":[{"name":"default"}]}"#)), None);
    assert_eq!(embedded_template(&read(r#"{"chat_template":7}"#)), None);
}

#[test]
fn templates_that_may_not_end_are_refused() {
    for source in [
        "{{ ''[::-1] }}",
        "{{ messages[0].content[::-1] }}",
        "{{ messages[0].content[:1:-1] }}",
        "{{ messages[0].content[a[1]::n] }}",
        "{% set messages = [] %}{{ messages[::-1]|length }}",
        "{% for messages in [''] %}{{ messages[::-1] }}{% endfor %}",
        "{% macro f(messages) %}{{ messages[::-1] }}{% endmacro %}{{ f('') }}",
        "{{ ns.messages[::-1] }}",
        "{{ 4 is divisibleby(0) }}",
        "{{ [4]|select('divisibleby', 0)|list }}",
        "{{ [4]|map('bat' ~ 'ch', 3)|list }}",
        "{{ 'x'.count('') }}",
        "{{ [1]|batch(9)|list }}",
        "{{ [1]|chain(5, 6)|max }}",
        "{{ [1] * 9 }}",
        "{{ range(1, 2, 3)|list }}",
        "{% for m in messages %}{{ loop.cycle() }}{% endfor %}",
        "{{ messages|sort(attribute='role')|length }}",
        "{% set ns = namespace() %}{% set ns.me = ns %}{{ ns }}",
        "{% raw %}{{{% endraw %}",
        "{{ 'x'|indent(9) }}",
    ] {
        assert!(!is_tame(source), "{source}");
        assert!(matches!(ChatTemplate::new(source.to_owned()), Err(PromptError::Untamed)), "{source}");
    }
    let error = ChatTemplate::load(Some("{{ ''[::-1] }}".to_owned()), None).err().unwrap();
    assert_eq!(error.message(), "chat template: an expression is not supported");
}

#[test]
fn a_conversation_may_be_reversed() {
    let source = "{%- set ns = namespace(last=messages|length - 1) %}{%- for m in messages[::-1] %}{%- if m.role == 'user' %}{%- set ns.last = (messages|length - 1) - loop.index0 %}{%- endif %}{{ m.content }};{%- endfor %}{{ ns.last }}";
    assert!(is_tame(source));
    let template = ChatTemplate::new(source.to_owned()).unwrap();
    let p = template
        .chat(&list(r#"[{"role":"system","content":"s"},{"role":"user","content":"u"}]"#))
        .unwrap();
    assert_eq!(p.text, "u;s;1");
}

#[test]
fn lines_are_bounded() {
    let line = "x".repeat(65534);
    assert!(is_narrow(&line) && is_narrow(&format!("{line}\n{line}")));
    assert!(!is_narrow(&format!("{line}x")));
    let broken = format!("{line}x{{{{ \"");
    assert!(matches!(ChatTemplate::new(broken), Err(PromptError::Untamed)));
    let short = format!("{line}\n{{{{ \"");
    assert!(matches!(ChatTemplate::new(short), Err(PromptError::Compile(_))));
}

#[test]
fn ordinary_templates_are_tame() {
    for source in [
        TEMPLATE,
        "plain * text [::-1]",
        "{# a comment [::-1] #}{{ '[::-1] * ' }}",
        "{{ messages[0].content[1:] }}{{ messages[0].content[::2] }}{{ messages[0].content[:-1] }}",
        "{{ {'a': 1, 'b': messages[0:1]}|length }}",
        "{{ messages|map(attribute='role')|join(', ') }}{{ messages|selectattr('role', 'equalto', 'user')|list|length }}",
        "{{ messages|map('length')|sum }}{{ messages|count }}",
        "{% for i in range(0, messages|length) %}{{ loop.cycle('a', 'b') }}{% endfor %}",
        "{{ messages[0].content.split('</think>')[-1].lstrip() }}",
    ] {
        assert!(is_tame(source), "{source}");
        assert!(ChatTemplate::new(source.to_owned()).is_ok(), "{source}");
    }
    let template = ChatTemplate::new("{{ messages[0].content[::2] }}".to_owned()).unwrap();
    assert_eq!(template.user("abcde").unwrap().text, "ace");
}
