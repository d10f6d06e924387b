//! Chat formatting by the checkpoint's own template, compiled once when the tokenizer loads.

use crate::json;
use crate::json::{Json, Tree};
use crate::text;
use crate::text::same;
use vstd::prelude::*;
use vstd::string::*;
use vstd::utf8::*;

pub mod template;

verus! {

/// How many nested calls a template may make.
pub const RECURSION_LIMIT: usize = 64;

/// How many instructions a template may run.
pub const FUEL: u64 = 1_000_000;

/// A prompt and two lengths in bytes at which a cached prefix of it may end.
#[derive(Debug)]
pub struct Prompt {
    pub text: String,
    /// Safe byte prefixes, checked against the complete rendered prompt.
    pub boundaries: [usize; 2],
}

/// The bytes that two texts have in common at their beginning.
pub open spec fn shared(a: Seq<char>, b: Seq<char>) -> nat {
    encode_utf8(a.take(text::agreement(a, b, 0) as int)).len()
}

/// The longest common beginning of two texts, in bytes.
pub fn common_prefix(a: &str, b: &str) -> (r: usize)
    ensures
        r == shared(a@, b@),
{
    let whole: usize = a.as_bytes().len();
    let first = text::chars_of(a);
    let second = text::chars_of(b);
    let mut i: usize = 0;
    let mut bytes: usize = 0;
    assert(a@.take(0) =~= Seq::<char>::empty());
    while i < first.len() && i < second.len() && first[i] == second[i]
        invariant
            first@ == a@,
            second@ == b@,
            whole == encode_utf8(a@).len(),
            i <= a@.len(),
            text::agreement(a@, b@, i as nat) == text::agreement(a@, b@, 0),
            bytes == encode_utf8(a@.take(i as int)).len(),
        decreases a@.len() - i,
    {
        proof {
            let c = seq![a@[i as int]];
            assert(a@.take(i + 1) =~= a@.take(i as int) + c);
            text::lemma_encoding_joins(a@.take(i as int), c);
            assert(encode_utf8(c) =~= encode_scalar(a@[i as int] as u32)) by {
                assert(encode_utf8(c.drop_first()) =~= Seq::<u8>::empty());
            }
            assert(a@ =~= a@.take(i + 1) + a@.skip(i + 1));
            text::lemma_encoding_joins(a@.take(i + 1), a@.skip(i + 1));
        }
        bytes = bytes + text::width(first[i]);
        i = i + 1;
    }
    bytes
}

impl Prompt {
    /// A text that is sent as it is.
    pub fn raw(text: String) -> (r: Prompt)
        ensures
            r.text@ == text@,
            r.boundaries@ == seq![0usize, 0usize],
    {
        let r = Prompt { text, boundaries: [0, 0] };
        assert(r.boundaries@ =~= seq![0usize, 0usize]);
        r
    }

    /// The prompt of a conversation from its renders: with the answer's opening, without it,
    /// and with the last user message emptied, where there is such a render.
    pub fn rendered(text: String, closed: &str, probe: Option<&str>) -> (r: Prompt)
        ensures
            r.text@ == text@,
            r.boundaries@[0] == (match probe {
                Some(p) => shared(text@, p@),
                None => 0,
            }),
            r.boundaries@[1] == shared(text@, closed@),
    {
        let message_end: usize = common_prefix(text.as_str(), closed);
        let stable_end: usize = match probe {
            Some(p) => common_prefix(text.as_str(), p),
            None => 0,
        };
        Prompt { text, boundaries: [stable_end, message_end] }
    }
}

/// Both boundaries of a rendered prompt are the lengths of beginnings of it that also begin
/// the other render.
pub proof fn law_boundary_is_shared(text: Seq<char>, other: Seq<char>)
    ensures
        exists|n: int|
            0 <= n <= text.len() && n <= other.len() && text.take(n) == #[trigger] other.take(n) && shared(text, other)
                == encode_utf8(text.take(n)).len(),
        shared(text, other) <= encode_utf8(text).len(),
{
    assert(text.take(0) =~= other.take(0));
    text::law_agreement_is_longest(text, other, 0);
    let n = text::agreement(text, other, 0) as int;
    assert(text.take(n) == other.take(n));
    assert(text =~= text.take(n) + text.skip(n));
    text::lemma_encoding_joins(text.take(n), text.skip(n));
}

/// Why a message of a conversation is refused.
#[derive(Debug)]
pub enum MessageError {
    Empty,
    RoleNotText,
    UnsupportedRole(String),
    ContentNotText,
    ToolCalls,
}

impl MessageError {
    pub open spec fn text(self) -> Seq<char> {
        match self {
            MessageError::Empty => "messages must not be empty"@,
            MessageError::RoleNotText => "message role must be a string"@,
            MessageError::UnsupportedRole(role) => "unsupported role "@ + role@,
            MessageError::ContentNotText => "message content must be text"@,
            MessageError::ToolCalls => "tool calls are not supported"@,
        }
    }

    pub fn message(&self) -> (r: String)
        ensures
            r@ == self.text(),
    {
        match self {
            MessageError::Empty => "messages must not be empty".to_owned(),
            MessageError::RoleNotText => "message role must be a string".to_owned(),
            MessageError::UnsupportedRole(role) => {
                let mut out: String = "unsupported role ".to_owned();
                out.append(role.as_str());
                out
            },
            MessageError::ContentNotText => "message content must be text".to_owned(),
            MessageError::ToolCalls => "tool calls are not supported".to_owned(),
        }
    }
}

/// The roles that a message may have.
pub open spec fn known_role(role: Seq<char>) -> bool {
    role == "system"@ || role == "developer"@ || role == "user"@ || role == "assistant"@
}

pub fn is_known_role(role: &str) -> (r: bool)
    ensures
        r == known_role(role@),
{
    same(role, "system") || same(role, "developer") || same(role, "user") || same(role, "assistant")
}

/// A message that a template can show.
pub open spec fn showable(message: Tree) -> bool {
    &&& json::at(message, "role"@) matches Tree::Text(role)
    &&& known_role(role)
    &&& json::at(message, "content"@) is Text
    &&& json::at(message, "tool_calls"@) is Null
}

/// Whether an error is the one that a message gives: the role is looked at first, then the
/// content, then the tool calls.
pub open spec fn refuses(message: Tree, error: MessageError) -> bool {
    match json::at(message, "role"@) {
        Tree::Text(role) => if !known_role(role) {
            error matches MessageError::UnsupportedRole(named) && named@ == role
        } else if !(json::at(message, "content"@) is Text) {
            error is ContentNotText
        } else {
            !(json::at(message, "tool_calls"@) is Null) && error is ToolCalls
        },
        _ => error is RoleNotText,
    }
}

/// A message as templates know it: a developer speaks as the system.
pub open spec fn spoken(message: Tree) -> Tree {
    if json::at(message, "role"@) == Tree::Text("developer"@) {
        Tree::Object(message->Object_0.insert("role"@, Tree::Text("system"@)))
    } else {
        message
    }
}

/// What the messages of a conversation hold.
pub open spec fn trees(messages: Seq<Json>) -> Seq<Tree> {
    messages.map_values(|m: Json| m.tree())
}

/// The messages of a conversation as templates know them, or the first error.
pub fn text_messages(messages: &[Json]) -> (r: Result<Vec<Json>, MessageError>)
    ensures
        match r {
            Ok(out) => {
                &&& messages@.len() > 0
                &&& forall|i: int| 0 <= i < messages@.len() ==> showable(#[trigger] trees(messages@)[i])
                &&& trees(out@) == trees(messages@).map_values(|t: Tree| spoken(t))
            },
            Err(MessageError::Empty) => messages@.len() == 0,
            Err(error) => exists|i: int|
                0 <= i < messages@.len() && refuses(#[trigger] trees(messages@)[i], error) && forall|k: int|
                    0 <= k < i ==> showable(#[trigger] trees(messages@)[k]),
        },
{
    if messages.len() == 0 {
        return Err(MessageError::Empty);
    }
    let ghost all = trees(messages@);
    let mut out: Vec<Json> = Vec::new();
    let mut i: usize = 0;
    while i < messages.len()
        invariant
            i <= messages@.len(),
            0 < messages@.len(),
            all == trees(messages@),
            out@.len() == i,
            forall|k: int| 0 <= k < i ==> showable(#[trigger] all[k]),
            forall|k: int| 0 <= k < i ==> (#[trigger] out@[k]).tree() == spoken(all[k]),
        decreases messages@.len() - i,
    {
        let message: &Json = &messages[i];
        assert(all[i as int] == message.tree());
        let role: &str = match message.text_at("role") {
            Some(role) => role,
            None => {
                assert(refuses(all[i as int], MessageError::RoleNotText));
                return Err(MessageError::RoleNotText);
            },
        };
        if !is_known_role(role) {
            let error = MessageError::UnsupportedRole(role.to_owned());
            assert(refuses(all[i as int], error));
            return Err(error);
        }
        if message.text_at("content").is_none() {
            assert(refuses(all[i as int], MessageError::ContentNotText));
            return Err(MessageError::ContentNotText);
        }
        if !message.null_at("tool_calls") {
            assert(refuses(all[i as int], MessageError::ToolCalls));
            return Err(MessageError::ToolCalls);
        }
        let mut own = message.copy();
        if same(role, "developer") {
            own.put("role", Json::text("system"));
        }
        out.push(own);
        i = i + 1;
    }
    assert(trees(out@) =~= all.map_values(|t: Tree| spoken(t)));
    Ok(out)
}

/// Whether a message is the user's.
pub open spec fn from_user(message: Tree) -> bool {
    json::at(message, "role"@) == Tree::Text("user"@)
}

/// How many messages there are up to the last one of the user, that one counted.
pub open spec fn through_user(messages: Seq<Tree>) -> nat
    decreases messages.len(),
{
    if messages.len() == 0 {
        0
    } else if from_user(messages.last()) {
        messages.len()
    } else {
        through_user(messages.drop_last())
    }
}

/// The conversation up to the last user message, with that message emptied.
pub open spec fn emptied(messages: Seq<Tree>) -> Seq<Tree> {
    let n = through_user(messages) as int;
    messages.take(n).update(
        n - 1,
        Tree::Object(messages[n - 1]->Object_0.insert("content"@, Tree::Text(""@))),
    )
}

/// What a template is rendered with.
pub open spec fn context(messages: Seq<Tree>, answer: bool) -> Tree {
    Tree::Object(
        Map::<Seq<char>, Tree>::empty().insert("messages"@, Tree::Array(messages)).insert(
            "add_generation_prompt"@,
            Tree::Bool(answer),
        ).insert("enable_thinking"@, Tree::Bool(false)),
    )
}

/// What a template environment was made with.
pub struct Setup {
    pub name: Seq<char>,
    pub source: Seq<char>,
    pub raise: Seq<char>,
    pub trim: bool,
    pub recursion: nat,
    pub fuel: nat,
}

/// The template environment of minijinja.
#[verifier::external_type_specification]
#[verifier::external_body]
pub struct ExEnvironment<'source>(minijinja::Environment<'source>);

/// What a template environment holds.
pub uninterp spec fn held(env: minijinja::Environment<'static>) -> Setup;

/// The error's message that `Environment::add_template_owned` gives, if it gives one.
pub uninterp spec fn template_fault(setup: Setup) -> Option<Seq<char>>;

/// What `Template::render` makes of a template and a context, or the error's message.
pub uninterp spec fn rendering(setup: Setup, context: Tree) -> Result<Seq<char>, Seq<char>>;

/// An `Environment` of minijinja that holds one template, compiled by
/// `add_template_owned`, or the error's message. Blocks take their newline and their
/// indentation with them where `trim` says so, Python's methods are answered by
/// `pycompat::unknown_method_callback`, and the function named `raise` fails with its
/// argument. The columns of an error are counted in 16 bits and its bytes in 32, without a test.
#[verifier::external_body]
fn compile(name: &'static str, source: String, raise: &'static str, trim: bool, recursion: usize, fuel: u64) -> (r: Result<
    minijinja::Environment<'static>,
    String,
>)
    requires
        template::narrow(source@),
    ensures
        ({
            let setup = Setup {
                name: name@,
                source: source@,
                raise: raise@,
                trim,
                recursion: recursion as nat,
                fuel: fuel as nat,
            };
            match r {
                Ok(env) => held(env) == setup && template_fault(setup) is None,
                Err(e) => template_fault(setup) == Some(e@),
            }
        }),
{
    let mut env = minijinja::Environment::new();
    env.set_trim_blocks(trim);
    env.set_lstrip_blocks(trim);
    env.set_recursion_limit(recursion);
    env.set_fuel(Some(fuel));
    env.set_unknown_method_callback(minijinja_contrib::pycompat::unknown_method_callback);
    env.add_function(raise, |message: String| -> Result<String, minijinja::Error> {
        Err(minijinja::Error::new(minijinja::ErrorKind::InvalidOperation, message))
    });
    match env.add_template_owned(name, source) {
        Ok(()) => Ok(env),
        Err(e) => Err(e.to_string()),
    }
}

/// Whether a context holds a conversation of at least one message.
pub open spec fn conversation_in(context: Tree) -> bool {
    json::at(context, "messages"@) matches Tree::Array(messages) && messages.len() > 0
}

/// `Template::render` of minijinja on the environment's template: the text, or the error's
/// message. It panics or does not end on some forms; a tame template holds none of them, given
/// that the conversation is not empty. Stack and memory are taken to suffice.
#[verifier::external_body]
fn render_template(env: &minijinja::Environment<'static>, name: &str, context: &serde_json::Value) -> (r: Result<
    String,
    String,
>)
    requires
        held(*env).name == name@,
        template::tame(held(*env).source),
        conversation_in(json::tree_of(*context)),
    ensures
        match r {
            Ok(text) => rendering(held(*env), json::tree_of(*context)) == Ok::<Seq<char>, Seq<char>>(text@),
            Err(e) => rendering(held(*env), json::tree_of(*context)) == Err::<Seq<char>, Seq<char>>(e@),
        },
{
    env.get_template(name).and_then(|t| t.render(context)).map_err(|e| e.to_string())
}

/// Why a conversation has no prompt.
#[derive(Debug)]
pub enum PromptError {
    Config(String),
    Compile(String),
    /// The template's lines are too long, or it may hold a form on which rendering panics or does
    /// not end.
    Untamed,
    Message(MessageError),
    Render(String),
}

impl PromptError {
    pub open spec fn text(self) -> Seq<char> {
        match self {
            PromptError::Config(e) => "reading tokenizer configuration: "@ + e@,
            PromptError::Compile(e) => "compiling checkpoint chat template: "@ + e@,
            PromptError::Untamed => "chat template: an expression is not supported"@,
            PromptError::Message(e) => e.text(),
            PromptError::Render(e) => "chat template: "@ + e@,
        }
    }

    pub fn message(&self) -> (r: String)
        ensures
            r@ == self.text(),
    {
        match self {
            PromptError::Config(e) => {
                let mut out: String = "reading tokenizer configuration: ".to_owned();
                out.append(e.as_str());
                out
            },
            PromptError::Compile(e) => {
                let mut out: String = "compiling checkpoint chat template: ".to_owned();
                out.append(e.as_str());
                out
            },
            PromptError::Untamed => "chat template: an expression is not supported".to_owned(),
            PromptError::Message(e) => e.message(),
            PromptError::Render(e) => {
                let mut out: String = "chat template: ".to_owned();
                out.append(e.as_str());
                out
            },
        }
    }
}

/// A compiled chat template.
pub struct ChatTemplate {
    env: minijinja::Environment<'static>,
}

/// What a chat template is compiled with.
pub open spec fn chat_setup(source: Seq<char>) -> Setup {
    Setup {
        name: "chat"@,
        source,
        raise: "raise_exception"@,
        trim: true,
        recursion: RECURSION_LIMIT as nat,
        fuel: FUEL as nat,
    }
}

impl ChatTemplate {
    pub closed spec fn setup(self) -> Setup {
        held(self.env)
    }

    pub open spec fn wf(self) -> bool {
        self.setup() == chat_setup(self.setup().source) && template::tame(self.setup().source)
    }

    /// What the template makes of a conversation.
    pub open spec fn shows(self, messages: Seq<Tree>, answer: bool) -> Result<Seq<char>, Seq<char>> {
        rendering(self.setup(), context(messages, answer))
    }

    /// Compiles a template. One that is not narrow, does not compile, or is not tame, is refused.
    pub fn new(source: String) -> (r: Result<ChatTemplate, PromptError>)
        ensures
            match r {
                Ok(template) => template.wf() && template.setup().source == source@ && template::narrow(source@)
                    && template_fault(chat_setup(source@)) is None,
                Err(PromptError::Compile(e)) => template::narrow(source@) && template_fault(chat_setup(source@))
                    == Some(e@),
                Err(error) => error is Untamed && (!template::narrow(source@) || (template_fault(
                    chat_setup(source@),
                ) is None && !template::tame(source@))),
            },
    {
        if !template::is_narrow(source.as_str()) {
            return Err(PromptError::Untamed);
        }
        let tame: bool = template::is_tame(source.as_str());
        match compile("chat", source, "raise_exception", true, RECURSION_LIMIT, FUEL) {
            Ok(env) => if tame {
                Ok(ChatTemplate { env })
            } else {
                Err(PromptError::Untamed)
            },
            Err(e) => Err(PromptError::Compile(e)),
        }
    }

    /// The template of a checkpoint: its own file's text or, where there is no such file,
    /// the one that the tokenizer's configuration holds.
    pub fn load(file: Option<String>, config: Option<&[u8]>) -> (r: Result<Option<ChatTemplate>, PromptError>)
        ensures
            match (file, config) {
                (Some(source), _) => opened(r, Ok(Some(source@))),
                (None, None) => opened(r, Ok(None)),
                (None, Some(bytes)) => opened(
                    r,
                    match json::json_text(bytes@) {
                        Ok(tree) => Ok(template_in(tree)),
                        Err(e) => Err(e),
                    },
                ),
            },
    {
        let source: Option<String> = match file {
            Some(source) => Some(source),
            None => match config {
                None => None,
                Some(bytes) => match json::parse(bytes) {
                    Ok(config) => embedded_template(&config),
                    Err(e) => return Err(PromptError::Config(e)),
                },
            },
        };
        match source {
            Some(source) => match ChatTemplate::new(source) {
                Ok(template) => Ok(Some(template)),
                Err(e) => Err(e),
            },
            None => Ok(None),
        }
    }

    fn render(&self, messages: &Vec<Json>, answer: bool) -> (r: Result<String, String>)
        requires
            self.wf(),
            messages@.len() > 0,
        ensures
            match r {
                Ok(text) => self.shows(trees(messages@), answer) == Ok::<Seq<char>, Seq<char>>(text@),
                Err(e) => self.shows(trees(messages@), answer) == Err::<Seq<char>, Seq<char>>(e@),
            },
    {
        let mut list: Vec<Json> = Vec::new();
        let mut i: usize = 0;
        while i < messages.len()
            invariant
                i <= messages@.len(),
                list@.len() == i,
                forall|k: int| 0 <= k < i ==> (#[trigger] list@[k]).tree() == messages@[k].tree(),
            decreases messages@.len() - i,
        {
            list.push(messages[i].copy());
            i = i + 1;
        }
        let array = Json::Array(list);
        assert(array.tree()->Array_0 =~= trees(messages@));
        // Answers come without reasoning; other formatting defaults are the template's.
        let with = Json::object().with("messages", array).with("add_generation_prompt", Json::Bool(answer)).with(
            "enable_thinking",
            Json::Bool(false),
        );
        proof {
            reveal_strlit("messages");
            reveal_strlit("add_generation_prompt");
            reveal_strlit("enable_thinking");
            assert("messages"@.len() != "add_generation_prompt"@.len());
            assert("messages"@.len() != "enable_thinking"@.len());
            assert(conversation_in(with.tree()));
        }
        render_template(&self.env, "chat", &json::outside(&with))
    }

    /// The prompt of one user message.
    pub fn user(&self, content: &str) -> (r: Result<Prompt, PromptError>)
        requires
            self.wf(),
        ensures
            self.answers(seq![user_message(content@)], r),
    {
        let message = Json::object().with("role", Json::text("user")).with("content", Json::text(content));
        let mut messages: Vec<Json> = Vec::new();
        messages.push(message);
        assert(trees(messages@) =~= seq![user_message(content@)]);
        self.chat(messages.as_slice())
    }

    /// What a conversation gives: the first refused message's error, the template's error
    /// or the prompt.
    pub open spec fn answers(self, messages: Seq<Tree>, r: Result<Prompt, PromptError>) -> bool {
        let said = messages.map_values(|t: Tree| spoken(t));
        match r {
            Ok(prompt) => {
                &&& messages.len() > 0
                &&& forall|i: int| 0 <= i < messages.len() ==> showable(#[trigger] messages[i])
                &&& self.shows(said, true) == Ok::<Seq<char>, Seq<char>>(prompt.text@)
                &&& self.shows(said, false) matches Ok(closed) && prompt.boundaries@[1] == shared(prompt.text@, closed)
                &&& prompt.boundaries@[0] == if through_user(said) == 0 {
                    0
                } else {
                    match self.shows(emptied(said), false) {
                        Ok(probe) => shared(prompt.text@, probe),
                        Err(_) => 0,
                    }
                }
            },
            Err(PromptError::Message(MessageError::Empty)) => messages.len() == 0,
            Err(PromptError::Message(error)) => exists|i: int|
                0 <= i < messages.len() && refuses(#[trigger] messages[i], error) && forall|k: int|
                    0 <= k < i ==> showable(#[trigger] messages[k]),
            Err(PromptError::Render(e)) => {
                &&& messages.len() > 0
                &&& forall|i: int| 0 <= i < messages.len() ==> showable(#[trigger] messages[i])
                &&& match self.shows(said, true) {
                    Err(f) => f == e@,
                    Ok(_) => self.shows(said, false) == Err::<Seq<char>, Seq<char>>(e@),
                }
            },
            Err(_) => false,
        }
    }

    /// The prompt of a conversation.
    pub fn chat(&self, messages: &[Json]) -> (r: Result<Prompt, PromptError>)
        requires
            self.wf(),
        ensures
            self.answers(trees(messages@), r),
    {
        let mut said: Vec<Json> = match text_messages(messages) {
            Ok(said) => said,
            Err(error) => return Err(PromptError::Message(error)),
        };
        let ghost all = trees(said@);
        assert(all.len() == said@.len() && all.len() == trees(messages@).len());
        let text: String = match self.render(&said, true) {
            Ok(text) => text,
            Err(e) => return Err(PromptError::Render(e)),
        };
        let closed: String = match self.render(&said, false) {
            Ok(text) => text,
            Err(e) => return Err(PromptError::Render(e)),
        };
        // A render of only the first messages can be invalid: templates may ask for a user
        // message. So the last user message stays, emptied, and only those bytes count that
        // also begin the full prompt.
        let mut n: usize = said.len();
        assert(all.take(n as int) =~= all);
        while n > 0 && !said[n - 1].is_user()
            invariant
                n <= said@.len(),
                all == trees(said@),
                through_user(all.take(n as int)) == through_user(all),
            decreases n,
        {
            assert(all.take(n as int).drop_last() =~= all.take(n - 1));
            n = n - 1;
        }
        let probe: Option<String> = if n == 0 {
            None
        } else {
            proof {
                assert(from_user(all.take(n as int).last()));
                assert(all[n - 1] is Object);
            }
            said.truncate(n);
            assert(trees(said@) =~= all.take(n as int));
            let mut last: Json = said[n - 1].copy();
            last.put("content", Json::text(""));
            said.set(n - 1, last);
            assert(trees(said@) =~= emptied(all));
            match self.render(&said, false) {
                Ok(probe) => Some(probe),
                Err(_) => None,
            }
        };
        match &probe {
            Some(p) => Ok(Prompt::rendered(text, closed.as_str(), Some(p.as_str()))),
            None => Ok(Prompt::rendered(text, closed.as_str(), None)),
        }
    }
}

/// A message of the user.
pub open spec fn user_message(content: Seq<char>) -> Tree {
    Tree::Object(
        Map::<Seq<char>, Tree>::empty().insert("role"@, Tree::Text("user"@)).insert("content"@, Tree::Text(content)),
    )
}

/// Whether a template was loaded from a source, found or not.
pub open spec fn opened(r: Result<Option<ChatTemplate>, PromptError>, source: Result<Option<Seq<char>>, Seq<char>>) -> bool {
    match source {
        Err(e) => r matches Err(PromptError::Config(f)) && f@ == e,
        Ok(None) => r matches Ok(None),
        Ok(Some(s)) => if !template::narrow(s) {
            r matches Err(PromptError::Untamed)
        } else {
            match template_fault(chat_setup(s)) {
                Some(e) => r matches Err(PromptError::Compile(f)) && f@ == e,
                None => if template::tame(s) {
                    r matches Ok(Some(template)) && template.wf() && template.setup().source == s
                } else {
                    r matches Err(PromptError::Untamed)
                },
            }
        },
    }
}

/// Whether a named template is the one for chats without tools.
pub open spec fn default_template(entry: Tree) -> bool {
    json::at(entry, "name"@) == Tree::Text("default"@)
}

/// The text of the first default template of a list.
pub open spec fn first_default(entries: Seq<Tree>) -> Option<Seq<char>>
    decreases entries.len(),
{
    if entries.len() == 0 {
        None
    } else if default_template(entries[0]) {
        match json::at(entries[0], "template"@) {
            Tree::Text(source) => Some(source),
            _ => None,
        }
    } else {
        first_default(entries.drop_first())
    }
}

/// The chat template that a tokenizer's configuration holds: one text, or the default one
/// of a list of named templates.
pub open spec fn template_in(config: Tree) -> Option<Seq<char>> {
    match json::at(config, "chat_template"@) {
        Tree::Text(source) => Some(source),
        Tree::Array(entries) => first_default(entries),
        _ => None,
    }
}

pub fn embedded_template(config: &Json) -> (r: Option<String>)
    ensures
        match r {
            Some(source) => template_in(config.tree()) == Some(source@),
            None => template_in(config.tree()) is None,
        },
{
    match config.get("chat_template") {
        Some(Json::Text(source)) => Some(source.clone()),
        Some(Json::Array(entries)) => {
            let ghost all = json::at(config.tree(), "chat_template"@)->Array_0;
            let mut i: usize = 0;
            assert(all.skip(0) =~= all);
            while i < entries.len()
                invariant
                    i <= entries@.len(),
                    all.len() == entries@.len(),
                    forall|k: int| 0 <= k < entries@.len() ==> #[trigger] all[k] == entries@[k].tree(),
                    first_default(all.skip(i as int)) == first_default(all),
                    template_in(config.tree()) == first_default(all),
                decreases entries@.len() - i,
            {
                assert(all.skip(i as int)[0] == all[i as int]);
                assert(all.skip(i as int).drop_first() =~= all.skip(i + 1));
                let entry: &Json = &entries[i];
                let named: bool = match entry.text_at("name") {
                    Some(name) => same(name, "default"),
                    None => false,
                };
                if named {
                    return match entry.text_at("template") {
                        Some(source) => Some(source.to_owned()),
                        None => None,
                    };
                }
                i = i + 1;
            }
            None
        },
        _ => None,
    }
}

impl Json {
    /// Whether a message is the user's.
    fn is_user(&self) -> (r: bool)
        ensures
            r == from_user(self.tree()),
    {
        match self.text_at("role") {
            Some(role) => same(role, "user"),
            None => false,
        }
    }
}

/// The longest common beginning of two texts ends in front of the first character in which they
/// differ, or where one of them ends, and is told in bytes.
pub proof fn law_common_prefix(a: &str, b: &str, r: usize) -> (n: int)
    requires
        call_ensures(common_prefix, (a, b), r),
    ensures
        0 <= n <= a@.len() && n <= b@.len(),
        a@.take(n) == b@.take(n),
        n == a@.len() || n == b@.len() || a@[n] != b@[n],
        r == encode_utf8(a@.take(n)).len(),
{
    assert(a@.take(0) =~= b@.take(0));
    text::law_agreement_is_longest(a@, b@, 0);
    text::agreement(a@, b@, 0) as int
}

/// A text that is sent as it is has no boundaries but its beginning.
pub proof fn law_raw_prompt(text: String, r: Prompt)
    requires
        call_ensures(Prompt::raw, (text,), r),
    ensures
        r.text@ == text@,
        r.boundaries@ == seq![0usize, 0usize],
{
}

/// The last user message is the one behind which no message is the user's.
proof fn lemma_through_user(messages: Seq<Tree>)
    ensures
        through_user(messages) <= messages.len(),
        through_user(messages) > 0 ==> from_user(messages[through_user(messages) - 1]),
        forall|i: int| through_user(messages) <= i < messages.len() ==> !from_user(#[trigger] messages[i]),
    decreases messages.len(),
{
    if messages.len() > 0 && !from_user(messages.last()) {
        let shorter = messages.drop_last();
        lemma_through_user(shorter);
        assert forall|i: int| through_user(messages) <= i < messages.len() implies !from_user(#[trigger] messages[i]) by {
            if i < shorter.len() {
                assert(shorter[i] == messages[i]);
            }
        }
    }
}

/// A prompt is what the template makes of the messages as they are, with the answer's opening, but
/// that a developer speaks as the system. Its second boundary is the longest beginning that the
/// messages alone begin with; its first is the longest one that the messages up to the last of the
/// user begin with once that message is emptied, and none where no message is the user's.
pub proof fn law_prompt_of_conversation(
    template: ChatTemplate,
    messages: &[Json],
    prompt: Prompt,
    said: Seq<Tree>,
    last: int,
    i: int,
)
    requires
        call_ensures(ChatTemplate::chat, (&template, messages), Ok(prompt)),
        said.len() == messages@.len(),
        forall|k: int|
            0 <= k < said.len() ==> #[trigger] said[k] == if json::at(messages@[k].tree(), "role"@) == Tree::Text(
                "developer"@,
            ) {
                Tree::Object(messages@[k].tree()->Object_0.insert("role"@, Tree::Text("system"@)))
            } else {
                messages@[k].tree()
            },
        -1 <= last < said.len(),
        last >= 0 ==> json::at(said[last], "role"@) == Tree::Text("user"@),
        forall|k: int| last < k < said.len() ==> json::at(#[trigger] said[k], "role"@) != Tree::Text("user"@),
        0 <= i < messages@.len(),
    ensures
        ({
            let role = json::at(messages@[i].tree(), "role"@);
            &&& role == Tree::Text("system"@) || role == Tree::Text("developer"@) || role == Tree::Text("user"@) || role
                == Tree::Text("assistant"@)
            &&& json::at(messages@[i].tree(), "content"@) is Text
            &&& json::at(messages@[i].tree(), "tool_calls"@) is Null
        }),
        rendering(template.setup(), shown(said, true)) == Ok::<Seq<char>, Seq<char>>(prompt.text@),
        ({
            let closed = rendering(template.setup(), shown(said, false));
            &&& closed is Ok
            &&& exists|n: int|
                0 <= n <= prompt.text@.len() && n <= closed->Ok_0.len() && prompt.text@.take(n) == #[trigger] closed->Ok_0.take(
                    n,
                ) && prompt.boundaries@[1] == encode_utf8(prompt.text@.take(n)).len() && (n == prompt.text@.len() || n
                    == closed->Ok_0.len() || prompt.text@[n] != closed->Ok_0[n])
        }),
        last < 0 ==> prompt.boundaries@[0] == 0,
        last >= 0 ==> {
            let empty = Tree::Object(said[last]->Object_0.insert("content"@, Tree::Text(""@)));
            let probe = rendering(template.setup(), shown(said.take(last).push(empty), false));
            &&& probe is Err ==> prompt.boundaries@[0] == 0
            &&& probe is Ok ==> exists|n: int|
                0 <= n <= prompt.text@.len() && n <= probe->Ok_0.len() && prompt.text@.take(n) == #[trigger] probe->Ok_0.take(n)
                    && prompt.boundaries@[0] == encode_utf8(prompt.text@.take(n)).len() && (n == prompt.text@.len() || n
                    == probe->Ok_0.len() || prompt.text@[n] != probe->Ok_0[n])
        },
{
    let trees = trees(messages@);
    assert(showable(trees[i]));
    assert(said =~= trees.map_values(|t: Tree| spoken(t)));
    let closed = template.shows(said, false)->Ok_0;
    let text = prompt.text@;
    assert(shown(said, true) == context(said, true));
    assert(shown(said, false) == context(said, false));
    assert(text.take(0) =~= closed.take(0));
    text::law_agreement_is_longest(text, closed, 0);
    let n = text::agreement(text, closed, 0) as int;
    assert(text.take(n) == closed.take(n));
    lemma_through_user(said);
    let m = through_user(said) as int;
    if last >= 0 {
        assert(from_user(said[last]));
        assert(m == last + 1) by {
            if m <= last {
                assert(!from_user(said[last]));
            }
            if m > last + 1 {
                assert(from_user(said[m - 1]));
            }
        }
        let empty = Tree::Object(said[last]->Object_0.insert("content"@, Tree::Text(""@)));
        assert(emptied(said) =~= said.take(last).push(empty));
        assert(shown(emptied(said), false) == context(emptied(said), false));
        if template.shows(emptied(said), false) is Ok {
            let probe = template.shows(emptied(said), false)->Ok_0;
            assert(text.take(0) =~= probe.take(0));
            text::law_agreement_is_longest(text, probe, 0);
            let n = text::agreement(text, probe, 0) as int;
            assert(text.take(n) == probe.take(n));
        }
    } else {
        if m > 0 {
            assert(from_user(said[m - 1]));
        }
    }
}

/// What a template is told: the messages, whether an answer is to be opened, and that it comes
/// without reasoning.
pub open spec fn shown(messages: Seq<Tree>, answer: bool) -> Tree {
    Tree::Object(
        Map::<Seq<char>, Tree>::empty().insert("messages"@, Tree::Array(messages)).insert(
            "add_generation_prompt"@,
            Tree::Bool(answer),
        ).insert("enable_thinking"@, Tree::Bool(false)),
    )
}

/// A conversation without messages is refused as such, and one that is refused for a message names
/// the fault of the first that has one.
pub proof fn law_refused_message(template: ChatTemplate, messages: &[Json], e: MessageError)
    requires
        call_ensures(ChatTemplate::chat, (&template, messages), Err(PromptError::Message(e))),
    ensures
        e is Empty <==> messages@.len() == 0,
        !(e is Empty) ==> exists|i: int|
            #![trigger messages@[i]]
            0 <= i < messages@.len() && {
                let t = messages@[i].tree();
                match e {
                    MessageError::RoleNotText => !(json::at(t, "role"@) is Text),
                    MessageError::UnsupportedRole(named) => json::at(t, "role"@) == Tree::Text(named@) && named@
                        != "system"@ && named@ != "developer"@ && named@ != "user"@ && named@ != "assistant"@,
                    MessageError::ContentNotText => !(json::at(t, "content"@) is Text),
                    MessageError::ToolCalls => !(json::at(t, "tool_calls"@) is Null),
                    MessageError::Empty => false,
                }
            },
{
    if !(e is Empty) {
        let all = trees(messages@);
        let i = choose|i: int| 0 <= i < all.len() && refuses(#[trigger] all[i], e);
        assert(all[i] == messages@[i].tree());
    }
}

} // verus!
