//! Conversations with a language model.

pub mod openai;

use vstd::arithmetic::div_mod::{
    lemma_fundamental_div_mod, lemma_fundamental_div_mod_converse_mod,
};
use vstd::prelude::*;

use crate::text::{opt_text, same_text, texts};

verus! {

/// A tool call that the model asks for.
#[derive(Debug)]
pub struct ToolCall {
    pub id: Option<String>,
    pub name: String,
    pub args: serde_json::Value,
}

/// What a [`ToolCall`] says.
#[verifier::ext_equal]
pub struct ToolCallView {
    pub id: Option<Seq<char>>,
    pub name: Seq<char>,
    pub args: serde_json::Value,
}

/// What a tool answered to a [`ToolCall`].
#[derive(Debug)]
pub struct ToolResult {
    pub name: String,
    pub id: Option<String>,
    pub content: String,
}

/// What a [`ToolResult`] says.
#[verifier::ext_equal]
pub struct ToolResultView {
    pub name: Seq<char>,
    pub id: Option<Seq<char>>,
    pub content: Seq<char>,
}

/// One message of a conversation.
#[derive(Debug)]
pub enum ChatMessage {
    User(String),
    Model(String),
    ModelToolCalls(Vec<ToolCall>),
    ToolResults(Vec<ToolResult>),
}

/// What a [`ChatMessage`] says.
#[verifier::ext_equal]
pub enum ChatMessageView {
    User(Seq<char>),
    Model(Seq<char>),
    ModelToolCalls(Seq<ToolCallView>),
    ToolResults(Seq<ToolResultView>),
}

impl View for ToolCall {
    type V = ToolCallView;

    open spec fn view(&self) -> ToolCallView {
        ToolCallView { id: opt_text(self.id), name: self.name@, args: self.args }
    }
}

impl View for ToolResult {
    type V = ToolResultView;

    open spec fn view(&self) -> ToolResultView {
        ToolResultView { name: self.name@, id: opt_text(self.id), content: self.content@ }
    }
}

/// What a sequence of tool calls says.
pub open spec fn call_views(calls: Seq<ToolCall>) -> Seq<ToolCallView> {
    Seq::new(calls.len(), |i: int| calls[i]@)
}

/// What a sequence of tool results says.
pub open spec fn result_views(results: Seq<ToolResult>) -> Seq<ToolResultView> {
    Seq::new(results.len(), |i: int| results[i]@)
}

impl View for ChatMessage {
    type V = ChatMessageView;

    open spec fn view(&self) -> ChatMessageView {
        match *self {
            ChatMessage::User(t) => ChatMessageView::User(t@),
            ChatMessage::Model(t) => ChatMessageView::Model(t@),
            ChatMessage::ModelToolCalls(calls) => ChatMessageView::ModelToolCalls(
                call_views(calls@),
            ),
            ChatMessage::ToolResults(results) => ChatMessageView::ToolResults(
                result_views(results@),
            ),
        }
    }
}

/// What a sequence of messages says.
pub open spec fn message_views(messages: Seq<ChatMessage>) -> Seq<ChatMessageView> {
    Seq::new(messages.len(), |i: int| messages[i]@)
}

/// A parameter of a tool.
#[derive(Debug, Clone)]
pub struct ToolParam {
    pub name: String,
    /// The JSON type of the parameter.
    pub kind: String,
    pub description: String,
}

/// What a [`ToolParam`] says.
#[verifier::ext_equal]
pub struct ToolParamView {
    pub name: Seq<char>,
    pub kind: Seq<char>,
    pub description: Seq<char>,
}

/// A tool that the model may call. Its arguments are a JSON object with the
/// given properties, of which those listed in `required` must be there.
#[derive(Debug, Clone)]
pub struct ToolDef {
    pub name: String,
    pub description: String,
    pub properties: Vec<ToolParam>,
    pub required: Vec<String>,
}

/// What a [`ToolDef`] says.
#[verifier::ext_equal]
pub struct ToolDefView {
    pub name: Seq<char>,
    pub description: Seq<char>,
    pub properties: Seq<ToolParamView>,
    pub required: Seq<Seq<char>>,
}

impl View for ToolParam {
    type V = ToolParamView;

    open spec fn view(&self) -> ToolParamView {
        ToolParamView { name: self.name@, kind: self.kind@, description: self.description@ }
    }
}

/// What a sequence of tool parameters says.
pub open spec fn param_views(params: Seq<ToolParam>) -> Seq<ToolParamView> {
    Seq::new(params.len(), |i: int| params[i]@)
}

impl View for ToolDef {
    type V = ToolDefView;

    open spec fn view(&self) -> ToolDefView {
        ToolDefView {
            name: self.name@,
            description: self.description@,
            properties: param_views(self.properties@),
            required: crate::text::texts(self.required@),
        }
    }
}

/// What a sequence of tool definitions says.
pub open spec fn def_views(defs: Seq<ToolDef>) -> Seq<ToolDefView> {
    Seq::new(defs.len(), |i: int| defs[i]@)
}

/// Which language model to use, and with which keys.
#[derive(Debug, Clone)]
pub struct LlmConfig {
    pub provider: String,
    pub rerank_model: String,
    pub api_keys: Vec<String>,
}

/// A provider that can be asked for a completion.
#[derive(Debug, Clone, Copy, PartialEq, Eq, Structural)]
pub enum Provider {
    Google,
    OpenAi,
}

/// A request for a completion: whom to ask, as whom, and what.
#[derive(Debug)]
pub struct Completion {
    pub provider: Provider,
    pub model: String,
    pub api_key: String,
    pub system: String,
    pub user: String,
}

/// What a [`Completion`] says.
#[verifier::ext_equal]
pub struct CompletionView {
    pub provider: Provider,
    pub model: Seq<char>,
    pub api_key: Seq<char>,
    pub system: Seq<char>,
    pub user: Seq<char>,
}

impl View for Completion {
    type V = CompletionView;

    open spec fn view(&self) -> CompletionView {
        CompletionView {
            provider: self.provider,
            model: self.model@,
            api_key: self.api_key@,
            system: self.system@,
            user: self.user@,
        }
    }
}

/// A client of one provider that takes its API keys in turn.
pub struct LlmClient {
    provider: String,
    model: String,
    api_keys: Vec<String>,
    key_cursor: usize,
}

/// What an [`LlmClient`] holds.
#[verifier::ext_equal]
pub struct LlmClientView {
    pub provider: Seq<char>,
    pub model: Seq<char>,
    pub api_keys: Seq<Seq<char>>,
    pub key_cursor: usize,
}

/// The cursor after `cursor`. It starts over when it can count no further.
pub open spec fn advance(cursor: usize) -> usize {
    if cursor == usize::MAX {
        0
    } else {
        (cursor + 1) as usize
    }
}

impl LlmClientView {
    /// There is a key to take.
    pub open spec fn valid(self) -> bool {
        self.api_keys.len() > 0
    }

    /// Which of the keys it is the turn of.
    pub open spec fn turn(self) -> int {
        self.key_cursor as int % self.api_keys.len() as int
    }

    /// The key whose turn it is.
    pub open spec fn key(self) -> Seq<char> {
        self.api_keys[self.turn()]
    }

    /// The client once that key has been taken.
    pub open spec fn key_taken(self) -> LlmClientView {
        LlmClientView { key_cursor: advance(self.key_cursor), ..self }
    }

    /// The client once so many keys have been taken.
    pub open spec fn keys_taken(self, n: nat) -> LlmClientView
        decreases n,
    {
        if n == 0 {
            self
        } else {
            self.keys_taken((n - 1) as nat).key_taken()
        }
    }
}

/// The provider that goes by a name.
pub open spec fn provider_named(name: Seq<char>) -> Option<Provider> {
    if name == "google"@ {
        Some(Provider::Google)
    } else if name == "openai"@ {
        Some(Provider::OpenAi)
    } else {
        None
    }
}

impl LlmClient {
    /// What the client holds.
    pub closed spec fn view(&self) -> LlmClientView {
        LlmClientView {
            provider: self.provider@,
            model: self.model@,
            api_keys: texts(self.api_keys@),
            key_cursor: self.key_cursor,
        }
    }

    /// The client has a key to take.
    pub open spec fn wf(&self) -> bool {
        self@.valid()
    }

    /// Create a new client. Returns None if api_keys is empty.
    pub fn new(config: &LlmConfig) -> (res: Option<Self>)
        ensures
            match res {
                Some(client) => config.api_keys@.len() > 0 && client.wf() && client@ == (
                LlmClientView {
                    provider: config.provider@,
                    model: config.rerank_model@,
                    api_keys: texts(config.api_keys@),
                    key_cursor: 0,
                }),
                None => config.api_keys@.len() == 0,
            },
    {
        if config.api_keys.len() == 0 {
            return None;
        }
        let mut api_keys: Vec<String> = Vec::new();
        let mut i: usize = 0;
        while i < config.api_keys.len()
            invariant
                i <= config.api_keys@.len(),
                api_keys@.len() == i,
                forall|k: int| 0 <= k < i ==> #[trigger] api_keys@[k]@ == config.api_keys@[k]@,
            decreases config.api_keys@.len() - i,
        {
            api_keys.push(config.api_keys[i].clone());
            i += 1;
        }
        assert(texts(api_keys@) =~= texts(config.api_keys@));
        Some(
            LlmClient {
                provider: config.provider.clone(),
                model: config.rerank_model.clone(),
                api_keys,
                key_cursor: 0,
            },
        )
    }

    /// Take the key whose turn it is.
    pub fn next_key(&mut self) -> (res: &str)
        requires
            old(self).wf(),
        ensures
            final(self).wf(),
            final(self)@ == old(self)@.key_taken(),
            res@ == old(self)@.key(),
    {
        let idx: usize = self.key_cursor % self.api_keys.len();
        self.key_cursor = self.key_cursor.wrapping_add(1);
        self.api_keys[idx].as_str()
    }

    /// The request for a completion that goes to the configured LLM provider.
    ///
    /// Each request takes the next key. An unknown provider takes none and is an
    /// error.
    pub fn complete(&mut self, system: &str, user: &str) -> (res: Result<Completion, String>)
        requires
            old(self).wf(),
        ensures
            final(self).wf(),
            match provider_named(old(self)@.provider) {
                Some(provider) => {
                    &&& final(self)@ == old(self)@.key_taken()
                    &&& res matches Ok(call)
                    &&& call@ == CompletionView {
                        provider,
                        model: old(self)@.model,
                        api_key: old(self)@.key(),
                        system: system@,
                        user: user@,
                    }
                },
                None => {
                    &&& final(self)@ == old(self)@
                    &&& res matches Err(e)
                    &&& e@ == "unsupported LLM provider: "@ + old(self)@.provider
                },
            },
    {
        let provider = if same_text(self.provider.as_str(), "google") {
            Provider::Google
        } else if same_text(self.provider.as_str(), "openai") {
            Provider::OpenAi
        } else {
            let mut e: String = "unsupported LLM provider: ".to_owned();
            e.append(self.provider.as_str());
            return Err(e);
        };
        let model = self.model.clone();
        let api_key: String = self.next_key().to_owned();
        Ok(
            Completion { provider, model, api_key, system: system.to_owned(), user: user.to_owned() },
        )
    }
}

proof fn lemma_keys_taken(client: LlmClientView, n: nat)
    requires
        client.key_cursor + n <= usize::MAX,
    ensures
        client.keys_taken(n).key_cursor == client.key_cursor + n,
        client.keys_taken(n).api_keys == client.api_keys,
    decreases n,
{
    if n > 0 {
        lemma_keys_taken(client, (n - 1) as nat);
    }
}

/// Keys are taken round robin: of as many keys in a row as there are, taken while
/// the cursor counts on, each is taken exactly once.
pub proof fn law_keys_take_turns(client: LlmClientView, key: int)
    requires
        client.valid(),
        0 <= key < client.api_keys.len(),
        client.key_cursor + client.api_keys.len() <= usize::MAX,
    ensures
        exists|i: nat|
            i < client.api_keys.len() && #[trigger] client.keys_taken(i).turn() == key,
        forall|i: nat, j: nat|
            i < j < client.api_keys.len() ==> #[trigger] client.keys_taken(i).turn()
                != #[trigger] client.keys_taken(j).turn(),
{
    let cursor = client.key_cursor as int;
    let d = client.api_keys.len() as int;
    let q = cursor / d;
    let r = cursor % d;
    lemma_fundamental_div_mod(cursor, d);
    assert forall|i: nat| i < d implies #[trigger] client.keys_taken(i).turn() == (if r + i < d {
        r + i
    } else {
        r + i - d
    }) by {
        lemma_keys_taken(client, i);
        if r + i < d {
            assert(cursor + i == q * d + (r + i)) by (nonlinear_arith)
                requires
                    cursor == d * q + r,
            ;
            lemma_fundamental_div_mod_converse_mod(cursor + i, d, q, r + i);
        } else {
            assert(cursor + i == (q + 1) * d + (r + i - d)) by (nonlinear_arith)
                requires
                    cursor == d * q + r,
            ;
            lemma_fundamental_div_mod_converse_mod(cursor + i, d, q + 1, r + i - d);
        }
    }
    let i: nat = (if key >= r {
        key - r
    } else {
        key - r + d
    }) as nat;
    assert(client.keys_taken(i).turn() == key);
}

/// The key that is taken is the one at the cursor, counted round the keys, and the cursor
/// moves on by one; nothing else changes.
pub proof fn law_key_at_the_cursor_is_taken(client: LlmClientView)
    requires
        client.valid(),
    ensures
        client.key_cursor < client.api_keys.len() ==> client.key()
            == client.api_keys[client.key_cursor as int],
        client.key() == client.api_keys[client.key_cursor as int % client.api_keys.len() as int],
        client.key_taken().key_cursor == if client.key_cursor == usize::MAX {
            0
        } else {
            client.key_cursor + 1
        },
        client.key_taken().api_keys == client.api_keys,
        client.key_taken().provider == client.provider,
        client.key_taken().model == client.model,
{
    if client.key_cursor < client.api_keys.len() {
        vstd::arithmetic::div_mod::lemma_small_mod(
            client.key_cursor as nat,
            client.api_keys.len(),
        );
    }
}

/// Just the two providers are known, each by its own name.
pub proof fn law_two_providers_are_known(name: Seq<char>)
    ensures
        provider_named("google"@) == Some(Provider::Google),
        provider_named("openai"@) == Some(Provider::OpenAi),
        name != "google"@ && name != "openai"@ ==> provider_named(name) is None,
{
    reveal_strlit("google");
    reveal_strlit("openai");
    assert("google"@[0] == 'g' && "openai"@[0] == 'o');
}

/// Messages say what their parts say: no text, name or id is changed, and nothing is left
/// out or put in another order.
pub proof fn law_messages_say_what_they_hold(
    message: ChatMessage,
    messages: Seq<ChatMessage>,
    call: ToolCall,
    calls: Seq<ToolCall>,
    result: ToolResult,
    results: Seq<ToolResult>,
)
    ensures
        message matches ChatMessage::User(t) ==> message@ == ChatMessageView::User(t@),
        message matches ChatMessage::Model(t) ==> message@ == ChatMessageView::Model(t@),
        message matches ChatMessage::ModelToolCalls(c) ==> message@
            == ChatMessageView::ModelToolCalls(call_views(c@)),
        message matches ChatMessage::ToolResults(r) ==> message@ == ChatMessageView::ToolResults(
            result_views(r@),
        ),
        call@.name == call.name@,
        call@.args == call.args,
        call.id is None ==> call@.id is None,
        call.id is Some ==> call@.id == Some(call.id->0@),
        result@.name == result.name@,
        result@.content == result.content@,
        result.id is None ==> result@.id is None,
        result.id is Some ==> result@.id == Some(result.id->0@),
        message_views(messages).len() == messages.len(),
        forall|i: int|
            0 <= i < messages.len() ==> #[trigger] message_views(messages)[i] == messages[i]@,
        call_views(calls).len() == calls.len(),
        forall|i: int| 0 <= i < calls.len() ==> #[trigger] call_views(calls)[i] == calls[i]@,
        result_views(results).len() == results.len(),
        forall|i: int|
            0 <= i < results.len() ==> #[trigger] result_views(results)[i] == results[i]@,
{
}

/// A request for a completion says what its fields hold.
pub proof fn law_completion_says_what_it_holds(call: Completion)
    ensures
        call@.provider == call.provider,
        call@.model == call.model@,
        call@.api_key == call.api_key@,
        call@.system == call.system@,
        call@.user == call.user@,
{
}

} // verus!
