//! One chat turn: from a question to its answer, through rounds of tool calls.
//!
//! The turn is a machine that is driven by what the model and the retrieval come
//! back with, and says after each such event what to show and what to do next.

use vstd::prelude::*;

use crate::chat::tools::{
    is_error_text, law_retrieval_stays_in_repo, preview, preview_spec, retrieval_ok, run_tool,
    run_tool_spec, system_prompt, system_prompt_spec, tool_defs, tool_defs_spec, tool_summary,
    tool_summary_spec, Retrieval, RetrievalView, ToolStep, ToolStepView,
};
use crate::llm::{
    call_views, def_views, message_views, result_views, ChatMessage, ChatMessageView, ToolCall,
    ToolCallView, ToolDef, ToolResult, ToolResultView,
};
use crate::store::{repo_name, sanitize_repo_name};

verus! {

/// Max tool-calling rounds before the loop gives up (bounds cost per question).
pub const MAX_TURNS: u32 = 8;

pub const CACHE_KEY_PREFIX: &'static str = "repo-chat-";

pub const MODEL_FAILED: &'static str = "LLM request failed: ";

pub const UNFINISHED: &'static str =
    "The assistant could not finish answering (too many tool calls). \
                      Try rephrasing the question.";

/// One event in the chat stream.
#[derive(Debug, Clone)]
pub enum ChatEvent {
    /// The agent is invoking a tool. `summary` is a short human label.
    ToolCall { name: String, summary: String },
    /// A tool finished. `ok` is false when the tool returned an error string.
    ToolResult { name: String, ok: bool, preview: String },
    /// A text delta of the assistant's answer.
    Token { text: String },
    /// The turn finished successfully (final answer fully streamed).
    Done,
    /// The turn failed; `message` is shown inline in the dialog.
    Error { message: String },
}

/// What a [`ChatEvent`] says.
#[verifier::ext_equal]
pub enum ChatEventView {
    ToolCall { name: Seq<char>, summary: Seq<char> },
    ToolResult { name: Seq<char>, ok: bool, preview: Seq<char> },
    Token { text: Seq<char> },
    Done,
    Error { message: Seq<char> },
}

impl View for ChatEvent {
    type V = ChatEventView;

    open spec fn view(&self) -> ChatEventView {
        match *self {
            ChatEvent::ToolCall { name, summary } => ChatEventView::ToolCall {
                name: name@,
                summary: summary@,
            },
            ChatEvent::ToolResult { name, ok, preview } => ChatEventView::ToolResult {
                name: name@,
                ok,
                preview: preview@,
            },
            ChatEvent::Token { text } => ChatEventView::Token { text: text@ },
            ChatEvent::Done => ChatEventView::Done,
            ChatEvent::Error { message } => ChatEventView::Error { message: message@ },
        }
    }
}

/// Something to do at once.
#[derive(Debug, Clone)]
pub enum Effect {
    /// Send an event to the UI.
    Emit(ChatEvent),
    /// Add the finished turn to the conversation.
    Append { conversation_id: String, repo: String, user: String, answer: String },
}

/// What an [`Effect`] says.
#[verifier::ext_equal]
pub enum EffectView {
    Emit(ChatEventView),
    Append {
        conversation_id: Seq<char>,
        repo: Seq<char>,
        user: Seq<char>,
        answer: Seq<char>,
    },
}

impl View for Effect {
    type V = EffectView;

    open spec fn view(&self) -> EffectView {
        match *self {
            Effect::Emit(event) => EffectView::Emit(event@),
            Effect::Append { conversation_id, repo, user, answer } => EffectView::Append {
                conversation_id: conversation_id@,
                repo: repo@,
                user: user@,
                answer: answer@,
            },
        }
    }
}

/// What a sequence of effects says.
pub open spec fn effect_views(effects: Seq<Effect>) -> Seq<EffectView> {
    Seq::new(effects.len(), |i: int| effects[i]@)
}

/// What the turn waits for next.
#[derive(Debug, Clone)]
pub enum Next {
    /// A completion of the messages so far by the model.
    AskModel,
    /// The output of a retrieval.
    Retrieve(Retrieval),
    /// Nothing: the turn is over.
    Stop,
}

/// What a [`Next`] says.
#[verifier::ext_equal]
pub enum NextView {
    AskModel,
    Retrieve(RetrievalView),
    Stop,
}

impl View for Next {
    type V = NextView;

    open spec fn view(&self) -> NextView {
        match *self {
            Next::AskModel => NextView::AskModel,
            Next::Retrieve(r) => NextView::Retrieve(r@),
            Next::Stop => NextView::Stop,
        }
    }
}

/// What to do in answer to an event: the effects in order, then what is next.
#[derive(Debug, Clone)]
pub struct Step {
    pub effects: Vec<Effect>,
    pub next: Next,
}

/// What a [`Step`] says.
#[verifier::ext_equal]
pub struct StepView {
    pub effects: Seq<EffectView>,
    pub next: NextView,
}

impl View for Step {
    type V = StepView;

    open spec fn view(&self) -> StepView {
        StepView { effects: effect_views(self.effects@), next: self.next@ }
    }
}

/// What the world comes back with.
#[derive(Debug)]
pub enum TurnEvent {
    /// The model answered with text.
    Text(String),
    /// The model asks for tool calls.
    ToolCalls(Vec<ToolCall>),
    /// The model could not be asked.
    Failed(String),
    /// A retrieval returned this output.
    Output(String),
}

/// What a [`TurnEvent`] says.
#[verifier::ext_equal]
pub enum TurnEventView {
    Text(Seq<char>),
    ToolCalls(Seq<ToolCallView>),
    Failed(Seq<char>),
    Output(Seq<char>),
}

impl View for TurnEvent {
    type V = TurnEventView;

    open spec fn view(&self) -> TurnEventView {
        match *self {
            TurnEvent::Text(t) => TurnEventView::Text(t@),
            TurnEvent::ToolCalls(calls) => TurnEventView::ToolCalls(call_views(calls@)),
            TurnEvent::Failed(e) => TurnEventView::Failed(e@),
            TurnEvent::Output(out) => TurnEventView::Output(out@),
        }
    }
}

/// Where a turn stands.
#[derive(Debug)]
pub enum Phase {
    /// Waiting for the model.
    Model,
    /// Working through the tool calls of the model; those answered so far have
    /// their results, in order, and the next one waits for a retrieval.
    Tools { calls: Vec<ToolCall>, results: Vec<ToolResult> },
    /// The turn is over.
    Over,
}

/// What a [`Phase`] says.
#[verifier::ext_equal]
pub enum PhaseView {
    Model,
    Tools { calls: Seq<ToolCallView>, results: Seq<ToolResultView> },
    Over,
}

impl View for Phase {
    type V = PhaseView;

    open spec fn view(&self) -> PhaseView {
        match *self {
            Phase::Model => PhaseView::Model,
            Phase::Tools { calls, results } => PhaseView::Tools {
                calls: call_views(calls@),
                results: result_views(results@),
            },
            Phase::Over => PhaseView::Over,
        }
    }
}

/// A chat turn under way.
#[derive(Debug)]
pub struct ChatTurn {
    repo: String,
    conversation_id: String,
    question: String,
    system: String,
    cache_key: String,
    tools: Vec<ToolDef>,
    messages: Vec<ChatMessage>,
    rounds: u32,
    phase: Phase,
}

/// What a [`ChatTurn`] holds.
#[verifier::ext_equal]
pub struct ChatTurnView {
    pub repo: Seq<char>,
    pub conversation_id: Seq<char>,
    pub question: Seq<char>,
    /// What the model is shown, oldest first.
    pub messages: Seq<ChatMessageView>,
    /// Finished rounds of tool calls.
    pub rounds: u32,
    pub phase: PhaseView,
}

impl ChatTurnView {
    /// While the turn is under way, fewer rounds than the limit are finished; while
    /// it waits for retrieval, the calls before are answered and the next one
    /// needs it.
    pub open spec fn valid(self) -> bool {
        match self.phase {
            PhaseView::Model => self.rounds < MAX_TURNS,
            PhaseView::Tools { calls, results } => {
                &&& self.rounds < MAX_TURNS
                &&& results.len() < calls.len()
                &&& answers(calls, results)
                &&& self.waits_for() is Retrieve
            },
            PhaseView::Over => self.rounds <= MAX_TURNS,
        }
    }

    /// Whether the turn waits for an event of this sort.
    pub open spec fn accepts(self, event: TurnEventView) -> bool {
        match event {
            TurnEventView::Output(_) => self.phase is Tools,
            _ => self.phase is Model,
        }
    }

    /// What the turn waits for.
    pub open spec fn waits_for(self) -> NextView {
        match self.phase {
            PhaseView::Model => NextView::AskModel,
            PhaseView::Tools { calls, results } => {
                let call = calls[results.len() as int];
                match run_tool_spec(self.repo, call.name, call.args) {
                    ToolStepView::Retrieve(r) => NextView::Retrieve(r),
                    ToolStepView::Answer { .. } => NextView::Stop,
                }
            },
            PhaseView::Over => NextView::Stop,
        }
    }
}

/// Whether `results` answer the first of `calls`, one by one.
pub open spec fn answers(calls: Seq<ToolCallView>, results: Seq<ToolResultView>) -> bool {
    &&& results.len() <= calls.len()
    &&& forall|i: int|
        0 <= i < results.len() ==> (#[trigger] results[i]).name == calls[i].name && results[i].id
            == calls[i].id
}

/// The event that announces a tool call.
pub open spec fn call_event(call: ToolCallView) -> EffectView {
    EffectView::Emit(
        ChatEventView::ToolCall {
            name: call.name,
            summary: tool_summary_spec(call.name, call.args),
        },
    )
}

/// The event that reports what a tool call was answered.
pub open spec fn result_event(call: ToolCallView, text: Seq<char>, ok: bool) -> EffectView {
    EffectView::Emit(
        ChatEventView::ToolResult { name: call.name, ok, preview: preview_spec(text) },
    )
}

/// The result that the model is shown for a tool call.
pub open spec fn result_of(call: ToolCallView, text: Seq<char>) -> ToolResultView {
    ToolResultView { name: call.name, id: call.id, content: text }
}

/// What the turn fails with.
pub open spec fn failure(message: Seq<char>) -> EffectView {
    EffectView::Emit(ChatEventView::Error { message })
}

/// How far a run over the tool calls gets without retrieval.
#[verifier::ext_equal]
pub struct Advance {
    pub results: Seq<ToolResultView>,
    pub effects: Seq<EffectView>,
    /// What the first call that is not answered yet waits for.
    pub blocked: Option<RetrievalView>,
}

/// Goes on with `calls`, of which the first `results.len()` are answered, up to
/// the first one that needs retrieval.
pub open spec fn advance(
    repo: Seq<char>,
    calls: Seq<ToolCallView>,
    results: Seq<ToolResultView>,
) -> Advance
    decreases calls.len() - results.len(),
{
    if results.len() >= calls.len() {
        Advance { results, effects: Seq::empty(), blocked: None }
    } else {
        let call = calls[results.len() as int];
        match run_tool_spec(repo, call.name, call.args) {
            ToolStepView::Retrieve(r) => Advance {
                results,
                effects: seq![call_event(call)],
                blocked: Some(r),
            },
            ToolStepView::Answer { text, ok } => {
                let rest = advance(repo, calls, results.push(result_of(call, text)));
                Advance {
                    results: rest.results,
                    effects: seq![call_event(call), result_event(call, text, ok)] + rest.effects,
                    blocked: rest.blocked,
                }
            },
        }
    }
}

/// The turn once it is over.
pub open spec fn over(turn: ChatTurnView) -> ChatTurnView {
    ChatTurnView { phase: PhaseView::Over, ..turn }
}

/// What follows from a run over the tool calls: it waits for retrieval, or the
/// round is finished and the model is asked again, up to the limit.
pub open spec fn after_advance(
    turn: ChatTurnView,
    calls: Seq<ToolCallView>,
    run: Advance,
    before: Seq<EffectView>,
) -> (ChatTurnView, StepView) {
    match run.blocked {
        Some(r) => (
            ChatTurnView { phase: PhaseView::Tools { calls, results: run.results }, ..turn },
            StepView { effects: before + run.effects, next: NextView::Retrieve(r) },
        ),
        None => {
            let told = ChatTurnView {
                messages: turn.messages.push(ChatMessageView::ModelToolCalls(calls)).push(
                    ChatMessageView::ToolResults(run.results),
                ),
                rounds: (turn.rounds + 1) as u32,
                ..turn
            };
            if turn.rounds + 1 < MAX_TURNS {
                (
                    ChatTurnView { phase: PhaseView::Model, ..told },
                    StepView { effects: before + run.effects, next: NextView::AskModel },
                )
            } else {
                (
                    over(told),
                    StepView {
                        effects: (before + run.effects).push(failure(UNFINISHED@)),
                        next: NextView::Stop,
                    },
                )
            }
        },
    }
}

/// What becomes of a turn on an event, and what is to be done.
pub open spec fn step_spec(
    turn: ChatTurnView,
    event: TurnEventView,
) -> (ChatTurnView, StepView) {
    match event {
        TurnEventView::Text(text) => if text.len() == 0 {
            (over(turn), StepView { effects: seq![failure(UNFINISHED@)], next: NextView::Stop })
        } else {
            (
                over(turn),
                StepView {
                    effects: seq![
                        EffectView::Append {
                            conversation_id: turn.conversation_id,
                            repo: turn.repo,
                            user: turn.question,
                            answer: text,
                        },
                        EffectView::Emit(ChatEventView::Done),
                    ],
                    next: NextView::Stop,
                },
            )
        },
        TurnEventView::Failed(e) => (
            over(turn),
            StepView { effects: seq![failure(MODEL_FAILED@ + e)], next: NextView::Stop },
        ),
        TurnEventView::ToolCalls(calls) => after_advance(
            turn,
            calls,
            advance(turn.repo, calls, Seq::empty()),
            Seq::empty(),
        ),
        TurnEventView::Output(out) => {
            let calls = turn.phase->calls;
            let results = turn.phase->results;
            let call = calls[results.len() as int];
            after_advance(
                turn,
                calls,
                advance(turn.repo, calls, results.push(result_of(call, out))),
                seq![result_event(call, out, !is_error_text(out))],
            )
        },
    }
}

impl ChatTurn {
    /// What the turn holds.
    pub closed spec fn view(&self) -> ChatTurnView {
        ChatTurnView {
            repo: self.repo@,
            conversation_id: self.conversation_id@,
            question: self.question@,
            messages: message_views(self.messages@),
            rounds: self.rounds,
            phase: self.phase@,
        }
    }

    /// What the model is told is what the repository asks for.
    pub closed spec fn briefed(&self) -> bool {
        &&& self.system@ == system_prompt_spec(self.repo@)
        &&& self.cache_key@ == CACHE_KEY_PREFIX@ + repo_name(self.repo@)
        &&& def_views(self.tools@) == tool_defs_spec()
    }

    /// The turn is valid, and what the model is told is what the repository asks for.
    pub open spec fn wf(&self) -> bool {
        &&& self.briefed()
        &&& self@.valid()
    }

    /// Opens a turn for `message` in conversation `conversation_id` about `repo`,
    /// which goes on from the transcript `history`. The model is to be asked first.
    pub fn begin(
        repo: &str,
        conversation_id: &str,
        message: &str,
        history: Vec<ChatMessage>,
    ) -> (res: ChatTurn)
        ensures
            res.wf(),
            res@ == (ChatTurnView {
                repo: repo@,
                conversation_id: conversation_id@,
                question: message@,
                messages: message_views(history@).push(ChatMessageView::User(message@)),
                rounds: 0,
                phase: PhaseView::Model,
            }),
    {
        let mut cache_key = CACHE_KEY_PREFIX.to_owned();
        cache_key.append(sanitize_repo_name(repo).as_str());
        let mut messages = history;
        messages.push(ChatMessage::User(message.to_owned()));
        assert(message_views(messages@) =~= message_views(history@).push(
            ChatMessageView::User(message@),
        ));
        ChatTurn {
            repo: repo.to_owned(),
            conversation_id: conversation_id.to_owned(),
            question: message.to_owned(),
            system: system_prompt(repo),
            cache_key,
            tools: tool_defs(),
            messages,
            rounds: 0,
            phase: Phase::Model,
        }
    }

    /// The instructions for the model.
    pub fn system(&self) -> (res: &str)
        requires
            self.wf(),
        ensures
            res@ == system_prompt_spec(self@.repo),
    {
        self.system.as_str()
    }

    /// The key under which the provider may cache the conversation's prefix.
    pub fn cache_key(&self) -> (res: &str)
        requires
            self.wf(),
        ensures
            res@ == CACHE_KEY_PREFIX@ + repo_name(self@.repo),
    {
        self.cache_key.as_str()
    }

    /// The tools that the model may call.
    pub fn tools(&self) -> (res: &Vec<ToolDef>)
        requires
            self.wf(),
        ensures
            def_views(res@) == tool_defs_spec(),
    {
        &self.tools
    }

    /// What the model is shown, oldest first.
    pub fn messages(&self) -> (res: &Vec<ChatMessage>)
        ensures
            message_views(res@) == self@.messages,
    {
        &self.messages
    }

    /// Goes on with the tool calls up to the first one that needs retrieval.
    fn advance(
        &mut self,
        calls: Vec<ToolCall>,
        answered: Vec<ToolResult>,
        shown: Vec<Effect>,
    ) -> (res: Step)
        requires
            old(self).wf(),
            !(old(self)@.phase is Over),
            answers(call_views(calls@), result_views(answered@)),
        ensures
            final(self).wf(),
            (final(self)@, res@) == after_advance(
                old(self)@,
                call_views(calls@),
                advance(old(self)@.repo, call_views(calls@), result_views(answered@)),
                effect_views(shown@),
            ),
    {
        let ghost turn = self@;
        let ghost cv = call_views(calls@);
        let ghost first = advance(turn.repo, cv, result_views(answered@));
        let ghost before = effect_views(shown@);
        let mut results = answered;
        let mut effects = shown;
        proof {
            lemma_after_advance(turn, cv, result_views(answered@), before);
        }
        assert(before + first.effects =~= effect_views(effects@) + first.effects);
        while results.len() < calls.len()
            invariant
                *self == *old(self),
                self.wf(),
                self.rounds < MAX_TURNS,
                after_advance(turn, cv, first, before).0.valid(),
                turn == self@,
                cv == call_views(calls@),
                first == advance(turn.repo, cv, result_views(answered@)),
                before == effect_views(shown@),
                results@.len() <= calls@.len(),
                ({
                    let rest = advance(turn.repo, cv, result_views(results@));
                    &&& first.results == rest.results
                    &&& first.blocked == rest.blocked
                    &&& before + first.effects == effect_views(effects@) + rest.effects
                }),
            decreases calls@.len() - results@.len(),
        {
            let ghost rest = advance(turn.repo, cv, result_views(results@));
            let ghost emitted = effects@;
            let ghost done = results@;
            let call = &calls[results.len()];
            assert(cv[results@.len() as int] == call@);
            let summary = tool_summary(call.name.as_str(), &call.args);
            effects.push(
                Effect::Emit(ChatEvent::ToolCall { name: call.name.clone(), summary }),
            );
            assert(effect_views(effects@) =~= effect_views(emitted).push(call_event(call@)));
            match run_tool(self.repo.as_str(), call.name.as_str(), &call.args) {
                ToolStep::Retrieve(r) => {
                    assert(rest.effects =~= seq![call_event(call@)]);
                    assert(effect_views(effects@) =~= before + first.effects);
                    self.phase = Phase::Tools { calls, results };
                    let step = Step { effects, next: Next::Retrieve(r) };
                    proof {
                        let want = after_advance(turn, cv, first, before);
                        assert(rest.results == result_views(done));
                        assert(self.phase@ == PhaseView::Tools { calls: cv, results: first.results });
                        assert(self@ =~= want.0);
                        assert(step@ =~= want.1);
                    }
                    return step;
                },
                ToolStep::Answer { text, ok } => {
                    let event = ChatEvent::ToolResult {
                        name: call.name.clone(),
                        ok,
                        preview: preview(text.as_str()),
                    };
                    let ghost so_far = effects@;
                    effects.push(Effect::Emit(event));
                    assert(effect_views(effects@) =~= effect_views(so_far).push(
                        result_event(call@, text@, ok),
                    ));
                    results.push(answer_to(call, text));
                    proof {
                        assert(result_views(results@) =~= result_views(done).push(
                            result_of(call@, text@),
                        ));
                        let further = advance(turn.repo, cv, result_views(results@));
                        assert(effect_views(effects@) + further.effects =~= effect_views(emitted)
                            + rest.effects);
                    }
                },
            }
        }
        assert(effect_views(effects@) =~= before + first.effects);
        let ghost told = self.messages@;
        let ghost rv = result_views(results@);
        self.messages.push(ChatMessage::ModelToolCalls(calls));
        self.messages.push(ChatMessage::ToolResults(results));
        assert(message_views(self.messages@) =~= message_views(told).push(
            ChatMessageView::ModelToolCalls(cv),
        ).push(ChatMessageView::ToolResults(rv)));
        self.rounds = self.rounds + 1;
        if self.rounds < MAX_TURNS {
            self.phase = Phase::Model;
            Step { effects, next: Next::AskModel }
        } else {
            self.phase = Phase::Over;
            let ghost emitted = effects@;
            effects.push(unfinished());
            assert(effect_views(effects@) =~= effect_views(emitted).push(failure(UNFINISHED@)));
            Step { effects, next: Next::Stop }
        }
    }
}

/// The result that the model is shown for a tool call.
fn answer_to(call: &ToolCall, text: String) -> (res: ToolResult)
    ensures
        res@ == result_of(call@, text@),
{
    let id = match &call.id {
        Some(id) => Some(id.clone()),
        None => None,
    };
    ToolResult { name: call.name.clone(), id, content: text }
}

/// The turn fails because no answer came of it.
fn unfinished() -> (res: Effect)
    ensures
        res@ == failure(UNFINISHED@),
{
    Effect::Emit(ChatEvent::Error { message: UNFINISHED.to_owned() })
}

/// The event for a text delta that the model streams.
pub fn token_event(text: &str) -> (res: ChatEvent)
    ensures
        res@ == (ChatEventView::Token { text: text@ }),
{
    ChatEvent::Token { text: text.to_owned() }
}

/// Run one chat turn on by one event: what to send, whether to add the finished
/// turn to the conversation, and what to wait for next.
pub fn run_chat_turn(turn: &mut ChatTurn, event: TurnEvent) -> (res: Step)
    requires
        old(turn).wf(),
        old(turn)@.accepts(event@),
    ensures
        final(turn).wf(),
        (final(turn)@, res@) == step_spec(old(turn)@, event@),
{
    match event {
        TurnEvent::Text(text) => {
            turn.phase = Phase::Over;
            if text.as_str().is_empty() {
                let effects = vec![unfinished()];
                assert(effect_views(effects@) =~= seq![failure(UNFINISHED@)]);
                return Step { effects, next: Next::Stop };
            }
            let append = Effect::Append {
                conversation_id: turn.conversation_id.clone(),
                repo: turn.repo.clone(),
                user: turn.question.clone(),
                answer: text,
            };
            let effects = vec![append, Effect::Emit(ChatEvent::Done)];
            assert(effect_views(effects@) =~= step_spec(old(turn)@, event@).1.effects);
            Step { effects, next: Next::Stop }
        },
        TurnEvent::Failed(e) => {
            turn.phase = Phase::Over;
            let mut message = MODEL_FAILED.to_owned();
            message.append(e.as_str());
            let effects = vec![Effect::Emit(ChatEvent::Error { message })];
            assert(effect_views(effects@) =~= seq![failure(MODEL_FAILED@ + e@)]);
            Step { effects, next: Next::Stop }
        },
        TurnEvent::ToolCalls(calls) => {
            let results: Vec<ToolResult> = Vec::new();
            let effects: Vec<Effect> = Vec::new();
            assert(result_views(results@) =~= Seq::<ToolResultView>::empty());
            assert(effect_views(effects@) =~= Seq::<EffectView>::empty());
            turn.advance(calls, results, effects)
        },
        TurnEvent::Output(out) => {
            let mut phase = Phase::Model;
            std::mem::swap(&mut phase, &mut turn.phase);
            match phase {
                Phase::Tools { calls, results } => {
                    let mut results = results;
                    let ghost answered = results@;
                    let call = &calls[results.len()];
                    assert(call_views(calls@)[answered.len() as int] == call@);
                    let ok = retrieval_ok(out.as_str());
                    let event = ChatEvent::ToolResult {
                        name: call.name.clone(),
                        ok,
                        preview: preview(out.as_str()),
                    };
                    let effects = vec![Effect::Emit(event)];
                    assert(effect_views(effects@) =~= seq![result_event(call@, out@, ok)]);
                    results.push(answer_to(call, out));
                    assert(result_views(results@) =~= result_views(answered).push(
                        result_of(call@, out@),
                    ));
                    proof {
                        let rv = result_views(results@);
                        assert forall|i: int| 0 <= i < rv.len() implies (#[trigger] rv[i]).name
                            == call_views(calls@)[i].name && rv[i].id == call_views(calls@)[i].id by {
                            if i < answered.len() {
                                assert(rv[i] == result_views(answered)[i]);
                            }
                        }
                    }
                    turn.advance(calls, results, effects)
                },
                _ => {
                    assert(false);
                    Step { effects: Vec::new(), next: Next::Stop }
                },
            }
        },
    }
}

proof fn lemma_advance(
    repo: Seq<char>,
    calls: Seq<ToolCallView>,
    results: Seq<ToolResultView>,
)
    requires
        answers(calls, results),
    ensures
        ({
            let run = advance(repo, calls, results);
            &&& answers(calls, run.results)
            &&& results.is_prefix_of(run.results)
            &&& match run.blocked {
                Some(r) => {
                    &&& run.results.len() < calls.len()
                    &&& run_tool_spec(
                        repo,
                        calls[run.results.len() as int].name,
                        calls[run.results.len() as int].args,
                    ) == ToolStepView::Retrieve(r)
                },
                None => run.results.len() == calls.len(),
            }
            &&& forall|i: int|
                0 <= i < run.effects.len() ==> #[trigger] run.effects[i] is Emit && (
                run.effects[i]->Emit_0 is ToolCall || run.effects[i]->Emit_0 is ToolResult)
        }),
    decreases calls.len() - results.len(),
{
    if results.len() < calls.len() {
        let call = calls[results.len() as int];
        match run_tool_spec(repo, call.name, call.args) {
            ToolStepView::Retrieve(_) => {},
            ToolStepView::Answer { text, ok } => {
                let more = results.push(result_of(call, text));
                assert forall|i: int| 0 <= i < more.len() implies (#[trigger] more[i]).name
                    == calls[i].name && more[i].id == calls[i].id by {
                    if i < results.len() {
                        assert(more[i] == results[i]);
                    }
                }
                lemma_advance(repo, calls, more);
                let rest = advance(repo, calls, more);
                let run = advance(repo, calls, results);
                assert(run.results.subrange(0, results.len() as int) =~= results) by {
                    assert(rest.results.subrange(0, more.len() as int) == more);
                    assert forall|i: int| 0 <= i < results.len() implies rest.results[i]
                        == results[i] by {
                        assert(rest.results.subrange(0, more.len() as int)[i] == more[i]);
                    }
                }
                assert forall|i: int| 0 <= i < run.effects.len() implies #[trigger]
                    run.effects[i] is Emit && (run.effects[i]->Emit_0 is ToolCall
                    || run.effects[i]->Emit_0 is ToolResult) by {
                    if i >= 2 {
                        assert(run.effects[i] == rest.effects[i - 2]);
                    }
                }
            },
        }
    }
}

proof fn lemma_after_advance(
    turn: ChatTurnView,
    calls: Seq<ToolCallView>,
    results: Seq<ToolResultView>,
    before: Seq<EffectView>,
)
    requires
        turn.rounds < MAX_TURNS,
        answers(calls, results),
    ensures
        ({
            let run = advance(turn.repo, calls, results);
            let after = after_advance(turn, calls, run, before);
            &&& after.0.valid()
            &&& after.1.next == after.0.waits_for()
        }),
{
    lemma_advance(turn.repo, calls, results);
}

/// Whether an effect ends the stream.
pub open spec fn is_verdict(effect: EffectView) -> bool {
    effect is Emit && (effect->Emit_0 is Done || effect->Emit_0 is Error)
}

/// A valid turn stays valid, and the step says what the turn then waits for.
pub proof fn law_step_keeps_valid(turn: ChatTurnView, event: TurnEventView)
    requires
        turn.valid(),
        turn.accepts(event),
    ensures
        step_spec(turn, event).0.valid(),
        step_spec(turn, event).1.next == step_spec(turn, event).0.waits_for(),
{
    match event {
        TurnEventView::ToolCalls(calls) => {
            lemma_after_advance(turn, calls, Seq::empty(), Seq::empty());
        },
        TurnEventView::Output(out) => {
            let calls = turn.phase->calls;
            let results = turn.phase->results;
            let call = calls[results.len() as int];
            lemma_answered(calls, results, out);
            lemma_after_advance(
                turn,
                calls,
                results.push(result_of(call, out)),
                seq![result_event(call, out, !is_error_text(out))],
            );
        },
        _ => {},
    }
}

proof fn lemma_answered(calls: Seq<ToolCallView>, results: Seq<ToolResultView>, out: Seq<char>)
    requires
        answers(calls, results),
        results.len() < calls.len(),
    ensures
        answers(calls, results.push(result_of(calls[results.len() as int], out))),
{
    let more = results.push(result_of(calls[results.len() as int], out));
    assert forall|i: int| 0 <= i < more.len() implies (#[trigger] more[i]).name == calls[i].name
        && more[i].id == calls[i].id by {
        if i < results.len() {
            assert(more[i] == results[i]);
        }
    }
}

/// A turn never ends in silence: the step that stops it ends with `Done` or
/// `Error`, and nothing before that does. The turn is added to the conversation
/// just before `Done`, and in no other case.
pub proof fn law_turn_ends_with_one_verdict(turn: ChatTurnView, event: TurnEventView)
    requires
        turn.valid(),
        turn.accepts(event),
    ensures
        ({
            let step = step_spec(turn, event).1;
            let n = step.effects.len();
            &&& step.next is Stop <==> step_spec(turn, event).0.phase is Over
            &&& step.next is Stop ==> n > 0 && is_verdict(step.effects[n - 1])
            &&& forall|i: int|
                0 <= i < n && is_verdict(#[trigger] step.effects[i]) ==> i == n - 1 && step.next is Stop
            &&& forall|i: int|
                0 <= i < n && #[trigger] step.effects[i] is Append ==> i == n - 2 && step.effects[n
                    - 1] == EffectView::Emit(ChatEventView::Done)
            &&& step.effects.contains(EffectView::Emit(ChatEventView::Done)) ==> n == 2
                && step.effects[0] == (EffectView::Append {
                conversation_id: turn.conversation_id,
                repo: turn.repo,
                user: turn.question,
                answer: event->Text_0,
            })
        }),
{
    let step = step_spec(turn, event).1;
    match event {
        TurnEventView::ToolCalls(calls) => {
            lemma_advance(turn.repo, calls, Seq::empty());
            let run = advance(turn.repo, calls, Seq::empty());
            assert(Seq::<EffectView>::empty() + run.effects =~= run.effects);
        },
        TurnEventView::Output(out) => {
            let calls = turn.phase->calls;
            let results = turn.phase->results;
            let call = calls[results.len() as int];
            lemma_answered(calls, results, out);
            let more = results.push(result_of(call, out));
            lemma_advance(turn.repo, calls, more);
            let run = advance(turn.repo, calls, more);
            let first = result_event(call, out, !is_error_text(out));
            assert forall|i: int| 0 <= i < (seq![first] + run.effects).len() implies !is_verdict(
                #[trigger] (seq![first] + run.effects)[i],
            ) && !((seq![first] + run.effects)[i] is Append) by {
                if i > 0 {
                    assert((seq![first] + run.effects)[i] == run.effects[i - 1]);
                }
            }
        },
        _ => {},
    }
}

/// The tools of a turn are locked to its repository: whatever the model asks
/// for, a retrieval that the turn waits for reads that repository.
pub proof fn law_turn_stays_in_repo(turn: ChatTurnView, event: TurnEventView)
    requires
        turn.valid(),
        turn.accepts(event),
    ensures
        step_spec(turn, event).0.repo == turn.repo,
        step_spec(turn, event).1.next matches NextView::Retrieve(r) ==> r.repo() == turn.repo,
{
    law_step_keeps_valid(turn, event);
    let after = step_spec(turn, event).0;
    if after.phase is Tools {
        let call = after.phase->calls[after.phase->results.len() as int];
        law_retrieval_stays_in_repo(turn.repo, call.name, call.args);
    }
}

/// When a round of tool calls is finished, the model is shown its calls and then
/// one result for each of them, in order and under the same name and id; and
/// nothing that it was shown before is changed.
pub proof fn law_every_call_is_answered(turn: ChatTurnView, event: TurnEventView)
    requires
        turn.valid(),
        turn.accepts(event),
    ensures
        ({
            let after = step_spec(turn, event).0;
            let n = turn.messages.len() as int;
            if after.rounds == turn.rounds {
                after.messages == turn.messages
            } else {
                &&& after.rounds == turn.rounds + 1
                &&& after.messages.len() == n + 2
                &&& after.messages.take(n) == turn.messages
                &&& after.messages[n] is ModelToolCalls
                &&& after.messages[n + 1] is ToolResults
                &&& answers(
                    after.messages[n]->ModelToolCalls_0,
                    after.messages[n + 1]->ToolResults_0,
                )
                &&& after.messages[n + 1]->ToolResults_0.len()
                    == after.messages[n]->ModelToolCalls_0.len()
            }
        }),
{
    let after = step_spec(turn, event).0;
    let n = turn.messages.len() as int;
    match event {
        TurnEventView::ToolCalls(calls) => {
            lemma_advance(turn.repo, calls, Seq::empty());
        },
        TurnEventView::Output(out) => {
            let calls = turn.phase->calls;
            let results = turn.phase->results;
            lemma_answered(calls, results, out);
            lemma_advance(
                turn.repo,
                calls,
                results.push(result_of(calls[results.len() as int], out)),
            );
        },
        _ => {},
    }
    if after.rounds != turn.rounds {
        assert(after.messages.take(n) =~= turn.messages);
    }
}

/// Whether `events` can come one after the other, from `turn` on.
pub open spec fn possible(turn: ChatTurnView, events: Seq<TurnEventView>) -> bool
    decreases events.len(),
{
    events.len() > 0 ==> turn.accepts(events[0]) && possible(
        step_spec(turn, events[0]).0,
        events.drop_first(),
    )
}

/// How often the model is asked again in the course of `events`.
pub open spec fn asked(turn: ChatTurnView, events: Seq<TurnEventView>) -> nat
    decreases events.len(),
{
    if events.len() == 0 {
        0
    } else {
        let (after, step) = step_spec(turn, events[0]);
        asked(after, events.drop_first()) + if step.next is AskModel {
            1nat
        } else {
            0nat
        }
    }
}

/// A turn asks the model at most eight times, whatever comes back: once to begin
/// with, and then once for each finished round but the last possible one.
pub proof fn law_model_calls_are_bounded(turn: ChatTurnView, events: Seq<TurnEventView>)
    requires
        turn.valid(),
        possible(turn, events),
    ensures
        !(turn.phase is Over) ==> asked(turn, events) + 1 <= MAX_TURNS - turn.rounds,
        turn.phase is Over ==> asked(turn, events) == 0,
    decreases events.len(),
{
    if events.len() > 0 {
        let after = step_spec(turn, events[0]).0;
        law_step_keeps_valid(turn, events[0]);
        law_model_calls_are_bounded(after, events.drop_first());
    }
}

/// The turn once `events` have come, one after the other.
pub open spec fn turn_after(turn: ChatTurnView, events: Seq<TurnEventView>) -> ChatTurnView
    decreases events.len(),
{
    if events.len() == 0 {
        turn
    } else {
        turn_after(step_spec(turn, events[0]).0, events.drop_first())
    }
}

/// All effects in the course of `events`, in order.
pub open spec fn effects_of(turn: ChatTurnView, events: Seq<TurnEventView>) -> Seq<EffectView>
    decreases events.len(),
{
    if events.len() == 0 {
        Seq::empty()
    } else {
        let (after, step) = step_spec(turn, events[0]);
        step.effects + effects_of(after, events.drop_first())
    }
}

/// Whether the last of `events` is an answer: a text that is not empty.
pub open spec fn ends_in_answer(events: Seq<TurnEventView>) -> bool {
    events.len() > 0 && events.last() is Text && events.last()->Text_0.len() > 0
}

/// A step leaves what the turn is about as it is. One that does not end the turn sends
/// no verdict and adds nothing to the conversation; one that does adds the turn and
/// sends `Done` where an answer came, and else adds nothing and sends `Error`.
proof fn lemma_step(turn: ChatTurnView, event: TurnEventView)
    requires
        turn.valid(),
        turn.accepts(event),
    ensures
        ({
            let (after, step) = step_spec(turn, event);
            let n = step.effects.len();
            &&& after.valid()
            &&& after.conversation_id == turn.conversation_id
            &&& after.repo == turn.repo
            &&& after.question == turn.question
            &&& if !(after.phase is Over) {
                forall|i: int|
                    0 <= i < n ==> !is_verdict(#[trigger] step.effects[i]) && !(
                    step.effects[i] is Append)
            } else if event is Text && event->Text_0.len() > 0 {
                step.effects == seq![
                    EffectView::Append {
                        conversation_id: turn.conversation_id,
                        repo: turn.repo,
                        user: turn.question,
                        answer: event->Text_0,
                    },
                    EffectView::Emit(ChatEventView::Done),
                ]
            } else {
                &&& n > 0
                &&& step.effects[n - 1] is Emit
                &&& step.effects[n - 1]->Emit_0 is Error
                &&& forall|i: int|
                    0 <= i < n - 1 ==> !is_verdict(#[trigger] step.effects[i])
                &&& forall|i: int| 0 <= i < n ==> !(#[trigger] step.effects[i] is Append)
            }
        }),
{
    law_step_keeps_valid(turn, event);
    law_turn_ends_with_one_verdict(turn, event);
    let (after, step) = step_spec(turn, event);
    let n = step.effects.len();
    assert forall|i: int|
        0 <= i < n && !(after.phase is Over) implies !is_verdict(#[trigger] step.effects[i]) && !(
    step.effects[i] is Append) by {
        if step.effects[i] is Append {
            assert(is_verdict(step.effects[n - 1]));
        }
    }
}

/// Until a turn is over, its course sends no verdict and adds nothing to the
/// conversation.
pub proof fn law_nothing_is_settled_before_the_end(turn: ChatTurnView, events: Seq<TurnEventView>)
    requires
        turn.valid(),
        possible(turn, events),
        !(turn_after(turn, events).phase is Over),
    ensures
        forall|i: int|
            0 <= i < effects_of(turn, events).len() ==> !is_verdict(
                #[trigger] effects_of(turn, events)[i],
            ) && !(effects_of(turn, events)[i] is Append),
    decreases events.len(),
{
    if events.len() > 0 {
        let (after, step) = step_spec(turn, events[0]);
        let rest = events.drop_first();
        lemma_step(turn, events[0]);
        assert(possible(after, rest));
        if after.phase is Over {
            assert(rest.len() == 0);
        }
        law_nothing_is_settled_before_the_end(after, rest);
        let all = effects_of(turn, events);
        let later = effects_of(after, rest);
        assert forall|i: int| 0 <= i < all.len() implies !is_verdict(#[trigger] all[i]) && !(
        all[i] is Append) by {
            if i < step.effects.len() {
                assert(all[i] == step.effects[i]);
            } else {
                assert(all[i] == later[i - step.effects.len()]);
            }
        }
    }
}

/// Over the whole course of a turn that comes to its end, exactly one `Done` or `Error`
/// is sent, and it comes last. It is `Done` exactly where the last event was an answer.
/// The turn is then added to the conversation, once and just before, with its question
/// and that answer; else nothing is added.
pub proof fn law_course_has_one_verdict(turn: ChatTurnView, events: Seq<TurnEventView>)
    requires
        turn.valid(),
        !(turn.phase is Over),
        possible(turn, events),
        turn_after(turn, events).phase is Over,
    ensures
        ({
            let all = effects_of(turn, events);
            let n = all.len();
            &&& n > 0
            &&& is_verdict(all[n - 1])
            &&& forall|i: int| 0 <= i < n - 1 ==> !is_verdict(#[trigger] all[i])
            &&& all[n - 1] == EffectView::Emit(ChatEventView::Done) <==> ends_in_answer(events)
            &&& forall|i: int|
                0 <= i < n ==> (#[trigger] all[i] is Append <==> ends_in_answer(events) && i == n - 2)
            &&& ends_in_answer(events) ==> n >= 2 && all[n - 2] == (EffectView::Append {
                conversation_id: turn.conversation_id,
                repo: turn.repo,
                user: turn.question,
                answer: events.last()->Text_0,
            })
        }),
    decreases events.len(),
{
    let (after, step) = step_spec(turn, events[0]);
    let rest = events.drop_first();
    let all = effects_of(turn, events);
    let later = effects_of(after, rest);
    let k = step.effects.len();
    lemma_step(turn, events[0]);
    assert(possible(after, rest));
    if after.phase is Over {
        assert(rest.len() == 0);
        assert(later =~= Seq::<EffectView>::empty());
        assert(all =~= step.effects);
    } else {
        assert(rest.len() > 0);
        law_course_has_one_verdict(after, rest);
        assert(rest.last() == events.last());
        let n = all.len();
        assert(all[n - 1] == later[later.len() - 1]);
        assert forall|i: int| 0 <= i < n implies #[trigger] all[i] == (if i < k {
            step.effects[i]
        } else {
            later[i - k]
        }) by {}
        assert forall|i: int| 0 <= i < n - 1 implies !is_verdict(#[trigger] all[i]) by {
            if i < k {
                assert(!is_verdict(step.effects[i]));
            } else {
                assert(!is_verdict(later[i - k]));
            }
        }
        assert forall|i: int| 0 <= i < n implies (#[trigger] all[i] is Append <==> ends_in_answer(
            events,
        ) && i == n - 2) by {
            if i < k {
                assert(!(step.effects[i] is Append));
            } else {
                assert(later[i - k] is Append <==> ends_in_answer(rest) && i - k == later.len()
                    - 2);
            }
        }
    }
}

/// How many of `events` are replies of the model.
pub open spec fn replies(events: Seq<TurnEventView>) -> nat
    decreases events.len(),
{
    if events.len() == 0 {
        0
    } else {
        replies(events.drop_first()) + if events[0] is Output {
            0nat
        } else {
            1nat
        }
    }
}

/// How many of `events` are outputs of a retrieval.
pub open spec fn outputs(events: Seq<TurnEventView>) -> nat
    decreases events.len(),
{
    if events.len() == 0 {
        0
    } else {
        outputs(events.drop_first()) + if events[0] is Output {
            1nat
        } else {
            0nat
        }
    }
}

/// How many tool calls the model asks for in the course of `events`.
pub open spec fn calls_in(events: Seq<TurnEventView>) -> nat
    decreases events.len(),
{
    if events.len() == 0 {
        0
    } else {
        calls_in(events.drop_first()) + match events[0] {
            TurnEventView::ToolCalls(calls) => calls.len(),
            _ => 0,
        }
    }
}

/// How many tool calls of the round under way are not answered yet.
pub open spec fn pending(turn: ChatTurnView) -> int {
    match turn.phase {
        PhaseView::Tools { calls, results } => calls.len() - results.len(),
        _ => 0,
    }
}

/// How many replies of the model the turn has still room for.
pub open spec fn replies_left(turn: ChatTurnView) -> int {
    match turn.phase {
        PhaseView::Model => MAX_TURNS - turn.rounds,
        PhaseView::Tools { .. } => MAX_TURNS - turn.rounds - 1,
        PhaseView::Over => 0,
    }
}

/// A turn comes to its end, whatever comes back: no more replies of the model come than
/// there are rounds left, and no more outputs than tool calls were asked for, so that
/// there is an end to its events.
pub proof fn law_turn_ends(turn: ChatTurnView, events: Seq<TurnEventView>)
    requires
        turn.valid(),
        possible(turn, events),
    ensures
        events.len() == replies(events) + outputs(events),
        replies(events) <= replies_left(turn),
        outputs(events) <= calls_in(events) + pending(turn),
    decreases events.len(),
{
    if events.len() > 0 {
        let after = step_spec(turn, events[0]).0;
        law_step_keeps_valid(turn, events[0]);
        law_turn_ends(after, events.drop_first());
        match events[0] {
            TurnEventView::ToolCalls(calls) => {
                lemma_advance(turn.repo, calls, Seq::empty());
            },
            TurnEventView::Output(out) => {
                let calls = turn.phase->calls;
                let results = turn.phase->results;
                lemma_answered(calls, results, out);
                lemma_advance(
                    turn.repo,
                    calls,
                    results.push(result_of(calls[results.len() as int], out)),
                );
            },
            _ => {},
        }
    }
}

/// The results of the tool calls that are answered: those of the round under way or,
/// where `turn` has finished a round since `rounds`, those that the model is shown last.
pub open spec fn results_so_far(turn: ChatTurnView, rounds: u32) -> Seq<ToolResultView> {
    if turn.rounds == rounds {
        turn.phase->results
    } else {
        turn.messages.last()->ToolResults_0
    }
}

/// Whether the calls from `from` on that need no retrieval were answered, up to the
/// first one that needs it: each result is the text of its tool, under the name and id
/// of its call, and each call has its two events, from position `at` of the effects on.
/// `done` are all the results there are then.
pub open spec fn answered_at_once(
    repo: Seq<char>,
    calls: Seq<ToolCallView>,
    done: Seq<ToolResultView>,
    from: int,
    effects: Seq<EffectView>,
    at: int,
) -> bool {
    &&& done.len() <= calls.len()
    &&& at + 2 * (done.len() - from) <= effects.len()
    &&& forall|i: int|
        #![trigger done[i]]
        from <= i < done.len() ==> {
            &&& run_tool_spec(repo, calls[i].name, calls[i].args) is Answer
            &&& done[i].name == calls[i].name
            &&& done[i].id == calls[i].id
            &&& done[i].content == run_tool_spec(repo, calls[i].name, calls[i].args)->text
            &&& effects[at + 2 * (i - from)] == EffectView::Emit(
                ChatEventView::ToolCall {
                    name: calls[i].name,
                    summary: tool_summary_spec(calls[i].name, calls[i].args),
                },
            )
            &&& effects[at + 2 * (i - from) + 1] == EffectView::Emit(
                ChatEventView::ToolResult {
                    name: calls[i].name,
                    ok: run_tool_spec(repo, calls[i].name, calls[i].args)->ok,
                    preview: preview_spec(done[i].content),
                },
            )
        }
}

/// Whether the turn went on as it should once the results `done` were there and the
/// effects before `at` sent: where a call is left, it is announced and its retrieval
/// awaited, and nothing else has changed; else the model is shown the calls and all the
/// results, and is asked again unless this was the eighth round.
pub open spec fn went_on(
    turn: ChatTurnView,
    calls: Seq<ToolCallView>,
    done: Seq<ToolResultView>,
    at: int,
    after: ChatTurnView,
    step: StepView,
) -> bool {
    if done.len() < calls.len() {
        let call = calls[done.len() as int];
        &&& run_tool_spec(turn.repo, call.name, call.args) is Retrieve
        &&& step.next == NextView::Retrieve(run_tool_spec(turn.repo, call.name, call.args)->Retrieve_0)
        &&& step.effects.len() == at + 1
        &&& step.effects[at] == EffectView::Emit(
            ChatEventView::ToolCall {
                name: call.name,
                summary: tool_summary_spec(call.name, call.args),
            },
        )
        &&& after.phase == (PhaseView::Tools { calls, results: done })
        &&& after.rounds == turn.rounds
        &&& after.messages == turn.messages
    } else {
        &&& after.rounds == turn.rounds + 1
        &&& after.messages == turn.messages + seq![
            ChatMessageView::ModelToolCalls(calls),
            ChatMessageView::ToolResults(done),
        ]
        &&& if turn.rounds < 7 {
            &&& after.phase is Model
            &&& step.next is AskModel
            &&& step.effects.len() == at
        } else {
            &&& after.phase is Over
            &&& step.next is Stop
            &&& step.effects.len() == at + 1
            &&& step.effects[at] == EffectView::Emit(
                ChatEventView::Error {
                    message:
                        "The assistant could not finish answering (too many tool calls). Try rephrasing the question."@,
                },
            )
        }
    }
}

proof fn lemma_advance_answers(
    repo: Seq<char>,
    calls: Seq<ToolCallView>,
    results: Seq<ToolResultView>,
)
    requires
        results.len() <= calls.len(),
    ensures
        ({
            let run = advance(repo, calls, results);
            let n = results.len() as int;
            let m = run.results.len() as int;
            &&& n <= m <= calls.len()
            &&& run.results.take(n) == results
            &&& run.effects.len() == 2 * (m - n) + if m < calls.len() {
                1int
            } else {
                0int
            }
            &&& answered_at_once(repo, calls, run.results, n, run.effects, 0)
            &&& m < calls.len() <==> run.blocked is Some
            &&& m < calls.len() ==> {
                let call = calls[m];
                &&& run_tool_spec(repo, call.name, call.args) == ToolStepView::Retrieve(
                    run.blocked->0,
                )
                &&& run.effects[2 * (m - n)] == EffectView::Emit(
                    ChatEventView::ToolCall {
                        name: call.name,
                        summary: tool_summary_spec(call.name, call.args),
                    },
                )
            }
        }),
    decreases calls.len() - results.len(),
{
    let run = advance(repo, calls, results);
    let n = results.len() as int;
    if n >= calls.len() {
        assert(run.results.take(n) =~= results);
    } else {
        let call = calls[n];
        match run_tool_spec(repo, call.name, call.args) {
            ToolStepView::Retrieve(_) => {
                assert(run.results.take(n) =~= results);
            },
            ToolStepView::Answer { text, ok } => {
                let more = results.push(result_of(call, text));
                lemma_advance_answers(repo, calls, more);
                let rest = advance(repo, calls, more);
                let m = run.results.len() as int;
                assert(run.results == rest.results);
                assert(rest.results.take(n + 1)[n] == more[n]);
                assert(run.results[n] == result_of(call, text));
                assert(run.results.take(n) =~= results) by {
                    assert forall|i: int| 0 <= i < n implies rest.results[i] == results[i] by {
                        assert(rest.results.take(n + 1)[i] == more[i]);
                    }
                }
                assert forall|k: int| 0 <= k < rest.effects.len() implies #[trigger] rest.effects[k]
                    == run.effects[k + 2] by {}
                assert forall|i: int|
                    #![trigger run.results[i]]
                    n <= i < m implies {
                    &&& run_tool_spec(repo, calls[i].name, calls[i].args) is Answer
                    &&& run.results[i].name == calls[i].name
                    &&& run.results[i].id == calls[i].id
                    &&& run.results[i].content == run_tool_spec(
                        repo,
                        calls[i].name,
                        calls[i].args,
                    )->text
                    &&& run.effects[0 + 2 * (i - n)] == EffectView::Emit(
                        ChatEventView::ToolCall {
                            name: calls[i].name,
                            summary: tool_summary_spec(calls[i].name, calls[i].args),
                        },
                    )
                    &&& run.effects[0 + 2 * (i - n) + 1] == EffectView::Emit(
                        ChatEventView::ToolResult {
                            name: calls[i].name,
                            ok: run_tool_spec(repo, calls[i].name, calls[i].args)->ok,
                            preview: preview_spec(run.results[i].content),
                        },
                    )
                } by {
                    if i > n {
                        let k = 0 + 2 * (i - (n + 1));
                        assert(rest.results[i] == run.results[i]);
                        assert(rest.effects[k] == run.effects[k + 2]);
                        assert(rest.effects[k + 1] == run.effects[k + 1 + 2]);
                    }
                }
                if m < calls.len() {
                    let k = 2 * (m - (n + 1));
                    assert(rest.effects[k] == run.effects[k + 2]);
                }
            },
        }
    }
}

/// What a retrieval returned is recorded for the call that waited for it whole, whatever
/// its length, under the name and id of that call; earlier results stay as they are. The
/// UI is told whether it was a success and shown a preview. Then the calls that need no
/// retrieval are answered, and the turn goes on.
pub proof fn law_output_is_recorded_whole(turn: ChatTurnView, out: Seq<char>)
    requires
        turn.valid(),
        turn.phase is Tools,
    ensures
        ({
            let (after, step) = step_spec(turn, TurnEventView::Output(out));
            let calls = turn.phase->calls;
            let n = turn.phase->results.len() as int;
            let done = results_so_far(after, turn.rounds);
            &&& n < done.len()
            &&& done.take(n) == turn.phase->results
            &&& done[n].name == calls[n].name
            &&& done[n].id == calls[n].id
            &&& done[n].content == out
            &&& step.effects.len() > 0
            &&& step.effects[0] == EffectView::Emit(
                ChatEventView::ToolResult {
                    name: calls[n].name,
                    ok: !is_error_text(out),
                    preview: preview_spec(out),
                },
            )
            &&& answered_at_once(turn.repo, calls, done, n + 1, step.effects, 1)
            &&& went_on(turn, calls, done, 1 + 2 * (done.len() - n - 1), after, step)
        }),
{
    let (after, step) = step_spec(turn, TurnEventView::Output(out));
    let calls = turn.phase->calls;
    let results = turn.phase->results;
    let n = results.len() as int;
    let more = results.push(result_of(calls[n], out));
    let run = advance(turn.repo, calls, more);
    let done = results_so_far(after, turn.rounds);
    lemma_advance_answers(turn.repo, calls, more);
    assert(done == run.results);
    assert(done.take(n + 1)[n] == more[n]);
    assert(done.take(n) =~= results) by {
        assert forall|i: int| 0 <= i < n implies done[i] == results[i] by {
            assert(done.take(n + 1)[i] == more[i]);
        }
    }
    assert forall|k: int| 0 <= k < run.effects.len() implies #[trigger] run.effects[k]
        == step.effects[k + 1] by {}
    assert forall|i: int|
        #![trigger done[i]]
        n + 1 <= i < done.len() implies {
        &&& step.effects[1 + 2 * (i - (n + 1))] == run.effects[0 + 2 * (i - (n + 1))]
        &&& step.effects[1 + 2 * (i - (n + 1)) + 1] == run.effects[0 + 2 * (i - (n + 1)) + 1]
    } by {
        let k = 0 + 2 * (i - (n + 1));
        assert(run.effects[k] == step.effects[k + 1]);
        assert(run.effects[k + 1] == step.effects[k + 1 + 1]);
    }
    if done.len() < calls.len() {
        let k = 2 * (done.len() - (n + 1));
        assert(run.effects[k] == step.effects[k + 1]);
    } else {
        assert(after.messages =~= turn.messages + seq![
            ChatMessageView::ModelToolCalls(calls),
            ChatMessageView::ToolResults(done),
        ]);
    }
}

/// Tool calls of the model are taken up in order: those that need no retrieval are
/// answered at once, up to the first one that needs it, and the turn goes on.
pub proof fn law_calls_are_taken_up_in_order(turn: ChatTurnView, calls: Seq<ToolCallView>)
    requires
        turn.valid(),
        turn.phase is Model,
    ensures
        ({
            let (after, step) = step_spec(turn, TurnEventView::ToolCalls(calls));
            let done = results_so_far(after, turn.rounds);
            &&& answered_at_once(turn.repo, calls, done, 0, step.effects, 0)
            &&& went_on(turn, calls, done, 2 * done.len() as int, after, step)
        }),
{
    let (after, step) = step_spec(turn, TurnEventView::ToolCalls(calls));
    let run = advance(turn.repo, calls, Seq::empty());
    let done = results_so_far(after, turn.rounds);
    lemma_advance_answers(turn.repo, calls, Seq::empty());
    assert(done == run.results);
    assert forall|k: int| 0 <= k < run.effects.len() implies run.effects[k]
        == #[trigger] step.effects[k] by {}
    if done.len() >= calls.len() {
        assert(after.messages =~= turn.messages + seq![
            ChatMessageView::ModelToolCalls(calls),
            ChatMessageView::ToolResults(done),
        ]);
    }
}

/// A text that is not empty is the answer, whole: it is added to the conversation with
/// the question, and the turn is done. An empty one, and a model that could not be asked,
/// are errors; the latter says why.
pub proof fn law_replies_end_the_turn(turn: ChatTurnView, text: Seq<char>)
    requires
        turn.valid(),
        turn.phase is Model,
    ensures
        step_spec(turn, TurnEventView::Text(text)).0.phase is Over,
        step_spec(turn, TurnEventView::Text(text)).1 == (StepView {
            effects: if text.len() > 0 {
                seq![
                    EffectView::Append {
                        conversation_id: turn.conversation_id,
                        repo: turn.repo,
                        user: turn.question,
                        answer: text,
                    },
                    EffectView::Emit(ChatEventView::Done),
                ]
            } else {
                seq![
                    EffectView::Emit(
                        ChatEventView::Error {
                            message:
                                "The assistant could not finish answering (too many tool calls). Try rephrasing the question."@,
                        },
                    ),
                ]
            },
            next: NextView::Stop,
        }),
        step_spec(turn, TurnEventView::Failed(text)).0.phase is Over,
        step_spec(turn, TurnEventView::Failed(text)).1 == (StepView {
            effects: seq![
                EffectView::Emit(
                    ChatEventView::Error { message: "LLM request failed: "@ + text },
                ),
            ],
            next: NextView::Stop,
        }),
{
}

/// Events, effects and steps say what their fields hold, in order.
pub proof fn law_effects_say_what_they_hold(
    event: ChatEvent,
    effect: Effect,
    step: Step,
    came: TurnEvent,
)
    ensures
        event matches ChatEvent::ToolCall { name, summary } ==> event@ == (
        ChatEventView::ToolCall { name: name@, summary: summary@ }),
        event matches ChatEvent::ToolResult { name, ok, preview } ==> event@ == (
        ChatEventView::ToolResult { name: name@, ok, preview: preview@ }),
        event matches ChatEvent::Token { text } ==> event@ == (ChatEventView::Token {
            text: text@,
        }),
        event is Done ==> event@ is Done,
        event matches ChatEvent::Error { message } ==> event@ == (ChatEventView::Error {
            message: message@,
        }),
        effect matches Effect::Emit(e) ==> effect@ == EffectView::Emit(e@),
        effect matches Effect::Append { conversation_id, repo, user, answer } ==> effect@ == (
        EffectView::Append {
            conversation_id: conversation_id@,
            repo: repo@,
            user: user@,
            answer: answer@,
        }),
        step@.effects.len() == step.effects@.len(),
        forall|i: int|
            0 <= i < step.effects@.len() ==> #[trigger] step@.effects[i] == step.effects@[i]@,
        step.next is AskModel ==> step@.next is AskModel,
        step.next is Stop ==> step@.next is Stop,
        step.next matches Next::Retrieve(r) ==> step@.next == NextView::Retrieve(r@),
        came matches TurnEvent::Text(t) ==> came@ == TurnEventView::Text(t@),
        came matches TurnEvent::Failed(t) ==> came@ == TurnEventView::Failed(t@),
        came matches TurnEvent::Output(t) ==> came@ == TurnEventView::Output(t@),
        came matches TurnEvent::ToolCalls(calls) ==> came@ == TurnEventView::ToolCalls(
            call_views(calls@),
        ),
{
}

} // verus!
