//! Chat: the two tools, the transcripts, and the course of a turn.

use context_engine::chat::store::{
    clone_msg, ConversationStore, MAX_CONVERSATIONS, MAX_MESSAGES, MAX_TURNS_KEPT,
};
use context_engine::chat::tools::{
    preview, retrieval_ok, run_tool, system_prompt, tool_defs, tool_summary, Retrieval, ToolStep,
    PREVIEW_CHARS, TOOL_CODEBASE, TOOL_FILE,
};
use context_engine::chat::turn::{
    run_chat_turn, token_event, ChatEvent, ChatTurn, Effect, Next, Step, TurnEvent, MAX_TURNS,
};
use context_engine::llm::{ChatMessage, ToolCall, ToolResult};

fn json(text: &str) -> serde_json::Value {
    serde_json::from_str(text).unwrap()
}

fn answer(step: ToolStep) -> (String, bool) {
    match step {
        ToolStep::Answer { text, ok } => (text, ok),
        ToolStep::Retrieve(r) => panic!("must be answered at once: {:?}", r),
    }
}

fn text_of(m: &ChatMessage) -> (&'static str, String) {
    match m {
        ChatMessage::User(t) => ("user", t.clone()),
        ChatMessage::Model(t) => ("model", t.clone()),
        ChatMessage::ModelToolCalls(calls) => ("calls", format!("{}", calls.len())),
        ChatMessage::ToolResults(results) => ("results", format!("{}", results.len())),
    }
}

fn texts(messages: &[ChatMessage]) -> Vec<(&'static str, String)> {
    messages.iter().map(text_of).collect()
}

#[test]
fn unknown_tool_is_refused() {
    let (msg, ok) = answer(run_tool("/repo", "rm-rf", &json("{}")));
    assert!(!ok);
    assert!(msg.starts_with("Error: tool 'rm-rf' is not available"));
    assert!(msg.contains(TOOL_CODEBASE) && msg.contains(TOOL_FILE));
    assert_eq!(
        msg,
        "Error: tool 'rm-rf' is not available. You may only use 'codebase-retrieval' and \
         'file-retrieval'."
    );
}

#[test]
fn tool_summary_uses_information_request() {
    let args = json("{\"information_request\": \"how does sharding work\"}");
    assert_eq!(tool_summary(TOOL_CODEBASE, &args), "how does sharding work");
}

#[test]
fn tool_summary_of_the_other_tools() {
    let args = json("{\"file_path\": \"src/a.rs\", \"information_request\": \"why\"}");
    assert_eq!(tool_summary(TOOL_FILE, &args), "src/a.rs — why");
    assert_eq!(tool_summary(TOOL_FILE, &json("[1]")), " — ");
    assert_eq!(tool_summary("rm-rf", &args), "rm-rf");
}

#[test]
fn preview_truncates_long_text() {
    let long = "x".repeat(PREVIEW_CHARS + 50);
    let p = preview(&long);
    assert!(p.ends_with('…'));
    assert!(p.chars().count() <= PREVIEW_CHARS + 1);
}

#[test]
fn preview_keeps_short_text() {
    assert_eq!(preview("  hello  "), "hello");
}

#[test]
fn preview_cuts_at_its_limit_in_characters() {
    let fits = "é".repeat(PREVIEW_CHARS);
    assert_eq!(preview(&fits), fits);
    let padded = format!("\u{2003}\n{}\t", fits);
    assert_eq!(preview(&padded), fits);
    let long = format!("{}z", fits);
    assert_eq!(preview(&long), format!("{}…", fits));
    assert_eq!(preview(" \n "), "");
}

#[test]
fn a_preview_of_a_preview_is_that_preview() {
    let long = format!(" {} ", "x y ".repeat(PREVIEW_CHARS));
    for text in ["", "  hello  ", "\u{85}a\u{3000}", long.as_str()] {
        let shown = preview(text);
        assert_eq!(preview(&shown), shown);
    }
}

#[test]
fn all_white_space_is_trimmed() {
    let white: [(u32, u32); 11] = [
        (0x9, 0xd),
        (0x20, 0x20),
        (0x85, 0x85),
        (0xa0, 0xa0),
        (0x1680, 0x1680),
        (0x2000, 0x200a),
        (0x2028, 0x2028),
        (0x2029, 0x2029),
        (0x202f, 0x202f),
        (0x205f, 0x205f),
        (0x3000, 0x3000),
    ];
    for c in (0..=0x10ffff).filter_map(char::from_u32) {
        let padded = format!("{c}x{c}");
        let code = c as u32;
        if white.iter().any(|(from, to)| *from <= code && code <= *to) {
            assert_eq!(preview(&padded), "x");
        } else {
            assert_eq!(preview(&padded), padded);
        }
    }
}

#[test]
fn tools_retrieve_within_the_repo() {
    let args = json("{\"information_request\": \" why \", \"repo\": \"/other\"}");
    match run_tool("/repo", TOOL_CODEBASE, &args) {
        ToolStep::Retrieve(Retrieval::Codebase { repo, information_request }) => {
            assert_eq!(repo, "/repo");
            assert_eq!(information_request, " why ");
        }
        other => panic!("must retrieve: {:?}", other),
    }
    let args = json("{\"file_path\": \"a.rs\", \"information_request\": \"why\"}");
    match run_tool("/repo", TOOL_FILE, &args) {
        ToolStep::Retrieve(Retrieval::File { repo, file_path, information_request, max_chunks }) => {
            assert_eq!(repo, "/repo");
            assert_eq!(file_path, "a.rs");
            assert_eq!(information_request, "why");
            assert_eq!(max_chunks, 5);
        }
        other => panic!("must retrieve: {:?}", other),
    }
}

#[test]
fn tools_ask_for_what_is_missing() {
    let blank = "Error: information_request is required.".to_owned();
    for args in ["{}", "{\"information_request\": \" \\n\"}", "{\"information_request\": 7}", "null"] {
        assert_eq!(answer(run_tool("/repo", TOOL_CODEBASE, &json(args))), (blank.clone(), false));
    }
    let both = "Error: file_path and information_request are required.".to_owned();
    for args in [
        "{\"information_request\": \"why\"}",
        "{\"file_path\": \"a.rs\"}",
        "{\"file_path\": \" \", \"information_request\": \"why\"}",
    ] {
        assert_eq!(answer(run_tool("/repo", TOOL_FILE, &json(args))), (both.clone(), false));
    }
}

#[test]
fn error_texts_are_failures() {
    assert!(!retrieval_ok("Error: no index"));
    assert!(!retrieval_ok("Error:"));
    assert!(retrieval_ok("error: no index"));
    assert!(retrieval_ok("Error"));
    assert!(retrieval_ok(""));
}

#[test]
fn there_are_exactly_two_tools() {
    let defs = tool_defs();
    assert_eq!(defs.len(), 2);
    assert_eq!(defs[0].name, "codebase-retrieval");
    assert_eq!(
        defs[0].description,
        "Search this repository's index for code and context relevant to a natural-language \
         request. Returns ranked source snippets with file paths and line ranges. Use this first \
         for any question about how the project works."
    );
    assert_eq!(defs[0].properties.len(), 1);
    assert_eq!(defs[0].properties[0].name, "information_request");
    assert_eq!(defs[0].properties[0].kind, "string");
    assert_eq!(
        defs[0].properties[0].description,
        "A detailed natural-language description of what you need to find (e.g. 'how is the \
         vector index sharded per repo')."
    );
    assert_eq!(defs[0].required, vec!["information_request".to_owned()]);
    assert_eq!(defs[1].name, "file-retrieval");
    assert_eq!(
        defs[1].description,
        "Retrieve the most relevant chunks of ONE specific file in this repository for a request. \
         Use after codebase-retrieval points you at a file and you need more of its content."
    );
    assert_eq!(defs[1].properties[0].name, "file_path");
    assert_eq!(
        defs[1].properties[0].description,
        "Path to the file, relative to the repository root."
    );
    assert_eq!(defs[1].properties[1].name, "information_request");
    assert_eq!(defs[1].properties[1].description, "What you need to learn from this file.");
    assert_eq!(
        defs[1].required,
        vec!["file_path".to_owned(), "information_request".to_owned()]
    );
}

#[test]
fn the_prompt_names_the_repo_and_the_tools() {
    assert_eq!(
        system_prompt("/r"),
        "You are a helpful assistant answering questions about a single software repository \
located at `/r`.\n\n\
You have exactly two tools: `codebase-retrieval` (semantic search over the whole repo index) and \
`file-retrieval` (retrieve chunks of one specific file). You have NO other tools and NO direct \
filesystem or shell access. Do not claim to run commands, open files directly, or use any tool \
other than these two.\n\n\
Guidelines:\n\
- For almost every question, call `codebase-retrieval` first to gather real context before \
answering. Do not guess about the codebase from memory.\n\
- Use `file-retrieval` to dig deeper into a specific file once you know which one matters.\n\
- You may call the tools multiple times to refine your understanding.\n\
- Ground your answer in what the tools returned. Cite file paths and line ranges (e.g. \
`src/foo.rs#L10-40`) when relevant.\n\
- If the tools return no useful context, say so honestly rather than inventing details.\n\
- Answer in the same language the user asked in. Keep technical terms in their original form."
    );
}

#[test]
fn store_evicts_lru_over_cap() {
    let mut store = ConversationStore::new();
    for i in 0..(MAX_CONVERSATIONS + 5) {
        let id = format!("conv-{i}");
        store.append_turn(&id, "/repo", "q".to_owned(), "a".to_owned(), i as u128);
    }
    assert!(store.len() <= MAX_CONVERSATIONS + 1, "store must stay near the cap");
    assert_eq!(store.len(), MAX_CONVERSATIONS);
    assert!(store.snapshot("conv-4", "/repo", 100).is_empty());
    assert_eq!(store.snapshot("conv-5", "/repo", 100).len(), 2);
}

#[test]
fn a_read_makes_a_conversation_recent() {
    let mut store = ConversationStore::new();
    for i in 0..MAX_CONVERSATIONS {
        let id = format!("conv-{i}");
        store.append_turn(&id, "/repo", "q".to_owned(), "a".to_owned(), i as u128);
    }
    assert_eq!(store.snapshot("conv-0", "/repo", 1000).len(), 2);
    store.append_turn("new", "/repo", "q".to_owned(), "a".to_owned(), 1001);
    assert_eq!(store.len(), MAX_CONVERSATIONS);
    assert_eq!(store.snapshot("conv-0", "/repo", 1002).len(), 2);
    assert!(store.snapshot("conv-1", "/repo", 1002).is_empty());
}

#[test]
fn the_cap_holds_when_the_stamps_are_equal() {
    let mut store = ConversationStore::default();
    for i in 0..(MAX_CONVERSATIONS + 3) {
        store.append_turn(&format!("conv-{i}"), "/repo", "q".to_owned(), "a".to_owned(), 7);
    }
    assert_eq!(store.len(), MAX_CONVERSATIONS);
    let last = format!("conv-{}", MAX_CONVERSATIONS + 2);
    assert_eq!(store.snapshot(&last, "/repo", 8).len(), 2);
}

#[test]
fn store_trims_old_turns() {
    let mut store = ConversationStore::new();
    for i in 0..(MAX_TURNS_KEPT + 10) {
        store.append_turn("c1", "/repo", format!("q{i}"), format!("a{i}"), i as u128);
    }
    let transcript = store.snapshot("c1", "/repo", 100);
    assert!(transcript.len() <= MAX_TURNS_KEPT * 2);
    assert_eq!(transcript.len(), MAX_MESSAGES);
    assert_eq!(text_of(&transcript[0]), ("user", "q10".to_owned()));
    assert_eq!(text_of(&transcript[79]), ("model", "a49".to_owned()));
}

#[test]
fn drop_removes_conversation() {
    let mut store = ConversationStore::new();
    store.append_turn("c1", "/repo", "q".to_owned(), "a".to_owned(), 0);
    store.drop_conversation("c1");
    assert_eq!(store.len(), 0);
    assert!(store.snapshot("c1", "/repo", 1).is_empty());
}

#[test]
fn snapshot_resets_on_repo_mismatch() {
    let mut store = ConversationStore::new();
    store.append_turn("c1", "/repo-a", "q".to_owned(), "a".to_owned(), 0);
    let snap = store.snapshot("c1", "/repo-b", 1);
    assert!(snap.is_empty());
}

#[test]
fn append_starts_over_on_repo_mismatch() {
    let mut store = ConversationStore::new();
    store.append_turn("c1", "/repo-a", "q1".to_owned(), "a1".to_owned(), 0);
    store.append_turn("c1", "/repo-b", "q2".to_owned(), "a2".to_owned(), 1);
    assert!(store.snapshot("c1", "/repo-a", 2).is_empty());
    assert_eq!(
        texts(&store.snapshot("c1", "/repo-b", 2)),
        vec![("user", "q2".to_owned()), ("model", "a2".to_owned())]
    );
}

#[test]
fn tool_history_is_not_copied() {
    let user = ChatMessage::User("u".to_owned());
    let model = ChatMessage::Model("m".to_owned());
    let calls = ChatMessage::ModelToolCalls(vec![call("x", "{}")]);
    let results = ChatMessage::ToolResults(vec![ToolResult {
        name: "x".to_owned(),
        id: None,
        content: "out".to_owned(),
    }]);
    assert_eq!(text_of(&clone_msg(&user)), ("user", "u".to_owned()));
    assert_eq!(text_of(&clone_msg(&model)), ("model", "m".to_owned()));
    assert_eq!(text_of(&clone_msg(&calls)), ("model", String::new()));
    assert_eq!(text_of(&clone_msg(&results)), ("user", String::new()));
}

fn call(name: &str, args: &str) -> ToolCall {
    ToolCall { id: Some(format!("id-{name}")), name: name.to_owned(), args: json(args) }
}

fn search(request: &str) -> ToolCall {
    call(TOOL_CODEBASE, &format!("{{\"information_request\": \"{request}\"}}"))
}

fn begin(history: Vec<ChatMessage>) -> ChatTurn {
    ChatTurn::begin("/home/me/repo", "c1", "why?", history)
}

/// The effects of a step, told briefly.
fn told(step: &Step) -> Vec<String> {
    step.effects
        .iter()
        .map(|effect| match effect {
            Effect::Emit(ChatEvent::ToolCall { name, summary }) => format!("call {name}: {summary}"),
            Effect::Emit(ChatEvent::ToolResult { name, ok, preview }) => {
                format!("result {name} {ok}: {preview}")
            }
            Effect::Emit(ChatEvent::Token { text }) => format!("token {text}"),
            Effect::Emit(ChatEvent::Done) => "done".to_owned(),
            Effect::Emit(ChatEvent::Error { message }) => format!("error {message}"),
            Effect::Append { conversation_id, repo, user, answer } => {
                format!("append {conversation_id} {repo} {user} {answer}")
            }
        })
        .collect()
}

const UNFINISHED: &str = "error The assistant could not finish answering (too many tool calls). \
                          Try rephrasing the question.";

#[test]
fn a_turn_begins_with_the_history_and_the_question() {
    let turn = begin(vec![
        ChatMessage::User("q".to_owned()),
        ChatMessage::Model("a".to_owned()),
    ]);
    assert_eq!(
        texts(turn.messages()),
        vec![
            ("user", "q".to_owned()),
            ("model", "a".to_owned()),
            ("user", "why?".to_owned()),
        ]
    );
    assert_eq!(turn.cache_key(), "repo-chat-home_me_repo");
    assert_eq!(turn.system(), system_prompt("/home/me/repo"));
    assert_eq!(turn.tools().len(), 2);
}

#[test]
fn every_repo_has_a_cache_key() {
    let mut path = "é".repeat(33);
    path.push('a');
    let turn = ChatTurn::begin(&path, "c1", "why?", Vec::new());
    assert_eq!(turn.cache_key(), format!("repo-chat-{}a", "é".repeat(31)));
}

#[test]
fn a_text_answer_ends_the_turn() {
    let mut turn = begin(Vec::new());
    let step = run_chat_turn(&mut turn, TurnEvent::Text("because".to_owned()));
    assert_eq!(told(&step), vec!["append c1 /home/me/repo why? because", "done"]);
    assert!(matches!(step.next, Next::Stop));
}

#[test]
fn an_empty_answer_is_an_error() {
    let mut turn = begin(Vec::new());
    let step = run_chat_turn(&mut turn, TurnEvent::Text(String::new()));
    assert_eq!(told(&step), vec![UNFINISHED]);
    assert!(matches!(step.next, Next::Stop));
}

#[test]
fn a_failed_request_is_an_error() {
    let mut turn = begin(Vec::new());
    let step = run_chat_turn(&mut turn, TurnEvent::Failed("HTTP 500".to_owned()));
    assert_eq!(told(&step), vec!["error LLM request failed: HTTP 500"]);
    assert!(matches!(step.next, Next::Stop));
}

#[test]
fn tool_calls_are_worked_off_in_order() {
    let mut turn = begin(Vec::new());
    let step = run_chat_turn(
        &mut turn,
        TurnEvent::ToolCalls(vec![call("rm-rf", "{}"), search("a"), search(" "), search("b")]),
    );
    assert_eq!(
        told(&step),
        vec![
            "call rm-rf: rm-rf",
            "result rm-rf false: Error: tool 'rm-rf' is not available. You may only use \
             'codebase-retrieval' and 'file-retrieval'.",
            "call codebase-retrieval: a",
        ]
    );
    match &step.next {
        Next::Retrieve(Retrieval::Codebase { repo, information_request }) => {
            assert_eq!(repo, "/home/me/repo");
            assert_eq!(information_request, "a");
        }
        other => panic!("must retrieve: {:?}", other),
    }
    let step = run_chat_turn(&mut turn, TurnEvent::Output(" found ".to_owned()));
    assert_eq!(
        told(&step),
        vec![
            "result codebase-retrieval true: found",
            "call codebase-retrieval:  ",
            "result codebase-retrieval false: Error: information_request is required.",
            "call codebase-retrieval: b",
        ]
    );
    let step = run_chat_turn(&mut turn, TurnEvent::Output("Error: no index".to_owned()));
    assert_eq!(told(&step), vec!["result codebase-retrieval false: Error: no index"]);
    assert!(matches!(step.next, Next::AskModel));
    assert_eq!(turn.messages().len(), 3);
    match &turn.messages()[2] {
        ChatMessage::ToolResults(results) => {
            assert_eq!(results.len(), 4);
            assert_eq!(results[0].id, Some("id-rm-rf".to_owned()));
            assert_eq!(results[1].content, " found ");
            assert_eq!(results[3].content, "Error: no index");
        }
        other => panic!("must be results: {:?}", text_of(other)),
    }
    let step = run_chat_turn(&mut turn, TurnEvent::Text("so".to_owned()));
    assert_eq!(told(&step), vec!["append c1 /home/me/repo why? so", "done"]);
}

#[test]
fn no_calls_at_all_are_a_round_too() {
    let mut turn = begin(Vec::new());
    let step = run_chat_turn(&mut turn, TurnEvent::ToolCalls(Vec::new()));
    assert!(step.effects.is_empty());
    assert!(matches!(step.next, Next::AskModel));
    assert_eq!(turn.messages().len(), 3);
}

#[test]
fn a_turn_gives_up_after_eight_rounds() {
    let mut turn = begin(Vec::new());
    for round in 1..=MAX_TURNS {
        let step = run_chat_turn(&mut turn, TurnEvent::ToolCalls(vec![search("a")]));
        assert!(matches!(step.next, Next::Retrieve(_)));
        let step = run_chat_turn(&mut turn, TurnEvent::Output("x".to_owned()));
        if round < MAX_TURNS {
            assert!(matches!(step.next, Next::AskModel));
        } else {
            assert!(matches!(step.next, Next::Stop));
            assert_eq!(told(&step), vec!["result codebase-retrieval true: x", UNFINISHED]);
        }
    }
    assert_eq!(MAX_TURNS, 8);
}

#[test]
fn a_whole_turn_sends_one_verdict_and_sends_it_last() {
    let courses: Vec<(Vec<TurnEvent>, Option<&str>)> = vec![
        (
            vec![
                TurnEvent::ToolCalls(vec![search("a"), call("rm-rf", "{}"), search("b")]),
                TurnEvent::Output("x".to_owned()),
                TurnEvent::Output("y".to_owned()),
                TurnEvent::ToolCalls(Vec::new()),
                TurnEvent::Text("so".to_owned()),
            ],
            Some("append c1 /home/me/repo why? so"),
        ),
        (
            vec![
                TurnEvent::ToolCalls(vec![search("a")]),
                TurnEvent::Output("x".to_owned()),
                TurnEvent::Failed("HTTP 500".to_owned()),
            ],
            None,
        ),
        ((0..MAX_TURNS).map(|_| TurnEvent::ToolCalls(Vec::new())).collect(), None),
    ];
    for (events, appended) in courses {
        let mut turn = begin(Vec::new());
        let mut all: Vec<String> = Vec::new();
        let mut over = false;
        for event in events {
            assert!(!over);
            let step = run_chat_turn(&mut turn, event);
            all.extend(told(&step));
            over = matches!(step.next, Next::Stop);
        }
        assert!(over);
        let verdicts: Vec<usize> = (0..all.len())
            .filter(|i| all[*i] == "done" || all[*i].starts_with("error "))
            .collect();
        assert_eq!(verdicts, vec![all.len() - 1]);
        let appends: Vec<&String> = all.iter().filter(|s| s.starts_with("append ")).collect();
        match appended {
            Some(expected) => {
                assert_eq!(appends, vec![expected]);
                assert_eq!(all[all.len() - 2], expected);
                assert_eq!(all[all.len() - 1], "done");
            }
            None => assert!(appends.is_empty()),
        }
    }
}

#[test]
fn tokens_are_passed_on() {
    match token_event("ab") {
        ChatEvent::Token { text } => assert_eq!(text, "ab"),
        other => panic!("must be a token: {:?}", other),
    }
}
