//! Asking for completions.

use context_engine::llm::openai::{
    check_status, complete, completion_text, refusal, ChatResponse, Choice, ChoiceMessage,
    OpenAIError, PARSE_CONTEXT, READ_CONTEXT, SEND_CONTEXT,
};
use context_engine::llm::{LlmClient, LlmConfig, Provider};

fn config(provider: &str, keys: &[&str]) -> LlmConfig {
    LlmConfig {
        provider: provider.to_owned(),
        rerank_model: "m1".to_owned(),
        api_keys: keys.iter().map(|k| k.to_string()).collect(),
    }
}

#[test]
fn no_keys_no_client() {
    assert!(LlmClient::new(&config("openai", &[])).is_none());
    assert!(LlmClient::new(&config("openai", &["k"])).is_some());
}

#[test]
fn keys_take_turns() {
    let mut client = LlmClient::new(&config("openai", &["k0", "k1", "k2"])).unwrap();
    let taken: Vec<String> = (0..7).map(|_| client.next_key().to_owned()).collect();
    assert_eq!(taken, vec!["k0", "k1", "k2", "k0", "k1", "k2", "k0"]);
}

#[test]
fn a_known_provider_is_asked() {
    let mut client = LlmClient::new(&config("openai", &["k0", "k1"])).unwrap();
    let call = client.complete("sys", "usr").unwrap();
    assert_eq!(call.provider, Provider::OpenAi);
    assert_eq!(call.model, "m1");
    assert_eq!(call.api_key, "k0");
    assert_eq!(call.system, "sys");
    assert_eq!(call.user, "usr");
    assert_eq!(client.complete("sys", "usr").unwrap().api_key, "k1");
    let mut client = LlmClient::new(&config("google", &["g"])).unwrap();
    assert_eq!(client.complete("s", "u").unwrap().provider, Provider::Google);
}

#[test]
fn an_unknown_provider_takes_no_key() {
    let mut client = LlmClient::new(&config("Google", &["k0", "k1"])).unwrap();
    assert_eq!(
        client.complete("s", "u").unwrap_err(),
        "unsupported LLM provider: Google"
    );
    assert_eq!(client.next_key(), "k0");
}

#[test]
fn a_request_carries_both_messages() {
    let request = complete("m1", "key", "sys", "usr");
    assert_eq!(request.url, "https://api.openai.com/v1/chat/completions");
    assert_eq!(request.authorization, "Bearer key");
    assert_eq!(request.model, "m1");
    assert_eq!(request.messages.len(), 2);
    assert_eq!(request.messages[0].role, "system");
    assert_eq!(request.messages[0].content, "sys");
    assert_eq!(request.messages[1].role, "user");
    assert_eq!(request.messages[1].content, "usr");
}

#[test]
fn a_status_other_than_success_is_an_error() {
    assert_eq!(check_status(200, "x"), Ok(()));
    assert_eq!(check_status(299, "x"), Ok(()));
    assert_eq!(
        check_status(404, "no such model"),
        Err("OpenAI API returned HTTP 404 Not Found: no such model".to_owned())
    );
    assert_eq!(
        check_status(300, ""),
        Err("OpenAI API returned HTTP 300 Multiple Choices: ".to_owned())
    );
    assert_eq!(
        check_status(199, "b"),
        Err("OpenAI API returned HTTP 199 <unknown status code>: b".to_owned())
    );
    assert_eq!(refusal("500", "t"), "OpenAI API returned HTTP 500: t");
}

fn choice(content: Option<&str>) -> Choice {
    Choice { message: ChoiceMessage { content: content.map(|c| c.to_owned()) } }
}

#[test]
fn the_first_choice_is_taken() {
    let answer = |choices: Option<Vec<Choice>>| completion_text(ChatResponse { choices, error: None });
    assert_eq!(
        answer(Some(vec![choice(Some("a")), choice(Some("b"))])),
        Ok("a".to_owned())
    );
    assert_eq!(answer(Some(vec![choice(None), choice(Some("b"))])), Ok(String::new()));
    assert_eq!(answer(Some(Vec::new())), Ok(String::new()));
    assert_eq!(answer(None), Ok(String::new()));
}

#[test]
fn a_reported_error_wins() {
    let answer = ChatResponse {
        choices: Some(vec![choice(Some("a"))]),
        error: Some(OpenAIError { message: "quota".to_owned() }),
    };
    assert_eq!(completion_text(answer), Err("OpenAI API error: quota".to_owned()));
}

#[test]
fn failures_have_their_context() {
    assert_eq!(SEND_CONTEXT, "OpenAI HTTP request failed");
    assert_eq!(READ_CONTEXT, "failed to read OpenAI response body");
    assert_eq!(PARSE_CONTEXT, "failed to parse OpenAI response JSON");
}
