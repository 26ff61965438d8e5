//! Completions by OpenAI: what is sent, and what is made of the answer.

use vstd::prelude::*;

verus! {

/// Where completions are asked for.
pub const COMPLETIONS_URL: &'static str = "https://api.openai.com/v1/chat/completions";

/// What went wrong when the request could not be sent.
pub const SEND_CONTEXT: &'static str = "OpenAI HTTP request failed";

/// What went wrong when the answer could not be read.
pub const READ_CONTEXT: &'static str = "failed to read OpenAI response body";

/// What went wrong when the answer was not understood.
pub const PARSE_CONTEXT: &'static str = "failed to parse OpenAI response JSON";

/// A message of a request.
#[derive(Debug)]
pub struct Message {
    pub role: String,
    pub content: String,
}

/// What a [`Message`] says.
#[verifier::ext_equal]
pub struct MessageView {
    pub role: Seq<char>,
    pub content: Seq<char>,
}

impl View for Message {
    type V = MessageView;

    open spec fn view(&self) -> MessageView {
        MessageView { role: self.role@, content: self.content@ }
    }
}

/// A request for a completion, but for its temperature.
#[derive(Debug)]
pub struct ChatRequest {
    pub url: String,
    /// The value of the `Authorization` header.
    pub authorization: String,
    pub model: String,
    pub messages: Vec<Message>,
}

/// What a [`ChatRequest`] says.
#[verifier::ext_equal]
pub struct ChatRequestView {
    pub url: Seq<char>,
    pub authorization: Seq<char>,
    pub model: Seq<char>,
    pub messages: Seq<MessageView>,
}

impl View for ChatRequest {
    type V = ChatRequestView;

    open spec fn view(&self) -> ChatRequestView {
        ChatRequestView {
            url: self.url@,
            authorization: self.authorization@,
            model: self.model@,
            messages: Seq::new(self.messages@.len(), |i: int| self.messages@[i]@),
        }
    }
}

/// An answer, parsed.
#[derive(Debug)]
pub struct ChatResponse {
    pub choices: Option<Vec<Choice>>,
    pub error: Option<OpenAIError>,
}

/// One of the completions in an answer.
#[derive(Debug)]
pub struct Choice {
    pub message: ChoiceMessage,
}

/// The message of a [`Choice`].
#[derive(Debug)]
pub struct ChoiceMessage {
    pub content: Option<String>,
}

/// What an answer says went wrong.
#[derive(Debug)]
pub struct OpenAIError {
    pub message: String,
}

/// The text of the status line's code and reason, as `reqwest::StatusCode`
/// displays it.
pub uninterp spec fn status_text(code: u16) -> Seq<char>;

/// Calls `reqwest::StatusCode::from_u16` and displays the status code that it
/// returns. The text depends on the code alone: it is the code and its canonical
/// reason. Codes below 100 and above 999 are no status codes and stay out.
#[verifier::external_body]
fn display_status(code: u16) -> (res: String)
    requires
        100 <= code <= 999,
    ensures
        res@ == status_text(code),
{
    reqwest::StatusCode::from_u16(code).unwrap().to_string()
}

/// The request for a completion of `user` under the instructions `system`.
pub fn complete(model: &str, api_key: &str, system: &str, user: &str) -> (res: ChatRequest)
    ensures
        res@ == (ChatRequestView {
            url: COMPLETIONS_URL@,
            authorization: "Bearer "@ + api_key@,
            model: model@,
            messages: seq![
                MessageView { role: "system"@, content: system@ },
                MessageView { role: "user"@, content: user@ },
            ],
        }),
{
    let mut authorization: String = "Bearer ".to_owned();
    authorization.append(api_key);
    let messages = vec![
        Message { role: "system".to_owned(), content: system.to_owned() },
        Message { role: "user".to_owned(), content: user.to_owned() },
    ];
    let res = ChatRequest {
        url: COMPLETIONS_URL.to_owned(),
        authorization,
        model: model.to_owned(),
        messages,
    };
    assert(res@.messages =~= seq![
        MessageView { role: "system"@, content: system@ },
        MessageView { role: "user"@, content: user@ },
    ]);
    res
}

/// What went wrong when the answer has a status other than success, `shown` being
/// the text of that status.
pub open spec fn status_error(shown: Seq<char>, text: Seq<char>) -> Seq<char> {
    "OpenAI API returned HTTP "@ + shown + ": "@ + text
}

/// Whether a status code is within 200-299.
pub open spec fn is_success(status: u16) -> bool {
    200 <= status <= 299
}

/// The error for an answer `text` whose status is shown as `shown`.
pub fn refusal(shown: &str, text: &str) -> (res: String)
    ensures
        res@ == status_error(shown@, text@),
{
    let mut e: String = "OpenAI API returned HTTP ".to_owned();
    e.append(shown);
    e.append(": ");
    e.append(text);
    e
}

/// Whether an answer with a status code and a body may be parsed: it is an error
/// unless the status is success.
pub fn check_status(status: u16, text: &str) -> (res: Result<(), String>)
    requires
        100 <= status <= 999,
    ensures
        match res {
            Ok(()) => is_success(status),
            Err(e) => !is_success(status) && e@ == status_error(status_text(status), text@),
        },
{
    if 200 <= status && status <= 299 {
        return Ok(());
    }
    let shown = display_status(status);
    Err(refusal(shown.as_str(), text))
}

/// What an answer comes to: the error that it reports, if any, or else the content
/// of its first choice, empty where it has none.
pub open spec fn completion_of(parsed: ChatResponse) -> Result<Seq<char>, Seq<char>> {
    match parsed.error {
        Some(err) => Err("OpenAI API error: "@ + err.message@),
        None => match parsed.choices {
            Some(choices) if choices@.len() > 0 => match choices@[0].message.content {
                Some(content) => Ok(content@),
                None => Ok(Seq::empty()),
            },
            _ => Ok(Seq::empty()),
        },
    }
}

/// The completion in a parsed answer.
pub fn completion_text(parsed: ChatResponse) -> (res: Result<String, String>)
    ensures
        match res {
            Ok(text) => completion_of(parsed) == Ok::<Seq<char>, Seq<char>>(text@),
            Err(e) => completion_of(parsed) == Err::<Seq<char>, Seq<char>>(e@),
        },
        res is Err <==> parsed.error is Some,
        parsed.error is None && parsed.choices is Some && parsed.choices->0@.len() >= 1
            && parsed.choices->0@[0].message.content is Some ==> res is Ok && res->Ok_0@
            == parsed.choices->0@[0].message.content->0@,
{
    if let Some(err) = &parsed.error {
        let mut e: String = "OpenAI API error: ".to_owned();
        e.append(err.message.as_str());
        return Err(e);
    }
    if let Some(choices) = &parsed.choices {
        if choices.len() > 0 {
            if let Some(content) = &choices[0].message.content {
                return Ok(content.clone());
            }
        }
    }
    Ok(String::new())
}

/// Where no error is reported, the content of the first choice is the completion, however
/// many choices there are; a choice without content, and no choice at all, come to an
/// empty one.
pub proof fn law_first_choice_is_the_completion(parsed: ChatResponse)
    requires
        parsed.error is None,
    ensures
        parsed.choices is Some && parsed.choices->0@.len() >= 1
            && parsed.choices->0@[0].message.content is Some ==> completion_of(parsed) == Ok::<
            Seq<char>,
            Seq<char>,
        >(parsed.choices->0@[0].message.content->0@),
        parsed.choices is None || parsed.choices->0@.len() == 0
            || parsed.choices->0@[0].message.content is None ==> completion_of(parsed) == Ok::<
            Seq<char>,
            Seq<char>,
        >(Seq::empty()),
{
}

/// A reported error is the result, with its message whole, whatever else the answer holds.
pub proof fn law_reported_error_is_the_result(parsed: ChatResponse)
    requires
        parsed.error is Some,
    ensures
        completion_of(parsed) == Err::<Seq<char>, Seq<char>>(
            "OpenAI API error: "@ + parsed.error->0.message@,
        ),
{
}

/// An answer is refused exactly where its status is below 200 or above 299, and the error
/// then holds the status and the whole body.
pub proof fn law_refused_unless_success(status: u16, shown: Seq<char>, text: Seq<char>)
    ensures
        is_success(status) <==> !(status < 200 || status > 299),
        status_error(shown, text) == "OpenAI API returned HTTP "@ + shown + ": "@ + text,
{
}

/// A request says what its fields hold, and its messages in order.
pub proof fn law_request_says_what_it_holds(request: ChatRequest)
    ensures
        request@.url == request.url@,
        request@.authorization == request.authorization@,
        request@.model == request.model@,
        request@.messages.len() == request.messages@.len(),
        forall|i: int|
            0 <= i < request.messages@.len() ==> (#[trigger] request@.messages[i]).role
                == request.messages@[i].role@ && request@.messages[i].content
                == request.messages@[i].content@,
{
}

} // verus!
