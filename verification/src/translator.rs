//! The translation gateway seen from the session: the request to send for a
//! text, and what to make of the answer.
//!
//! Sending is left to the caller. This module says what goes out and decides,
//! from the status and the decoded body that came back, whether there is a
//! translation or which failure to report.

use crate::model::{optional_text, LanguagePair};
use crate::text::texts;
use vstd::prelude::*;

verus! {

/// The endpoint that translation requests go to.
pub const OPENROUTER_URL: &'static str = "https://openrouter.ai/api/v1/chat/completions";

/// The language model asked to translate.
pub const LLM_MODEL: &'static str = "google/gemini-2.5-flash";

/// The role of the message that carries the prompt of the language pair.
pub const SYSTEM_ROLE: &'static str = "system";

/// The role of the message that carries the text to translate.
pub const USER_ROLE: &'static str = "user";

/// What stands before the credential in the authorization header.
pub const BEARER: &'static str = "Bearer ";

/// Why a translation could not be had.
#[derive(Debug, PartialEq, Eq)]
pub enum GatewayError {
    /// No credential is configured.
    Unauthenticated,
    /// The request could not be sent or no response arrived.
    Transport,
    /// The endpoint answered with a status other than success; the status and
    /// the body of the answer are kept.
    RemoteRejected(u16, String),
    /// The endpoint answered, but with nothing that can serve as translation.
    EmptyResponse,
}

/// The digit that stands for a number below ten.
pub open spec fn digit(d: nat) -> char {
    if d == 0 {
        '0'
    } else if d == 1 {
        '1'
    } else if d == 2 {
        '2'
    } else if d == 3 {
        '3'
    } else if d == 4 {
        '4'
    } else if d == 5 {
        '5'
    } else if d == 6 {
        '6'
    } else if d == 7 {
        '7'
    } else if d == 8 {
        '8'
    } else {
        '9'
    }
}

/// A number written in decimal digits.
pub open spec fn decimal(n: nat) -> Seq<char>
    decreases n,
{
    if n < 10 {
        seq![digit(n)]
    } else {
        decimal(n / 10).push(digit(n % 10))
    }
}

fn digit_text(d: u16) -> (text: &'static str)
    requires
        d < 10,
    ensures
        text@ == seq![digit(d as nat)],
{
    proof {
        reveal_strlit("0");
        reveal_strlit("1");
        reveal_strlit("2");
        reveal_strlit("3");
        reveal_strlit("4");
        reveal_strlit("5");
        reveal_strlit("6");
        reveal_strlit("7");
        reveal_strlit("8");
        reveal_strlit("9");
    }
    let text = if d == 0 {
        "0"
    } else if d == 1 {
        "1"
    } else if d == 2 {
        "2"
    } else if d == 3 {
        "3"
    } else if d == 4 {
        "4"
    } else if d == 5 {
        "5"
    } else if d == 6 {
        "6"
    } else if d == 7 {
        "7"
    } else if d == 8 {
        "8"
    } else {
        "9"
    };
    assert(text@ =~= seq![digit(d as nat)]);
    text
}

/// Writes a status in decimal digits.
pub fn status_text(status: u16) -> (text: String)
    ensures
        text@ == decimal(status as nat),
    decreases status,
{
    if status < 10 {
        String::from_str(digit_text(status))
    } else {
        let ghost front = decimal((status / 10) as nat);
        let text = status_text(status / 10).concat(digit_text(status % 10));
        assert(text@ == front.push(digit((status % 10) as nat)));
        text
    }
}

/// What stands for the reason of a status that has no reason phrase.
pub const UNKNOWN_REASON: &'static str = "<unknown status code>";

/// The reason phrase that goes with a status of three digits, as
/// `StatusCode::canonical_reason` gives it: `None` where the status has none.
pub uninterp spec fn canonical_reason_of(status: u16) -> Option<Seq<char>>;

/// Makes a `reqwest::StatusCode` of a number of three digits, which
/// `StatusCode::from_u16` accepts, and asks `StatusCode::canonical_reason`
/// for its reason phrase. The phrase is looked up in a fixed table by the
/// number alone; the contract names the answer and claims nothing else.
#[verifier::external_body]
fn canonical_reason(status: u16) -> (reason: Option<String>)
    requires
        100 <= status <= 999,
    ensures
        optional_text(reason) == canonical_reason_of(status),
{
    let code = reqwest::StatusCode::from_u16(status).ok()?;
    code.canonical_reason().map(|phrase| phrase.to_string())
}

/// The line that a status and the reason phrase found for it make: the
/// number, then the phrase, or a note that there is none.
pub open spec fn status_with_reason(status: u16, reason: Option<Seq<char>>) -> Seq<char> {
    decimal(status as nat) + " "@ + match reason {
        Some(phrase) => phrase,
        None => UNKNOWN_REASON@,
    }
}

/// A status as it is shown to the user. A status of three digits is shown
/// with its reason phrase; any other number, which no answer can carry, is
/// shown alone.
pub open spec fn status_line_of(status: u16) -> Seq<char> {
    if 100 <= status <= 999 {
        status_with_reason(status, canonical_reason_of(status))
    } else {
        decimal(status as nat)
    }
}

/// Writes a status with the reason phrase found for it, or with a note that
/// there is none.
pub fn describe_status(status: u16, reason: Option<String>) -> (line: String)
    ensures
        line@ == status_with_reason(status, optional_text(reason)),
{
    let mut line = status_text(status);
    line.append(" ");
    match reason {
        Some(phrase) => line.append(phrase.as_str()),
        None => line.append(UNKNOWN_REASON),
    }
    line
}

/// Writes a status as it is shown to the user.
pub fn status_line(status: u16) -> (line: String)
    ensures
        line@ == status_line_of(status),
{
    if 100 <= status && status <= 999 {
        describe_status(status, canonical_reason(status))
    } else {
        status_text(status)
    }
}

impl GatewayError {
    /// The text that tells the user of this failure.
    pub open spec fn message_text(self) -> Seq<char> {
        match self {
            GatewayError::Unauthenticated => "API key not set"@,
            GatewayError::Transport => "Failed to send request"@,
            GatewayError::RemoteRejected(status, body) => "API error: "@ + status_line_of(status)
                + " - "@ + body@,
            GatewayError::EmptyResponse => "No translation returned"@,
        }
    }

    /// The text that tells the user of this failure.
    pub fn message(&self) -> (text: String)
        ensures
            text@ == self.message_text(),
    {
        match self {
            GatewayError::Unauthenticated => String::from_str("API key not set"),
            GatewayError::Transport => String::from_str("Failed to send request"),
            GatewayError::RemoteRejected(status, body) => {
                let mut text = String::from_str("API error: ");
                text.append(status_line(*status).as_str());
                text.append(" - ");
                text.append(body.as_str());
                text
            },
            GatewayError::EmptyResponse => String::from_str("No translation returned"),
        }
    }
}

/// One message of a chat request.
#[derive(Debug, PartialEq, Eq)]
pub struct ChatMessage {
    pub role: String,
    pub content: String,
}

/// What is sent to the endpoint for one translation.
#[derive(Debug, PartialEq, Eq)]
pub struct ChatRequest {
    /// Where the request goes.
    pub url: String,
    /// The value of the authorization header.
    pub authorization: String,
    /// The language model to ask.
    pub model: String,
    /// The prompt of the language pair, then the text to translate.
    pub messages: Vec<ChatMessage>,
}

/// A chat request as character sequences; each message is its role and its
/// content.
pub struct ChatRequestView {
    pub url: Seq<char>,
    pub authorization: Seq<char>,
    pub model: Seq<char>,
    pub messages: Seq<(Seq<char>, Seq<char>)>,
}

impl View for ChatRequest {
    type V = ChatRequestView;

    open spec fn view(&self) -> ChatRequestView {
        ChatRequestView {
            url: self.url@,
            authorization: self.authorization@,
            model: self.model@,
            messages: self.messages@.map_values(|m: ChatMessage| (m.role@, m.content@)),
        }
    }
}

/// The request that asks for the translation of `text` under `prompt`.
pub open spec fn request_for(api_key: Seq<char>, prompt: Seq<char>, text: Seq<char>)
    -> ChatRequestView {
    ChatRequestView {
        url: OPENROUTER_URL@,
        authorization: BEARER@ + api_key,
        model: LLM_MODEL@,
        messages: seq![(SYSTEM_ROLE@, prompt), (USER_ROLE@, text)],
    }
}

/// Prepares the request for the translation of a text by a language pair.
/// Without a credential there is nothing to send.
pub fn translate(api_key: &str, pair: &LanguagePair, text: &str) -> (request: Result<
    ChatRequest,
    GatewayError,
>)
    ensures
        api_key@.len() == 0 ==> request matches Err(GatewayError::Unauthenticated),
        api_key@.len() > 0 ==> (request matches Ok(r) && r@ == request_for(
            api_key@,
            pair.prompt@,
            text@,
        )),
{
    if api_key.is_empty() {
        return Err(GatewayError::Unauthenticated);
    }
    let mut authorization = String::from_str(BEARER);
    authorization.append(api_key);
    let mut messages: Vec<ChatMessage> = Vec::new();
    messages.push(
        ChatMessage { role: String::from_str(SYSTEM_ROLE), content: pair.prompt.clone() },
    );
    messages.push(ChatMessage { role: String::from_str(USER_ROLE), content: String::from_str(text) });
    let request = ChatRequest {
        url: String::from_str(OPENROUTER_URL),
        authorization,
        model: String::from_str(LLM_MODEL),
        messages,
    };
    assert(request@.messages == request_for(api_key@, pair.prompt@, text@).messages);
    Ok(request)
}

/// Whether a response status reports success.
pub open spec fn is_success_status(status: u16) -> bool {
    200 <= status < 300
}

/// Tells whether a response status reports success.
pub fn is_success(status: u16) -> (success: bool)
    ensures
        success == is_success_status(status),
{
    200 <= status && status < 300
}

/// A failure as mathematical values.
pub enum GatewayErrorView {
    Unauthenticated,
    Transport,
    RemoteRejected(u16, Seq<char>),
    EmptyResponse,
}

impl View for GatewayError {
    type V = GatewayErrorView;

    open spec fn view(&self) -> GatewayErrorView {
        match self {
            GatewayError::Unauthenticated => GatewayErrorView::Unauthenticated,
            GatewayError::Transport => GatewayErrorView::Transport,
            GatewayError::RemoteRejected(status, body) => GatewayErrorView::RemoteRejected(
                *status,
                body@,
            ),
            GatewayError::EmptyResponse => GatewayErrorView::EmptyResponse,
        }
    }
}

/// The outcome of an exchange as mathematical values.
pub open spec fn outcome_view(outcome: Result<String, GatewayError>) -> Result<
    Seq<char>,
    GatewayErrorView,
> {
    match outcome {
        Ok(text) => Ok(text@),
        Err(error) => Err(error@),
    }
}

/// What the session makes of an answer of the endpoint, given its status,
/// its body as text and the translations decoded from the body: `None`
/// where the body could not be decoded.
pub open spec fn outcome_of(status: u16, body: Seq<char>, choices: Option<Seq<Seq<char>>>)
    -> Result<Seq<char>, GatewayErrorView> {
    if !is_success_status(status) {
        Err(GatewayErrorView::RemoteRejected(status, body))
    } else {
        match choices {
            Some(choices) => if choices.len() > 0 {
                Ok(choices[0])
            } else {
                Err(GatewayErrorView::EmptyResponse)
            },
            None => Err(GatewayErrorView::EmptyResponse),
        }
    }
}

/// Decides what an answer of the endpoint amounts to. A status other than
/// success is a rejection that keeps status and body. A successful answer
/// gives its first translation; one without any, or one whose body could not
/// be decoded, is an empty response.
pub fn interpret_response(status: u16, body: String, choices: Option<Vec<String>>) -> (outcome:
    Result<String, GatewayError>)
    ensures
        outcome_view(outcome) == outcome_of(
            status,
            body@,
            match choices {
                Some(c) => Some(texts(c@)),
                None => None,
            },
        ),
{
    if !is_success(status) {
        return Err(GatewayError::RemoteRejected(status, body));
    }
    match choices {
        Some(choices) => {
            if choices.len() > 0 {
                Ok(choices[0].clone())
            } else {
                Err(GatewayError::EmptyResponse)
            }
        },
        None => Err(GatewayError::EmptyResponse),
    }
}

} // verus!
