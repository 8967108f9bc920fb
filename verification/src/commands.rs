//! The commands that a front end runs against the shared state: asking for a
//! translation, listing the language pairs, reading and replacing the
//! credential; and the form in which the credential is kept on disk.

use crate::model::{optional_text, LanguagePair};
use crate::translator::{request_for, ChatRequest, GatewayError};
use vstd::prelude::*;

verus! {

/// The failure of the JSON library; the commands only turn it into text.
#[verifier::external_type_specification]
#[verifier::external_body]
pub struct ExJsonError(serde_json::Error);

/// The directory, below the user's configuration directory, that holds the
/// configuration file.
pub const CONFIG_DIRECTORY: &'static str = "babelfish";

/// The file that holds the credential.
pub const CONFIG_FILE: &'static str = "config.json";

/// The member of the configuration file that holds the credential.
pub const API_KEY_FIELD: &'static str = "api_key";

/// The variable of the environment that supplies a credential when none is
/// stored.
pub const API_KEY_VARIABLE: &'static str = "OPENROUTER_API_KEY";

/// What the state of the application holds: the credential, which may be
/// replaced while the application runs, and the language pairs on offer.
#[derive(Debug)]
pub struct AppState {
    pub api_key: String,
    pub pairs: Vec<LanguagePair>,
}

/// A JSON document as the JSON library holds it. The commands look one member
/// up in it and read nothing else.
#[verifier::external_type_specification]
#[verifier::external_body]
pub struct ExJsonValue(serde_json::Value);

/// The strings that a JSON value holds as members: where the value is an
/// object, those of its members whose value is a string, by name; nothing
/// where it is anything else.
pub uninterp spec fn string_members(value: serde_json::Value) -> Map<Seq<char>, Seq<char>>;

/// What `serde_json::from_str` makes of a text: `None` where the text is no
/// JSON document, otherwise the strings that the document holds as members.
pub uninterp spec fn parsed_members(text: Seq<char>) -> Option<Map<Seq<char>, Seq<char>>>;

/// Parses a text with `serde_json::from_str` into a `serde_json::Value`. The
/// outcome depends on the text alone; the contract names it and claims
/// nothing else of it.
#[verifier::external_body]
fn parse_document(text: &str) -> (document: Result<serde_json::Value, serde_json::Error>)
    ensures
        parsed_members(text@) == match document {
            Ok(value) => Some(string_members(value)),
            Err(_) => None,
        },
{
    serde_json::from_str(text)
}

/// Looks a member up with `serde_json::Value::get`, which finds a member of
/// an object by its name and finds nothing in any other value, and hands the
/// member out where it is a string.
#[verifier::external_body]
fn string_member(document: &serde_json::Value, name: &str) -> (member: Option<String>)
    ensures
        optional_text(member) == if string_members(*document).contains_key(name@) {
            Some(string_members(*document)[name@])
        } else {
            None
        },
{
    match document.get(name) {
        Some(serde_json::Value::String(text)) => Some(text.clone()),
        _ => None,
    }
}

/// The text that `serde_json::to_string_pretty` writes for an object with one
/// member, a string.
pub uninterp spec fn json_object_text(name: Seq<char>, value: Seq<char>) -> Seq<char>;

/// Builds a `serde_json::Value` that is an object with the one member given
/// and writes it with `serde_json::to_string_pretty`.
///
/// The call succeeds. Its documentation names two causes of failure, a value
/// whose way of writing itself fails and a map whose keys are no strings; a
/// `Value` writes itself member by member into a byte vector, and here the
/// one key is a string and so is what stands under it. The text depends on
/// the two arguments alone, and the contract names it.
#[verifier::external_body]
fn write_string_member(name: &str, value: &str) -> (text: Result<String, serde_json::Error>)
    ensures
        text is Ok,
        text matches Ok(t) ==> t@ == json_object_text(name@, value@),
{
    let mut members = serde_json::Map::new();
    members.insert(name.to_string(), serde_json::Value::String(value.to_string()));
    serde_json::to_string_pretty(&serde_json::Value::Object(members))
}

/// Writes the failure of the JSON library as text, through its `Display`.
/// Nothing is claimed of the text.
#[verifier::external_body]
fn json_error_text(error: &serde_json::Error) -> (text: String) {
    error.to_string()
}

/// The credential among the string members of a configuration: the string
/// under the credential's name, or the empty credential where there is none.
pub open spec fn key_among(members: Map<Seq<char>, Seq<char>>) -> Seq<char> {
    if members.contains_key(API_KEY_FIELD@) {
        members[API_KEY_FIELD@]
    } else {
        Seq::empty()
    }
}

/// The credential stored in a configuration file, given what reading the
/// file gave, `None` where it could not be read. A file that is no JSON
/// document stores none.
pub open spec fn stored_key(content: Option<Seq<char>>) -> Seq<char> {
    match content {
        Some(text) => match parsed_members(text) {
            Some(members) => key_among(members),
            None => Seq::empty(),
        },
        None => Seq::empty(),
    }
}

/// Finds the credential in a parsed configuration: the string under the
/// credential's name. A document that is no object, has no such member or
/// holds something other than a string there gives the empty credential.
pub fn api_key_in(document: &serde_json::Value) -> (key: String)
    ensures
        key@ == key_among(string_members(*document)),
{
    match string_member(document, API_KEY_FIELD) {
        Some(key) => key,
        None => String::new(),
    }
}

/// Finds the stored credential in what reading the configuration file gave.
/// A file that could not be read, that is no JSON document or that holds no
/// string under the credential's name gives the empty credential.
pub fn load_api_key(content: Option<&str>) -> (key: String)
    ensures
        key@ == stored_key(
            match content {
                Some(text) => Some(text@),
                None => None,
            },
        ),
{
    match content {
        Some(text) => match parse_document(text) {
            Ok(document) => api_key_in(&document),
            Err(_) => String::new(),
        },
        None => String::new(),
    }
}

/// The credential to start with: the stored one, or where none is stored the
/// one that the environment supplies, or none at all.
pub open spec fn resolved_credential(stored: Seq<char>, fallback: Option<Seq<char>>) -> Seq<
    char,
> {
    if stored.len() > 0 {
        stored
    } else {
        match fallback {
            Some(key) => key,
            None => Seq::empty(),
        }
    }
}

/// Chooses the credential to start with.
pub fn resolve_credential(stored: String, fallback: Option<String>) -> (key: String)
    ensures
        key@ == resolved_credential(stored@, optional_text(fallback)),
{
    if !stored.as_str().is_empty() {
        stored
    } else {
        match fallback {
            Some(key) => key,
            None => String::new(),
        }
    }
}

/// The state that the application starts with, given the stored credential,
/// the credential that the environment supplies and the language pairs that
/// were loaded. Without any pair there is nothing to start: the application
/// is to stop before it takes any command.
pub fn initial_state(stored: String, fallback: Option<String>, pairs: Vec<LanguagePair>) -> (state:
    Option<AppState>)
    ensures
        pairs.len() == 0 ==> state is None,
        pairs.len() > 0 ==> (state matches Some(s) && s.pairs == pairs && s.api_key@
            == resolved_credential(stored@, optional_text(fallback))),
{
    if pairs.len() == 0 {
        None
    } else {
        Some(AppState { api_key: resolve_credential(stored, fallback), pairs })
    }
}

/// Writes the configuration file that stores a credential: a JSON object
/// that holds the credential under its name. Every credential can be written.
pub fn config_text(key: &str) -> (text: Result<String, String>)
    ensures
        text matches Ok(t) && t@ == json_object_text(API_KEY_FIELD@, key@),
{
    written_or_reason(write_string_member(API_KEY_FIELD, key))
}

/// What a command makes of the answer of the JSON library to a request to
/// write: the text as it was written, or where the library failed, a failure
/// of the command that carries what the library has to say of its own.
pub fn written_or_reason(written: Result<String, serde_json::Error>) -> (text: Result<
    String,
    String,
>)
    ensures
        match written {
            Ok(document) => text matches Ok(t) && t == document,
            Err(_) => text is Err,
        },
{
    match written {
        Ok(document) => Ok(document),
        Err(error) => Err(json_error_text(&error)),
    }
}

/// What the user is told when the credential could not be stored.
pub open spec fn save_failure(reason: Seq<char>) -> Seq<char> {
    "Failed to save API key: "@ + reason
}

/// Replaces the credential, given how storing it went. A credential that
/// could not be stored is not taken over: the state stays as it was and the
/// reason is reported.
pub fn set_api_key(state: &mut AppState, key: String, stored: Result<(), String>) -> (done:
    Result<(), String>)
    ensures
        match stored {
            Ok(_) => done is Ok && final(state).api_key@ == key@,
            Err(reason) => done matches Err(told) && told@ == save_failure(reason@)
                && final(state).api_key == old(state).api_key,
        },
        final(state).pairs == old(state).pairs,
{
    match stored {
        Ok(_) => {
            state.api_key = key;
            Ok(())
        },
        Err(reason) => {
            let mut told = String::from_str("Failed to save API key: ");
            told.append(reason.as_str());
            Err(told)
        },
    }
}

/// The credential in use.
pub fn get_api_key(state: &AppState) -> (key: String)
    ensures
        key@ == state.api_key@,
{
    state.api_key.clone()
}

/// The language pairs on offer, in their order.
pub fn get_language_pairs(state: &AppState) -> (pairs: Vec<LanguagePair>)
    ensures
        pairs@ == state.pairs@,
{
    let mut pairs: Vec<LanguagePair> = Vec::new();
    let mut i: usize = 0;
    while i < state.pairs.len()
        invariant
            i <= state.pairs.len(),
            pairs@ == state.pairs@.take(i as int),
        decreases state.pairs.len() - i,
    {
        pairs.push(state.pairs[i].clone());
        i = i + 1;
    }
    pairs
}

/// Whether `index` is the place of the first pair with a given identifier.
pub open spec fn first_named(pairs: Seq<LanguagePair>, name: Seq<char>, index: int) -> bool {
    &&& 0 <= index < pairs.len()
    &&& pairs[index].name@ == name
    &&& forall|j: int| 0 <= j < index ==> pairs[j].name@ != name
}

/// Prepares the translation of a text by the pair with a given identifier.
///
/// Without a credential the answer is "API key not set", whatever the
/// identifier, and no request is made. With a credential and no pair of that
/// identifier the answer is "Language pair not found". Otherwise the request
/// to send is returned; it carries the prompt of the first pair so named.
pub fn translate(state: &AppState, pair_name: &str, text: &str) -> (request: Result<
    ChatRequest,
    String,
>)
    ensures
        state.api_key@.len() == 0 ==> (request matches Err(told) && told@
            == GatewayError::Unauthenticated.message_text()),
        state.api_key@.len() > 0 ==> match request {
            Ok(r) => exists|i: int|
                first_named(state.pairs@, pair_name@, i) && r@ == request_for(
                    state.api_key@,
                    #[trigger] state.pairs@[i].prompt@,
                    text@,
                ),
            Err(told) => told@ == "Language pair not found"@ && forall|i: int|
                0 <= i < state.pairs.len() ==> state.pairs@[i].name@ != pair_name@,
        },
{
    if state.api_key.as_str().is_empty() {
        return Err(GatewayError::Unauthenticated.message());
    }
    let mut i: usize = 0;
    while i < state.pairs.len()
        invariant
            i <= state.pairs.len(),
            state.api_key@.len() > 0,
            forall|j: int| 0 <= j < i ==> state.pairs@[j].name@ != pair_name@,
        decreases state.pairs.len() - i,
    {
        if state.pairs[i].name.as_str().to_owned() == String::from_str(pair_name) {
            let prepared = crate::translator::translate(
                state.api_key.as_str(),
                &state.pairs[i],
                text,
            );
            return match prepared {
                Ok(r) => {
                    assert(first_named(state.pairs@, pair_name@, i as int));
                    Ok(r)
                },
                Err(error) => Err(error.message()),
            };
        }
        i = i + 1;
    }
    Err(String::from_str("Language pair not found"))
}

/// What a command hands to the front end at the end of an exchange: the
/// translation, or the text that tells of the failure.
pub fn report(outcome: Result<String, GatewayError>) -> (told: Result<String, String>)
    ensures
        match outcome {
            Ok(text) => told matches Ok(t) && t@ == text@,
            Err(error) => told matches Err(t) && t@ == error.message_text(),
        },
{
    match outcome {
        Ok(text) => Ok(text),
        Err(error) => Err(error.message()),
    }
}

} // verus!
