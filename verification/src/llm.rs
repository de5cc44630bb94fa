//! The LLM backend: one trait over the OpenAI Chat Completions wire format.
//!
//! Almost every provider the operator might switch to speaks
//! `POST {base_url}/chat/completions`, so the provider is a `(base_url, model,
//! api_key)` config value rather than a code path: swapping a free model for a
//! paid one, or one vendor for another, is an edit to the config file.
//!
//! What goes over the wire is decided here: the messages of a request, what a
//! response says, and whether a failed call is worth another try. Sending and
//! receiving are left to the program around the library.
use vstd::prelude::*;
use vstd::string::*;

use crate::config::Llm;
use crate::text::{decimal_text, strip_trailing_slashes, trim};

verus! {

/// A conversation role, mapped to its wire string on serialization.
#[derive(Debug, Clone, Copy, PartialEq, Eq, Structural)]
pub enum Role {
    System,
    User,
    Assistant,
}

impl Role {
    /// The name of this role on the wire.
    pub open spec fn wire_name(self) -> Seq<char> {
        match self {
            Role::System => "system"@,
            Role::User => "user"@,
            Role::Assistant => "assistant"@,
        }
    }

    fn wire(self) -> (name: &'static str)
        ensures
            name@ == self.wire_name(),
    {
        match self {
            Role::System => "system",
            Role::User => "user",
            Role::Assistant => "assistant",
        }
    }
}

/// A turn's role and text.
pub struct TurnView {
    pub role: Role,
    pub content: Seq<char>,
}

/// One turn of conversation history handed to the backend.
#[derive(Debug)]
pub struct Turn {
    pub role: Role,
    pub content: String,
}

impl View for Turn {
    type V = TurnView;

    open spec fn view(&self) -> TurnView {
        TurnView { role: self.role, content: self.content@ }
    }
}

impl Clone for Turn {
    fn clone(&self) -> (copy: Self)
        ensures
            copy@ == self@,
    {
        Turn { role: self.role, content: self.content.clone() }
    }
}

impl Turn {
    /// What the peer wrote.
    pub fn user(content: &str) -> (turn: Self)
        ensures
            turn@ == (TurnView { role: Role::User, content: content@ }),
    {
        Turn { role: Role::User, content: content.to_owned() }
    }

    /// What the model answered.
    pub fn assistant(content: &str) -> (turn: Self)
        ensures
            turn@ == (TurnView { role: Role::Assistant, content: content@ }),
    {
        Turn { role: Role::Assistant, content: content.to_owned() }
    }
}

/// The views of a sequence of turns.
pub open spec fn turn_views(turns: Seq<Turn>) -> Seq<TurnView> {
    turns.map_values(|t: Turn| t@)
}

/// A backend's reply plus optional token usage for the daily budget.
#[derive(Debug)]
pub struct Completion {
    pub text: String,
    pub tokens_used: Option<u32>,
}

/// A reply's text and the tokens it took.
pub struct CompletionView {
    pub text: Seq<char>,
    pub tokens_used: Option<u32>,
}

impl View for Completion {
    type V = CompletionView;

    open spec fn view(&self) -> CompletionView {
        CompletionView { text: self.text@, tokens_used: self.tokens_used }
    }
}

/// What a call of the backend came to.
pub open spec fn result_view(result: Result<Completion, LlmError>) -> Result<
    CompletionView,
    LlmError,
> {
    match result {
        Ok(completion) => Ok(completion@),
        Err(err) => Err(err),
    }
}

/// Why a backend has no reply. No variant carries any of the request or the
/// response beyond the status: they may echo the prompt or user content.
#[derive(Debug, Clone, Copy, PartialEq, Eq, Structural)]
pub enum LlmError {
    /// The request could not be sent.
    Send,
    /// The response could not be read.
    Receive,
    /// The endpoint answered with this status, which is not a success.
    Status(u16),
    /// The response is no chat completion.
    Decode,
    /// The response is a chat completion without any text.
    NoContent,
}

/// The one thing the bot needs from a model: system prompt + prior turns in,
/// assistant reply out. `Send + Sync` so a thread pool can share it.
pub trait LlmBackend: Send + Sync {
    fn complete(&self, system: &str, history: &[Turn]) -> Result<Completion, LlmError>;
}

/// A status with its reason phrase, as `StatusCode` displays it.
pub uninterp spec fn status_display(status: u16) -> Option<Seq<char>>;

/// `StatusCode::from_u16` and the `Display` of `StatusCode`, of the `http` crate
/// under `reqwest`: the numbers from 100 to 999 are status codes, and the number
/// alone tells the text that one is displayed as.
#[verifier::external_body]
fn display_status(status: u16) -> (shown: Option<String>)
    ensures
        (match shown {
            Some(text) => Some(text@),
            None => None,
        }) == status_display(status),
        shown is Some <==> 100 <= status <= 999,
{
    reqwest::StatusCode::from_u16(status).ok().map(|code| code.to_string())
}

/// The words for a status: as it is displayed, or its number if it is no status
/// code.
pub open spec fn status_text(status: u16, shown: Option<Seq<char>>) -> Seq<char> {
    match shown {
        Some(text) => text,
        None => crate::text::decimal(status as nat),
    }
}

/// The words for a status that is displayed as `shown`, if it is a status code.
pub fn show_status(status: u16, shown: Option<String>) -> (text: String)
    ensures
        text@ == status_text(
            status,
            match shown {
                Some(s) => Some(s@),
                None => None,
            },
        ),
{
    match shown {
        Some(text) => text,
        None => decimal_text(status as u64),
    }
}

/// How often one message is put to the backend before it is given up.
pub const MAX_ATTEMPTS: u32 = 3;

/// How long to wait before another attempt, in seconds.
pub const RETRY_PAUSE_SECS: u64 = 1;

impl LlmError {
    /// Whether the same request may well succeed a moment later: the network
    /// failed, the endpoint is overloaded, or it is at fault itself.
    pub open spec fn is_passing(self) -> bool {
        match self {
            LlmError::Send | LlmError::Receive => true,
            LlmError::Status(status) => status == 429 || status >= 500,
            LlmError::Decode | LlmError::NoContent => false,
        }
    }

    /// Whether the same request may well succeed a moment later.
    pub fn is_transient(&self) -> (res: bool)
        ensures
            res == self.is_passing(),
    {
        match self {
            LlmError::Send => true,
            LlmError::Receive => true,
            LlmError::Status(status) => *status == 429 || *status >= 500,
            LlmError::Decode => false,
            LlmError::NoContent => false,
        }
    }

    /// What to tell the operator.
    pub open spec fn text(self) -> Seq<char> {
        match self {
            LlmError::Send => "sending the chat completion request"@,
            LlmError::Receive => "reading the chat completion response body"@,
            LlmError::Status(status) => "chat completion request failed with status "@
                + status_text(status, status_display(status)),
            LlmError::Decode => "decoding the chat completion response"@,
            LlmError::NoContent => "chat completion response carried no message content"@,
        }
    }

    /// What to tell the operator.
    pub fn message(&self) -> (text: String)
        ensures
            text@ == self.text(),
    {
        match self {
            LlmError::Send => "sending the chat completion request".to_owned(),
            LlmError::Receive => "reading the chat completion response body".to_owned(),
            LlmError::Status(status) => {
                let shown: String = show_status(*status, display_status(*status));
                "chat completion request failed with status ".to_owned().concat(shown.as_str())
            },
            LlmError::Decode => "decoding the chat completion response".to_owned(),
            LlmError::NoContent => "chat completion response carried no message content".to_owned(),
        }
    }
}

/// Whether to put a message to the backend again after `attempts` attempts, the
/// last of which came to `result`: only after a failure that may pass, and only
/// while attempts are left.
pub fn should_retry(attempts: u32, result: &Result<Completion, LlmError>) -> (again: bool)
    ensures
        again == worth_retrying(attempts as nat, result_view(*result)),
{
    match result {
        Ok(_) => false,
        Err(err) => err.is_transient() && attempts < MAX_ATTEMPTS,
    }
}

/// The URL of the chat completions endpoint under `base_url`, however many
/// slashes that ends in.
pub open spec fn endpoint_url(base_url: Seq<char>) -> Seq<char> {
    crate::text::without_trailing_slashes(base_url) + "/chat/completions"@
}

/// The URL of the chat completions endpoint under `base_url`.
pub fn endpoint(base_url: &str) -> (url: String)
    ensures
        url@ == endpoint_url(base_url@),
{
    strip_trailing_slashes(base_url).concat("/chat/completions")
}

/// A slash at the end of the base URL makes no difference.
pub proof fn law_trailing_slash_is_ignored(base_url: Seq<char>)
    ensures
        endpoint_url(base_url.push('/')) == endpoint_url(base_url),
{
    assert(base_url.push('/').drop_last() =~= base_url);
}

/// One message as it goes over the wire.
#[derive(Debug)]
pub struct WireMessage<'a> {
    pub role: &'a str,
    pub content: &'a str,
}

/// A request as it goes over the wire. The temperature is the bit pattern of a
/// single-precision number.
#[derive(Debug)]
pub struct ChatRequest<'a> {
    pub model: &'a str,
    pub messages: Vec<WireMessage<'a>>,
    pub max_tokens: u32,
    pub temperature_bits: u32,
}

/// The role and the text of a wire message.
pub open spec fn wire_views<'a>(messages: Seq<WireMessage<'a>>) -> Seq<(Seq<char>, Seq<char>)> {
    messages.map_values(|m: WireMessage<'a>| (m.role@, m.content@))
}

/// The messages of a request: the system prompt, unless it is empty, and then
/// the history turn by turn.
pub open spec fn request_messages(system: Seq<char>, history: Seq<TurnView>) -> Seq<
    (Seq<char>, Seq<char>),
> {
    let turns = history.map_values(|t: TurnView| (t.role.wire_name(), t.content));
    if system.len() == 0 {
        turns
    } else {
        seq![(Role::System.wire_name(), system)] + turns
    }
}

/// The messages of a request for the next turn after `history`.
pub fn build_messages<'a>(system: &'a str, history: &'a [Turn]) -> (messages: Vec<WireMessage<'a>>)
    ensures
        wire_views(messages@) == request_messages(system@, turn_views(history@)),
{
    let mut messages: Vec<WireMessage<'a>> = Vec::new();
    let ghost head: Seq<(Seq<char>, Seq<char>)> = if system@.len() == 0 {
        Seq::empty()
    } else {
        seq![(Role::System.wire_name(), system@)]
    };
    if !system.is_empty() {
        messages.push(WireMessage { role: Role::System.wire(), content: system });
    }
    assert(wire_views(messages@) =~= head);
    let ghost turns = turn_views(history@).map_values(
        |t: TurnView| (t.role.wire_name(), t.content),
    );
    let mut i: usize = 0;
    while i < history.len()
        invariant
            i <= history@.len(),
            turns == turn_views(history@).map_values(
                |t: TurnView| (t.role.wire_name(), t.content),
            ),
            wire_views(messages@) == head + turns.take(i as int),
        decreases history@.len() - i,
    {
        let ghost before = messages@;
        messages.push(
            WireMessage { role: history[i].role.wire(), content: history[i].content.as_str() },
        );
        assert(wire_views(messages@) =~= wire_views(before).push(turns[i as int]));
        assert(turns.take(i + 1) =~= turns.take(i as int).push(turns[i as int]));
        assert((head + turns.take(i as int)).push(turns[i as int]) =~= head + turns.take(i + 1));
        i = i + 1;
    }
    assert(turns.take(i as int) =~= turns);
    assert(head + turns =~= request_messages(system@, turn_views(history@)));
    messages
}

/// The request that asks the configured model for the next turn.
pub fn build_request<'a>(llm: &'a Llm, system: &'a str, history: &'a [Turn]) -> (request:
    ChatRequest<'a>)
    ensures
        request.model@ == llm.model@,
        wire_views(request.messages@) == request_messages(system@, turn_views(history@)),
        request.max_tokens == llm.max_output_tokens,
        request.temperature_bits == llm.temperature_bits,
{
    ChatRequest {
        model: llm.model.as_str(),
        messages: build_messages(system, history),
        max_tokens: llm.max_output_tokens,
        temperature_bits: llm.temperature_bits,
    }
}

/// A chat completion response, decoded from the wire.
#[derive(Debug)]
pub struct ChatResponse {
    pub choices: Vec<Choice>,
    pub usage: Option<Usage>,
}

/// One of the answers of a response.
#[derive(Debug)]
pub struct Choice {
    pub message: RespMessage,
}

/// The message of an answer, which may have no text.
#[derive(Debug)]
pub struct RespMessage {
    pub content: Option<String>,
}

/// The token usage that a response reports.
#[derive(Debug)]
pub struct Usage {
    pub total_tokens: Option<u32>,
}

impl ChatResponse {
    /// The text of the first answer, without the whitespace around it; empty if
    /// there is no answer or it has no text.
    pub open spec fn reply_text(self) -> Seq<char> {
        if self.choices@.len() > 0 && self.choices@[0].message.content is Some {
            crate::text::trimmed(self.choices@[0].message.content->0@)
        } else {
            Seq::empty()
        }
    }

    /// The token count that the response reports, if any.
    pub open spec fn reported_tokens(self) -> Option<u32> {
        match self.usage {
            Some(usage) => usage.total_tokens,
            None => None,
        }
    }

    /// The reply that the response carries, or that it carries none.
    pub open spec fn reply(self) -> Result<CompletionView, LlmError> {
        if self.reply_text().len() == 0 {
            Err(LlmError::NoContent)
        } else {
            Ok(
                CompletionView {
                    text: self.reply_text(),
                    tokens_used: self.reported_tokens(),
                },
            )
        }
    }
}

/// What a response says: the trimmed text of its first answer and the reported
/// token count. A response whose first answer is missing, null or blank is an
/// error.
pub fn parse_response(response: &ChatResponse) -> (res: Result<Completion, LlmError>)
    ensures
        result_view(res) == response.reply(),
{
    let text: String = if response.choices.len() > 0 {
        match &response.choices[0].message.content {
            Some(content) => trim(content.as_str()),
            None => String::new(),
        }
    } else {
        String::new()
    };
    if text.as_str().is_empty() {
        return Err(LlmError::NoContent);
    }
    let tokens_used: Option<u32> = match &response.usage {
        Some(usage) => usage.total_tokens,
        None => None,
    };
    Ok(Completion { text, tokens_used })
}

/// Whether a status reports success.
pub open spec fn is_success(status: u16) -> bool {
    200 <= status < 300
}

/// What a reply of the endpoint comes to: an error that names the status if
/// that is no success, an error if the body could not be decoded, and otherwise
/// what the response says.
pub fn read_reply(status: u16, decoded: Option<&ChatResponse>) -> (res: Result<
    Completion,
    LlmError,
>)
    ensures
        result_view(res) == endpoint_reply(
            status,
            match decoded {
                Some(response) => Some(*response),
                None => None,
            },
        ),
{
    if status < 200 || status >= 300 {
        return Err(LlmError::Status(status));
    }
    match decoded {
        Some(response) => parse_response(response),
        None => Err(LlmError::Decode),
    }
}

/// The roles have three names on the wire, all different.
pub proof fn law_roles_have_their_wire_names()
    ensures
        Role::System.wire_name() == "system"@,
        Role::User.wire_name() == "user"@,
        Role::Assistant.wire_name() == "assistant"@,
        Role::System.wire_name() != Role::User.wire_name(),
        Role::User.wire_name() != Role::Assistant.wire_name(),
        Role::Assistant.wire_name() != Role::System.wire_name(),
{
    reveal_strlit("system");
    reveal_strlit("user");
    reveal_strlit("assistant");
    assert("system"@.len() == 6);
    assert("user"@.len() == 4);
    assert("assistant"@.len() == 9);
}

/// A request holds every turn of the history, in order, whole and under its own
/// role, after the whole system prompt if there is one; and nothing else.
pub proof fn law_request_holds_every_turn(system: Seq<char>, history: Seq<TurnView>, i: int)
    requires
        0 <= i < history.len(),
    ensures
        ({
            let messages = request_messages(system, history);
            let lead: int = if system.len() > 0 {
                1
            } else {
                0
            };
            &&& messages.len() == history.len() + lead
            &&& messages[i + lead].0 == history[i].role.wire_name()
            &&& messages[i + lead].1 == history[i].content
            &&& system.len() > 0 ==> messages[0] == ("system"@, system)
        }),
{
}

/// One turn more is one message more at the end, and changes none before it.
pub proof fn law_one_turn_more_is_one_message_more(
    system: Seq<char>,
    history: Seq<TurnView>,
    turn: TurnView,
)
    ensures
        request_messages(system, history.push(turn)) == request_messages(system, history).push(
            (turn.role.wire_name(), turn.content),
        ),
        request_messages(system, Seq::empty()).len() == (if system.len() > 0 {
            1int
        } else {
            0int
        }),
{
    assert(request_messages(system, history.push(turn)) =~= request_messages(
        system,
        history,
    ).push((turn.role.wire_name(), turn.content)));
}

/// The endpoint is the base URL, without the slashes at its end, and the one path
/// of chat completions.
pub proof fn law_endpoint_is_under_the_base_url(base_url: Seq<char>, slashes: Seq<char>)
    requires
        base_url.len() > 0 ==> base_url.last() != '/',
        forall|i: int| 0 <= i < slashes.len() ==> #[trigger] slashes[i] == '/',
    ensures
        endpoint_url(base_url + slashes) == base_url + "/chat/completions"@,
{
    crate::text::law_only_trailing_slashes_are_taken_off(base_url, slashes);
}

/// The reply is the whole text of the first answer: whatever whitespace stands
/// around it, nothing else is taken off, and no other answer counts.
pub proof fn law_reply_is_the_whole_first_answer(
    response: ChatResponse,
    front: Seq<char>,
    text: Seq<char>,
    back: Seq<char>,
)
    requires
        response.choices@.len() > 0,
        response.choices@[0].message.content is Some,
        response.choices@[0].message.content->0@ == front + text + back,
        crate::text::is_blank(front),
        crate::text::is_blank(back),
        crate::text::is_trim(text),
        text.len() > 0,
    ensures
        response.reply() is Ok,
        response.reply()->Ok_0.text == text,
        response.reply()->Ok_0.tokens_used is Some <==> response.usage is Some
            && response.usage->0.total_tokens is Some,
        response.reply()->Ok_0.tokens_used is Some ==> response.reply()->Ok_0.tokens_used
            == response.usage->0.total_tokens,
{
    crate::text::law_trimming_takes_off_the_ends_only(front, text, back);
}

/// A response has no reply exactly if it has no answer, or the first has no text
/// or only whitespace; and then that is the error.
pub proof fn law_no_reply_only_without_text(response: ChatResponse)
    ensures
        response.reply() is Err <==> {
            ||| response.choices@.len() == 0
            ||| response.choices@[0].message.content is None
            ||| crate::text::is_blank(response.choices@[0].message.content->0@)
        },
        response.reply() is Err ==> response.reply()->Err_0 == LlmError::NoContent,
{
    if response.choices@.len() > 0 && response.choices@[0].message.content is Some {
        let content = response.choices@[0].message.content->0@;
        crate::text::law_a_text_is_its_trimmed_text_and_whitespace(content);
        let (front, back) = choose|front: Seq<char>, back: Seq<char>|
            crate::text::is_blank(front) && crate::text::is_blank(back) && content == #[trigger] (
            front + crate::text::trimmed(content) + back);
        if crate::text::trimmed(content).len() == 0 {
            assert forall|i: int| 0 <= i < content.len() implies crate::text::is_whitespace(
                #[trigger] content[i],
            ) by {
                if i < front.len() {
                    assert(content[i] == front[i]);
                } else {
                    assert(content[i] == back[i - front.len()]);
                }
            }
        } else {
            assert(content[front.len() as int] == crate::text::trimmed(content)[0]);
        }
    }
}

/// What a reply of the endpoint comes to.
pub open spec fn endpoint_reply(status: u16, decoded: Option<ChatResponse>) -> Result<
    CompletionView,
    LlmError,
> {
    if !is_success(status) {
        Err(LlmError::Status(status))
    } else {
        match decoded {
            Some(response) => response.reply(),
            None => Err(LlmError::Decode),
        }
    }
}

/// Of all statuses exactly the two hundreds are a success; any other is an error
/// that names it, whatever the body holds, and only a success is read.
pub proof fn law_status_comes_before_the_body(status: u16, decoded: Option<ChatResponse>)
    ensures
        status / 100 != 2 ==> endpoint_reply(status, decoded) == Err::<CompletionView, LlmError>(
            LlmError::Status(status),
        ),
        status / 100 == 2 && decoded is None ==> endpoint_reply(status, decoded) == Err::<
            CompletionView,
            LlmError,
        >(LlmError::Decode),
        status / 100 == 2 && decoded is Some ==> endpoint_reply(status, decoded)
            == decoded->0.reply(),
{
}

/// Whether to put a message to the backend again.
pub open spec fn worth_retrying(
    attempts: nat,
    result: Result<CompletionView, LlmError>,
) -> bool {
    match result {
        Ok(_) => false,
        Err(err) => err.is_passing() && attempts < MAX_ATTEMPTS,
    }
}

/// Trying again ends: never after a reply, never once the attempts are used up,
/// and never after a failure that the same request would meet again (a status
/// below 500 other than 429, a body that is no chat completion or carries no
/// text). Every other failure is worth another attempt while one is left.
pub proof fn law_only_passing_failures_are_retried(
    attempts: nat,
    result: Result<CompletionView, LlmError>,
)
    ensures
        result is Ok ==> !worth_retrying(attempts, result),
        attempts >= MAX_ATTEMPTS ==> !worth_retrying(attempts, result),
        result is Err && attempts < MAX_ATTEMPTS ==> (worth_retrying(attempts, result) <==> {
            let err = result->Err_0;
            ||| err is Send
            ||| err is Receive
            ||| err is Status && (err->Status_0 == 429 || err->Status_0 >= 500)
        }),
{
}

/// The operator is told what failed, and of the response no more than its
/// status.
pub proof fn law_failures_have_their_words(status: u16)
    ensures
        LlmError::Send.text() == "sending the chat completion request"@,
        LlmError::Receive.text() == "reading the chat completion response body"@,
        LlmError::Decode.text() == "decoding the chat completion response"@,
        LlmError::NoContent.text() == "chat completion response carried no message content"@,
        status_display(status) is Some ==> LlmError::Status(status).text()
            == "chat completion request failed with status "@ + status_display(status)->0,
        status_display(status) is None ==> LlmError::Status(status).text()
            == "chat completion request failed with status "@ + crate::text::decimal(
            status as nat,
        ),
{
}

/// A turn, a history and a reply are seen whole: roles, texts and token counts,
/// turn by turn.
pub proof fn law_turns_and_replies_are_seen_whole(
    turns: Seq<Turn>,
    i: int,
    reply: Completion,
    err: LlmError,
)
    ensures
        turn_views(turns).len() == turns.len(),
        0 <= i < turns.len() ==> turn_views(turns)[i].role == turns[i].role
            && turn_views(turns)[i].content == turns[i].content@,
        reply@.text == reply.text@,
        reply@.tokens_used == reply.tokens_used,
        result_view(Ok(reply)) == Ok::<CompletionView, LlmError>(reply@),
        result_view(Err(err)) == Err::<CompletionView, LlmError>(err),
{
}

/// What goes over the wire is seen whole, message by message.
pub proof fn law_wire_messages_are_seen_whole(messages: Seq<WireMessage<'_>>, i: int)
    ensures
        wire_views(messages).len() == messages.len(),
        0 <= i < messages.len() ==> wire_views(messages)[i].0 == messages[i].role@
            && wire_views(messages)[i].1 == messages[i].content@,
{
}

/// A status is told in the words it is displayed as, whole; by its number only
/// where it has none.
pub proof fn law_status_is_told_as_displayed(status: u16, shown: Seq<char>)
    ensures
        status_text(status, Some(shown)) == shown,
        status_text(status, None) == crate::text::decimal(status as nat),
{
}

} // verus!
