//! The conversation with an OpenAI-compatible server: messages, settings, retries, and the
//! assembly of a streamed reply.
use vstd::prelude::*;
use vstd::string::*;

use crate::json;
use crate::json::{quote, Json, JsonView};
use crate::text;
use crate::text::same_text;
use crate::tool_call_stream;
use crate::tool_call_stream::{Slot, StreamingToolCallAccumulator};

verus! {

// ---------------------------------------------------------------------------
// Messages
// ---------------------------------------------------------------------------

/// The name and the arguments of a called function.
#[derive(Debug)]
pub struct FunctionCallSerde {
    pub name: String,
    pub arguments: String,
}

/// A tool call in an assistant message.
#[derive(Debug)]
pub struct MessageToolCall {
    pub id: String,
    pub call_type: String,
    pub function: FunctionCallSerde,
}

/// One message of a conversation.
#[derive(Debug)]
pub struct Message {
    pub role: String,
    pub content: Option<String>,
    pub tool_calls: Option<Vec<MessageToolCall>>,
    pub tool_call_id: Option<String>,
}

/// What a [`MessageToolCall`] stands for.
pub struct ToolCallView {
    pub id: Seq<char>,
    pub call_type: Seq<char>,
    pub name: Seq<char>,
    pub arguments: Seq<char>,
}

/// What a [`Message`] stands for.
pub struct MessageView {
    pub role: Seq<char>,
    pub content: Option<Seq<char>>,
    pub tool_calls: Option<Seq<ToolCallView>>,
    pub tool_call_id: Option<Seq<char>>,
}

impl View for MessageToolCall {
    type V = ToolCallView;

    open spec fn view(&self) -> ToolCallView {
        ToolCallView {
            id: self.id@,
            call_type: self.call_type@,
            name: self.function.name@,
            arguments: self.function.arguments@,
        }
    }
}

/// What an optional text stands for.
pub open spec fn optional_text(s: Option<String>) -> Option<Seq<char>> {
    match s {
        Some(s) => Some(s@),
        None => None,
    }
}

/// What some tool calls stand for.
pub open spec fn call_views(calls: Seq<MessageToolCall>) -> Seq<ToolCallView> {
    Seq::new(calls.len(), |i: int| calls[i]@)
}

impl View for Message {
    type V = MessageView;

    open spec fn view(&self) -> MessageView {
        MessageView {
            role: self.role@,
            content: optional_text(self.content),
            tool_calls: match self.tool_calls {
                Some(v) => Some(call_views(v@)),
                None => None,
            },
            tool_call_id: optional_text(self.tool_call_id),
        }
    }
}

/// What some messages stand for.
pub open spec fn message_views(messages: Seq<Message>) -> Seq<MessageView> {
    Seq::new(messages.len(), |i: int| messages[i]@)
}

impl Clone for FunctionCallSerde {
    fn clone(&self) -> (r: Self)
        ensures
            r == *self,
    {
        FunctionCallSerde { name: self.name.clone(), arguments: self.arguments.clone() }
    }
}

impl Clone for MessageToolCall {
    fn clone(&self) -> (r: Self)
        ensures
            r == *self,
    {
        MessageToolCall {
            id: self.id.clone(),
            call_type: self.call_type.clone(),
            function: self.function.clone(),
        }
    }
}

/// Copies an optional text.
pub(crate) fn copy_optional(s: &Option<String>) -> (r: Option<String>)
    ensures
        r == *s,
{
    match s {
        Some(s) => Some(s.clone()),
        None => None,
    }
}

/// Copies tool calls.
fn copy_calls(calls: &Vec<MessageToolCall>) -> (r: Vec<MessageToolCall>)
    ensures
        r@ == calls@,
{
    let mut out: Vec<MessageToolCall> = Vec::new();
    let mut i: usize = 0;
    while i < calls.len()
        invariant
            i <= calls.len(),
            out@ == calls@.take(i as int),
        decreases calls.len() - i,
    {
        out.push(calls[i].clone());
        i += 1;
        assert(out@ =~= calls@.take(i as int));
    }
    assert(calls@.take(calls@.len() as int) =~= calls@);
    out
}

impl Clone for Message {
    fn clone(&self) -> (r: Self)
        ensures
            r@ == self@,
    {
        let r = Message {
            role: self.role.clone(),
            content: copy_optional(&self.content),
            tool_calls: match &self.tool_calls {
                Some(v) => Some(copy_calls(v)),
                None => None,
            },
            tool_call_id: copy_optional(&self.tool_call_id),
        };
        assert(r@.tool_calls =~= self@.tool_calls);
        r
    }
}

impl MessageView {
    /// A message with a role and a content.
    pub open spec fn plain(role: Seq<char>, content: Seq<char>) -> MessageView {
        MessageView { role, content: Some(content), tool_calls: None, tool_call_id: None }
    }

    /// The result of a tool call.
    pub open spec fn tool_result(id: Seq<char>, content: Seq<char>) -> MessageView {
        MessageView {
            role: "tool"@,
            content: Some(content),
            tool_calls: None,
            tool_call_id: Some(id),
        }
    }
}

impl Message {
    /// A message of the user.
    pub fn user(content: &str) -> (r: Self)
        ensures
            r@ == MessageView::plain("user"@, content@),
    {
        Message {
            role: "user".to_owned(),
            content: Some(content.to_owned()),
            tool_calls: None,
            tool_call_id: None,
        }
    }

    /// A system message.
    pub fn system(content: &str) -> (r: Self)
        ensures
            r@ == MessageView::plain("system"@, content@),
    {
        Message {
            role: "system".to_owned(),
            content: Some(content.to_owned()),
            tool_calls: None,
            tool_call_id: None,
        }
    }

    /// A message of the assistant, with the tool calls that it makes.
    pub fn assistant(content: Option<String>, tool_calls: Option<Vec<MessageToolCall>>) -> (r: Self)
        ensures
            r.role@ == "assistant"@,
            r.content == content,
            r.tool_calls == tool_calls,
            r.tool_call_id is None,
    {
        Message { role: "assistant".to_owned(), content, tool_calls, tool_call_id: None }
    }

    /// The result of a tool call.
    pub fn tool(tool_call_id: &str, content: &str) -> (r: Self)
        ensures
            r@ == MessageView::tool_result(tool_call_id@, content@),
    {
        Message {
            role: "tool".to_owned(),
            content: Some(content.to_owned()),
            tool_calls: None,
            tool_call_id: Some(tool_call_id.to_owned()),
        }
    }
}

// ---------------------------------------------------------------------------
// Messages as JSON
// ---------------------------------------------------------------------------

/// A tool call as JSON text.
pub open spec fn call_json(c: ToolCallView) -> Seq<char> {
    "{\"id\":"@ + json::quoted(c.id) + ",\"type\":"@ + json::quoted(c.call_type)
        + ",\"function\":{\"name\":"@ + json::quoted(c.name) + ",\"arguments\":"@ + json::quoted(
        c.arguments,
    ) + "}}"@
}

/// Tool calls as JSON texts.
pub open spec fn call_jsons(calls: Seq<ToolCallView>) -> Seq<Seq<char>> {
    Seq::new(calls.len(), |i: int| call_json(calls[i]))
}

/// A message as JSON text. The role and the content always stand there; the tool calls and
/// the call that a result belongs to stand there only where the message has them.
pub open spec fn message_json(m: MessageView) -> Seq<char> {
    "{\"role\":"@ + json::quoted(m.role) + ",\"content\":"@ + (match m.content {
        Some(s) => json::quoted(s),
        None => "null"@,
    }) + (match m.tool_calls {
        Some(calls) => ",\"tool_calls\":["@ + text::joined(call_jsons(calls), ","@) + "]"@,
        None => ""@,
    }) + (match m.tool_call_id {
        Some(id) => ",\"tool_call_id\":"@ + json::quoted(id),
        None => ""@,
    }) + "}"@
}

/// Messages as JSON texts.
pub open spec fn message_jsons(messages: Seq<MessageView>) -> Seq<Seq<char>> {
    Seq::new(messages.len(), |i: int| message_json(messages[i]))
}

/// A conversation as a JSON array.
pub open spec fn conversation_json(messages: Seq<MessageView>) -> Seq<char> {
    "["@ + text::joined(message_jsons(messages), ","@) + "]"@
}

impl MessageToolCall {
    /// Writes the tool call as JSON text.
    pub fn to_json(&self) -> (r: String)
        ensures
            r@ == call_json(self@),
    {
        let mut out = "{\"id\":".to_owned();
        out.append(quote(self.id.as_str()).as_str());
        out.append(",\"type\":");
        out.append(quote(self.call_type.as_str()).as_str());
        out.append(",\"function\":{\"name\":");
        out.append(quote(self.function.name.as_str()).as_str());
        out.append(",\"arguments\":");
        out.append(quote(self.function.arguments.as_str()).as_str());
        out.append("}}");
        out
    }
}

impl Message {
    /// Writes the message as JSON text.
    pub fn to_json(&self) -> (r: String)
        ensures
            r@ == message_json(self@),
    {
        let mut out = "{\"role\":".to_owned();
        out.append(quote(self.role.as_str()).as_str());
        out.append(",\"content\":");
        match &self.content {
            Some(s) => {
                out.append(quote(s.as_str()).as_str());
            },
            None => {
                out.append("null");
            },
        }
        match &self.tool_calls {
            Some(calls) => {
                let mut parts: Vec<String> = Vec::new();
                let mut i: usize = 0;
                while i < calls.len()
                    invariant
                        i <= calls.len(),
                        parts@.len() == i,
                        forall|k: int| 0 <= k < i ==> (#[trigger] parts@[k])@ == call_json(calls@[k]@),
                    decreases calls.len() - i,
                {
                    parts.push(calls[i].to_json());
                    i += 1;
                }
                let mut list = ",\"tool_calls\":[".to_owned();
                list.append(text::join(parts.as_slice(), ",").as_str());
                list.append("]");
                assert(text::strings(parts@) =~= call_jsons(call_views(calls@)));
                out.append(list.as_str());
            },
            None => {
                out.append("");
            },
        }
        match &self.tool_call_id {
            Some(id) => {
                let mut part = ",\"tool_call_id\":".to_owned();
                part.append(quote(id.as_str()).as_str());
                out.append(part.as_str());
            },
            None => {
                out.append("");
            },
        }
        out.append("}");
        out
    }
}

/// Writes a conversation as a JSON array.
pub fn conversation_to_json(messages: &[Message]) -> (r: String)
    ensures
        r@ == conversation_json(message_views(messages@)),
{
    let mut parts: Vec<String> = Vec::new();
    let mut i: usize = 0;
    while i < messages.len()
        invariant
            i <= messages.len(),
            parts@.len() == i,
            forall|k: int| 0 <= k < i ==> (#[trigger] parts@[k])@ == message_json(messages@[k]@),
        decreases messages.len() - i,
    {
        parts.push(messages[i].to_json());
        i += 1;
    }
    assert(text::strings(parts@) =~= message_jsons(message_views(messages@)));
    let mut out = "[".to_owned();
    out.append(text::join(parts.as_slice(), ",").as_str());
    out.append("]");
    out
}

// ---------------------------------------------------------------------------
// Replies
// ---------------------------------------------------------------------------

/// A tool call with its arguments decoded.
#[derive(Debug)]
pub struct ParsedToolCall {
    pub id: String,
    pub name: String,
    pub arguments: Json,
}

/// What a [`ParsedToolCall`] stands for.
pub struct ParsedCallView {
    pub id: Seq<char>,
    pub name: Seq<char>,
    pub arguments: JsonView,
}

impl View for ParsedToolCall {
    type V = ParsedCallView;

    open spec fn view(&self) -> ParsedCallView {
        ParsedCallView { id: self.id@, name: self.name@, arguments: self.arguments@ }
    }
}

/// What some parsed tool calls stand for.
pub open spec fn parsed_views(calls: Seq<ParsedToolCall>) -> Seq<ParsedCallView> {
    Seq::new(calls.len(), |i: int| calls[i]@)
}

impl Clone for ParsedToolCall {
    fn clone(&self) -> (r: Self)
        ensures
            r@ == self@,
    {
        ParsedToolCall {
            id: self.id.clone(),
            name: self.name.clone(),
            arguments: self.arguments.clone(),
        }
    }
}

/// A complete reply.
#[derive(Debug)]
pub struct ChatResult {
    pub content: Option<String>,
    pub tool_calls: Option<Vec<ParsedToolCall>>,
    pub finish_reason: String,
}

/// What a [`ChatResult`] stands for.
pub struct ChatView {
    pub content: Option<Seq<char>>,
    pub tool_calls: Option<Seq<ParsedCallView>>,
    pub finish_reason: Seq<char>,
}

impl View for ChatResult {
    type V = ChatView;

    open spec fn view(&self) -> ChatView {
        ChatView {
            content: optional_text(self.content),
            tool_calls: match self.tool_calls {
                Some(v) => Some(parsed_views(v@)),
                None => None,
            },
            finish_reason: self.finish_reason@,
        }
    }
}

// ---------------------------------------------------------------------------
// Settings
// ---------------------------------------------------------------------------

/// How the server is reached. The sampling temperature is kept by the program, beside these.
#[derive(Debug)]
pub struct LlmConfig {
    pub base_url: String,
    pub api_key: String,
    pub model: String,
    pub max_tokens: u32,
}

impl Clone for LlmConfig {
    fn clone(&self) -> (r: Self)
        ensures
            r == *self,
    {
        LlmConfig {
            base_url: self.base_url.clone(),
            api_key: self.api_key.clone(),
            model: self.model.clone(),
            max_tokens: self.max_tokens,
        }
    }
}

/// The number that decimal digits stand for.
pub open spec fn decimal_value(s: Seq<char>) -> nat
    decreases s.len(),
{
    if s.len() == 0 {
        0
    } else {
        (decimal_value(s.drop_last()) * 10 + (s.last() as int - '0' as int)) as nat
    }
}

/// Whether a character is a decimal digit.
pub open spec fn is_digit(c: char) -> bool {
    '0' <= c <= '9'
}

/// Whether a text holds decimal digits only.
pub open spec fn all_digits(s: Seq<char>) -> bool {
    forall|i: int| 0 <= i < s.len() ==> is_digit(#[trigger] s[i])
}

/// A text without the plus sign that it may begin with.
pub open spec fn without_plus(s: Seq<char>) -> Seq<char> {
    if s.len() > 0 && s[0] == '+' {
        s.skip(1)
    } else {
        s
    }
}

/// The number that a text stands for: decimal digits, at least one, after a plus sign or none,
/// for a number of at most 32 bits.
pub open spec fn number_in(s: Seq<char>) -> Option<u32> {
    let digits = without_plus(s);
    if digits.len() > 0 && all_digits(digits) && decimal_value(digits) <= u32::MAX {
        Some(decimal_value(digits) as u32)
    } else {
        None
    }
}

/// More digits never stand for a smaller number.
proof fn lemma_value_grows(s: Seq<char>, k: int)
    requires
        0 <= k <= s.len(),
        all_digits(s),
    ensures
        decimal_value(s.take(k)) <= decimal_value(s),
    decreases s.len() - k,
{
    if k < s.len() {
        lemma_value_grows(s, k + 1);
        assert(s.take(k + 1).drop_last() =~= s.take(k));
        assert(is_digit(s[k]));
    } else {
        assert(s.take(k) =~= s);
    }
}

/// Reads a number of at most 32 bits.
pub fn parse_u32(s: &str) -> (r: Option<u32>)
    ensures
        r == number_in(s@),
{
    let chars = text::chars_of(s);
    let start: usize = if chars.len() > 0 && chars[0] == '+' {
        1
    } else {
        0
    };
    let ghost digits = without_plus(s@);
    assert(digits =~= s@.skip(start as int));
    let mut value: u64 = 0;
    let mut i: usize = start;
    while i < chars.len()
        invariant
            start <= i <= chars@.len(),
            chars@ == s@,
            digits == s@.skip(start as int),
            digits == without_plus(s@),
            forall|k: int| 0 <= k < i - start ==> is_digit(#[trigger] digits[k]),
            value == decimal_value(digits.take(i - start)),
            value <= u32::MAX,
        decreases chars.len() - i,
    {
        let c = chars[i];
        assert(digits[i - start] == c);
        if c < '0' || c > '9' {
            assert(!is_digit(digits[i - start]));
            return None;
        }
        assert(digits.take(i - start + 1).drop_last() =~= digits.take(i - start));
        value = value * 10 + (c as u64 - '0' as u64);
        if value > 0xffff_ffff {
            proof {
                if all_digits(digits) {
                    lemma_value_grows(digits, i - start + 1);
                }
            }
            return None;
        }
        i += 1;
    }
    assert(digits.take(chars@.len() - start) =~= digits);
    if chars.len() == start {
        None
    } else {
        Some(value as u32)
    }
}

/// A number in decimal is read back as the number that was written.
pub proof fn law_numbers_read_back(n: nat)
    ensures
        all_digits(text::decimal(n)),
        decimal_value(text::decimal(n)) == n,
        n <= u32::MAX ==> number_in(text::decimal(n)) == Some(n as u32),
{
    lemma_decimal_value(n);
    assert(is_digit(text::decimal(n)[0]));
    assert(without_plus(text::decimal(n)) == text::decimal(n));
}

proof fn lemma_decimal_value(n: nat)
    ensures
        text::decimal(n).len() > 0,
        all_digits(text::decimal(n)),
        decimal_value(text::decimal(n)) == n,
    decreases n,
{
    reveal_with_fuel(decimal_value, 2);
    if n < 10 {
        assert(seq![text::digit(n)].drop_last() =~= Seq::empty());
    } else {
        lemma_decimal_value(n / 10);
        let front = text::decimal(n / 10);
        let all = front.push(text::digit(n % 10));
        assert(all.drop_last() =~= front);
        assert forall|i: int| 0 <= i < all.len() implies is_digit(#[trigger] all[i]) by {
            if i < front.len() {
                assert(is_digit(front[i]));
            }
        }
    }
}

/// An optional text, or another one in its place.
pub open spec fn text_or_else(s: Option<String>, default: Seq<char>) -> Seq<char> {
    match s {
        Some(s) => s@,
        None => default,
    }
}

fn or_else(s: Option<String>, default: &str) -> (r: String)
    ensures
        r@ == text_or_else(s, default@),
{
    match s {
        Some(s) => s,
        None => default.to_owned(),
    }
}

/// The number of tokens that a reply may take, as the environment asks for it.
pub open spec fn token_setting(value: Option<Seq<char>>) -> u32 {
    match value {
        Some(s) => match number_in(s) {
            Some(n) => n,
            None => 32768,
        },
        None => 32768,
    }
}

impl LlmConfig {
    /// The settings that the environment asks for, by the values of `LLM_BASE_URL`,
    /// `LLM_API_KEY`, `LLM_MODEL` and `LLM_MAX_TOKENS`.
    pub fn from_env(
        base_url: Option<String>,
        api_key: Option<String>,
        model: Option<String>,
        max_tokens: Option<String>,
    ) -> (r: Self)
        ensures
            r.base_url@ == text_or_else(base_url, "http://localhost:8080/v1"@),
            r.api_key@ == text_or_else(api_key, "sk-no-key-required"@),
            r.model@ == text_or_else(model, "any-model-name"@),
            r.max_tokens == token_setting(optional_text(max_tokens)),
    {
        LlmConfig {
            base_url: or_else(base_url, "http://localhost:8080/v1"),
            api_key: or_else(api_key, "sk-no-key-required"),
            model: or_else(model, "any-model-name"),
            max_tokens: match max_tokens {
                Some(s) => match parse_u32(s.as_str()) {
                    Some(n) => n,
                    None => 32768,
                },
                None => 32768,
            },
        }
    }
}

// ---------------------------------------------------------------------------
// Failures
// ---------------------------------------------------------------------------

/// One error in the chain of causes behind a failed request.
#[derive(Clone, Copy, Debug, PartialEq, Eq, Structural)]
pub enum ErrorLink {
    /// An error of the API client that carries a transport error.
    Api { connect: bool },
    /// A transport error itself.
    Transport { connect: bool },
    /// Any other error.
    Other,
}

impl ErrorLink {
    /// Whether the error says that no connection came about.
    pub open spec fn is_connect(self) -> bool {
        match self {
            ErrorLink::Api { connect } => connect,
            ErrorLink::Transport { connect } => connect,
            ErrorLink::Other => false,
        }
    }
}

/// Whether a request failed because no connection came about.
pub fn is_connect_error(chain: &[ErrorLink]) -> (r: bool)
    ensures
        r == exists|i: int| 0 <= i < chain@.len() && (#[trigger] chain@[i]).is_connect(),
{
    let mut i: usize = 0;
    while i < chain.len()
        invariant
            i <= chain.len(),
            forall|k: int| 0 <= k < i ==> !(#[trigger] chain@[k]).is_connect(),
        decreases chain.len() - i,
    {
        let connect = match chain[i] {
            ErrorLink::Api { connect } => connect,
            ErrorLink::Transport { connect } => connect,
            ErrorLink::Other => false,
        };
        if connect {
            assert(chain@[i as int].is_connect());
            return true;
        }
        i += 1;
    }
    false
}

/// What is said where no connection came about.
pub open spec fn connection_message(base_url: Seq<char>) -> Seq<char> {
    "\n\x1b[31;1m[Error] llama-server に接続できません: "@ + base_url
        + "\x1b[0m\nllama-server が起動しているか確認してください:\n  ./apps/scripts/start-llama-server.sh\n"@
}

/// What follows a failed request.
#[derive(Debug)]
pub enum RetryStep {
    /// Say this and end the program.
    Abort(String),
    /// Say this, wait, and try again.
    Retry { notice: String, seconds: u64 },
    /// Hand the error on.
    Fail,
}

/// What a [`RetryStep`] stands for.
pub enum RetryView {
    Abort(Seq<char>),
    Retry(Seq<char>, nat),
    Fail,
}

impl View for RetryStep {
    type V = RetryView;

    open spec fn view(&self) -> RetryView {
        match *self {
            RetryStep::Abort(s) => RetryView::Abort(s@),
            RetryStep::Retry { notice, seconds } => RetryView::Retry(notice@, seconds as nat),
            RetryStep::Fail => RetryView::Fail,
        }
    }
}

/// The number of the last attempt, counted from zero.
pub const LAST_ATTEMPT: u32 = 2;

/// What follows the failure of an attempt: a missing connection ends everything, since another
/// attempt would not help; other errors are tried again until the last attempt.
pub open spec fn after_failure(
    attempt: nat,
    connect: bool,
    base_url: Seq<char>,
    error: Seq<char>,
) -> RetryView {
    if connect {
        RetryView::Abort(connection_message(base_url))
    } else if attempt < LAST_ATTEMPT {
        RetryView::Retry(
            "\x1b[31m[LLM retry "@ + text::decimal(attempt + 1) + "] "@ + error + "\x1b[0m"@,
            2,
        )
    } else {
        RetryView::Fail
    }
}

/// Decides what follows a failed attempt.
pub fn retry_step(attempt: u32, connect: bool, base_url: &str, error: &str) -> (r: RetryStep)
    ensures
        r@ == after_failure(attempt as nat, connect, base_url@, error@),
{
    if connect {
        let mut s = "\n\x1b[31;1m[Error] llama-server に接続できません: ".to_owned();
        s.append(base_url);
        s.append(
            "\x1b[0m\nllama-server が起動しているか確認してください:\n  ./apps/scripts/start-llama-server.sh\n",
        );
        RetryStep::Abort(s)
    } else if attempt < LAST_ATTEMPT {
        let mut s = "\x1b[31m[LLM retry ".to_owned();
        s.append(text::decimal_text(attempt as u128 + 1).as_str());
        s.append("] ");
        s.append(error);
        s.append("\x1b[0m");
        RetryStep::Retry { notice: s, seconds: 2 }
    } else {
        RetryStep::Fail
    }
}

/// Three attempts are made at most: the third is never followed by another.
pub proof fn law_three_attempts(attempt: nat, connect: bool, base_url: Seq<char>, error: Seq<char>)
    ensures
        after_failure(attempt, connect, base_url, error) is Retry <==> !connect && attempt < 2,
{
}

// ---------------------------------------------------------------------------
// Streamed replies
// ---------------------------------------------------------------------------

/// A fragment of a tool call.
#[derive(Debug)]
pub struct CallFragment {
    pub index: u32,
    pub id: Option<String>,
    pub name: Option<String>,
    pub arguments: Option<String>,
}

/// One piece of a streamed reply. The finish reason is the name of the reason in camel case.
#[derive(Debug)]
pub struct ChoiceDelta {
    pub finish_reason: Option<String>,
    pub content: Option<String>,
    pub tool_calls: Option<Vec<CallFragment>>,
}

/// What a [`CallFragment`] stands for.
pub struct FragmentView {
    pub index: nat,
    pub id: Option<Seq<char>>,
    pub name: Option<Seq<char>>,
    pub arguments: Option<Seq<char>>,
}

/// What a [`ChoiceDelta`] stands for.
pub struct DeltaView {
    pub finish_reason: Option<Seq<char>>,
    pub content: Option<Seq<char>>,
    pub tool_calls: Option<Seq<FragmentView>>,
}

impl View for CallFragment {
    type V = FragmentView;

    open spec fn view(&self) -> FragmentView {
        FragmentView {
            index: self.index as nat,
            id: optional_text(self.id),
            name: optional_text(self.name),
            arguments: optional_text(self.arguments),
        }
    }
}

/// What some fragments stand for.
pub open spec fn fragment_views(fragments: Seq<CallFragment>) -> Seq<FragmentView> {
    Seq::new(fragments.len(), |i: int| fragments[i]@)
}

impl View for ChoiceDelta {
    type V = DeltaView;

    open spec fn view(&self) -> DeltaView {
        DeltaView {
            finish_reason: optional_text(self.finish_reason),
            content: optional_text(self.content),
            tool_calls: match self.tool_calls {
                Some(v) => Some(fragment_views(v@)),
                None => None,
            },
        }
    }
}

/// The name of a finish reason as servers write it, from its name in lower case without
/// underscores.
pub open spec fn normalized_reason(lowered: Seq<char>) -> Seq<char> {
    if lowered == "toolcalls"@ {
        "tool_calls"@
    } else if lowered == "contentfilter"@ {
        "content_filter"@
    } else if lowered == "functioncall"@ {
        "function_call"@
    } else {
        lowered
    }
}

/// Writes a finish reason as servers do.
pub fn normalize_reason(lowered: &str) -> (r: String)
    ensures
        r@ == normalized_reason(lowered@),
{
    if same_text(lowered, "toolcalls") {
        "tool_calls".to_owned()
    } else if same_text(lowered, "contentfilter") {
        "content_filter".to_owned()
    } else if same_text(lowered, "functioncall") {
        "function_call".to_owned()
    } else {
        lowered.to_owned()
    }
}

/// The slots after some fragments, one after the other.
pub open spec fn ingested_all(slots: Seq<Slot>, fragments: Seq<FragmentView>) -> Seq<Slot>
    decreases fragments.len(),
{
    if fragments.len() == 0 {
        slots
    } else {
        let f = fragments.last();
        tool_call_stream::ingested(
            ingested_all(slots, fragments.drop_last()),
            f.index,
            f.id,
            f.name,
            f.arguments,
        )
    }
}

/// A reply under assembly.
pub struct StreamState {
    content: String,
    calls: StreamingToolCallAccumulator,
    tool_calls_started: bool,
    printed_anything: bool,
    finish_reason: String,
}

/// What has arrived of a reply.
pub struct StreamView {
    pub content: Seq<char>,
    pub slots: Seq<Slot>,
    pub tool_calls_started: bool,
    pub printed_anything: bool,
    pub finish_reason: Seq<char>,
}

impl StreamView {
    /// A reply of which nothing has arrived.
    pub open spec fn blank() -> StreamView {
        StreamView {
            content: Seq::empty(),
            slots: Seq::empty(),
            tool_calls_started: false,
            printed_anything: false,
            finish_reason: "stop"@,
        }
    }

    /// The text of a piece that is shown at once: none once tool calls have begun to arrive.
    pub open spec fn shown(self, delta: DeltaView) -> Option<Seq<char>> {
        if self.tool_calls_started {
            None
        } else {
            match delta.content {
                Some(t) => if t.len() > 0 {
                    Some(t)
                } else {
                    None
                },
                None => None,
            }
        }
    }

    /// The reply after a piece.
    pub open spec fn absorbed(self, delta: DeltaView) -> StreamView {
        StreamView {
            content: match delta.content {
                Some(t) => self.content + t,
                None => self.content,
            },
            slots: match delta.tool_calls {
                Some(fragments) => ingested_all(self.slots, fragments),
                None => self.slots,
            },
            tool_calls_started: self.tool_calls_started || delta.tool_calls is Some,
            printed_anything: self.printed_anything || self.shown(delta) is Some,
            finish_reason: match delta.finish_reason {
                Some(reason) => normalized_reason(text::lowercased(reason)),
                None => self.finish_reason,
            },
        }
    }

    /// The reply as a whole.
    pub open spec fn result(self) -> ChatView {
        ChatView {
            content: if self.content.len() == 0 {
                None
            } else {
                Some(self.content)
            },
            tool_calls: if self.slots.len() == 0 {
                None
            } else {
                Some(tool_call_stream::settled_calls(self.slots))
            },
            finish_reason: self.finish_reason,
        }
    }
}

/// Whether the arguments of all calls are proper JSON values.
pub open spec fn proper_calls(calls: Option<Vec<ParsedToolCall>>) -> bool {
    match calls {
        Some(v) => forall|i: int|
            0 <= i < v@.len() ==> json::proper((#[trigger] v@[i]).arguments@),
        None => true,
    }
}

fn borrowed(s: &Option<String>) -> (r: Option<&str>)
    ensures
        tool_call_stream::optional(r) == optional_text(*s),
{
    match s {
        Some(s) => Some(s.as_str()),
        None => None,
    }
}

impl View for StreamState {
    type V = StreamView;

    closed spec fn view(&self) -> StreamView {
        StreamView {
            content: self.content@,
            slots: self.calls@,
            tool_calls_started: self.tool_calls_started,
            printed_anything: self.printed_anything,
            finish_reason: self.finish_reason@,
        }
    }
}

impl StreamState {
    /// A reply of which nothing has arrived.
    pub fn new() -> (r: Self)
        ensures
            r@ == StreamView::blank(),
    {
        StreamState {
            content: String::new(),
            calls: StreamingToolCallAccumulator::new(),
            tool_calls_started: false,
            printed_anything: false,
            finish_reason: "stop".to_owned(),
        }
    }

    /// Takes in a piece, and gives the text that is shown at once.
    pub fn absorb(&mut self, delta: &ChoiceDelta) -> (r: Option<String>)
        ensures
            final(self)@ == old(self)@.absorbed(delta@),
            optional_text(r) == old(self)@.shown(delta@),
            delta@.finish_reason matches Some(reason) ==> text::is_ascii(reason)
                ==> final(self)@.finish_reason == normalized_reason(text::ascii_lowered(reason)),
    {
        let ghost want = self@.absorbed(delta@);
        let mut shown: Option<String> = None;
        if let Some(reason) = &delta.finish_reason {
            let lowered = text::to_lowercase(reason.as_str());
            self.finish_reason = normalize_reason(lowered.as_str());
        }
        if let Some(t) = &delta.content {
            if !t.as_str().is_empty() {
                self.content.append(t.as_str());
                if !self.tool_calls_started {
                    shown = Some(t.clone());
                    self.printed_anything = true;
                }
            }
        }
        assert(self@.content =~= want.content);
        if let Some(fragments) = &delta.tool_calls {
            let ghost views = fragment_views(fragments@);
            let ghost slots = self@.slots;
            let ghost begun = self@;
            let mut i: usize = 0;
            assert(views.take(0) =~= Seq::empty());
            while i < fragments.len()
                invariant
                    i <= fragments.len(),
                    views == fragment_views(fragments@),
                    self.calls@ == ingested_all(slots, views.take(i as int)),
                    self.content@ == begun.content,
                    self.tool_calls_started == begun.tool_calls_started,
                    self.printed_anything == begun.printed_anything,
                    self.finish_reason@ == begun.finish_reason,
                decreases fragments.len() - i,
            {
                let f = &fragments[i];
                self.calls.ingest(
                    f.index,
                    borrowed(&f.id),
                    borrowed(&f.name),
                    borrowed(&f.arguments),
                );
                assert(views.take(i + 1).drop_last() =~= views.take(i as int));
                i += 1;
            }
            assert(views.take(views.len() as int) =~= views);
            self.tool_calls_started = true;
        }
        shown
    }

    /// Finishes the reply. Beside it stand the warnings about arguments that could not be read,
    /// and whether any text was shown.
    pub fn finish(self) -> (r: (ChatResult, Vec<String>, bool))
        ensures
            r.0@ == self@.result(),
            proper_calls(r.0.tool_calls),
            text::strings(r.1@) == tool_call_stream::warnings(self@.slots),
            r.2 == self@.printed_anything,
    {
        let content = if self.content.as_str().is_empty() {
            None
        } else {
            Some(self.content)
        };
        let (tool_calls, warnings) = self.calls.finalize_with_warnings();
        (
            ChatResult { content, tool_calls, finish_reason: self.finish_reason },
            warnings,
            self.printed_anything,
        )
    }
}

/// The reply after some pieces, one after the other.
pub open spec fn absorbed_all(state: StreamView, deltas: Seq<DeltaView>) -> StreamView
    decreases deltas.len(),
{
    if deltas.len() == 0 {
        state
    } else {
        absorbed_all(state, deltas.drop_last()).absorbed(deltas.last())
    }
}

/// The texts of some pieces, in their order.
pub open spec fn contents(deltas: Seq<DeltaView>) -> Seq<char>
    decreases deltas.len(),
{
    if deltas.len() == 0 {
        Seq::empty()
    } else {
        contents(deltas.drop_last()) + match deltas.last().content {
            Some(t) => t,
            None => Seq::empty(),
        }
    }
}

/// The content of a reply is made of the texts of its pieces, in their order, whatever tool
/// calls arrive between them; it is missing exactly where no text arrived.
pub proof fn law_content_is_all_text(deltas: Seq<DeltaView>)
    ensures
        absorbed_all(StreamView::blank(), deltas).content == contents(deltas),
        absorbed_all(StreamView::blank(), deltas).result().content == if contents(deltas).len()
            == 0 {
            None
        } else {
            Some(contents(deltas))
        },
    decreases deltas.len(),
{
    if deltas.len() > 0 {
        law_content_is_all_text(deltas.drop_last());
        assert(absorbed_all(StreamView::blank(), deltas).content =~= contents(deltas));
    }
}

/// Text is shown until the first piece with tool calls has arrived, and no longer: a piece that
/// brings both is still shown.
pub proof fn law_text_is_shown_before_tool_calls(deltas: Seq<DeltaView>, next: DeltaView)
    ensures
        ({
            let state = absorbed_all(StreamView::blank(), deltas);
            let t = match next.content {
                Some(t) => t,
                None => Seq::empty(),
            };
            state.shown(next) == if t.len() > 0 && !exists|i: int|
                0 <= i < deltas.len() && (#[trigger] deltas[i]).tool_calls is Some {
                Some(t)
            } else {
                None
            }
        }),
{
    lemma_started(deltas);
}

/// Tool calls have begun to arrive once a piece has brought some.
proof fn lemma_started(deltas: Seq<DeltaView>)
    ensures
        absorbed_all(StreamView::blank(), deltas).tool_calls_started <==> exists|i: int|
            0 <= i < deltas.len() && (#[trigger] deltas[i]).tool_calls is Some,
    decreases deltas.len(),
{
    if deltas.len() > 0 {
        let front = deltas.drop_last();
        lemma_started(front);
        if absorbed_all(StreamView::blank(), front).tool_calls_started {
            let i = choose|i: int| 0 <= i < front.len() && (#[trigger] front[i]).tool_calls is Some;
            assert(deltas[i] == front[i]);
        }
        if exists|i: int| 0 <= i < deltas.len() && (#[trigger] deltas[i]).tool_calls is Some {
            let i = choose|i: int|
                0 <= i < deltas.len() && (#[trigger] deltas[i]).tool_calls is Some;
            if i < front.len() {
                assert(front[i] == deltas[i]);
            }
        }
    }
}

// ---------------------------------------------------------------------------
// Summaries
// ---------------------------------------------------------------------------

/// The request for a summary of a conversation.
pub open spec fn summary_request(conversation: Seq<char>) -> Seq<char> {
    "Summarize the following conversation for continuity:\n\n"@ + conversation
}

/// Asks for a summary of a conversation.
pub fn summary_prompt(conversation: &str) -> (r: String)
    ensures
        r@ == summary_request(conversation@),
{
    let mut s = "Summarize the following conversation for continuity:\n\n".to_owned();
    s.append(conversation);
    s
}

/// What some optional texts stand for.
pub open spec fn optional_texts(v: Seq<Option<String>>) -> Seq<Option<Seq<char>>> {
    Seq::new(v.len(), |i: int| optional_text(v[i]))
}

/// The summary that came back with some choices.
pub open spec fn summary_of(choices: Seq<Option<Seq<char>>>) -> Seq<char> {
    if choices.len() > 0 && choices[0] is Some {
        choices[0]->Some_0
    } else {
        "(empty summary)"@
    }
}

/// Takes the summary out of the contents of the choices that came back: the first counts, and a
/// fixed text stands for one that is missing.
pub fn summary_text(choices: &[Option<String>]) -> (r: String)
    ensures
        r@ == summary_of(optional_texts(choices@)),
{
    if choices.len() > 0 {
        if let Some(s) = &choices[0] {
            return s.clone();
        }
    }
    "(empty summary)".to_owned()
}

// ---------------------------------------------------------------------------
// Requests
// ---------------------------------------------------------------------------

/// A function call in a request.
#[derive(Debug)]
pub struct RequestToolCall {
    pub id: String,
    pub name: String,
    pub arguments: String,
}

/// A message in the form that a request takes.
#[derive(Debug)]
pub enum RequestMessage {
    System { content: String },
    User { content: String },
    Assistant { content: String, tool_calls: Option<Vec<RequestToolCall>> },
    Tool { content: String, tool_call_id: String },
}

/// What a [`RequestToolCall`] stands for.
pub struct RequestCallView {
    pub id: Seq<char>,
    pub name: Seq<char>,
    pub arguments: Seq<char>,
}

/// What a [`RequestMessage`] stands for.
pub enum RequestView {
    System(Seq<char>),
    User(Seq<char>),
    Assistant(Seq<char>, Option<Seq<RequestCallView>>),
    Tool(Seq<char>, Seq<char>),
}

impl View for RequestToolCall {
    type V = RequestCallView;

    open spec fn view(&self) -> RequestCallView {
        RequestCallView { id: self.id@, name: self.name@, arguments: self.arguments@ }
    }
}

/// What some function calls stand for.
pub open spec fn request_call_views(calls: Seq<RequestToolCall>) -> Seq<RequestCallView> {
    Seq::new(calls.len(), |i: int| calls[i]@)
}

impl View for RequestMessage {
    type V = RequestView;

    open spec fn view(&self) -> RequestView {
        match *self {
            RequestMessage::System { content } => RequestView::System(content@),
            RequestMessage::User { content } => RequestView::User(content@),
            RequestMessage::Assistant { content, tool_calls } => RequestView::Assistant(
                content@,
                match tool_calls {
                    Some(v) => Some(request_call_views(v@)),
                    None => None,
                },
            ),
            RequestMessage::Tool { content, tool_call_id } => RequestView::Tool(
                content@,
                tool_call_id@,
            ),
        }
    }
}

/// A text that may be missing, or the empty one.
pub open spec fn text_or_empty(s: Option<Seq<char>>) -> Seq<char> {
    match s {
        Some(s) => s,
        None => Seq::empty(),
    }
}

/// The function calls of an assistant message in a request.
pub open spec fn requested_calls(calls: Seq<ToolCallView>) -> Seq<RequestCallView> {
    Seq::new(
        calls.len(),
        |i: int|
            RequestCallView {
                id: calls[i].id,
                name: calls[i].name,
                arguments: calls[i].arguments,
            },
    )
}

/// The form of a message in a request, by its role. Missing texts become empty ones; other roles
/// have none.
pub open spec fn requested(m: MessageView) -> Option<RequestView> {
    let content = text_or_empty(m.content);
    if m.role == "system"@ {
        Some(RequestView::System(content))
    } else if m.role == "user"@ {
        Some(RequestView::User(content))
    } else if m.role == "assistant"@ {
        Some(
            RequestView::Assistant(
                content,
                match m.tool_calls {
                    Some(calls) => Some(requested_calls(calls)),
                    None => None,
                },
            ),
        )
    } else if m.role == "tool"@ {
        Some(RequestView::Tool(content, text_or_empty(m.tool_call_id)))
    } else {
        None
    }
}

/// What is said of a role that requests do not have.
pub open spec fn unsupported_role(role: Seq<char>) -> Seq<char> {
    "unsupported message role: "@ + role
}

fn text_or_nothing(s: &Option<String>) -> (r: String)
    ensures
        r@ == text_or_empty(optional_text(*s)),
{
    match s {
        Some(s) => s.clone(),
        None => String::new(),
    }
}

fn request_calls(calls: &Vec<MessageToolCall>) -> (r: Vec<RequestToolCall>)
    ensures
        request_call_views(r@) == requested_calls(call_views(calls@)),
{
    let mut out: Vec<RequestToolCall> = Vec::new();
    let mut i: usize = 0;
    while i < calls.len()
        invariant
            i <= calls.len(),
            out@.len() == i,
            forall|k: int|
                0 <= k < i ==> (#[trigger] out@[k])@ == requested_calls(call_views(calls@))[k],
        decreases calls.len() - i,
    {
        let c = &calls[i];
        out.push(
            RequestToolCall {
                id: c.id.clone(),
                name: c.function.name.clone(),
                arguments: c.function.arguments.clone(),
            },
        );
        i += 1;
    }
    assert(request_call_views(out@) =~= requested_calls(call_views(calls@)));
    out
}

/// Brings a message into the form that a request takes.
pub fn to_openai_message(msg: &Message) -> (r: Result<RequestMessage, String>)
    ensures
        match r {
            Ok(m) => requested(msg@) == Some(m@),
            Err(e) => requested(msg@) is None && e@ == unsupported_role(msg@.role),
        },
{
    let role = msg.role.as_str();
    let content = text_or_nothing(&msg.content);
    if same_text(role, "system") {
        Ok(RequestMessage::System { content })
    } else if same_text(role, "user") {
        Ok(RequestMessage::User { content })
    } else if same_text(role, "assistant") {
        let tool_calls = match &msg.tool_calls {
            Some(calls) => Some(request_calls(calls)),
            None => None,
        };
        Ok(RequestMessage::Assistant { content, tool_calls })
    } else if same_text(role, "tool") {
        Ok(RequestMessage::Tool { content, tool_call_id: text_or_nothing(&msg.tool_call_id) })
    } else {
        let mut e = "unsupported message role: ".to_owned();
        e.append(role);
        Err(e)
    }
}

/// Brings a conversation into the form that a request takes. The first message with a role that
/// requests do not have makes it fail.
pub fn to_openai_messages(messages: &[Message]) -> (r: Result<Vec<RequestMessage>, String>)
    ensures
        match r {
            Ok(v) => v@.len() == messages@.len() && forall|i: int|
                0 <= i < v@.len() ==> requested(messages@[i]@) == Some((#[trigger] v@[i])@),
            Err(e) => exists|k: int|
                0 <= k < messages@.len() && requested((#[trigger] messages@[k])@) is None && e@
                    == unsupported_role(messages@[k]@.role) && forall|j: int|
                    0 <= j < k ==> requested((#[trigger] messages@[j])@) is Some,
        },
{
    let mut out: Vec<RequestMessage> = Vec::new();
    let mut i: usize = 0;
    while i < messages.len()
        invariant
            i <= messages.len(),
            out@.len() == i,
            forall|k: int|
                0 <= k < i ==> requested(messages@[k]@) == Some((#[trigger] out@[k])@),
        decreases messages.len() - i,
    {
        match to_openai_message(&messages[i]) {
            Ok(m) => {
                out.push(m);
            },
            Err(e) => {
                assert forall|j: int| 0 <= j < i implies requested(
                    (#[trigger] messages@[j])@,
                ) is Some by {
                    assert(requested(messages@[j]@) == Some(out@[j]@));
                }
                assert(requested(messages@[i as int]@) is None);
                return Err(e);
            },
        }
        i += 1;
    }
    Ok(out)
}

/// Every message that the library makes can stand in a request.
pub proof fn law_own_messages_are_supported(
    id: Seq<char>,
    content: Seq<char>,
    reply: MessageView,
)
    requires
        reply.role == "assistant"@,
    ensures
        requested(MessageView::plain("system"@, content)) == Some(RequestView::System(content)),
        requested(MessageView::plain("user"@, content)) == Some(RequestView::User(content)),
        requested(MessageView::tool_result(id, content)) == Some(RequestView::Tool(content, id)),
        requested(reply) is Some,
{
    reveal_strlit("system");
    reveal_strlit("user");
    reveal_strlit("assistant");
    reveal_strlit("tool");
    assert("user"@.len() != "system"@.len());
    assert("tool"@.len() != "system"@.len());
    assert("tool"@[0] != "user"@[0]);
    assert("tool"@.len() != "assistant"@.len());
}

/// Whether a call in a request is the one that a message makes.
pub open spec fn same_call(r: RequestCallView, c: ToolCallView) -> bool {
    r.id == c.id && r.name == c.name && r.arguments == c.arguments
}

/// A request says of every message what the conversation says: the content as it stands, empty
/// only where there is none; of the assistant also all its calls, in their order and with their
/// ids, names and arguments; of a result also the call that it belongs to. No message with
/// another role can stand in a request.
pub proof fn law_requests_say_what_messages_say(m: MessageView)
    ensures
        ({
            let r = requested(m);
            let content = match m.content {
                Some(s) => s,
                None => Seq::<char>::empty(),
            };
            &&& m.role == "system"@ ==> r is Some && r->Some_0 is System && r->Some_0->System_0
                == content
            &&& m.role == "user"@ ==> r is Some && r->Some_0 is User && r->Some_0->User_0 == content
            &&& m.role == "assistant"@ ==> {
                &&& r is Some && r->Some_0 is Assistant
                &&& r->Some_0->Assistant_0 == content
                &&& r->Some_0->Assistant_1 is Some <==> m.tool_calls is Some
                &&& m.tool_calls is Some ==> {
                    let asked = r->Some_0->Assistant_1->Some_0;
                    let calls = m.tool_calls->Some_0;
                    &&& asked.len() == calls.len()
                    &&& forall|i: int|
                        0 <= i < calls.len() ==> same_call(#[trigger] asked[i], calls[i])
                }
            }
            &&& m.role == "tool"@ ==> {
                &&& r is Some && r->Some_0 is Tool
                &&& r->Some_0->Tool_0 == content
                &&& m.tool_call_id is Some ==> r->Some_0->Tool_1 == m.tool_call_id->Some_0
                &&& m.tool_call_id is None ==> r->Some_0->Tool_1.len() == 0
            }
            &&& r is Some ==> m.role == "system"@ || m.role == "user"@ || m.role == "assistant"@
                || m.role == "tool"@
        }),
{
    reveal_strlit("system");
    reveal_strlit("user");
    reveal_strlit("assistant");
    reveal_strlit("tool");
    assert("system"@.len() == 6);
    assert("user"@.len() == 4);
    assert("assistant"@.len() == 9);
    assert("tool"@.len() == 4);
    assert("tool"@[0] != "user"@[0]);
}

/// The messages of the library carry their texts: the content of each is the text that it was
/// made with, and a result belongs to the call with the id that it was made with.
pub proof fn law_messages_carry_their_texts(role: Seq<char>, id: Seq<char>, content: Seq<char>)
    ensures
        MessageView::plain(role, content).role == role,
        MessageView::plain(role, content).content == Some(content),
        MessageView::plain(role, content).tool_calls is None,
        MessageView::plain(role, content).tool_call_id is None,
        MessageView::tool_result(id, content).role == "tool"@,
        MessageView::tool_result(id, content).content == Some(content),
        MessageView::tool_result(id, content).tool_calls is None,
        MessageView::tool_result(id, content).tool_call_id == Some(id),
{
}

/// A call as a JSON value.
pub open spec fn call_value(c: ToolCallView) -> JsonView {
    JsonView::Object(
        seq![
            ("id"@, JsonView::Text(c.id)),
            ("type"@, JsonView::Text(c.call_type)),
            (
                "function"@,
                JsonView::Object(
                    seq![
                        ("name"@, JsonView::Text(c.name)),
                        ("arguments"@, JsonView::Text(c.arguments)),
                    ],
                ),
            ),
        ],
    )
}

/// The fields of a message as entries of a JSON object: its role and its content always, its
/// calls and the call that it belongs to where it has them.
pub open spec fn message_entries(m: MessageView) -> Seq<(Seq<char>, JsonView)> {
    seq![
        ("role"@, JsonView::Text(m.role)),
        (
            "content"@,
            match m.content {
                Some(s) => JsonView::Text(s),
                None => JsonView::Null,
            },
        ),
    ] + (match m.tool_calls {
        Some(calls) => seq![
            (
                "tool_calls"@,
                JsonView::Array(Seq::new(calls.len(), |i: int| call_value(calls[i]))),
            ),
        ],
        None => seq![],
    }) + (match m.tool_call_id {
        Some(id) => seq![("tool_call_id"@, JsonView::Text(id))],
        None => seq![],
    })
}

proof fn lemma_entries_text_push(
    entries: Seq<(Seq<char>, JsonView)>,
    key: Seq<char>,
    value: JsonView,
    label: Seq<char>,
)
    requires
        label == json::quoted(key) + ":"@,
    ensures
        entries.len() > 0 ==> json::entries_text(entries.push((key, value))) == json::entries_text(
            entries,
        ) + ","@ + label + json::json_text(value),
        entries.len() == 0 ==> json::entries_text(entries.push((key, value))) == label
            + json::json_text(value),
{
    let all = entries.push((key, value));
    assert(all.drop_last() =~= entries);
    if entries.len() > 0 {
        assert(json::entries_text(all) =~= json::entries_text(entries) + ","@ + label
            + json::json_text(value));
    }
}

/// The texts of the items of a JSON array are joined with commas.
proof fn lemma_items_text(items: Seq<JsonView>, parts: Seq<Seq<char>>)
    requires
        items.len() == parts.len(),
        forall|i: int| 0 <= i < items.len() ==> json::json_text(#[trigger] items[i]) == parts[i],
    ensures
        json::items_text(items) == text::joined(parts, ","@),
    decreases items.len(),
{
    if items.len() == 1 {
        assert(json::json_text(items[0]) == parts[0]);
    } else if items.len() > 1 {
        let a = items.drop_last();
        let b = parts.drop_last();
        assert forall|i: int| 0 <= i < a.len() implies json::json_text(#[trigger] a[i]) == b[i] by {
            assert(a[i] == items[i]);
        }
        lemma_items_text(a, b);
        assert(json::json_text(items[items.len() - 1]) == parts[items.len() - 1]);
    }
}

proof fn lemma_quoted_keys()
    ensures
        json::quoted("id"@) + ":"@ == "\"id\":"@,
        json::quoted("type"@) + ":"@ == "\"type\":"@,
        json::quoted("function"@) + ":"@ == "\"function\":"@,
        json::quoted("name"@) + ":"@ == "\"name\":"@,
        json::quoted("arguments"@) + ":"@ == "\"arguments\":"@,
        json::quoted("role"@) + ":"@ == "\"role\":"@,
        json::quoted("content"@) + ":"@ == "\"content\":"@,
        json::quoted("tool_calls"@) + ":"@ == "\"tool_calls\":"@,
        json::quoted("tool_call_id"@) + ":"@ == "\"tool_call_id\":"@,
{
    reveal_strlit(":");
    reveal_strlit("id");
    reveal_strlit("\"id\":");
    reveal_strlit("type");
    reveal_strlit("\"type\":");
    reveal_strlit("function");
    reveal_strlit("\"function\":");
    reveal_strlit("name");
    reveal_strlit("\"name\":");
    reveal_strlit("arguments");
    reveal_strlit("\"arguments\":");
    reveal_strlit("role");
    reveal_strlit("\"role\":");
    reveal_strlit("content");
    reveal_strlit("\"content\":");
    reveal_strlit("tool_calls");
    reveal_strlit("\"tool_calls\":");
    reveal_strlit("tool_call_id");
    reveal_strlit("\"tool_call_id\":");
    lemma_plain_escape("id"@);
    lemma_plain_escape("type"@);
    lemma_plain_escape("function"@);
    lemma_plain_escape("name"@);
    lemma_plain_escape("arguments"@);
    lemma_plain_escape("role"@);
    lemma_plain_escape("content"@);
    lemma_plain_escape("tool_calls"@);
    lemma_plain_escape("tool_call_id"@);
    assert(json::quoted("id"@) + ":"@ =~= "\"id\":"@);
    assert(json::quoted("type"@) + ":"@ =~= "\"type\":"@);
    assert(json::quoted("function"@) + ":"@ =~= "\"function\":"@);
    assert(json::quoted("name"@) + ":"@ =~= "\"name\":"@);
    assert(json::quoted("arguments"@) + ":"@ =~= "\"arguments\":"@);
    assert(json::quoted("role"@) + ":"@ =~= "\"role\":"@);
    assert(json::quoted("content"@) + ":"@ =~= "\"content\":"@);
    assert(json::quoted("tool_calls"@) + ":"@ =~= "\"tool_calls\":"@);
    assert(json::quoted("tool_call_id"@) + ":"@ =~= "\"tool_call_id\":"@);
}

/// A text without quotes, backslashes and control characters stands in a JSON string as it is.
proof fn lemma_plain_escape(s: Seq<char>)
    requires
        forall|i: int|
            0 <= i < s.len() ==> #[trigger] s[i] != '"' && s[i] != '\\' && s[i] as u32 >= 0x20,
    ensures
        json::escaped(s) == s,
    decreases s.len(),
{
    if s.len() > 0 {
        let front = s.drop_last();
        assert forall|i: int| 0 <= i < front.len() implies #[trigger] front[i] != '"' && front[i]
            != '\\' && front[i] as u32 >= 0x20 by {
            assert(front[i] == s[i]);
        }
        lemma_plain_escape(front);
        assert(s[s.len() - 1] != '"');
        assert(json::escaped(s) =~= s);
    } else {
        assert(json::escaped(s) =~= s);
    }
}

/// The fixed texts between the fields of a call.
proof fn lemma_call_literals()
    ensures
        "{"@ + "\"id\":"@ == "{\"id\":"@,
        ","@ + "\"type\":"@ == ",\"type\":"@,
        ","@ + "\"function\":"@ + "{"@ + "\"name\":"@ == ",\"function\":{\"name\":"@,
        ","@ + "\"arguments\":"@ == ",\"arguments\":"@,
        "}"@ + "}"@ == "}}"@,
{
    reveal_strlit("{");
    reveal_strlit("}");
    reveal_strlit(",");
    reveal_strlit("{\"id\":");
    reveal_strlit("\"id\":");
    reveal_strlit(",\"type\":");
    reveal_strlit("\"type\":");
    reveal_strlit(",\"function\":{\"name\":");
    reveal_strlit("\"function\":");
    reveal_strlit("\"name\":");
    reveal_strlit(",\"arguments\":");
    reveal_strlit("\"arguments\":");
    reveal_strlit("}}");
    assert("{"@ + "\"id\":"@ =~= "{\"id\":"@);
    assert(","@ + "\"type\":"@ =~= ",\"type\":"@);
    assert(","@ + "\"function\":"@ + "{"@ + "\"name\":"@ =~= ",\"function\":{\"name\":"@);
    assert(","@ + "\"arguments\":"@ =~= ",\"arguments\":"@);
    assert("}"@ + "}"@ =~= "}}"@);
}

/// The fixed texts between the fields of a message.
proof fn lemma_message_literals()
    ensures
        "{"@ + "\"role\":"@ == "{\"role\":"@,
        ","@ + "\"content\":"@ == ",\"content\":"@,
        ","@ + "\"tool_calls\":"@ + "["@ == ",\"tool_calls\":["@,
        ","@ + "\"tool_call_id\":"@ == ",\"tool_call_id\":"@,
        ""@.len() == 0,
{
    reveal_strlit("{");
    reveal_strlit("[");
    reveal_strlit(",");
    reveal_strlit("");
    reveal_strlit("{\"role\":");
    reveal_strlit("\"role\":");
    reveal_strlit(",\"content\":");
    reveal_strlit("\"content\":");
    reveal_strlit(",\"tool_calls\":[");
    reveal_strlit("\"tool_calls\":");
    reveal_strlit(",\"tool_call_id\":");
    reveal_strlit("\"tool_call_id\":");
    assert("{"@ + "\"role\":"@ =~= "{\"role\":"@);
    assert(","@ + "\"content\":"@ =~= ",\"content\":"@);
    assert(","@ + "\"tool_calls\":"@ + "["@ =~= ",\"tool_calls\":["@);
    assert(","@ + "\"tool_call_id\":"@ =~= ",\"tool_call_id\":"@);
}

/// Where the parts of the text of a call are put together does not matter.
proof fn lemma_call_grouping(
    o: Seq<char>,
    cl: Seq<char>,
    cm: Seq<char>,
    k: Seq<Seq<char>>,
    q: Seq<Seq<char>>,
)
    requires
        k.len() == 5,
        q.len() == 4,
    ensures
        ({
            let inner = o + (k[3] + q[2] + cm + k[4] + q[3]) + cl;
            o + (k[0] + q[0] + cm + k[1] + q[1] + cm + k[2] + inner) + cl == (o + k[0]) + q[0] + (cm
                + k[1]) + q[1] + (cm + k[2] + o + k[3]) + q[2] + (cm + k[4]) + q[3] + (cl + cl)
        }),
{
    let inner = o + (k[3] + q[2] + cm + k[4] + q[3]) + cl;
    let front = (o + k[0]) + q[0] + (cm + k[1]) + q[1];
    assert(o + (k[0] + q[0] + cm + k[1] + q[1] + cm + k[2] + inner) + cl =~= front + (cm + k[2])
        + inner + cl);
    assert(front + (cm + k[2]) + inner + cl =~= front + (cm + k[2] + o + k[3]) + (q[2] + cm + k[4]
        + q[3] + cl) + cl);
    let longer = front + (cm + k[2] + o + k[3]);
    assert(longer + (q[2] + cm + k[4] + q[3] + cl) + cl =~= longer + q[2] + (cm + k[4]) + q[3] + (cl
        + cl));
}

proof fn lemma_call_json(c: ToolCallView)
    ensures
        json::json_text(call_value(c)) == call_json(c),
{
    lemma_quoted_keys();
    let none = Seq::<(Seq<char>, JsonView)>::empty();
    let name = ("name"@, JsonView::Text(c.name));
    let arguments = ("arguments"@, JsonView::Text(c.arguments));
    lemma_entries_text_push(none, name.0, name.1, "\"name\":"@);
    lemma_entries_text_push(none.push(name), arguments.0, arguments.1, "\"arguments\":"@);
    assert(none.push(name).push(arguments) =~= seq![name, arguments]);
    let function = JsonView::Object(seq![name, arguments]);
    let id = ("id"@, JsonView::Text(c.id));
    let kind = ("type"@, JsonView::Text(c.call_type));
    let called = ("function"@, function);
    lemma_entries_text_push(none, id.0, id.1, "\"id\":"@);
    lemma_entries_text_push(none.push(id), kind.0, kind.1, "\"type\":"@);
    lemma_entries_text_push(none.push(id).push(kind), called.0, called.1, "\"function\":"@);
    assert(none.push(id).push(kind).push(called) =~= seq![id, kind, called]);
    lemma_call_literals();
    lemma_call_grouping(
        "{"@,
        "}"@,
        ","@,
        seq!["\"id\":"@, "\"type\":"@, "\"function\":"@, "\"name\":"@, "\"arguments\":"@],
        seq![
            json::quoted(c.id),
            json::quoted(c.call_type),
            json::quoted(c.name),
            json::quoted(c.arguments),
        ],
    );
}

/// The calls of a message as an entry behind others.
proof fn lemma_calls_entry(entries: Seq<(Seq<char>, JsonView)>, calls: Seq<ToolCallView>)
    requires
        entries.len() > 0,
    ensures
        json::entries_text(
            entries.push(
                (
                    "tool_calls"@,
                    JsonView::Array(Seq::new(calls.len(), |i: int| call_value(calls[i]))),
                ),
            ),
        ) == json::entries_text(entries) + (",\"tool_calls\":["@ + text::joined(
            call_jsons(calls),
            ","@,
        ) + "]"@),
{
    lemma_quoted_keys();
    lemma_message_literals();
    let items = Seq::new(calls.len(), |i: int| call_value(calls[i]));
    lemma_entries_text_push(
        entries,
        "tool_calls"@,
        JsonView::Array(items),
        "\"tool_calls\":"@,
    );
    assert forall|i: int| 0 <= i < items.len() implies json::json_text(#[trigger] items[i])
        == call_jsons(calls)[i] by {
        lemma_call_json(calls[i]);
    }
    lemma_items_text(items, call_jsons(calls));
    lemma_list_grouping(
        json::entries_text(entries),
        ","@,
        "\"tool_calls\":"@,
        "["@,
        text::joined(call_jsons(calls), ","@),
        "]"@,
    );
}

/// The call that a message belongs to as an entry behind others.
proof fn lemma_id_entry(entries: Seq<(Seq<char>, JsonView)>, id: Seq<char>)
    requires
        entries.len() > 0,
    ensures
        json::entries_text(entries.push(("tool_call_id"@, JsonView::Text(id))))
            == json::entries_text(entries) + (",\"tool_call_id\":"@ + json::quoted(id)),
{
    lemma_quoted_keys();
    lemma_message_literals();
    let label = "\"tool_call_id\":"@;
    let front = json::entries_text(entries);
    lemma_entries_text_push(entries, "tool_call_id"@, JsonView::Text(id), label);
    assert(front + ","@ + label + json::quoted(id) =~= front + (","@ + label + json::quoted(id)));
}

/// The role and the content of a message as entries.
proof fn lemma_first_entries(role: Seq<char>, value: JsonView)
    ensures
        json::entries_text(seq![("role"@, JsonView::Text(role)), ("content"@, value)])
            == "\"role\":"@ + json::quoted(role) + ","@ + "\"content\":"@ + json::json_text(value),
{
    lemma_quoted_keys();
    let none = Seq::<(Seq<char>, JsonView)>::empty();
    let first = ("role"@, JsonView::Text(role));
    let second = ("content"@, value);
    lemma_entries_text_push(none, first.0, first.1, "\"role\":"@);
    lemma_entries_text_push(none.push(first), second.0, second.1, "\"content\":"@);
    assert(none.push(first).push(second) =~= seq![first, second]);
}

/// The JSON text of a message is that of an object with its fields, so that whoever reads it finds
/// every field of the message in it.
pub proof fn law_message_json_has_all_fields(m: MessageView)
    ensures
        message_json(m) == json::json_text(JsonView::Object(message_entries(m))),
{
    let value = match m.content {
        Some(s) => JsonView::Text(s),
        None => JsonView::Null,
    };
    let two = seq![("role"@, JsonView::Text(m.role)), ("content"@, value)];
    let three = match m.tool_calls {
        Some(calls) => two.push(
            (
                "tool_calls"@,
                JsonView::Array(Seq::new(calls.len(), |i: int| call_value(calls[i]))),
            ),
        ),
        None => two,
    };
    let all = match m.tool_call_id {
        Some(id) => three.push(("tool_call_id"@, JsonView::Text(id))),
        None => three,
    };
    let more = match m.tool_calls {
        Some(calls) => ",\"tool_calls\":["@ + text::joined(call_jsons(calls), ","@) + "]"@,
        None => ""@,
    };
    let last = match m.tool_call_id {
        Some(id) => ",\"tool_call_id\":"@ + json::quoted(id),
        None => ""@,
    };
    lemma_message_literals();
    lemma_first_entries(m.role, value);
    if let Some(calls) = m.tool_calls {
        lemma_calls_entry(two, calls);
    } else {
        assert(json::entries_text(two) + ""@ =~= json::entries_text(two));
    }
    if let Some(id) = m.tool_call_id {
        lemma_id_entry(three, id);
    } else {
        assert(json::entries_text(three) + ""@ =~= json::entries_text(three));
    }
    assert(all =~= message_entries(m));
    lemma_message_grouping(
        "{"@,
        "}"@,
        "\"role\":"@,
        json::quoted(m.role),
        ","@,
        "\"content\":"@,
        json::json_text(value),
        more,
        last,
    );
}

proof fn lemma_list_grouping(
    front: Seq<char>,
    cm: Seq<char>,
    label: Seq<char>,
    o: Seq<char>,
    list: Seq<char>,
    cl: Seq<char>,
)
    ensures
        front + cm + label + (o + list + cl) == front + (cm + label + o + list + cl),
{
    assert(front + cm + label + (o + list + cl) =~= front + (cm + label + o + list + cl));
}

proof fn lemma_message_grouping(
    o: Seq<char>,
    cl: Seq<char>,
    k1: Seq<char>,
    q1: Seq<char>,
    cm: Seq<char>,
    k2: Seq<char>,
    q2: Seq<char>,
    more: Seq<char>,
    last: Seq<char>,
)
    ensures
        o + ((k1 + q1 + cm + k2 + q2) + more + last) + cl == (o + k1) + q1 + (cm + k2) + q2 + more
            + last + cl,
{
    assert(o + ((k1 + q1 + cm + k2 + q2) + more + last) + cl =~= (o + k1) + q1 + (cm + k2) + q2
        + more + last + cl);
}

/// The JSON text of a conversation is that of an array with one object for each message, in their
/// order.
pub proof fn law_conversation_json_has_all_messages(messages: Seq<MessageView>)
    ensures
        conversation_json(messages) == json::json_text(
            JsonView::Array(
                Seq::new(messages.len(), |i: int| JsonView::Object(message_entries(messages[i]))),
            ),
        ),
{
    let items = Seq::new(messages.len(), |i: int| JsonView::Object(message_entries(messages[i])));
    assert forall|i: int| 0 <= i < items.len() implies json::json_text(#[trigger] items[i])
        == message_jsons(messages)[i] by {
        law_message_json_has_all_fields(messages[i]);
    }
    lemma_items_text(items, message_jsons(messages));
}

/// The reasons that servers write in two words get their underscore back; every other reason is
/// kept as it is.
pub proof fn law_reasons_are_written_in_two_words(reason: Seq<char>)
    ensures
        normalized_reason("toolcalls"@) == "tool_calls"@,
        normalized_reason("contentfilter"@) == "content_filter"@,
        normalized_reason("functioncall"@) == "function_call"@,
        reason != "toolcalls"@ && reason != "contentfilter"@ && reason != "functioncall"@
            ==> normalized_reason(reason) == reason,
{
    reveal_strlit("toolcalls");
    reveal_strlit("contentfilter");
    reveal_strlit("functioncall");
    assert("toolcalls"@.len() == 9);
    assert("contentfilter"@.len() == 13);
    assert("functioncall"@.len() == 12);
}

/// A number is read only from decimal digits, at least one, with at most one plus sign in front;
/// the sign and zeros in front make no difference.
pub proof fn law_only_digits_are_numbers(s: Seq<char>, i: int)
    ensures
        s.len() == 0 ==> number_in(s) is None,
        0 <= i < s.len() && !('0' <= s[i] <= '9') && !(i == 0 && s[0] == '+') ==> number_in(
            s,
        ) is None,
        s.len() > 0 && s[0] != '+' ==> number_in(seq!['+'] + s) == number_in(s),
        s.len() > 0 && s[0] != '+' ==> number_in(seq!['0'] + s) == number_in(s),
{
    let digits = without_plus(s);
    if 0 <= i < s.len() && !('0' <= s[i] <= '9') && !(i == 0 && s[0] == '+') {
        if s[0] == '+' {
            assert(digits[i - 1] == s[i]);
            assert(!is_digit(digits[i - 1]));
        } else {
            assert(!is_digit(digits[i]));
        }
    }
    if s.len() > 0 && s[0] != '+' {
        assert((seq!['+'] + s).skip(1) =~= s);
        let t = seq!['0'] + s;
        lemma_leading_zero(s);
        if all_digits(s) {
            assert forall|k: int| 0 <= k < t.len() implies is_digit(#[trigger] t[k]) by {
                if k > 0 {
                    assert(is_digit(s[k - 1]));
                }
            }
        }
        if all_digits(t) {
            assert forall|k: int| 0 <= k < s.len() implies is_digit(#[trigger] s[k]) by {
                assert(is_digit(t[k + 1]));
            }
        }
    }
}

proof fn lemma_leading_zero(s: Seq<char>)
    ensures
        decimal_value(seq!['0'] + s) == decimal_value(s),
    decreases s.len(),
{
    let t = seq!['0'] + s;
    if s.len() == 0 {
        assert(t.drop_last() =~= Seq::empty());
        reveal_with_fuel(decimal_value, 2);
    } else {
        assert(t.drop_last() =~= seq!['0'] + s.drop_last());
        lemma_leading_zero(s.drop_last());
    }
}

/// A missing connection ends everything, and the message names the server. Any other failure is
/// reported with its error and the number of the attempt, counted from one, before the next
/// attempt is made two seconds later; the third is handed on.
pub proof fn law_failures_are_reported(
    attempt: nat,
    connect: bool,
    base_url: Seq<char>,
    error: Seq<char>,
)
    ensures
        ({
            let r = after_failure(attempt, connect, base_url, error);
            &&& connect ==> r is Abort && text::contains(r->Abort_0, base_url)
            &&& !connect && attempt < 2 ==> r is Retry && r->Retry_0 == "\x1b[31m[LLM retry "@
                + text::decimal(attempt + 1) + "] "@ + error + "\x1b[0m"@ && r->Retry_1 == 2
            &&& !connect && attempt >= 2 ==> r is Fail
        }),
{
    if connect {
        let front = "\n\x1b[31;1m[Error] llama-server に接続できません: "@;
        let back =
            "\x1b[0m\nllama-server が起動しているか確認してください:\n  ./apps/scripts/start-llama-server.sh\n"@;
        text::law_occurrence_splits(connection_message(base_url), base_url, front, back);
    }
}

/// The fragments of some pieces, in their order.
pub open spec fn all_fragments(deltas: Seq<DeltaView>) -> Seq<FragmentView>
    decreases deltas.len(),
{
    if deltas.len() == 0 {
        Seq::empty()
    } else {
        all_fragments(deltas.drop_last()) + match deltas.last().tool_calls {
            Some(fragments) => fragments,
            None => Seq::empty(),
        }
    }
}

/// Taking in fragments one after the other is the same as taking in a list and then another.
pub proof fn law_fragments_are_taken_in_turn(
    slots: Seq<Slot>,
    a: Seq<FragmentView>,
    b: Seq<FragmentView>,
    f: FragmentView,
)
    ensures
        ingested_all(slots, Seq::empty()) == slots,
        ingested_all(slots, seq![f]) == tool_call_stream::ingested(
            slots,
            f.index,
            f.id,
            f.name,
            f.arguments,
        ),
        ingested_all(slots, a + b) == ingested_all(ingested_all(slots, a), b),
    decreases b.len(),
{
    assert(seq![f].drop_last() =~= Seq::empty());
    reveal_with_fuel(ingested_all, 2);
    if b.len() == 0 {
        assert(a + b =~= a);
    } else {
        law_fragments_are_taken_in_turn(slots, a, b.drop_last(), f);
        assert((a + b).drop_last() =~= a + b.drop_last());
    }
}

/// Every fragment of every piece of a reply goes into its tool calls, in the order in which they
/// arrive, whatever text arrives between them.
pub proof fn law_calls_are_made_of_all_fragments(deltas: Seq<DeltaView>)
    ensures
        absorbed_all(StreamView::blank(), deltas).slots == ingested_all(
            Seq::empty(),
            all_fragments(deltas),
        ),
    decreases deltas.len(),
{
    if deltas.len() > 0 {
        law_calls_are_made_of_all_fragments(deltas.drop_last());
        let before = all_fragments(deltas.drop_last());
        match deltas.last().tool_calls {
            Some(fragments) => {
                let f = arbitrary();
                law_fragments_are_taken_in_turn(Seq::empty(), before, fragments, f);
            },
            None => {
                assert(all_fragments(deltas) =~= before);
            },
        }
    }
}

/// The finish reason of a reply is the last one that arrived, and `stop` where none did.
pub proof fn law_last_reason_counts(deltas: Seq<DeltaView>, k: int)
    ensures
        (forall|i: int| 0 <= i < deltas.len() ==> (#[trigger] deltas[i]).finish_reason is None)
            ==> absorbed_all(StreamView::blank(), deltas).finish_reason == "stop"@,
        0 <= k < deltas.len() && deltas[k].finish_reason is Some && (forall|i: int|
            k < i < deltas.len() ==> (#[trigger] deltas[i]).finish_reason is None)
            ==> absorbed_all(StreamView::blank(), deltas).finish_reason == normalized_reason(
            text::lowercased(deltas[k].finish_reason->Some_0),
        ),
    decreases deltas.len(),
{
    if deltas.len() > 0 {
        let front = deltas.drop_last();
        law_last_reason_counts(front, k);
        assert forall|i: int| 0 <= i < front.len() implies #[trigger] front[i] == deltas[i] by {}
        if forall|i: int| 0 <= i < deltas.len() ==> (#[trigger] deltas[i]).finish_reason is None {
            assert(deltas[deltas.len() - 1].finish_reason is None);
            assert forall|i: int| 0 <= i < front.len() implies (
            #[trigger] front[i]).finish_reason is None by {
                assert(deltas[i].finish_reason is None);
            }
        }
        if 0 <= k < deltas.len() && deltas[k].finish_reason is Some && (forall|i: int|
            k < i < deltas.len() ==> (#[trigger] deltas[i]).finish_reason is None) {
            if k < front.len() {
                assert(deltas[deltas.len() - 1].finish_reason is None);
                assert forall|i: int| k < i < front.len() implies (
                #[trigger] front[i]).finish_reason is None by {
                    assert(deltas[i].finish_reason is None);
                }
            }
        }
    }
}

/// The texts that were shown while some pieces arrived, in their order.
pub open spec fn shown_texts(deltas: Seq<DeltaView>) -> Seq<char>
    decreases deltas.len(),
{
    if deltas.len() == 0 {
        Seq::empty()
    } else {
        shown_texts(deltas.drop_last()) + match absorbed_all(
            StreamView::blank(),
            deltas.drop_last(),
        ).shown(deltas.last()) {
            Some(t) => t,
            None => Seq::empty(),
        }
    }
}

/// A reply counts as shown exactly where some of its text was, and a reply without tool calls is
/// shown as a whole.
pub proof fn law_replies_are_shown(deltas: Seq<DeltaView>)
    ensures
        absorbed_all(StreamView::blank(), deltas).printed_anything <==> shown_texts(deltas).len()
            > 0,
        (forall|i: int| 0 <= i < deltas.len() ==> (#[trigger] deltas[i]).tool_calls is None)
            ==> shown_texts(deltas) == contents(deltas),
    decreases deltas.len(),
{
    if deltas.len() > 0 {
        let front = deltas.drop_last();
        law_replies_are_shown(front);
        law_text_is_shown_before_tool_calls(front, deltas.last());
        if forall|i: int| 0 <= i < deltas.len() ==> (#[trigger] deltas[i]).tool_calls is None {
            assert forall|i: int| 0 <= i < front.len() implies (
            #[trigger] front[i]).tool_calls is None by {
                assert(deltas[i].tool_calls is None);
            }
            assert(shown_texts(deltas) =~= contents(deltas));
        }
    }
}

/// A reply that is complete has the text that arrived, one call for each slot that a fragment has
/// opened, none where no fragment arrived, and the finish reason.
pub proof fn law_reply_is_what_arrived(state: StreamView)
    ensures
        state.content.len() > 0 ==> state.result().content == Some(state.content),
        state.content.len() == 0 ==> state.result().content is None,
        state.slots.len() == 0 ==> state.result().tool_calls is None,
        state.slots.len() > 0 ==> state.result().tool_calls is Some
            && state.result().tool_calls->Some_0.len() == state.slots.len(),
        state.result().finish_reason == state.finish_reason,
{
}

/// A summary is asked for with the conversation as it stands at the end of the request.
pub proof fn law_summary_request_ends_with_conversation(conversation: Seq<char>)
    ensures
        summary_request(conversation).len() >= conversation.len(),
        summary_request(conversation).skip(
            summary_request(conversation).len() - conversation.len(),
        ) == conversation,
{
    let r = summary_request(conversation);
    assert(r.skip(r.len() - conversation.len()) =~= conversation);
}

/// A setting that the environment gives counts as it is given, also a number of tokens in decimal;
/// a default counts for what it does not give, and for what is no number.
pub proof fn law_settings_count_as_given(value: Option<String>, default: Seq<char>, n: u32, s: Seq<char>)
    ensures
        value is Some ==> text_or_else(value, default) == value->Some_0@,
        value is None ==> text_or_else(value, default) == default,
        token_setting(Some(text::decimal(n as nat))) == n,
        token_setting(None) == 32768,
        s.len() > 0 && !('0' <= s.last() <= '9') ==> token_setting(Some(s)) == 32768,
{
    law_numbers_read_back(n as nat);
    if s.len() > 0 && !('0' <= s.last() <= '9') {
        let i = s.len() - 1;
        law_only_digits_are_numbers(s, i);
        if i == 0 && s[0] == '+' {
            assert(without_plus(s).len() == 0);
        }
    }
}

/// The summary is the text of the first choice as it came back, even an empty one; the others do
/// not count.
pub proof fn law_first_choice_is_the_summary(
    s: Seq<char>,
    others: Seq<Option<Seq<char>>>,
)
    ensures
        summary_of(seq![Some(s)] + others) == s,
        summary_of(seq![None::<Seq<char>>] + others) == "(empty summary)"@,
        summary_of(Seq::empty()) == "(empty summary)"@,
{
    assert((seq![Some(s)] + others)[0] == Some(s));
    assert((seq![None::<Seq<char>>] + others)[0] is None);
}

/// A chain of errors speaks of a missing connection where one of its links does, whether the
/// error carries the transport error or is one.
pub proof fn law_links_tell_of_connections(connect: bool)
    ensures
        (ErrorLink::Api { connect }).is_connect() == connect,
        (ErrorLink::Transport { connect }).is_connect() == connect,
        !ErrorLink::Other.is_connect(),
{
}

} // verus!
