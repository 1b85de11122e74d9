//! Keeping a long conversation within the context of the model.
//!
//! Old tool results are cleared first, together with the arguments of the calls that they
//! belong to. Where that is not enough, the conversation is saved, summarized, and begun anew
//! with the summary.
use vstd::prelude::*;
use vstd::string::*;

use crate::json;
use crate::llm_client;
use crate::llm_client::{
    conversation_to_json, Message, MessageToolCall, MessageView, ToolCallView,
};
use crate::text;
use crate::text::{same_text, text_len};

verus! {

// ---------------------------------------------------------------------------
// Sizes
// ---------------------------------------------------------------------------

/// The number of tokens beyond which a conversation is summarized: sixty percent of the context.
pub fn token_threshold(context_tokens: u32) -> (r: usize)
    ensures
        r == context_tokens as int * 6 / 10,
{
    (context_tokens as u64 * 6 / 10) as usize
}

/// A rough number of tokens: a quarter of the bytes of the conversation as JSON.
pub open spec fn tokens(messages: Seq<MessageView>) -> nat {
    text::byte_len(llm_client::conversation_json(messages)) / 4
}

/// Estimates the number of tokens of a conversation.
pub fn estimate_tokens(messages: &[Message]) -> (r: usize)
    ensures
        r == tokens(llm_client::message_views(messages@)),
{
    let json = conversation_to_json(messages);
    text_len(json.as_str()) / 4
}

// ---------------------------------------------------------------------------
// Clearing old tool results
// ---------------------------------------------------------------------------

/// What stands for a cleared result.
pub open spec fn cleared() -> Seq<char> {
    "[cleared]"@
}

/// What stands for cleared arguments.
pub open spec fn no_arguments() -> Seq<char> {
    "{}"@
}

/// Whether a message is the result of a tool call.
pub open spec fn is_result(m: MessageView) -> bool {
    m.role == "tool"@ && m.tool_call_id is Some
}

/// The number of results from a place on.
pub open spec fn results_from(messages: Seq<MessageView>, i: int) -> nat
    decreases messages.len() - i,
{
    if i < 0 || i >= messages.len() {
        0
    } else {
        (if is_result(messages[i]) {
            1nat
        } else {
            0nat
        }) + results_from(messages, i + 1)
    }
}

/// The number of results that stay as they are.
pub open spec fn kept(aggressive: bool) -> nat {
    if aggressive {
        1
    } else {
        3
    }
}

/// Whether the message at a place is a result that is older than the `keep` most recent ones.
pub open spec fn is_old_result(messages: Seq<MessageView>, i: int, keep: nat) -> bool {
    0 <= i < messages.len() && is_result(messages[i]) && results_from(messages, i) > keep
}

/// Whether an old result belongs to the call with an id.
pub open spec fn is_old_id(messages: Seq<MessageView>, id: Seq<char>, keep: nat) -> bool {
    exists|i: int|
        #[trigger] is_old_result(messages, i, keep) && messages[i].tool_call_id == Some(id)
}

/// A tool call after the clearing: long arguments go where the result is old.
pub open spec fn cleared_call(
    messages: Seq<MessageView>,
    keep: nat,
    call: ToolCallView,
) -> ToolCallView {
    if is_old_id(messages, call.id, keep) && text::byte_len(call.arguments) > 200 {
        ToolCallView { arguments: no_arguments(), ..call }
    } else {
        call
    }
}

/// Tool calls after the clearing.
pub open spec fn cleared_calls(
    messages: Seq<MessageView>,
    keep: nat,
    calls: Seq<ToolCallView>,
) -> Seq<ToolCallView> {
    Seq::new(calls.len(), |j: int| cleared_call(messages, keep, calls[j]))
}

/// The content of a message after the clearing: a long one goes where it is an old result.
pub open spec fn cleared_content(messages: Seq<MessageView>, keep: nat, i: int) -> Option<
    Seq<char>,
> {
    let content = messages[i].content;
    if is_old_result(messages, i, keep) && content is Some && text::byte_len(content->Some_0)
        > 500 {
        Some(cleared())
    } else {
        content
    }
}

/// A message after the clearing.
pub open spec fn cleared_message(messages: Seq<MessageView>, keep: nat, i: int) -> MessageView {
    let m = messages[i];
    MessageView {
        role: m.role,
        content: cleared_content(messages, keep, i),
        tool_calls: if m.role == "assistant"@ && m.tool_calls is Some {
            Some(cleared_calls(messages, keep, m.tool_calls->Some_0))
        } else {
            m.tool_calls
        },
        tool_call_id: m.tool_call_id,
    }
}

/// A conversation after the clearing of all but the `keep` most recent results.
pub open spec fn microcompacted(messages: Seq<MessageView>, keep: nat) -> Seq<MessageView> {
    Seq::new(messages.len(), |i: int| cleared_message(messages, keep, i))
}

fn is_tool_result(m: &Message) -> (r: bool)
    ensures
        r == is_result(m@),
{
    same_text(m.role.as_str(), "tool") && m.tool_call_id.is_some()
}

/// Counts the results of a conversation.
fn count_results(messages: &[Message]) -> (n: usize)
    ensures
        n == results_from(llm_client::message_views(messages@), 0),
{
    let ghost views = llm_client::message_views(messages@);
    let mut n: usize = 0;
    let mut i: usize = messages.len();
    while i > 0
        invariant
            i <= messages@.len(),
            views == llm_client::message_views(messages@),
            n == results_from(views, i as int),
            n <= messages@.len() - i,
        decreases i,
    {
        i -= 1;
        if is_tool_result(&messages[i]) {
            n += 1;
        }
    }
    n
}

fn holds_id(ids: &Vec<String>, id: &str) -> (r: bool)
    ensures
        r == exists|k: int| 0 <= k < ids@.len() && (#[trigger] ids@[k])@ == id@,
{
    let mut k: usize = 0;
    while k < ids.len()
        invariant
            k <= ids.len(),
            forall|j: int| 0 <= j < k ==> (#[trigger] ids@[j])@ != id@,
        decreases ids.len() - k,
    {
        if same_text(ids[k].as_str(), id) {
            assert(ids@[k as int]@ == id@);
            return true;
        }
        k += 1;
    }
    false
}

/// Whether a list holds exactly the ids of the old results.
spec fn lists_old_ids(ids: Seq<String>, messages: Seq<MessageView>, keep: nat) -> bool {
    forall|id: Seq<char>| #[trigger]
        is_old_id(messages, id, keep) <==> exists|k: int|
            0 <= k < ids.len() && (#[trigger] ids[k])@ == id
}

/// Collects the ids of the old results.
fn old_ids(messages: &[Message], keep: usize) -> (ids: Vec<String>)
    ensures
        lists_old_ids(ids@, llm_client::message_views(messages@), keep as nat),
{
    let ghost views = llm_client::message_views(messages@);
    let mut left = count_results(messages);
    let mut ids: Vec<String> = Vec::new();
    // The message that each id was taken from.
    let ghost mut places: Seq<int> = Seq::empty();
    let mut i: usize = 0;
    while i < messages.len()
        invariant
            i <= messages@.len(),
            views == llm_client::message_views(messages@),
            left == results_from(views, i as int),
            places.len() == ids@.len(),
            forall|k: int|
                0 <= k < ids@.len() ==> is_old_result(views, #[trigger] places[k], keep as nat)
                    && views[places[k]].tool_call_id == Some(ids@[k]@),
            forall|p: int|
                0 <= p < i && #[trigger] is_old_result(views, p, keep as nat) ==> exists|k: int|
                    0 <= k < ids@.len() && views[p].tool_call_id == Some((#[trigger] ids@[k])@),
        decreases messages.len() - i,
    {
        let ghost had = ids@;
        if is_tool_result(&messages[i]) {
            if left > keep {
                if let Some(id) = &messages[i].tool_call_id {
                    ids.push(id.clone());
                    proof {
                        places = places.push(i as int);
                        assert(views[i as int].tool_call_id == Some(ids@[had.len() as int]@));
                    }
                }
            }
            left -= 1;
        }
        assert forall|p: int|
            0 <= p < i + 1 && #[trigger] is_old_result(views, p, keep as nat) implies exists|k: int|
            0 <= k < ids@.len() && views[p].tool_call_id == Some((#[trigger] ids@[k])@) by {
            if p < i {
                let k = choose|k: int|
                    0 <= k < had.len() && views[p].tool_call_id == Some((#[trigger] had[k])@);
                assert(ids@[k] == had[k]);
            } else {
                assert(views[i as int].tool_call_id == Some(ids@[had.len() as int]@));
            }
        }
        i += 1;
    }
    assert forall|id: Seq<char>| #[trigger]
        is_old_id(views, id, keep as nat) <==> exists|k: int|
            0 <= k < ids@.len() && (#[trigger] ids@[k])@ == id by {
        if is_old_id(views, id, keep as nat) {
            let p = choose|p: int|
                #[trigger] is_old_result(views, p, keep as nat) && views[p].tool_call_id == Some(id);
            let k = choose|k: int|
                0 <= k < ids@.len() && views[p].tool_call_id == Some((#[trigger] ids@[k])@);
            assert(ids@[k]@ == id);
        }
        if exists|k: int| 0 <= k < ids@.len() && (#[trigger] ids@[k])@ == id {
            let k = choose|k: int| 0 <= k < ids@.len() && (#[trigger] ids@[k])@ == id;
            assert(is_old_result(views, places[k], keep as nat));
        }
    }
    ids
}

/// Clears the long arguments of calls whose results are old.
fn clear_arguments(
    calls: &mut Vec<MessageToolCall>,
    ids: &Vec<String>,
    Ghost(messages): Ghost<Seq<MessageView>>,
    Ghost(keep): Ghost<nat>,
)
    requires
        lists_old_ids(ids@, messages, keep),
    ensures
        llm_client::call_views(final(calls)@) == cleared_calls(
            messages,
            keep,
            llm_client::call_views(old(calls)@),
        ),
{
    let ghost before = calls@;
    let mut j: usize = 0;
    while j < calls.len()
        invariant
            j <= calls@.len(),
            calls@.len() == before.len(),
            lists_old_ids(ids@, messages, keep),
            forall|k: int|
                0 <= k < j ==> (#[trigger] calls@[k])@ == cleared_call(messages, keep, before[k]@),
            forall|k: int| j <= k < calls@.len() ==> #[trigger] calls@[k] == before[k],
        decreases calls.len() - j,
    {
        let old_call = holds_id(ids, calls[j].id.as_str());
        assert(old_call == is_old_id(messages, before[j as int].id@, keep));
        if old_call && text_len(calls[j].function.arguments.as_str()) > 200 {
            calls[j].function.arguments = "{}".to_owned();
        }
        j += 1;
    }
    assert(llm_client::call_views(calls@) =~= cleared_calls(
        messages,
        keep,
        llm_client::call_views(before),
    ));
}

/// Clears the contents of old tool results that are longer than 500 bytes, and the arguments of
/// the calls that they belong to where these are longer than 200 bytes. The three most recent
/// results stay as they are, or the most recent one where `aggressive` is set.
pub fn microcompact(messages: &mut [Message], aggressive: bool)
    ensures
        llm_client::message_views(final(messages)@) == microcompacted(
            llm_client::message_views(old(messages)@),
            kept(aggressive),
        ),
{
    let keep: usize = if aggressive {
        1
    } else {
        3
    };
    let ghost before = messages@;
    let ghost views = llm_client::message_views(before);
    let ids = old_ids(messages, keep);
    let mut left = count_results(messages);
    let mut i: usize = 0;
    while i < messages.len()
        invariant
            i <= messages@.len(),
            messages@.len() == before.len(),
            views == llm_client::message_views(before),
            lists_old_ids(ids@, views, keep as nat),
            left == results_from(views, i as int),
            forall|k: int|
                0 <= k < i ==> (#[trigger] messages@[k])@ == cleared_message(views, keep as nat, k),
            forall|k: int| i <= k < messages@.len() ==> #[trigger] messages@[k] == before[k],
        decreases messages.len() - i,
    {
        let ghost want = cleared_message(views, keep as nat, i as int);
        if is_tool_result(&messages[i]) {
            if left > keep {
                let long = match &messages[i].content {
                    Some(c) => text_len(c.as_str()) > 500,
                    None => false,
                };
                if long {
                    messages[i].content = Some("[cleared]".to_owned());
                }
            }
            left -= 1;
        }
        if same_text(messages[i].role.as_str(), "assistant") {
            if let Some(calls) = &mut messages[i].tool_calls {
                clear_arguments(calls, &ids, Ghost(views), Ghost(keep as nat));
            }
        }
        assert(messages@[i as int]@ == want);
        i += 1;
    }
    assert(llm_client::message_views(messages@) =~= microcompacted(views, keep as nat));
}

// ---------------------------------------------------------------------------
// Starting over with a summary
// ---------------------------------------------------------------------------

/// The number of tokens that a summary may take.
pub const SUMMARY_TOKENS: u32 = 2000;

/// The lines of a transcript: each message as JSON, with a line end after it.
pub open spec fn transcript(messages: Seq<MessageView>) -> Seq<char>
    decreases messages.len(),
{
    if messages.len() == 0 {
        Seq::empty()
    } else {
        transcript(messages.drop_last()) + llm_client::message_json(messages.last()) + "\n"@
    }
}

/// The name of the transcript that is written at a time, in seconds.
pub open spec fn transcript_name(seconds: nat) -> Seq<char> {
    "transcript_"@ + text::decimal(seconds) + ".jsonl"@
}

/// What is said once a conversation is begun anew.
pub open spec fn compressed_notice(file_name: Seq<char>) -> Seq<char> {
    "\x1b[90m[context compressed → "@ + file_name + "]\x1b[0m"@
}

/// What is saved and what is summarized when a conversation is begun anew.
#[derive(Debug)]
pub struct Compaction {
    /// The name of the file that keeps the conversation.
    pub file_name: String,
    /// What the file holds.
    pub transcript: String,
    /// The text to summarize.
    pub conversation: String,
    /// What is said once the conversation is begun anew.
    pub notice: String,
}

/// Prepares a new beginning of a conversation at a time, in seconds. The text to summarize is
/// the front of the conversation as JSON, as many whole characters as fit into 80000 bytes.
pub fn auto_compact(messages: &[Message], seconds: u64) -> (r: Compaction)
    ensures
        r.file_name@ == transcript_name(seconds as nat),
        r.transcript@ == transcript(llm_client::message_views(messages@)),
        r.conversation@ == text::clipped(
            llm_client::conversation_json(llm_client::message_views(messages@)),
            80_000,
        ),
        r.notice@ == compressed_notice(r.file_name@),
{
    let ghost views = llm_client::message_views(messages@);
    let mut file_name = "transcript_".to_owned();
    file_name.append(text::decimal_text(seconds as u128).as_str());
    file_name.append(".jsonl");
    let mut lines = String::new();
    let mut i: usize = 0;
    assert(views.take(0) =~= Seq::empty());
    while i < messages.len()
        invariant
            i <= messages@.len(),
            views == llm_client::message_views(messages@),
            lines@ == transcript(views.take(i as int)),
        decreases messages.len() - i,
    {
        lines.append(messages[i].to_json().as_str());
        lines.append("\n");
        assert(views.take(i + 1).drop_last() =~= views.take(i as int));
        i += 1;
    }
    assert(views.take(views.len() as int) =~= views);
    let whole = conversation_to_json(messages);
    let conversation = text::clip(whole.as_str(), 80_000).to_owned();
    let mut notice = "\x1b[90m[context compressed → ".to_owned();
    notice.append(file_name.as_str());
    notice.append("]\x1b[0m");
    Compaction { file_name, transcript: lines, conversation, notice }
}

/// The conversation that begins with a summary.
pub open spec fn fresh(path: Seq<char>, summary: Seq<char>) -> Seq<MessageView> {
    seq![
        MessageView::plain(
            "user"@,
            "[Context compressed. Transcript saved to "@ + path + "]\n\n"@ + summary,
        ),
        MessageView::plain(
            "assistant"@,
            "Understood. Continuing with the summarized context."@,
        ),
    ]
}

/// Begins a conversation with a summary of an earlier one, which is saved at a path.
pub fn fresh_context(path: &str, summary: &str) -> (r: Vec<Message>)
    ensures
        llm_client::message_views(r@) == fresh(path@, summary@),
{
    let mut s = "[Context compressed. Transcript saved to ".to_owned();
    s.append(path);
    s.append("]\n\n");
    s.append(summary);
    let mut out: Vec<Message> = Vec::new();
    out.push(Message::user(s.as_str()));
    out.push(
        Message::assistant(
            Some("Understood. Continuing with the summarized context.".to_owned()),
            None,
        ),
    );
    assert(llm_client::message_views(out@) =~= fresh(path@, summary@));
    out
}

/// Whether a conversation is near the threshold of a context: above four fifths of it.
pub open spec fn is_near(messages: Seq<MessageView>, context_tokens: nat) -> bool {
    tokens(messages) > (context_tokens * 6 / 10) * 8 / 10
}

/// Clears old results, more of them near the threshold, and tells whether the conversation is
/// above the threshold even so.
pub fn maybe_compact(messages: &mut [Message], context_tokens: u32) -> (r: bool)
    ensures
        ({
            let before = llm_client::message_views(old(messages)@);
            let after = llm_client::message_views(final(messages)@);
            &&& after == microcompacted(before, kept(is_near(before, context_tokens as nat)))
            &&& r == (tokens(after) > context_tokens as int * 6 / 10)
        }),
{
    let threshold = token_threshold(context_tokens);
    let est = estimate_tokens(messages);
    let aggressive = est as u64 > threshold as u64 * 8 / 10;
    microcompact(messages, aggressive);
    estimate_tokens(messages) > threshold
}

// ---------------------------------------------------------------------------
// Laws
// ---------------------------------------------------------------------------

/// Clearing changes no role and no id: every call still has its id and every result still
/// refers to its call.
pub proof fn law_ids_are_kept(messages: Seq<MessageView>, keep: nat)
    ensures
        ({
            let after = microcompacted(messages, keep);
            &&& after.len() == messages.len()
            &&& forall|i: int|
                0 <= i < messages.len() ==> {
                    &&& (#[trigger] after[i]).role == messages[i].role
                    &&& after[i].tool_call_id == messages[i].tool_call_id
                    &&& after[i].content is Some <==> messages[i].content is Some
                    &&& after[i].tool_calls is Some <==> messages[i].tool_calls is Some
                    &&& messages[i].tool_calls is Some ==> after[i].tool_calls->Some_0.len()
                        == messages[i].tool_calls->Some_0.len()
                }
            &&& forall|i: int, j: int|
                0 <= i < messages.len() && messages[i].tool_calls is Some && 0 <= j
                    < messages[i].tool_calls->Some_0.len() ==> {
                    let a = #[trigger] after[i].tool_calls->Some_0[j];
                    let b = messages[i].tool_calls->Some_0[j];
                    a.id == b.id && a.call_type == b.call_type && a.name == b.name
                }
        }),
{
}

/// Only old results lose their contents: the `keep` most recent ones, which fewer than `keep`
/// others follow, and all that is no result, keep theirs.
pub proof fn law_recent_results_stay(messages: Seq<MessageView>, keep: nat, i: int)
    requires
        0 <= i < messages.len(),
        !is_result(messages[i]) || results_from(messages, i + 1) < keep,
    ensures
        microcompacted(messages, keep)[i].content == messages[i].content,
{
}

/// Arguments stay as they are where every result of the call is among the `keep` most recent
/// ones.
pub proof fn law_arguments_of_recent_results_stay(
    messages: Seq<MessageView>,
    keep: nat,
    call: ToolCallView,
)
    requires
        forall|i: int|
            0 <= i < messages.len() && is_result(#[trigger] messages[i])
                && messages[i].tool_call_id == Some(call.id) ==> results_from(messages, i + 1)
                < keep,
    ensures
        cleared_call(messages, keep, call) == call,
{
    if is_old_id(messages, call.id, keep) {
        let i = choose|i: int|
            #[trigger] is_old_result(messages, i, keep) && messages[i].tool_call_id == Some(
                call.id,
            );
        assert(results_from(messages, i + 1) < keep);
    }
}

/// What is old where three results stay is old where one stays: near the threshold at least as
/// much is cleared.
pub proof fn law_aggressive_clearing_goes_further(messages: Seq<MessageView>, i: int)
    requires
        is_old_result(messages, i, kept(false)),
    ensures
        is_old_result(messages, i, kept(true)),
{
}

/// Where there are no more results than stay, nothing changes.
pub proof fn law_few_results_stay(messages: Seq<MessageView>, keep: nat)
    requires
        results_from(messages, 0) <= keep,
    ensures
        microcompacted(messages, keep) == messages,
{
    let after = microcompacted(messages, keep);
    assert forall|i: int| 0 <= i < messages.len() implies after[i] == messages[i] by {
        assert forall|p: int| !is_old_result(messages, p, keep) by {
            if 0 <= p < messages.len() {
                lemma_fewer_results(messages, 0, p);
            }
        }
        if messages[i].tool_calls is Some {
            let calls = messages[i].tool_calls->Some_0;
            assert(cleared_calls(messages, keep, calls) =~= calls);
        }
    }
    assert(after =~= messages);
}

/// From a later place on there are no more results.
proof fn lemma_fewer_results(messages: Seq<MessageView>, i: int, j: int)
    requires
        0 <= i <= j <= messages.len(),
    ensures
        results_from(messages, j) <= results_from(messages, i),
    decreases j - i,
{
    if i < j {
        lemma_fewer_results(messages, i + 1, j);
    }
}

/// What counts as a result is not changed by the clearing.
proof fn lemma_same_results(messages: Seq<MessageView>, keep: nat, i: int)
    requires
        0 <= i <= messages.len(),
    ensures
        results_from(microcompacted(messages, keep), i) == results_from(messages, i),
    decreases messages.len() - i,
{
    if i < messages.len() {
        lemma_same_results(messages, keep, i + 1);
    }
}

/// A text takes up at most four bytes for each character.
proof fn lemma_byte_len_bound(s: Seq<char>)
    ensures
        text::byte_len(s) <= 4 * s.len(),
    decreases s.len(),
{
    if s.len() > 0 {
        lemma_byte_len_bound(s.drop_first());
    }
}

/// Clearing a second time changes nothing more.
pub proof fn law_clearing_is_idempotent(messages: Seq<MessageView>, keep: nat)
    ensures
        microcompacted(microcompacted(messages, keep), keep) == microcompacted(messages, keep),
{
    lemma_clearing_in_two_steps(messages, keep, keep);
}

/// Clearing as far as near the threshold comes to the same whether or not the ordinary clearing
/// went before.
pub proof fn law_aggressive_clearing_makes_up_for_mild(messages: Seq<MessageView>)
    ensures
        microcompacted(microcompacted(messages, kept(false)), kept(true)) == microcompacted(
            messages,
            kept(true),
        ),
{
    lemma_clearing_in_two_steps(messages, kept(false), kept(true));
}

/// A clearing that goes at least as far makes an earlier one needless.
proof fn lemma_clearing_in_two_steps(messages: Seq<MessageView>, mild: nat, keep: nat)
    requires
        keep <= mild,
    ensures
        microcompacted(microcompacted(messages, mild), keep) == microcompacted(messages, keep),
{
    let first = microcompacted(messages, mild);
    let twice = microcompacted(first, keep);
    let once = microcompacted(messages, keep);
    reveal_strlit("[cleared]");
    reveal_strlit("{}");
    lemma_byte_len_bound(cleared());
    lemma_byte_len_bound(no_arguments());
    assert forall|p: int| is_old_result(first, p, keep) == is_old_result(messages, p, keep) by {
        if 0 <= p < messages.len() {
            lemma_same_results(messages, mild, p);
        }
    }
    assert forall|id: Seq<char>| is_old_id(first, id, keep) == is_old_id(messages, id, keep) by {
        if is_old_id(first, id, keep) {
            let p = choose|p: int|
                #[trigger] is_old_result(first, p, keep) && first[p].tool_call_id == Some(id);
            assert(is_old_result(messages, p, keep));
        }
        if is_old_id(messages, id, keep) {
            let p = choose|p: int|
                #[trigger] is_old_result(messages, p, keep) && messages[p].tool_call_id == Some(id);
            assert(is_old_result(first, p, keep));
        }
    }
    assert forall|id: Seq<char>| is_old_id(messages, id, mild) implies is_old_id(
        messages,
        id,
        keep,
    ) by {
        let p = choose|p: int|
            #[trigger] is_old_result(messages, p, mild) && messages[p].tool_call_id == Some(id);
        assert(is_old_result(messages, p, keep));
    }
    assert forall|i: int| 0 <= i < messages.len() implies twice[i] == once[i] by {
        if messages[i].role == "assistant"@ && messages[i].tool_calls is Some {
            let calls = messages[i].tool_calls->Some_0;
            let halfway = first[i].tool_calls->Some_0;
            assert forall|j: int| 0 <= j < calls.len() implies cleared_call(first, keep, halfway[j])
                == cleared_call(messages, keep, calls[j]) by {
                let c = calls[j];
                assert(halfway[j] == cleared_call(messages, mild, c));
                assert(is_old_id(first, c.id, keep) == is_old_id(messages, c.id, keep));
                assert(is_old_id(messages, c.id, mild) ==> is_old_id(messages, c.id, keep));
            }
            assert(cleared_calls(first, keep, halfway) =~= cleared_calls(messages, keep, calls));
        }
    }
    assert(twice =~= once);
}

/// A conversation that was begun anew consists of two messages, and the summary and the place of
/// the transcript stand in the first.
pub proof fn law_fresh_context_is_short(path: Seq<char>, summary: Seq<char>)
    ensures
        fresh(path, summary).len() == 2,
        text::contains(fresh(path, summary)[0].content->Some_0, summary),
        text::contains(fresh(path, summary)[0].content->Some_0, path),
{
    let front = "[Context compressed. Transcript saved to "@;
    let all = front + path + "]\n\n"@ + summary;
    let k = (front + path + "]\n\n"@).len() as int;
    assert(all.subrange(k, k + summary.len()) =~= summary);
    assert(text::occurs_at(all, summary, k));
    let p = front.len() as int;
    assert(all.subrange(p, p + path.len()) =~= path);
    assert(text::occurs_at(all, path, p));
}

/// The size of a concatenation.
proof fn lemma_size_concat(a: Seq<char>, b: Seq<char>)
    ensures
        text::byte_len(a + b) == text::byte_len(a) + text::byte_len(b),
{
    text::lemma_encode_concat(a, b);
}

/// A text takes up at least one byte for each character.
proof fn lemma_byte_len_at_least(s: Seq<char>)
    ensures
        text::byte_len(s) >= s.len(),
    decreases s.len(),
{
    if s.len() > 0 {
        lemma_byte_len_at_least(s.drop_first());
    }
}

/// Writing a text as a JSON string takes at least the two quotes more, and at most six
/// characters for each of its own.
proof fn lemma_quoted_size(s: Seq<char>)
    ensures
        text::byte_len(json::quoted(s)) >= text::byte_len(s) + 2,
        json::quoted(s).len() <= 6 * s.len() + 2,
{
    lemma_escaped_size(s);
    lemma_size_concat(seq!['"'], json::escaped(s));
    lemma_size_concat(seq!['"'] + json::escaped(s), seq!['"']);
    lemma_byte_len_at_least(seq!['"']);
}

proof fn lemma_escaped_size(s: Seq<char>)
    ensures
        text::byte_len(json::escaped(s)) >= text::byte_len(s),
        json::escaped(s).len() <= 6 * s.len(),
    decreases s.len(),
{
    if s.len() > 0 {
        let front = s.drop_last();
        let c = s.last();
        lemma_escaped_size(front);
        assert(s =~= front + seq![c]);
        lemma_size_concat(front, seq![c]);
        lemma_size_concat(json::escaped(front), json::escaped_char(c));
        lemma_byte_len_at_least(json::escaped_char(c));
        lemma_one_char(c);
    }
}

/// A character below 128 takes up one byte.
proof fn lemma_one_char(c: char)
    ensures
        (c as u32) < 0x80 ==> text::byte_len(seq![c]) == 1,
{
    reveal_with_fuel(vstd::utf8::encode_utf8, 2);
    assert(seq![c].drop_first() =~= Seq::empty());
}

/// Joining shorter texts gives a shorter text.
proof fn lemma_joined_shorter(a: Seq<Seq<char>>, b: Seq<Seq<char>>, sep: Seq<char>)
    requires
        a.len() == b.len(),
        forall|i: int| 0 <= i < a.len() ==> text::byte_len(#[trigger] a[i]) <= text::byte_len(b[i]),
    ensures
        text::byte_len(text::joined(a, sep)) <= text::byte_len(text::joined(b, sep)),
    decreases a.len(),
{
    if a.len() >= 2 {
        let x = a.drop_last();
        let y = b.drop_last();
        assert forall|i: int| 0 <= i < x.len() implies text::byte_len(#[trigger] x[i])
            <= text::byte_len(y[i]) by {
            assert(x[i] == a[i]);
        }
        lemma_joined_shorter(x, y, sep);
        lemma_size_concat(text::joined(x, sep), sep);
        lemma_size_concat(text::joined(x, sep) + sep, a.last());
        lemma_size_concat(text::joined(y, sep), sep);
        lemma_size_concat(text::joined(y, sep) + sep, b.last());
        assert(text::byte_len(a[a.len() - 1]) <= text::byte_len(b[a.len() - 1]));
    } else if a.len() == 1 {
        assert(text::byte_len(a[0]) <= text::byte_len(b[0]));
    }
}

/// The size of a call as JSON, in terms of its arguments.
proof fn lemma_call_size(c: ToolCallView, d: ToolCallView)
    requires
        c.id == d.id,
        c.call_type == d.call_type,
        c.name == d.name,
        text::byte_len(json::quoted(c.arguments)) <= text::byte_len(json::quoted(d.arguments)),
    ensures
        text::byte_len(llm_client::call_json(c)) <= text::byte_len(llm_client::call_json(d)),
{
    let front = "{\"id\":"@ + json::quoted(c.id) + ",\"type\":"@ + json::quoted(c.call_type)
        + ",\"function\":{\"name\":"@ + json::quoted(c.name) + ",\"arguments\":"@;
    lemma_size_concat(front, json::quoted(c.arguments));
    lemma_size_concat(front + json::quoted(c.arguments), "}}"@);
    lemma_size_concat(front, json::quoted(d.arguments));
    lemma_size_concat(front + json::quoted(d.arguments), "}}"@);
}

/// A cleared call is no larger than before.
proof fn lemma_cleared_call_size(messages: Seq<MessageView>, keep: nat, c: ToolCallView)
    ensures
        text::byte_len(llm_client::call_json(cleared_call(messages, keep, c))) <= text::byte_len(
            llm_client::call_json(c),
        ),
{
    let d = cleared_call(messages, keep, c);
    if d != c {
        reveal_strlit("{}");
        lemma_quoted_size(no_arguments());
        lemma_byte_len_bound(json::quoted(no_arguments()));
        lemma_quoted_size(c.arguments);
        lemma_call_size(d, c);
    }
}

/// The content of a message as JSON.
spec fn content_json(content: Option<Seq<char>>) -> Seq<char> {
    match content {
        Some(s) => json::quoted(s),
        None => "null"@,
    }
}

/// The tool calls of a message as JSON.
spec fn calls_json(calls: Option<Seq<ToolCallView>>) -> Seq<char> {
    match calls {
        Some(calls) => ",\"tool_calls\":["@ + text::joined(llm_client::call_jsons(calls), ","@)
            + "]"@,
        None => ""@,
    }
}

/// A cleared message is no larger than before.
proof fn lemma_cleared_message_size(messages: Seq<MessageView>, keep: nat, i: int)
    requires
        0 <= i < messages.len(),
    ensures
        text::byte_len(llm_client::message_json(cleared_message(messages, keep, i)))
            <= text::byte_len(llm_client::message_json(messages[i])),
{
    let m = messages[i];
    let n = cleared_message(messages, keep, i);
    let front = "{\"role\":"@ + json::quoted(m.role) + ",\"content\":"@;
    let back = match m.tool_call_id {
        Some(id) => ",\"tool_call_id\":"@ + json::quoted(id),
        None => ""@,
    };
    assert(text::byte_len(content_json(n.content)) <= text::byte_len(content_json(m.content))) by {
        if n.content != m.content {
            reveal_strlit("[cleared]");
            lemma_quoted_size(cleared());
            lemma_byte_len_bound(json::quoted(cleared()));
            lemma_quoted_size(m.content->Some_0);
        }
    }
    assert(text::byte_len(calls_json(n.tool_calls)) <= text::byte_len(calls_json(m.tool_calls)))
        by {
        if m.role == "assistant"@ && m.tool_calls is Some {
            let a = llm_client::call_jsons(n.tool_calls->Some_0);
            let b = llm_client::call_jsons(m.tool_calls->Some_0);
            assert forall|j: int| 0 <= j < a.len() implies text::byte_len(#[trigger] a[j])
                <= text::byte_len(b[j]) by {
                lemma_cleared_call_size(messages, keep, m.tool_calls->Some_0[j]);
            }
            lemma_joined_shorter(a, b, ","@);
            let head = ",\"tool_calls\":["@;
            lemma_size_concat(head, text::joined(a, ","@));
            lemma_size_concat(head + text::joined(a, ","@), "]"@);
            lemma_size_concat(head, text::joined(b, ","@));
            lemma_size_concat(head + text::joined(b, ","@), "]"@);
        }
    }
    lemma_message_size(front, content_json(n.content), calls_json(n.tool_calls), back);
    lemma_message_size(front, content_json(m.content), calls_json(m.tool_calls), back);
}

proof fn lemma_message_size(front: Seq<char>, content: Seq<char>, calls: Seq<char>, back: Seq<char>)
    ensures
        text::byte_len(front + content + calls + back + "}"@) == text::byte_len(front)
            + text::byte_len(content) + text::byte_len(calls) + text::byte_len(back)
            + text::byte_len("}"@),
{
    lemma_size_concat(front, content);
    lemma_size_concat(front + content, calls);
    lemma_size_concat(front + content + calls, back);
    lemma_size_concat(front + content + calls + back, "}"@);
}

/// Clearing never makes a conversation larger: neither its JSON nor the number of tokens that is
/// estimated from it.
pub proof fn law_clearing_never_grows(messages: Seq<MessageView>, keep: nat)
    ensures
        text::byte_len(llm_client::conversation_json(microcompacted(messages, keep)))
            <= text::byte_len(llm_client::conversation_json(messages)),
        tokens(microcompacted(messages, keep)) <= tokens(messages),
{
    let a = llm_client::message_jsons(microcompacted(messages, keep));
    let b = llm_client::message_jsons(messages);
    assert forall|i: int| 0 <= i < a.len() implies text::byte_len(#[trigger] a[i])
        <= text::byte_len(b[i]) by {
        lemma_cleared_message_size(messages, keep, i);
    }
    lemma_joined_shorter(a, b, ","@);
    lemma_size_concat("["@, text::joined(a, ","@));
    lemma_size_concat("["@ + text::joined(a, ","@), "]"@);
    lemma_size_concat("["@, text::joined(b, ","@));
    lemma_size_concat("["@ + text::joined(b, ","@), "]"@);
}

/// Whether a text has no line end in it.
spec fn is_one_line(s: Seq<char>) -> bool {
    forall|i: int| 0 <= i < s.len() ==> #[trigger] s[i] != '\n'
}

proof fn lemma_quoted_is_one_line(s: Seq<char>)
    ensures
        is_one_line(json::quoted(s)),
{
    lemma_escaped_is_one_line(s);
}

proof fn lemma_escaped_is_one_line(s: Seq<char>)
    ensures
        is_one_line(json::escaped(s)),
    decreases s.len(),
{
    if s.len() > 0 {
        lemma_escaped_is_one_line(s.drop_last());
        assert(is_one_line(json::escaped_char(s.last())));
    }
}

proof fn lemma_joined_is_one_line(parts: Seq<Seq<char>>, sep: Seq<char>)
    requires
        is_one_line(sep),
        forall|i: int| 0 <= i < parts.len() ==> is_one_line(#[trigger] parts[i]),
    ensures
        is_one_line(text::joined(parts, sep)),
    decreases parts.len(),
{
    if parts.len() >= 2 {
        let front = parts.drop_last();
        assert forall|i: int| 0 <= i < front.len() implies is_one_line(#[trigger] front[i]) by {
            assert(front[i] == parts[i]);
        }
        lemma_joined_is_one_line(front, sep);
        assert(is_one_line(parts[parts.len() - 1]));
    } else if parts.len() == 1 {
        assert(is_one_line(parts[0]));
    }
}

proof fn lemma_call_is_one_line(c: ToolCallView)
    ensures
        is_one_line(llm_client::call_json(c)),
{
    reveal_strlit("{\"id\":");
    reveal_strlit(",\"type\":");
    reveal_strlit(",\"function\":{\"name\":");
    reveal_strlit(",\"arguments\":");
    reveal_strlit("}}");
    lemma_quoted_is_one_line(c.id);
    lemma_quoted_is_one_line(c.call_type);
    lemma_quoted_is_one_line(c.name);
    lemma_quoted_is_one_line(c.arguments);
}

/// A message as JSON is one line, and ends with a brace.
proof fn lemma_message_is_one_line(m: MessageView)
    ensures
        is_one_line(llm_client::message_json(m)),
        llm_client::message_json(m).len() > 0,
        llm_client::message_json(m).last() == '}',
{
    reveal_strlit("{\"role\":");
    reveal_strlit(",\"content\":");
    reveal_strlit("null");
    reveal_strlit(",\"tool_calls\":[");
    reveal_strlit(",");
    reveal_strlit("]");
    reveal_strlit("");
    reveal_strlit(",\"tool_call_id\":");
    reveal_strlit("}");
    lemma_quoted_is_one_line(m.role);
    if let Some(s) = m.content {
        lemma_quoted_is_one_line(s);
    }
    if let Some(id) = m.tool_call_id {
        lemma_quoted_is_one_line(id);
    }
    if let Some(calls) = m.tool_calls {
        assert forall|i: int| 0 <= i < calls.len() implies is_one_line(
            #[trigger] llm_client::call_jsons(calls)[i],
        ) by {
            lemma_call_is_one_line(calls[i]);
        }
        lemma_joined_is_one_line(llm_client::call_jsons(calls), ","@);
    }
    let front = "{\"role\":"@ + json::quoted(m.role) + ",\"content\":"@;
    let back = match m.tool_call_id {
        Some(id) => ",\"tool_call_id\":"@ + json::quoted(id),
        None => ""@,
    };
    assert(is_one_line(front));
    assert(is_one_line(content_json(m.content)));
    assert(is_one_line(calls_json(m.tool_calls)));
    assert(is_one_line(back));
    assert(llm_client::message_json(m) == front + content_json(m.content) + calls_json(m.tool_calls)
        + back + "}"@);
}

/// A further line behind lines that are all ended.
proof fn lemma_lines_push(t: Seq<char>, line: Seq<char>)
    requires
        t.len() == 0 || t.last() == '\n',
        is_one_line(line),
    ensures
        text::lines(t + line + seq!['\n']) == text::lines(t).push(text::chomped(line)),
    decreases t.len(),
{
    let s = t + line + seq!['\n'];
    if t.len() == 0 {
        assert forall|i: int| 0 <= i < line.len() implies #[trigger] s[i] != '\n' by {
            assert(s[i] == line[i]);
        }
        text::lemma_before(s, '\n', line.len() as int);
        assert(s.take(line.len() as int) =~= line);
        assert(s.skip(line.len() as int + 1) =~= Seq::empty());
        assert(text::lines(s.skip(line.len() as int + 1)) =~= Seq::empty());
        assert(text::lines(s) =~= text::lines(t).push(text::chomped(line)));
    } else {
        text::lemma_before_is(t, '\n');
        let n = text::before(t, '\n') as int;
        assert(t[t.len() - 1] == '\n');
        assert forall|i: int| 0 <= i < n implies #[trigger] s[i] != '\n' by {
            assert(s[i] == t[i]);
        }
        assert(s[n] == t[n]);
        text::lemma_before(s, '\n', n);
        let rest = t.skip(n + 1);
        assert(rest.len() > 0 ==> rest.last() == t.last());
        lemma_lines_push(rest, line);
        assert(s.skip(n + 1) =~= rest + line + seq!['\n']);
        assert(s.take(n) =~= t.take(n));
        assert(text::lines(s) =~= text::lines(t).push(text::chomped(line)));
    }
}

/// A transcript has one line for each message, and the line is the message as JSON.
pub proof fn law_transcript_has_a_line_per_message(messages: Seq<MessageView>)
    ensures
        text::lines(transcript(messages)) == llm_client::message_jsons(messages),
    decreases messages.len(),
{
    reveal_strlit("\n");
    if messages.len() == 0 {
        assert(text::lines(transcript(messages)) =~= llm_client::message_jsons(messages));
    } else {
        let front = messages.drop_last();
        let line = llm_client::message_json(messages.last());
        law_transcript_has_a_line_per_message(front);
        lemma_message_is_one_line(messages.last());
        assert("\n"@ =~= seq!['\n']);
        lemma_lines_push(transcript(front), line);
        assert(llm_client::message_jsons(messages) =~= llm_client::message_jsons(front).push(line));
    }
}

/// The messages of a conversation that are results of tool calls.
pub open spec fn results_in(messages: Seq<MessageView>) -> Seq<MessageView> {
    messages.filter(|m: MessageView| m.role == "tool"@ && m.tool_call_id is Some)
}

/// The count of results from a place on is the number of results that there are.
proof fn lemma_results_are_counted(messages: Seq<MessageView>, i: int)
    requires
        0 <= i <= messages.len(),
    ensures
        results_from(messages, i) == results_in(messages.skip(i)).len(),
    decreases messages.len() - i,
{
    let is = |m: MessageView| m.role == "tool"@ && m.tool_call_id is Some;
    let rest = messages.skip(i);
    if i == messages.len() {
        assert(rest =~= Seq::empty());
        reveal(Seq::filter);
        assert(results_in(rest).len() == 0);
    } else {
        lemma_results_are_counted(messages, i + 1);
        assert(rest =~= seq![messages[i]] + messages.skip(i + 1));
        Seq::filter_distributes_over_add(seq![messages[i]], messages.skip(i + 1), is);
        reveal(Seq::filter);
        assert(seq![messages[i]].drop_last() =~= Seq::empty());
        assert(seq![messages[i]].drop_last().filter(is) =~= Seq::empty());
        assert(seq![messages[i]].filter(is).len() == if is(messages[i]) {
            1int
        } else {
            0
        });
    }
}

/// The contents of results go exactly where they take more than five hundred bytes and three
/// results follow, one near the threshold. All other contents stay.
pub proof fn law_long_old_results_are_cleared(messages: Seq<MessageView>, aggressive: bool, i: int)
    requires
        0 <= i < messages.len(),
    ensures
        ({
            let after = microcompacted(messages, kept(aggressive))[i];
            let m = messages[i];
            let later = results_in(messages.skip(i + 1)).len();
            let old_one = m.role == "tool"@ && m.tool_call_id is Some && later >= if aggressive {
                1int
            } else {
                3
            };
            let goes = old_one && m.content is Some && text::byte_len(m.content->Some_0) > 500;
            &&& goes ==> after.content == Some("[cleared]"@)
            &&& !goes ==> after.content == m.content
        }),
{
    lemma_results_are_counted(messages, i + 1);
}

/// The arguments of a call go exactly where they take more than two hundred bytes and a result of
/// the call is an old one. All else of the call stays.
pub proof fn law_long_old_arguments_are_cleared(
    messages: Seq<MessageView>,
    aggressive: bool,
    i: int,
    j: int,
)
    requires
        0 <= i < messages.len(),
        messages[i].role == "assistant"@,
        messages[i].tool_calls is Some,
        0 <= j < messages[i].tool_calls->Some_0.len(),
    ensures
        ({
            let before = messages[i].tool_calls->Some_0[j];
            let calls = microcompacted(messages, kept(aggressive))[i].tool_calls;
            let after = calls->Some_0[j];
            let is_old = exists|k: int|
                {
                    &&& 0 <= k < messages.len()
                    &&& (#[trigger] messages[k]).role == "tool"@
                    &&& messages[k].tool_call_id == Some(before.id)
                    &&& results_in(messages.skip(k + 1)).len() >= if aggressive {
                        1int
                    } else {
                        3
                    }
                };
            let goes = is_old && text::byte_len(before.arguments) > 200;
            &&& calls is Some
            &&& calls->Some_0.len() == messages[i].tool_calls->Some_0.len()
            &&& after.id == before.id && after.name == before.name && after.call_type
                == before.call_type
            &&& goes ==> after.arguments == "{}"@
            &&& !goes ==> after.arguments == before.arguments
        }),
{
    let before = messages[i].tool_calls->Some_0[j];
    let keep = kept(aggressive);
    let is_old = exists|k: int|
        {
            &&& 0 <= k < messages.len()
            &&& (#[trigger] messages[k]).role == "tool"@
            &&& messages[k].tool_call_id == Some(before.id)
            &&& results_in(messages.skip(k + 1)).len() >= if aggressive {
                1int
            } else {
                3
            }
        };
    if is_old {
        let k = choose|k: int|
            {
                &&& 0 <= k < messages.len()
                &&& (#[trigger] messages[k]).role == "tool"@
                &&& messages[k].tool_call_id == Some(before.id)
                &&& results_in(messages.skip(k + 1)).len() >= if aggressive {
                    1int
                } else {
                    3
                }
            };
        lemma_results_are_counted(messages, k + 1);
        assert(is_old_result(messages, k, keep));
    }
    if is_old_id(messages, before.id, keep) {
        let k = choose|k: int|
            #[trigger] is_old_result(messages, k, keep) && messages[k].tool_call_id == Some(
                before.id,
            );
        lemma_results_are_counted(messages, k + 1);
        assert(messages[k].role == "tool"@);
    }
}

/// Messages that are neither results nor from the assistant are not touched by the clearing, nor
/// are messages of the assistant without calls.
pub proof fn law_other_messages_stay(messages: Seq<MessageView>, keep: nat, i: int)
    requires
        0 <= i < messages.len(),
        messages[i].role != "tool"@ || messages[i].tool_call_id is None,
        messages[i].role != "assistant"@ || messages[i].tool_calls is None,
    ensures
        microcompacted(messages, keep).len() == messages.len(),
        microcompacted(messages, keep)[i] == messages[i],
{
}

/// The number of tokens is a quarter of the bytes of the JSON text, rounded down.
pub proof fn law_a_token_is_four_bytes(messages: Seq<MessageView>)
    ensures
        4 * tokens(messages) <= text::byte_len(llm_client::conversation_json(messages)) < 4 * tokens(
            messages,
        ) + 4,
{
}

/// A further message is a further line of the transcript, with its line end.
pub proof fn law_transcript_grows_line_by_line(messages: Seq<MessageView>, m: MessageView)
    ensures
        transcript(Seq::<MessageView>::empty()).len() == 0,
        transcript(messages.push(m)) == transcript(messages) + llm_client::message_json(m) + "\n"@,
{
    assert(messages.push(m).drop_last() =~= messages);
}

} // verus!
