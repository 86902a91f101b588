//! From a request to an answer.

use crate::engine::config::GenerationConfig;
use crate::engine::generation::{copy_tokens, token_lists};
use crate::gguf::metadata::{lookup_str, ModelMetadata};
use crate::quant::formats::ONE_BITS;
use crate::scheduler::model::{scheduler_wf, SchedulerView};
use crate::scheduler::queue::Scheduler;
use crate::scheduler::request::RequestView;
use crate::server::types::{
    ApiError, ChatChoice, ChatCompletionRequest, ChatCompletionResponse, ChatMessage, StopSpec,
    UsageStats,
};
use crate::text::{decimal, decimal_string};
use crate::tokenizer::byte::Tokenizer;
use crate::tokenizer::chat::{chat_text, message_views};
use crate::tokenizer::runtime::RuntimeTokenizer;
use vstd::prelude::*;

verus! {

/// The roles and contents of messages.
pub open spec fn chat_views(messages: Seq<ChatMessage>) -> Seq<(Seq<char>, Seq<char>)> {
    Seq::new(messages.len(), |i: int| (messages[i].role@, messages[i].content@))
}

/// The texts that end an answer.
pub open spec fn stop_texts(stop: Option<StopSpec>) -> Seq<Seq<char>> {
    match stop {
        None => seq![],
        Some(StopSpec::One(s)) => seq![s@],
        Some(StopSpec::Many(list)) => Seq::new(list@.len(), |i: int| list@[i]@),
    }
}

/// The value that is there, or else another.
pub open spec fn value_or<T>(v: Option<T>, other: T) -> T {
    match v {
        Some(v) => v,
        None => other,
    }
}

/// What is to be generated for a request.
#[derive(Debug)]
pub struct ChatJob {
    pub prompt_tokens: Vec<u32>,
    pub generation: GenerationConfig,
    /// The answer is sent piece by piece.
    pub stream: bool,
}

fn encode_stops(tokenizer: &RuntimeTokenizer, stop: &Option<StopSpec>) -> (r: Vec<Vec<u32>>)
    ensures
        token_lists(r@) == Seq::new(
            stop_texts(*stop).len(),
            |i: int| tokenizer.spec_encode(stop_texts(*stop)[i]),
        ),
{
    let mut out: Vec<Vec<u32>> = Vec::new();
    let ghost expected = Seq::new(
        stop_texts(*stop).len(),
        |i: int| tokenizer.spec_encode(stop_texts(*stop)[i]),
    );
    match stop {
        None => {},
        Some(StopSpec::One(s)) => {
            let tokens = tokenizer.encode(s.as_str());
            out.push(tokens);
        },
        Some(StopSpec::Many(list)) => {
            let mut i: usize = 0;
            while i < list.len()
                invariant
                    i <= list@.len(),
                    *stop == Some(StopSpec::Many(*list)),
                    expected == Seq::new(
                        stop_texts(*stop).len(),
                        |i: int| tokenizer.spec_encode(stop_texts(*stop)[i]),
                    ),
                    token_lists(out@) == expected.take(i as int),
                decreases list@.len() - i,
            {
                let ghost before = token_lists(out@);
                let tokens = tokenizer.encode(list[i].as_str());
                out.push(tokens);
                assert(token_lists(out@) =~= before.push(tokens@));
                i += 1;
                assert(token_lists(out@) =~= expected.take(i as int));
            }
        },
    }
    assert(token_lists(out@) =~= expected);
    out
}

/// Makes the prompt and the settings of a request: what it does not say, it gets.
pub fn prepare_chat(req: &ChatCompletionRequest, tokenizer: &RuntimeTokenizer) -> (r: ChatJob)
    ensures
        r.prompt_tokens@ == tokenizer.spec_encode(
            chat_text(tokenizer.template(), chat_views(req.messages@), true),
        ),
        r.generation.max_tokens == value_or(req.max_tokens, 256),
        r.generation.temperature == value_or(req.temperature, 0),
        r.generation.top_p == value_or(req.top_p, ONE_BITS),
        r.generation.top_k == value_or(req.top_k, 0),
        r.generation.repetition_penalty == value_or(req.repetition_penalty, ONE_BITS),
        r.generation.seed == req.seed,
        token_lists(r.generation.stop_sequences@) == Seq::new(
            stop_texts(req.stop).len(),
            |i: int| tokenizer.spec_encode(stop_texts(req.stop)[i]),
        ),
        r.stream == value_or(req.stream, false),
{
    let mut messages: Vec<(&str, &str)> = Vec::new();
    let ghost all = chat_views(req.messages@);
    let mut i: usize = 0;
    while i < req.messages.len()
        invariant
            i <= req.messages@.len(),
            all == chat_views(req.messages@),
            message_views(messages@) == all.take(i as int),
        decreases req.messages@.len() - i,
    {
        let ghost before = message_views(messages@);
        let m = &req.messages[i];
        messages.push((m.role.as_str(), m.content.as_str()));
        assert(message_views(messages@) =~= before.push((m.role@, m.content@)));
        i += 1;
        assert(message_views(messages@) =~= all.take(i as int));
    }
    assert(message_views(messages@) =~= all);
    let prompt = tokenizer.render_chat_messages(messages.as_slice(), true);
    let prompt_tokens = tokenizer.encode(prompt.as_str());
    let stop_sequences = encode_stops(tokenizer, &req.stop);
    ChatJob {
        prompt_tokens,
        generation: GenerationConfig {
            max_tokens: match req.max_tokens {
                Some(n) => n,
                None => 256,
            },
            temperature: match req.temperature {
                Some(bits) => bits,
                None => 0,
            },
            top_p: match req.top_p {
                Some(bits) => bits,
                None => ONE_BITS,
            },
            top_k: match req.top_k {
                Some(n) => n,
                None => 0,
            },
            repetition_penalty: match req.repetition_penalty {
                Some(bits) => bits,
                None => ONE_BITS,
            },
            seed: req.seed,
            stop_sequences,
        },
        stream: match req.stream {
            Some(b) => b,
            None => false,
        },
    }
}

/// Puts a request behind those that wait, and starts as many of them as there is room
/// for.
pub fn start_chat(scheduler: &mut Scheduler, id: &str, job: &ChatJob)
    requires
        scheduler_wf(old(scheduler)@),
        job.prompt_tokens@.len() + job.generation.max_tokens <= usize::MAX,
    ensures
        scheduler_wf(final(scheduler)@),
        final(scheduler)@ == (SchedulerView {
            pending: old(scheduler)@.pending.push(
                RequestView::fresh(id@, job.prompt_tokens@, job.generation.max_tokens),
            ),
            ..old(scheduler)@
        }).filled().0,
{
    scheduler.add_request(
        id.to_string(),
        copy_tokens(job.prompt_tokens.as_slice()),
        job.generation.max_tokens,
    );
    let _ = scheduler.get_next_batch();
}

/// Why generation ended: every token that was asked for came, or it stopped before.
pub open spec fn finish_reason(completion_tokens: int, max_tokens: usize) -> Seq<char> {
    if completion_tokens >= max_tokens {
        "length"@
    } else {
        "stop"@
    }
}

/// An answer is said to have its full length exactly where as many tokens came as were
/// asked for, and else to have been stopped.
pub proof fn full_answers_end_by_length(completion_tokens: int, max_tokens: usize)
    ensures
        finish_reason(completion_tokens, max_tokens) == "length"@ <==> completion_tokens
            >= max_tokens,
        finish_reason(completion_tokens, max_tokens) == "stop"@ <==> completion_tokens
            < max_tokens,
{
    reveal_strlit("length");
    reveal_strlit("stop");
    assert("length"@.len() == 6 && "stop"@.len() == 4);
}

/// Every text that is to end an answer does, in the order of the request.
pub proof fn all_stops_count(stop: StopSpec, i: int)
    ensures
        stop matches StopSpec::One(s) ==> stop_texts(Some(stop)) == seq![s@],
        stop matches StopSpec::Many(list) ==> stop_texts(Some(stop)).len() == list@.len() && (0
            <= i < list@.len() ==> stop_texts(Some(stop))[i] == list@[i]@),
        stop_texts(None).len() == 0,
{
}

/// Every message of a request is in the chat, with its role and content, in its place.
pub proof fn all_messages_count(messages: Seq<ChatMessage>, i: int)
    requires
        0 <= i < messages.len(),
    ensures
        chat_views(messages).len() == messages.len(),
        chat_views(messages)[i] == (messages[i].role@, messages[i].content@),
{
}

/// Makes the answer of what was generated behind the prompt, or of what went wrong.
pub fn finish_chat(
    job: &ChatJob,
    tokenizer: &RuntimeTokenizer,
    outcome: Result<Vec<u32>, String>,
    id: &str,
    created: u64,
    model_name: &str,
) -> (r: Result<ChatCompletionResponse, ApiError>)
    requires
        outcome matches Ok(output) ==> output@.len() >= job.prompt_tokens@.len(),
    ensures
        match (outcome, r) {
            (Ok(output), Ok(answer)) => {
                let n = job.prompt_tokens@.len();
                &&& answer.id@ == id@
                &&& answer.object@ == "chat.completion"@
                &&& answer.created == created
                &&& answer.model@ == model_name@
                &&& answer.choices@.len() == 1
                &&& answer.choices@[0].index == 0
                &&& answer.choices@[0].message.role@ == "assistant"@
                &&& answer.choices@[0].message.content@ == tokenizer.spec_decode(
                    output@.skip(n as int),
                )
                &&& answer.choices@[0].finish_reason@ == finish_reason(
                    output@.len() - n,
                    job.generation.max_tokens,
                )
                &&& answer.usage == (UsageStats {
                    prompt_tokens: n as usize,
                    completion_tokens: (output@.len() - n) as usize,
                    total_tokens: output@.len() as usize,
                })
            },
            (Err(e), Err(failure)) => failure.status == 500 && failure.message@
                == "Generation error: "@ + e@,
            _ => false,
        },
{
    match outcome {
        Ok(output) => {
            let n: usize = job.prompt_tokens.len();
            let tail = vstd::slice::slice_subrange(output.as_slice(), n, output.len());
            assert(tail@ =~= output@.skip(n as int));
            let content = tokenizer.decode(tail);
            let completion_tokens: usize = output.len() - n;
            let reason = if completion_tokens >= job.generation.max_tokens {
                "length"
            } else {
                "stop"
            };
            let mut choices: Vec<ChatChoice> = Vec::new();
            choices.push(
                ChatChoice {
                    index: 0,
                    message: ChatMessage { role: "assistant".to_string(), content },
                    finish_reason: reason.to_string(),
                },
            );
            Ok(
                ChatCompletionResponse {
                    id: id.to_string(),
                    object: "chat.completion".to_string(),
                    created,
                    model: model_name.to_string(),
                    choices,
                    usage: UsageStats {
                        prompt_tokens: n,
                        completion_tokens,
                        total_tokens: output.len(),
                    },
                },
            )
        },
        Err(e) => {
            let mut message = "Generation error: ".to_string();
            message.append(e.as_str());
            Err(ApiError { status: 500, message })
        },
    }
}

/// The name that the server gives a model: its own, if it has one.
pub fn served_name(metadata: Option<&ModelMetadata>) -> (r: String)
    ensures
        r@ == (match metadata {
            Some(m) => value_or(lookup_str(m.metadata@, "general.name"@), "nexus-model"@),
            None => "nexus-model"@,
        }),
{
    match metadata {
        Some(m) => match m.get_str("general.name") {
            Some(name) => name.to_string(),
            None => "nexus-model".to_string(),
        },
        None => "nexus-model".to_string(),
    }
}

/// The address that a server listens on.
pub fn listen_address(host: &str, port: u16) -> (r: String)
    ensures
        r@ == host@ + ":"@ + decimal(port as nat),
{
    let mut out = host.to_string();
    out.append(":");
    out.append(decimal_string(port as u64).as_str());
    out
}

/// What a request states counts; only what it leaves out is filled in.
pub proof fn stated_settings_count<T>(stated: T, other: T)
    ensures
        value_or(Some(stated), other) == stated,
        value_or(None, other) == other,
{
}

} // verus!
