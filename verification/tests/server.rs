use nexus::gguf::{GgufByteOrder, GgufValue, ModelMetadata};
use nexus::names::NameMap;
use nexus::scheduler::Scheduler;
use nexus::server::chat::{listen_address, served_name};
use nexus::server::stream::end_of_stream;
use nexus::server::types::{health_status, not_loaded};
use nexus::server::{
    finish_chat, prepare_chat, start_chat, ChatCompletionRequest, ChatMessage, ChunkEvent,
    StopSpec, StreamedText, UsageStats,
};
use nexus::tokenizer::RuntimeTokenizer;

fn request() -> ChatCompletionRequest {
    ChatCompletionRequest {
        model: "test".to_string(),
        messages: vec![ChatMessage { role: "user".to_string(), content: "hello".to_string() }],
        max_tokens: Some(100),
        temperature: None,
        top_p: None,
        top_k: None,
        repetition_penalty: None,
        seed: Some(3),
        stop: None,
        stream: None,
    }
}

fn bytes(text: &str) -> Vec<u32> {
    text.bytes().map(|b| b as u32).collect()
}

#[test]
fn a_request_becomes_a_prompt() {
    let tokenizer = RuntimeTokenizer::default();
    let job = prepare_chat(&request(), &tokenizer);
    assert_eq!(job.prompt_tokens, bytes("user: hello\nassistant: "));
    assert_eq!(job.generation.max_tokens, 100);
    assert_eq!(f32::from_bits(job.generation.temperature), 0.0);
    assert_eq!(f32::from_bits(job.generation.top_p), 1.0);
    assert_eq!(f32::from_bits(job.generation.repetition_penalty), 1.0);
    assert_eq!(job.generation.seed, Some(3));
    assert!(job.generation.stop_sequences.is_empty());
    assert!(!job.stream);

    let mut req = request();
    req.max_tokens = None;
    req.stop = Some(StopSpec::Many(vec!["ab".to_string(), "c".to_string()]));
    req.stream = Some(true);
    let job = prepare_chat(&req, &tokenizer);
    assert_eq!(job.generation.max_tokens, 256);
    assert_eq!(job.generation.stop_sequences, vec![vec![97, 98], vec![99]]);
    assert!(job.stream);
    req.stop = Some(StopSpec::One("z".to_string()));
    assert_eq!(prepare_chat(&req, &tokenizer).generation.stop_sequences, vec![vec![122]]);
}

#[test]
fn an_answer_holds_what_came_behind_the_prompt() {
    let tokenizer = RuntimeTokenizer::default();
    let job = prepare_chat(&request(), &tokenizer);
    let mut output = job.prompt_tokens.clone();
    output.extend(bytes("Hello!"));
    let prompt = job.prompt_tokens.len();
    let answer = finish_chat(&job, &tokenizer, Ok(output), "test-123", 1234567890, "nexus").unwrap();
    assert_eq!(answer.id, "test-123");
    assert_eq!(answer.object, "chat.completion");
    assert_eq!(answer.created, 1234567890);
    assert_eq!(answer.model, "nexus");
    assert_eq!(answer.choices[0].message.role, "assistant");
    assert_eq!(answer.choices[0].message.content, "Hello!");
    assert_eq!(answer.choices[0].finish_reason, "stop");
    assert_eq!(
        answer.usage,
        UsageStats { prompt_tokens: prompt, completion_tokens: 6, total_tokens: prompt + 6 }
    );
    let refused = finish_chat(&job, &tokenizer, Err("no".to_string()), "x", 0, "m").unwrap_err();
    assert_eq!(refused.status, 500);
    assert_eq!(refused.message, "Generation error: no");
}

#[test]
fn a_request_is_scheduled() {
    let tokenizer = RuntimeTokenizer::default();
    let job = prepare_chat(&request(), &tokenizer);
    let mut scheduler = Scheduler::new(1);
    start_chat(&mut scheduler, "one", &job);
    start_chat(&mut scheduler, "two", &job);
    assert_eq!(scheduler.stats(), (1, 1, 0));
    assert!(scheduler.complete_request("one"));
}

#[test]
fn a_server_without_a_model() {
    assert_eq!(not_loaded().status, 503);
    assert_eq!(not_loaded().message, "Model not loaded");
    assert_eq!(health_status(true), "ok");
    assert_eq!(health_status(false), "degraded");
    assert_eq!(served_name(None), "nexus-model");
    let mut metadata = ModelMetadata {
        version: 3,
        tensor_count: 0,
        kv_count: 0,
        byte_order: GgufByteOrder::LittleEndian,
        alignment: 32,
        tensor_data_offset: 0,
        metadata: NameMap::new(),
        tensors: Vec::new(),
    };
    assert_eq!(served_name(Some(&metadata)), "nexus-model");
    metadata
        .metadata
        .insert("general.name".to_string(), GgufValue::String("tiny".to_string()));
    assert_eq!(served_name(Some(&metadata)), "tiny");
    assert_eq!(listen_address("0.0.0.0", 8080), "0.0.0.0:8080");
}

#[test]
fn pieces_join_to_the_text() {
    let texts = ["", "g", "gr", "grö", "größe", "größe 日", "größe 日本"];
    let mut streamed = StreamedText::new();
    let mut joined = String::new();
    for text in texts {
        assert!(streamed.check(text));
        if let Some(piece) = streamed.advance(text) {
            joined.push_str(&piece);
        }
        assert_eq!(joined, text);
    }
    let mut cut = StreamedText::new();
    cut.advance("a\u{fffd}");
    assert!(cut.check("a"));
    assert!(!cut.check("a\u{f7}\u{f7}\u{f7}"));
}

#[test]
fn a_stream_ends_with_its_reason() {
    let full: Result<Vec<u32>, String> = Ok(vec![1, 2, 3]);
    let end = end_of_stream(&full, 1, 2);
    assert_eq!(end.len(), 2);
    assert!(matches!(&end[0], ChunkEvent::Finish(reason) if reason == "length"));
    assert!(matches!(end[1], ChunkEvent::Done));
    let early = end_of_stream(&full, 1, 3);
    assert!(matches!(&early[0], ChunkEvent::Finish(reason) if reason == "stop"));
    let failed: Result<Vec<u32>, String> = Err("broken".to_string());
    let end = end_of_stream(&failed, 1, 3);
    assert!(matches!(&end[0], ChunkEvent::Failed(error) if error.contains("broken")));
    assert!(matches!(end[end.len() - 1], ChunkEvent::Done));
}
