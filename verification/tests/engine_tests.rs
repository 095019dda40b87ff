use ata::engine::Engine;
use ata::engine::Output;
use ata::engine::Status;
use ata::engine::next_attempt;
use ata::events::Event;
use ata::events::decode_frame;
use ata::runstate::RunState;

fn streamed_text(outs: &[Output]) -> String {
    let mut text = String::new();
    for item in outs {
        if let Output::Text(t) = item {
            text.push_str(t);
        }
    }
    text
}

#[test]
fn hello_stream_end_to_end() {
    let run = RunState::new();
    run.set_running(true);
    let mut engine = Engine::new(1);
    let mut outs: Vec<Output> = Vec::new();

    let (mut o, s) = engine.on_chunk(
        b"data: {\"choices\":[{\"delta\":{\"content\":\"Hi\"}}]}\n\n",
        &run,
    );
    outs.append(&mut o);
    assert_eq!(s, Status::Streaming);
    let (mut o, s) = engine.on_chunk(
        b"data: {\"choices\":[{\"delta\":{\"content\":\" there\"}}]}\n\n",
        &run,
    );
    outs.append(&mut o);
    assert_eq!(s, Status::Streaming);
    let (mut o, s) = engine.on_chunk(b"data: [DONE]\n\n", &run);
    outs.append(&mut o);
    assert_eq!(s, Status::Completed);

    assert_eq!(streamed_text(&outs), "Hi there");
    assert_eq!(
        outs,
        vec![
            Output::ResponseLabel,
            Output::Text("Hi".to_string()),
            Output::Text(" there".to_string()),
            Output::Idle,
        ]
    );
    assert!(!run.is_running());
}

#[test]
fn error_first_frame_fails_without_retry() {
    let run = RunState::new();
    run.set_running(true);
    let mut engine = Engine::new(1);
    let (outs, status) = engine.on_chunk(
        b"{\"error\":{\"type\":\"invalid_request_error\",\"message\":\"bad key\"}}\n\n",
        &run,
    );
    assert_eq!(status, Status::Failed);
    assert!(!run.is_running());
    assert!(!outs.iter().any(|o| matches!(o, Output::RetryNotice(_))));
    match &outs[0] {
        Output::Error(msg) => assert!(msg.contains("bad key")),
        other => panic!("expected an error output, got {:?}", other),
    }
    assert_eq!(outs[1], Output::Idle);
    assert_eq!(next_attempt(status, 1), None);
}

#[test]
fn transient_error_first_frame_requests_retry() {
    let run = RunState::new();
    run.set_running(true);
    let mut engine = Engine::new(1);
    let (outs, status) = engine.on_chunk(
        b"{\"error\":{\"type\":\"server_error\",\"message\":\"overloaded\"}}\n\n",
        &run,
    );
    assert_eq!(status, Status::Retrying);
    assert_eq!(outs, vec![Output::RetryNotice(1)]);
    assert_eq!(next_attempt(status, 1), Some(2));

    let run = RunState::new();
    run.set_running(true);
    let mut third = Engine::new(3);
    let (outs, status) = third.on_chunk(
        b"{\"error\":{\"type\":\"server_error\",\"message\":\"overloaded\"}}\n\n",
        &run,
    );
    assert_eq!(status, Status::Failed);
    assert!(matches!(outs[0], Output::Error(_)));
}

#[test]
fn abort_halts_after_current_event() {
    let run = RunState::new();
    run.set_running(true);
    let mut engine = Engine::new(1);
    let (_, s) = engine.on_chunk(
        b"data: {\"choices\":[{\"delta\":{\"content\":\"Hi\"}}]}\n\n",
        &run,
    );
    assert_eq!(s, Status::Streaming);
    run.interrupt();
    let (outs, status) = engine.on_chunk(
        b"data: {\"choices\":[{\"delta\":{\"content\":\" there\"}}]}\n\ndata: {\"choices\":[{\"delta\":{\"content\":\"never\"}}]}\n\n",
        &run,
    );
    assert_eq!(status, Status::Completed);
    assert_eq!(
        outs,
        vec![Output::Text(" there".to_string()), Output::Idle]
    );
    assert!(!run.is_running());
}

#[test]
fn interrupt_when_idle_is_ignored() {
    let run = RunState::new();
    run.interrupt();
    assert!(!run.take_abort());
    run.set_running(true);
    run.interrupt();
    assert!(run.take_abort());
    assert!(!run.take_abort());
}

#[test]
fn empty_delta_is_skipped_silently() {
    let run = RunState::new();
    run.set_running(true);
    let mut engine = Engine::new(1);
    let (outs, s) = engine.on_chunk(
        b"data: {\"choices\":[{\"delta\":{\"content\":\"\"}}]}\n\n",
        &run,
    );
    assert_eq!(s, Status::Streaming);
    assert!(outs.is_empty());
    // The response label still precedes the first non-empty content.
    let (outs, _) = engine.on_chunk(
        b"data: {\"choices\":[{\"delta\":{\"content\":\"Hi\"}}]}\n\n",
        &run,
    );
    assert_eq!(
        outs,
        vec![Output::ResponseLabel, Output::Text("Hi".to_string())]
    );
}

#[test]
fn role_switch_is_ignored() {
    let ev = decode_frame(b"data: {\"choices\":[{\"delta\":{\"role\":\"assistant\"}}]}");
    assert_eq!(ev, Event::Ignored);
}

#[test]
fn marked_frame_without_json_ends_stream() {
    assert_eq!(decode_frame(b"data: [DONE]"), Event::StreamEnd);
    assert_eq!(decode_frame(b""), Event::Ignored);
}

#[test]
fn undecodable_bytes_are_fatal() {
    assert_eq!(decode_frame(b"\xff\xfe"), Event::BadBytes);
    let run = RunState::new();
    run.set_running(true);
    let mut engine = Engine::new(1);
    let (outs, status) = engine.on_chunk(b"\xff\xfe\n\n", &run);
    assert_eq!(status, Status::Failed);
    assert!(matches!(outs[0], Output::Error(_)));
}

#[test]
fn malformed_json_after_marker_is_fatal() {
    let run = RunState::new();
    run.set_running(true);
    let mut engine = Engine::new(1);
    let (outs, status) = engine.on_chunk(b"data: {broken\n\n", &run);
    assert_eq!(status, Status::Failed);
    assert!(matches!(outs[0], Output::Error(_)));
    assert_eq!(outs[1], Output::Idle);
}

#[test]
fn json_without_choices_is_fatal() {
    let run = RunState::new();
    run.set_running(true);
    let mut engine = Engine::new(1);
    let (outs, status) = engine.on_chunk(b"data: {\"usage\":{}}\n\n", &run);
    assert_eq!(status, Status::Failed);
    match &outs[0] {
        Output::Error(msg) => assert!(msg.starts_with("Response didn't contain 'choices':")),
        other => panic!("expected an error output, got {:?}", other),
    }
}

#[test]
fn provider_error_event_surfaces_message() {
    let run = RunState::new();
    run.set_running(true);
    let mut engine = Engine::new(1);
    let (outs, status) = engine.on_chunk(
        b"data: {\"error\":{\"message\":\"quota exceeded\"}}\n\n",
        &run,
    );
    assert_eq!(status, Status::Failed);
    assert_eq!(
        outs[0],
        Output::Error("Received an error message from OpenAI: quota exceeded".to_string())
    );
    assert_eq!(outs[1], Output::Idle);
    assert!(!run.is_running());
}

#[test]
fn unstructured_after_content_is_fatal() {
    let run = RunState::new();
    run.set_running(true);
    let mut engine = Engine::new(1);
    let (_, s) = engine.on_chunk(
        b"data: {\"choices\":[{\"delta\":{\"content\":\"Hi\"}}]}\n\n",
        &run,
    );
    assert_eq!(s, Status::Streaming);
    let (outs, status) = engine.on_chunk(
        b"{\"error\":{\"type\":\"server_error\"}}\n\n",
        &run,
    );
    assert_eq!(status, Status::Failed);
    match &outs[0] {
        Output::Error(msg) => assert!(msg.starts_with("Response didn't contain 'data:':")),
        other => panic!("expected an error output, got {:?}", other),
    }
}

#[test]
fn split_escape_across_deltas_prints_one_newline() {
    let run = RunState::new();
    run.set_running(true);
    let mut engine = Engine::new(1);
    let mut outs: Vec<Output> = Vec::new();
    let (mut o, _) = engine.on_chunk(
        b"data: {\"choices\":[{\"delta\":{\"content\":\"line one\\\\\"}}]}\n\n",
        &run,
    );
    outs.append(&mut o);
    let (mut o, _) = engine.on_chunk(
        b"data: {\"choices\":[{\"delta\":{\"content\":\"nline two\"}}]}\n\n",
        &run,
    );
    outs.append(&mut o);
    assert_eq!(streamed_text(&outs), "line one\nline two");
}

#[test]
fn stream_end_and_connect_error_conclude() {
    let run = RunState::new();
    run.set_running(true);
    let mut engine = Engine::new(1);
    let (outs, status) = engine.on_stream_end(&run);
    assert_eq!(status, Status::Completed);
    assert_eq!(outs, vec![Output::Idle]);
    assert!(!run.is_running());

    let run = RunState::new();
    run.set_running(true);
    let mut engine = Engine::new(1);
    let (outs, status) = engine.on_connect_error("connection refused".to_string(), &run);
    assert_eq!(status, Status::Failed);
    assert_eq!(outs[0], Output::Error("connection refused".to_string()));
    assert_eq!(outs[1], Output::Idle);
    assert!(!run.is_running());
}
