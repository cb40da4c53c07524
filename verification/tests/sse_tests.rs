use spm_core::sse::{apply_stream_chunk, apply_stream_data, parse_stream_chunk, StreamChunk, sse_done, sse_frame, SseDecoder, SseEvent};

fn decode_all(chunks: &[&str]) -> Vec<String> {
    let mut d = SseDecoder::new();
    let mut out = vec![];
    for c in chunks {
        for e in d.push(c) {
            out.push(match e {
                SseEvent::Done => "DONE".to_string(),
                SseEvent::Json(j) => j,
            });
        }
    }
    out
}

#[test]
fn frames() {
    assert_eq!(sse_frame("{\"a\":1}"), "data: {\"a\":1}\n\n");
    assert_eq!(sse_done(), "data: [DONE]\n\n");
}

#[test]
fn decoder_reads_frames_back() {
    let stream = format!("{}{}{}", sse_frame("{\"x\":1}"), sse_frame("{\"y\":2}"), sse_done());
    assert_eq!(decode_all(&[&stream]), vec!["{\"x\":1}", "{\"y\":2}", "DONE"]);
}

#[test]
fn decoder_waits_for_the_blank_line() {
    let mut d = SseDecoder::new();
    assert!(d.push("data: {\"a\"").is_empty());
    assert!(d.push(":1}\n").is_empty());
    let evs = d.push("\ndata: [DONE]\n\n");
    assert_eq!(evs.len(), 2);
    assert!(matches!(&evs[0], SseEvent::Json(j) if j == "{\"a\":1}"));
    assert!(matches!(evs[1], SseEvent::Done));
}

#[test]
fn chunking_does_not_matter() {
    let stream = "data: {\"x\":1}\r\n\ndata:   {\"y\":2}  \n\n: comment\n\nevent: x\ndata: [DONE]\n\n";
    let whole = decode_all(&[stream]);
    assert_eq!(whole, vec!["{\"x\":1}", "{\"y\":2}", "DONE"]);
    for cut in 0..stream.len() {
        let (a, b) = stream.split_at(cut);
        assert_eq!(decode_all(&[a, b]), whole);
    }
}

#[test]
fn non_json_data_is_ignored() {
    assert_eq!(decode_all(&["data: hello\n\ndata:\n\n"]), Vec::<String>::new());
}

#[test]
fn stream_chunks_build_the_answer() {
    let mut out = String::from("Hel");
    let chunk = StreamChunk { error: None, content: Some("lo".to_string()) };
    assert_eq!(apply_stream_chunk(&mut out, &chunk), Ok(()));
    assert_eq!(out, "Hello");
    let empty = StreamChunk { error: None, content: Some(String::new()) };
    assert_eq!(apply_stream_chunk(&mut out, &empty), Ok(()));
    let none = StreamChunk { error: None, content: None };
    assert_eq!(apply_stream_chunk(&mut out, &none), Ok(()));
    assert_eq!(out, "Hello");
    let failed = StreamChunk { error: Some("boom".to_string()), content: Some("x".to_string()) };
    assert_eq!(apply_stream_chunk(&mut out, &failed), Err("boom".to_string()));
    assert_eq!(out, "Hello");
}

#[test]
fn stream_data_appends_the_delta() {
    let mut out = String::from("a");
    assert_eq!(apply_stream_data(&mut out, "{\"choices\":[{\"delta\":{\"content\":\"hi\"}}]}"), Ok(()));
    assert_eq!(out, "ahi");
    assert_eq!(apply_stream_data(&mut out, "{\"choices\":[{\"delta\":{}}],\"ttft_s\":0.5}"), Ok(()));
    assert_eq!(out, "ahi");
}

#[test]
fn stream_data_error_ends_the_answer() {
    let mut out = String::from("a");
    assert_eq!(apply_stream_data(&mut out, "{\"error\":\"boom\"}"), Err("boom".to_string()));
    assert_eq!(out, "a");
    let r = apply_stream_data(&mut out, "not json");
    assert!(r.unwrap_err().starts_with("bad SSE json: "));
    assert_eq!(out, "a");
}

#[test]
fn stream_chunk_fields_are_picked() {
    let c = parse_stream_chunk("{\"error\":\"e\",\"choices\":[{\"delta\":{\"content\":\"x\"}}]}").unwrap();
    assert_eq!(c.error.as_deref(), Some("e"));
    assert_eq!(c.content.as_deref(), Some("x"));
    let c = parse_stream_chunk("{\"error\":3}").unwrap();
    assert_eq!(c.error, None);
    assert_eq!(c.content, None);
}
