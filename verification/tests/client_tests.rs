use spm_core::chat::{ContentPart, Message, MessageContent, MessageRole};
use spm_core::client::{
    chat_completions_url, guess_media_type, image_part_from_bytes, json_model_type, model_kind,
    model_kind_of_config,
    normalize_api_base, parse_repl_line, path_extension_chars, single_shot_prompt,
    user_message_text_or_image, ChatSession, ModelKind, ReplInput,
};
use spm_core::vision_input::decode_image_part;

fn ext(p: &str) -> Option<String> {
    path_extension_chars(p).map(|v| v.into_iter().collect())
}

#[test]
fn media_type_from_extension() {
    assert_eq!(guess_media_type("cat.png").as_deref(), Some("image/png"));
    assert_eq!(guess_media_type("/tmp/photo.JPG").as_deref(), Some("image/jpeg"));
    assert_eq!(guess_media_type("a.jpeg").as_deref(), Some("image/jpeg"));
    assert_eq!(guess_media_type("x/y.webp").as_deref(), Some("image/webp"));
    assert_eq!(guess_media_type("old.Bmp").as_deref(), Some("image/bmp"));
    assert_eq!(guess_media_type("notes.txt"), None);
    assert_eq!(guess_media_type("png"), None);
    assert_eq!(guess_media_type(".png"), None);
    assert_eq!(guess_media_type(""), None);
}

#[test]
fn extensions_follow_std_path() {
    let cases = [
        "a.b.c", "dir/file.tar.gz", ".bashrc", "foo.", "foo", "x/.hidden.png", "foo.txt/.",
        "foo.txt/./", "a//b.png", "..", "x.png/..", "/", ".", "./a.png", "",
    ];
    for c in cases {
        let expected = std::path::Path::new(c)
            .extension()
            .map(|e| e.to_str().unwrap().to_string());
        assert_eq!(ext(c), expected, "path {c:?}");
    }
}

#[test]
fn api_base_normalization() {
    assert_eq!(normalize_api_base("127.0.0.1:8082"), "http://127.0.0.1:8082");
    assert_eq!(normalize_api_base("  https://host:1/ \n"), "https://host:1");
    assert_eq!(normalize_api_base("http://a///"), "http://a");
    assert_eq!(normalize_api_base("   "), "");
    assert_eq!(normalize_api_base(""), "");
}

#[test]
fn completions_url() {
    assert_eq!(
        chat_completions_url("http://127.0.0.1:8082"),
        "http://127.0.0.1:8082/api/v1/chat/completions"
    );
}

#[test]
fn image_part_round_trips() {
    let part = image_part_from_bytes("pic.png", b"hi");
    match &part {
        ContentPart::ImageBase64 { media_type, data } => {
            assert_eq!(media_type.as_deref(), Some("image/png"));
            assert_eq!(data, "aGk=");
        }
        _ => panic!("not an image part"),
    }
    assert_eq!(decode_image_part(&part).unwrap(), Some(b"hi".to_vec()));
}

#[test]
fn user_message_with_and_without_image() {
    let m = user_message_text_or_image("q".to_string(), None);
    assert_eq!(m.role, MessageRole::User);
    assert_eq!(m.content.to_text_strict().unwrap(), "q");
    let m = user_message_text_or_image("what?".to_string(), Some(("a.jpg", &[1u8, 2, 3][..])));
    assert_eq!(m.role, MessageRole::User);
    match &m.content {
        MessageContent::Parts(parts) => {
            assert_eq!(parts.len(), 2);
            assert!(matches!(&parts[0], ContentPart::Text { text } if text == "what?"));
            assert!(matches!(&parts[1], ContentPart::ImageBase64 { media_type: Some(t), data } if t == "image/jpeg" && data == "AQID"));
            assert_eq!(decode_image_part(&parts[1]).unwrap(), Some(vec![1, 2, 3]));
        }
        _ => panic!("expected parts"),
    }
    assert!(m.is_multimodal());
}

#[test]
fn model_kind_from_config() {
    assert_eq!(model_kind(Some("qwen3_vl")), ModelKind::Qwen3Vl);
    assert_eq!(model_kind(Some("llama")), ModelKind::Llama3);
    assert_eq!(model_kind(None), ModelKind::Llama3);
}

#[test]
fn single_shot_question() {
    assert_eq!(single_shot_prompt(Some("a".to_string()), "b".to_string()).as_deref(), Some("a"));
    assert_eq!(single_shot_prompt(None, "b".to_string()).as_deref(), Some("b"));
    assert_eq!(single_shot_prompt(None, String::new()), None);
}

#[test]
fn repl_commands() {
    assert!(matches!(parse_repl_line("   \n"), ReplInput::Skip));
    assert!(matches!(parse_repl_line("/q\n"), ReplInput::Quit));
    assert!(matches!(parse_repl_line(" /quit "), ReplInput::Quit));
    assert!(matches!(parse_repl_line("/exit"), ReplInput::Quit));
    assert!(matches!(parse_repl_line("/img a.png"), ReplInput::Usage));
    match parse_repl_line("/img  pics/a.png   what is  this? \n") {
        ReplInput::Ask { text, image_path } => {
            assert_eq!(text, "what is  this?");
            assert_eq!(image_path.as_deref(), Some("pics/a.png"));
        }
        _ => panic!("expected a question"),
    }
    match parse_repl_line("  1+1=? \n") {
        ReplInput::Ask { text, image_path } => {
            assert_eq!(text, "1+1=?");
            assert_eq!(image_path, None);
        }
        _ => panic!("expected a question"),
    }
    match parse_repl_line("/img") {
        ReplInput::Ask { text, image_path } => {
            assert_eq!(text, "/img");
            assert_eq!(image_path, None);
        }
        _ => panic!("expected a question"),
    }
}

#[test]
fn chat_session_history() {
    let mut s = ChatSession::new("be brief".to_string());
    assert_eq!(s.messages.len(), 1);
    assert_eq!(s.messages[0].role, MessageRole::System);
    s.push(Message::user("hi".to_string()));
    s.push_answer("hello".to_string());
    assert_eq!(s.messages.len(), 3);
    assert_eq!(s.messages[2].role, MessageRole::Assistant);
    assert_eq!(s.messages[2].content.to_text_strict().unwrap(), "hello");
    let empty = ChatSession::new(String::new());
    assert!(empty.messages.is_empty());
}

#[test]
fn model_kind_from_config_bytes() {
    assert_eq!(model_kind_of_config(b"{\"model_type\": \"qwen3_vl\"}"), Ok(ModelKind::Qwen3Vl));
    assert_eq!(model_kind_of_config(b"{\"model_type\": \"llama\"}"), Ok(ModelKind::Llama3));
    assert_eq!(model_kind_of_config(b"{\"hidden_size\": 8}"), Ok(ModelKind::Llama3));
    assert_eq!(model_kind_of_config(b"{\"model_type\": 3}"), Ok(ModelKind::Llama3));
    assert!(model_kind_of_config(b"{not json").is_err());
    assert_eq!(json_model_type(b"{\"model_type\": \"x\"}"), Ok(Some("x".to_string())));
}
