use spm_core::chat::{ChatError, ContentPart, ImageUrl, Message, MessageContent, MessageRole};

fn text_part(s: &str) -> ContentPart {
    ContentPart::Text { text: s.to_string() }
}

fn image_part() -> ContentPart {
    ContentPart::ImageBase64 { media_type: Some("image/png".to_string()), data: "AAAA".to_string() }
}

#[test]
fn plain_text_content_is_its_own_text() {
    let c = MessageContent::Text("hello".to_string());
    assert_eq!(c.to_text_strict().unwrap(), "hello");
    assert!(!c.has_image());
}

#[test]
fn text_parts_are_concatenated() {
    let c = MessageContent::Parts(vec![text_part("hello, "), text_part("world")]);
    assert_eq!(c.to_text_strict().unwrap(), "hello, world");
    assert!(!c.has_image());
    let empty = MessageContent::Parts(vec![]);
    assert_eq!(empty.to_text_strict().unwrap(), "");
}

#[test]
fn image_parts_are_refused_as_text() {
    let c = MessageContent::Parts(vec![text_part("look"), image_part()]);
    assert_eq!(c.to_text_strict().unwrap_err(), ChatError::NonTextContent);
    assert!(c.has_image());
    let u = MessageContent::Parts(vec![ContentPart::ImageUrl {
        image_url: ImageUrl { url: "data:image/png;base64,AAAA".to_string() },
    }]);
    assert_eq!(u.to_text_strict().unwrap_err(), ChatError::NonTextContent);
    assert_eq!(
        ChatError::NonTextContent.message(),
        "non-text content (image) is not supported by this model"
    );
}

#[test]
fn message_constructors_set_role_and_text() {
    let s = Message::system("sys".to_string());
    assert_eq!(s.role, MessageRole::System);
    assert_eq!(s.content.to_text_strict().unwrap(), "sys");
    let u = Message::user("hi".to_string());
    assert_eq!(u.role, MessageRole::User);
    assert!(!u.is_multimodal());
    let a = Message::assistant("ok".to_string());
    assert_eq!(a.role, MessageRole::Assistant);
    assert_eq!(a.content.to_text_strict().unwrap(), "ok");
}

#[test]
fn multimodal_message() {
    let m = Message {
        role: MessageRole::User,
        content: MessageContent::Parts(vec![image_part(), text_part("what is this?")]),
    };
    assert!(m.is_multimodal());
}

#[test]
fn role_names() {
    assert_eq!(MessageRole::System.name(), "system");
    assert_eq!(MessageRole::User.to_text(), "user");
    assert_eq!(MessageRole::Assistant.to_text(), "assistant");
}
