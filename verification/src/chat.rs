//! The chat message model: roles, plain-text or multi-part content, and the
//! queries the model backends make of a message.

use vstd::prelude::*;

verus! {

/// The role of a message in a chat.
#[derive(Debug, Clone, Copy, PartialEq, Eq, Structural)]
pub enum MessageRole {
    /// System prompt.
    System,
    /// User prompt.
    User,
    /// Assistant response.
    Assistant,
}

/// The lower-case name of a role, as it is written in prompts and JSON.
pub open spec fn role_name(role: MessageRole) -> Seq<char> {
    match role {
        MessageRole::System => seq!['s', 'y', 's', 't', 'e', 'm'],
        MessageRole::User => seq!['u', 's', 'e', 'r'],
        MessageRole::Assistant => seq!['a', 's', 's', 'i', 's', 't', 'a', 'n', 't'],
    }
}

impl MessageRole {
    /// The lower-case name of the role (`system`, `user` or `assistant`).
    pub fn name(&self) -> (r: &'static str)
        ensures
            r@ == role_name(*self),
    {
        match self {
            MessageRole::System => {
                let s = "system";
                proof {
                    reveal_strlit("system");
                }
                s
            },
            MessageRole::User => {
                let s = "user";
                proof {
                    reveal_strlit("user");
                }
                s
            },
            MessageRole::Assistant => {
                let s = "assistant";
                proof {
                    reveal_strlit("assistant");
                }
                s
            },
        }
    }

    /// The role's name as an owned string (what the role displays as).
    pub fn to_text(&self) -> (r: String)
        ensures
            r@ == role_name(*self),
    {
        String::from_str(self.name())
    }
}

/// An image reference given as a URL (only `data:` URLs are decoded).
#[derive(Debug, Clone)]
pub struct ImageUrl {
    pub url: String,
}

/// One part of a multi-part message.
#[derive(Debug, Clone)]
pub enum ContentPart {
    /// A piece of text.
    Text { text: String },
    /// Base64-encoded image payload (raw base64, without data URL prefix).
    ImageBase64 {
        /// Optional mime type, e.g. "image/png" or "image/jpeg".
        media_type: Option<String>,
        /// Base64 data, without prefix.
        data: String,
    },
    /// OpenAI-style image URL part (data URLs such as "data:image/png;base64,...").
    ImageUrl { image_url: ImageUrl },
}

/// Message content: plain text, or a list of parts (text and images).
#[derive(Debug, Clone)]
pub enum MessageContent {
    Text(String),
    Parts(Vec<ContentPart>),
}

/// A chat message.
#[derive(Debug, Clone)]
pub struct Message {
    /// Message role.
    pub role: MessageRole,
    /// Message content.
    pub content: MessageContent,
}

/// Why content could not be turned into plain text.
#[derive(Debug, Clone, Copy, PartialEq, Eq, Structural)]
pub enum ChatError {
    /// The content holds an image part.
    NonTextContent,
}

/// The description of an error: for image content, "non-text content
/// (image) is not supported by this model".
pub open spec fn chat_error_text(e: ChatError) -> Seq<char> {
    match e {
        ChatError::NonTextContent => seq![
            'n', 'o', 'n', '-', 't', 'e', 'x', 't', ' ', 'c', 'o', 'n', 't', 'e', 'n', 't', ' ',
            '(', 'i', 'm', 'a', 'g', 'e', ')', ' ', 'i', 's', ' ', 'n', 'o', 't', ' ', 's', 'u',
            'p', 'p', 'o', 'r', 't', 'e', 'd', ' ', 'b', 'y', ' ', 't', 'h', 'i', 's', ' ', 'm',
            'o', 'd', 'e', 'l',
        ],
    }
}

impl ChatError {
    /// The human-readable description of the error.
    pub fn message(&self) -> (r: &'static str)
        ensures
            r@ == chat_error_text(*self),
    {
        proof {
            reveal_strlit("non-text content (image) is not supported by this model");
        }
        match self {
            ChatError::NonTextContent => "non-text content (image) is not supported by this model",
        }
    }
}

/// The text of a part, or `None` for an image part.
pub open spec fn part_text(p: ContentPart) -> Option<Seq<char>> {
    match p {
        ContentPart::Text { text } => Some(text@),
        _ => None,
    }
}

/// Whether a part is an image (any non-text part).
pub open spec fn is_image_part(p: ContentPart) -> bool {
    !(p is Text)
}

/// The concatenated text of all parts, or `None` if any part is an image.
pub open spec fn joined_text(parts: Seq<ContentPart>) -> Option<Seq<char>>
    decreases parts.len(),
{
    if parts.len() == 0 {
        Some(Seq::empty())
    } else {
        match (joined_text(parts.drop_last()), part_text(parts.last())) {
            (Some(a), Some(b)) => Some(a + b),
            _ => None,
        }
    }
}

/// The plain text of message content, or `None` if it holds an image.
pub open spec fn content_text(c: MessageContent) -> Option<Seq<char>> {
    match c {
        MessageContent::Text(s) => Some(s@),
        MessageContent::Parts(parts) => joined_text(parts@),
    }
}

/// Whether message content holds at least one image part.
pub open spec fn content_has_image(c: MessageContent) -> bool {
    match c {
        MessageContent::Text(_) => false,
        MessageContent::Parts(parts) => parts_have_image(parts@),
    }
}

/// Whether some part is an image.
pub open spec fn parts_have_image(parts: Seq<ContentPart>) -> bool {
    exists|i: int| 0 <= i < parts.len() && #[trigger] is_image_part(parts[i])
}

/// Text of parts is defined exactly when no part is an image.
pub proof fn lemma_joined_text_defined(parts: Seq<ContentPart>)
    ensures
        joined_text(parts) is Some <==> forall|i: int|
            0 <= i < parts.len() ==> !#[trigger] is_image_part(parts[i]),
    decreases parts.len(),
{
    if parts.len() > 0 {
        lemma_joined_text_defined(parts.drop_last());
        assert forall|i: int| 0 <= i < parts.len() - 1 implies #[trigger] parts.drop_last()[i]
            == parts[i] by {}
        if joined_text(parts) is Some {
            assert forall|i: int| 0 <= i < parts.len() implies !#[trigger] is_image_part(
                parts[i],
            ) by {
                if i < parts.len() - 1 {
                    assert(parts.drop_last()[i] == parts[i]);
                    assert(!is_image_part(parts.drop_last()[i]));
                }
            }
        } else {
            if part_text(parts.last()) is None {
                assert(is_image_part(parts[parts.len() - 1]));
            } else {
                let i = choose|i: int|
                    0 <= i < parts.drop_last().len() && #[trigger] is_image_part(
                        parts.drop_last()[i],
                    );
                assert(is_image_part(parts[i]));
            }
        }
    }
}

impl MessageContent {
    /// Returns a plain-text representation; fails on content with an image part.
    pub fn to_text_strict(&self) -> (r: Result<String, ChatError>)
        ensures
            match r {
                Ok(s) => content_text(*self) == Some(s@),
                Err(e) => content_text(*self) is None && e == ChatError::NonTextContent,
            },
    {
        match self {
            MessageContent::Text(s) => Ok(s.clone()),
            MessageContent::Parts(parts) => {
                let mut out = String::new();
                let mut i: usize = 0;
                while i < parts.len()
                    invariant
                        0 <= i <= parts.len(),
                        joined_text(parts@.take(i as int)) == Some(out@),
                        *self == MessageContent::Parts(*parts),
                    decreases parts.len() - i,
                {
                    assert(parts@.take(i + 1).drop_last() == parts@.take(i as int));
                    match &parts[i] {
                        ContentPart::Text { text } => {
                            out.append(text.as_str());
                        },
                        _ => {
                            proof {
                                assert(joined_text(parts@.take(i + 1)) is None);
                                lemma_joined_text_defined(parts@.take(i + 1));
                                lemma_joined_text_defined(parts@);
                                assert(parts@.take(i + 1)[i as int] == parts@[i as int]);
                                assert(is_image_part(parts@[i as int]));
                                assert(joined_text(parts@) is None);
                            }
                            return Err(ChatError::NonTextContent);
                        },
                    }
                    i = i + 1;
                }
                assert(parts@.take(parts@.len() as int) == parts@);
                Ok(out)
            },
        }
    }

    /// Whether the content holds at least one image part.
    pub fn has_image(&self) -> (r: bool)
        ensures
            r == content_has_image(*self),
    {
        match self {
            MessageContent::Text(_) => false,
            MessageContent::Parts(parts) => {
                let mut i: usize = 0;
                while i < parts.len()
                    invariant
                        0 <= i <= parts.len(),
                        forall|j: int| 0 <= j < i ==> !#[trigger] is_image_part(parts@[j]),
                        *self == MessageContent::Parts(*parts),
                    decreases parts.len() - i,
                {
                    match &parts[i] {
                        ContentPart::Text { .. } => {},
                        _ => {
                            assert(is_image_part(parts@[i as int]));
                            return true;
                        },
                    }
                    i = i + 1;
                }
                false
            },
        }
    }
}

impl Message {
    /// The system message with text `content`.
    pub open spec fn system_spec(content: String) -> Message {
        Message { role: MessageRole::System, content: MessageContent::Text(content) }
    }

    /// The assistant message with text `content`.
    pub open spec fn assistant_spec(content: String) -> Message {
        Message { role: MessageRole::Assistant, content: MessageContent::Text(content) }
    }

    /// Create a system message.
    pub fn system(content: String) -> (m: Message)
        ensures
            m.role == MessageRole::System,
            m.content == MessageContent::Text(content),
    {
        Message { role: MessageRole::System, content: MessageContent::Text(content) }
    }

    /// Create a user message.
    pub fn user(content: String) -> (m: Message)
        ensures
            m.role == MessageRole::User,
            m.content == MessageContent::Text(content),
    {
        Message { role: MessageRole::User, content: MessageContent::Text(content) }
    }

    /// Create an assistant message.
    pub fn assistant(content: String) -> (m: Message)
        ensures
            m.role == MessageRole::Assistant,
            m.content == MessageContent::Text(content),
    {
        Message { role: MessageRole::Assistant, content: MessageContent::Text(content) }
    }

    /// Whether the message holds an image.
    pub fn is_multimodal(&self) -> (r: bool)
        ensures
            r == content_has_image(self.content),
    {
        self.content.has_image()
    }
}

} // verus!
