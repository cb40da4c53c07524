//! Qwen-style ChatML prompt encoding with image placeholders.
//!
//! Encoding runs in three steps: [`PromptEncoder::layout`] turns the messages
//! into a sequence of pieces (special tokens, text to tokenize, image
//! placeholders); the tokenizer encodes each text piece; and
//! [`PromptEncoder::assemble`] concatenates everything into token ids while
//! recording where each image's placeholder tokens stand.

use vstd::prelude::*;

use crate::chat::{role_name, ContentPart, Message, MessageContent, MessageRole};
use crate::text::{chars_of, decimal, decimal_chars, extend_chars, string_from_chars};

verus! {

/// A placeholder span for where image features are injected into the token
/// embeddings: `start` inclusive, `end` exclusive.
#[derive(Debug, Clone, Copy, PartialEq, Eq, Structural)]
pub struct ImageSpan {
    /// Start index in the token sequence (inclusive).
    pub start: usize,
    /// End index in the token sequence (exclusive).
    pub end: usize,
}

/// Encodes chat messages into a Qwen-style ChatML prompt, while also
/// collecting multimodal placeholders (image spans).
#[derive(Debug, Clone, Copy, PartialEq, Eq, Structural)]
pub struct PromptEncoder {
    pub image_token_id: u32,
    pub vision_start_token_id: u32,
    pub vision_end_token_id: u32,
    pub im_start_token_id: u32,
    pub im_end_token_id: u32,
}

/// Why a prompt could not be encoded.
#[derive(Debug, Clone, Copy, PartialEq, Eq, Structural)]
pub enum PromptError {
    /// An image part has no placeholder count; carries the image's index.
    MissingImageTokenCount(usize),
    /// The tokenizer has no `<|im_start|>` token.
    MissingImStart,
    /// The tokenizer has no `<|im_end|>` token.
    MissingImEnd,
    /// The tokenizer failed to encode a piece of text.
    TokenizerFailure,
}

/// The description of a prompt error.
pub open spec fn prompt_error_text(e: PromptError) -> Seq<char> {
    match e {
        PromptError::MissingImageTokenCount(n) => "missing image_token_count for image #"@ + decimal(
            n as nat,
        ),
        PromptError::MissingImStart => "tokenizer missing <|im_start|>"@,
        PromptError::MissingImEnd => "tokenizer missing <|im_end|>"@,
        PromptError::TokenizerFailure => "the tokenizer failed to encode a text"@,
    }
}

impl PromptError {
    /// The human-readable description of the error.
    pub fn message(&self) -> (r: String)
        ensures
            r@ == prompt_error_text(*self),
    {
        match self {
            PromptError::MissingImageTokenCount(n) => {
                let mut v = chars_of("missing image_token_count for image #");
                extend_chars(&mut v, &decimal_chars(*n as u64));
                string_from_chars(v.as_slice())
            },
            PromptError::MissingImStart => "tokenizer missing <|im_start|>".to_owned(),
            PromptError::MissingImEnd => "tokenizer missing <|im_end|>".to_owned(),
            PromptError::TokenizerFailure => "the tokenizer failed to encode a text".to_owned(),
        }
    }
}

/// One piece of a prompt before tokenization.
#[derive(Debug, Clone)]
pub enum PromptPiece {
    /// A special token, emitted as is.
    Token(u32),
    /// Text to be run through the tokenizer.
    Text(String),
    /// An image with this many placeholder tokens.
    Image(usize),
}

/// The mathematical value of a prompt piece.
pub ghost enum PieceSpec {
    Token(u32),
    Text(Seq<char>),
    Image(nat),
}

pub open spec fn piece_spec(p: PromptPiece) -> PieceSpec {
    match p {
        PromptPiece::Token(t) => PieceSpec::Token(t),
        PromptPiece::Text(s) => PieceSpec::Text(s@),
        PromptPiece::Image(n) => PieceSpec::Image(n as nat),
    }
}

pub open spec fn pieces_view(ps: Seq<PromptPiece>) -> Seq<PieceSpec> {
    ps.map_values(|p: PromptPiece| piece_spec(p))
}

pub open spec fn newline() -> Seq<char> {
    seq!['\n']
}

/// `<|im_start|>`, the role, and a line break.
pub open spec fn header_pieces(enc: PromptEncoder, role: Seq<char>) -> Seq<PieceSpec> {
    seq![PieceSpec::Token(enc.im_start_token_id), PieceSpec::Text(role), PieceSpec::Text(newline())]
}

/// `<|im_end|>` and a line break.
pub open spec fn footer_pieces(enc: PromptEncoder) -> Seq<PieceSpec> {
    seq![PieceSpec::Token(enc.im_end_token_id), PieceSpec::Text(newline())]
}

/// The pieces of a list of content parts, with image counts taken from
/// `counts` starting at index `k0`; also the index of the next unused count.
/// `None` when an image has no count.
pub open spec fn parts_pieces(parts: Seq<ContentPart>, counts: Seq<usize>, k0: nat) -> Option<
    (Seq<PieceSpec>, nat),
>
    decreases parts.len(),
{
    if parts.len() == 0 {
        Some((Seq::empty(), k0))
    } else {
        match parts_pieces(parts.drop_last(), counts, k0) {
            None => None,
            Some((ps, k)) => match parts.last() {
                ContentPart::Text { text } => Some((ps.push(PieceSpec::Text(text@)), k)),
                _ => if k < counts.len() {
                    Some((ps.push(PieceSpec::Image(counts[k as int] as nat)), k + 1))
                } else {
                    None
                },
            },
        }
    }
}

/// The pieces of message content (see [`parts_pieces`]).
pub open spec fn content_pieces(c: MessageContent, counts: Seq<usize>, k0: nat) -> Option<
    (Seq<PieceSpec>, nat),
> {
    match c {
        MessageContent::Text(s) => Some((seq![PieceSpec::Text(s@)], k0)),
        MessageContent::Parts(parts) => parts_pieces(parts@, counts, k0),
    }
}

/// The pieces of one message: header, content, footer.
pub open spec fn message_pieces(enc: PromptEncoder, m: Message, counts: Seq<usize>, k0: nat) -> Option<
    (Seq<PieceSpec>, nat),
> {
    match content_pieces(m.content, counts, k0) {
        Some((ps, k)) => Some((header_pieces(enc, role_name(m.role)) + ps + footer_pieces(enc), k)),
        None => None,
    }
}

/// The pieces of a list of messages and the number of image counts used.
pub open spec fn messages_pieces(enc: PromptEncoder, msgs: Seq<Message>, counts: Seq<usize>) -> Option<
    (Seq<PieceSpec>, nat),
>
    decreases msgs.len(),
{
    if msgs.len() == 0 {
        Some((Seq::empty(), 0))
    } else {
        match messages_pieces(enc, msgs.drop_last(), counts) {
            None => None,
            Some((ps, k)) => match message_pieces(enc, msgs.last(), counts, k) {
                Some((qs, k2)) => Some((ps + qs, k2)),
                None => None,
            },
        }
    }
}

/// The full prompt layout: every message, then the opening of an assistant
/// message for the model to complete.
pub open spec fn prompt_layout(enc: PromptEncoder, msgs: Seq<Message>, counts: Seq<usize>) -> Option<
    Seq<PieceSpec>,
> {
    match messages_pieces(enc, msgs, counts) {
        Some((ps, _)) => Some(ps + header_pieces(enc, role_name(MessageRole::Assistant))),
        None => None,
    }
}

/// The pieces of the parts before the first image that has no count
/// (meaningful when [`parts_pieces`] fails).
pub open spec fn parts_prefix(parts: Seq<ContentPart>, counts: Seq<usize>, k0: nat) -> Seq<PieceSpec>
    decreases parts.len(),
{
    if parts.len() == 0 {
        Seq::empty()
    } else {
        match parts_pieces(parts.drop_last(), counts, k0) {
            None => parts_prefix(parts.drop_last(), counts, k0),
            Some((ps, _)) => ps,
        }
    }
}

/// The pieces of message content before the first image that has no count.
pub open spec fn content_prefix(c: MessageContent, counts: Seq<usize>, k0: nat) -> Seq<PieceSpec> {
    match c {
        MessageContent::Text(_) => Seq::empty(),
        MessageContent::Parts(parts) => parts_prefix(parts@, counts, k0),
    }
}

/// The pieces laid out before the first image that has no count
/// (meaningful when [`messages_pieces`] fails): the messages before it in
/// full, then its message's header and the content before it.
pub open spec fn messages_prefix(enc: PromptEncoder, msgs: Seq<Message>, counts: Seq<usize>) -> Seq<
    PieceSpec,
>
    decreases msgs.len(),
{
    if msgs.len() == 0 {
        Seq::empty()
    } else {
        match messages_pieces(enc, msgs.drop_last(), counts) {
            None => messages_prefix(enc, msgs.drop_last(), counts),
            Some((ps, k)) => ps + header_pieces(enc, role_name(msgs.last().role)) + content_prefix(
                msgs.last().content,
                counts,
                k,
            ),
        }
    }
}

proof fn lemma_parts_pieces_bound(parts: Seq<ContentPart>, counts: Seq<usize>, k0: nat)
    requires
        k0 <= counts.len(),
    ensures
        parts_pieces(parts, counts, k0) matches Some((_, k)) ==> k0 <= k <= counts.len(),
    decreases parts.len(),
{
    if parts.len() > 0 {
        lemma_parts_pieces_bound(parts.drop_last(), counts, k0);
    }
}

proof fn lemma_messages_pieces_bound(enc: PromptEncoder, msgs: Seq<Message>, counts: Seq<usize>)
    ensures
        messages_pieces(enc, msgs, counts) matches Some((_, k)) ==> k <= counts.len(),
    decreases msgs.len(),
{
    if msgs.len() > 0 {
        lemma_messages_pieces_bound(enc, msgs.drop_last(), counts);
        if let Some((_, k)) = messages_pieces(enc, msgs.drop_last(), counts) {
            if let MessageContent::Parts(p) = msgs.last().content {
                lemma_parts_pieces_bound(p@, counts, k);
            }
        }
    }
}

/// Once a prefix of the messages fails, every longer prefix fails too.
proof fn lemma_messages_pieces_none_extends(
    enc: PromptEncoder,
    msgs: Seq<Message>,
    counts: Seq<usize>,
    i: int,
)
    requires
        0 <= i <= msgs.len(),
        messages_pieces(enc, msgs.take(i), counts) is None,
    ensures
        messages_pieces(enc, msgs, counts) is None,
        messages_prefix(enc, msgs, counts) == messages_prefix(enc, msgs.take(i), counts),
    decreases msgs.len() - i,
{
    if i < msgs.len() {
        assert(msgs.take(i + 1).drop_last() == msgs.take(i));
        lemma_messages_pieces_none_extends(enc, msgs, counts, i + 1);
    } else {
        assert(msgs.take(i) == msgs);
    }
}

proof fn lemma_parts_pieces_none_extends(
    parts: Seq<ContentPart>,
    counts: Seq<usize>,
    k0: nat,
    i: int,
)
    requires
        0 <= i <= parts.len(),
        parts_pieces(parts.take(i), counts, k0) is None,
    ensures
        parts_pieces(parts, counts, k0) is None,
        parts_prefix(parts, counts, k0) == parts_prefix(parts.take(i), counts, k0),
    decreases parts.len() - i,
{
    if i < parts.len() {
        assert(parts.take(i + 1).drop_last() == parts.take(i));
        lemma_parts_pieces_none_extends(parts, counts, k0, i + 1);
    } else {
        assert(parts.take(i) == parts);
    }
}

/// An owned copy of a string.
fn copy_string(s: &String) -> (r: String)
    ensures
        r@ == s@,
{
    s.clone()
}

fn newline_string() -> (r: String)
    ensures
        r@ == newline(),
{
    let s = "\n";
    proof {
        reveal_strlit("\n");
    }
    String::from_str(s)
}

impl PromptEncoder {
    fn push_header(&self, out: &mut Vec<PromptPiece>, role: MessageRole)
        ensures
            pieces_view(final(out)@) == pieces_view(old(out)@) + header_pieces(
                *self,
                role_name(role),
            ),
    {
        out.push(PromptPiece::Token(self.im_start_token_id));
        out.push(PromptPiece::Text(role.to_text()));
        out.push(PromptPiece::Text(newline_string()));
        assert(pieces_view(out@) =~= pieces_view(old(out)@) + header_pieces(
            *self,
            role_name(role),
        ));
    }

    fn push_footer(&self, out: &mut Vec<PromptPiece>)
        ensures
            pieces_view(final(out)@) == pieces_view(old(out)@) + footer_pieces(*self),
    {
        out.push(PromptPiece::Token(self.im_end_token_id));
        out.push(PromptPiece::Text(newline_string()));
        assert(pieces_view(out@) =~= pieces_view(old(out)@) + footer_pieces(*self));
    }

    /// Appends the pieces of `content` to `out`, taking image counts from
    /// `counts` starting at `k0`; returns the index of the next unused count.
    fn push_content(
        &self,
        out: &mut Vec<PromptPiece>,
        content: &MessageContent,
        counts: &[usize],
        k0: usize,
    ) -> (r: Option<usize>)
        requires
            k0 <= counts.len(),
        ensures
            match r {
                Some(k) => content_pieces(*content, counts@, k0 as nat) == Some(
                    (pieces_view(final(out)@).skip(old(out)@.len() as int), k as nat),
                ) && pieces_view(final(out)@) == pieces_view(old(out)@) + pieces_view(
                    final(out)@,
                ).skip(old(out)@.len() as int) && k0 <= k <= counts.len(),
                None => content_pieces(*content, counts@, k0 as nat) is None && pieces_view(
                    final(out)@,
                ) == pieces_view(old(out)@) + content_prefix(*content, counts@, k0 as nat),
            },
    {
        let ghost start = out@.len();
        match content {
            MessageContent::Text(s) => {
                out.push(PromptPiece::Text(copy_string(s)));
                assert(pieces_view(out@).skip(start as int) =~= seq![PieceSpec::Text(s@)]);
                assert(pieces_view(out@) =~= pieces_view(old(out)@) + pieces_view(out@).skip(
                    start as int,
                ));
                Some(k0)
            },
            MessageContent::Parts(parts) => {
                let mut k = k0;
                let mut j: usize = 0;
                while j < parts.len()
                    invariant
                        0 <= j <= parts.len(),
                        k0 <= k <= counts.len(),
                        start == old(out)@.len(),
                        start <= out@.len(),
                        pieces_view(out@).take(start as int) == pieces_view(old(out)@),
                        parts_pieces(parts@.take(j as int), counts@, k0 as nat) == Some(
                            (pieces_view(out@).skip(start as int), k as nat),
                        ),
                        *content == MessageContent::Parts(*parts),
                    decreases parts.len() - j,
                {
                    assert(parts@.take(j + 1).drop_last() == parts@.take(j as int));
                    assert(parts@.take(j + 1).last() == parts@[j as int]);
                    let ghost before = out@;
                    match &parts[j] {
                        ContentPart::Text { text } => {
                            out.push(PromptPiece::Text(copy_string(text)));
                        },
                        _ => {
                            if k < counts.len() {
                                out.push(PromptPiece::Image(counts[k]));
                                k = k + 1;
                            } else {
                                proof {
                                    lemma_parts_pieces_none_extends(
                                        parts@,
                                        counts@,
                                        k0 as nat,
                                        j + 1,
                                    );
                                    assert(pieces_view(out@) =~= pieces_view(old(out)@)
                                        + pieces_view(out@).skip(start as int));
                                }
                                return None;
                            }
                        },
                    }
                    assert(pieces_view(out@).skip(start as int) =~= pieces_view(before).skip(
                        start as int,
                    ).push(piece_spec(out@.last())));
                    assert(pieces_view(out@).take(start as int) =~= pieces_view(before).take(
                        start as int,
                    ));
                    j = j + 1;
                }
                assert(parts@.take(parts@.len() as int) == parts@);
                assert(pieces_view(out@) =~= pieces_view(old(out)@) + pieces_view(out@).skip(
                    start as int,
                ));
                Some(k)
            },
        }
    }

    /// The pieces laid out for `messages`, and whether the layout is
    /// complete: when an image has no count, the pieces before it.
    fn layout_pieces(&self, messages: &[Message], image_token_counts: &[usize]) -> (r: (
        Vec<PromptPiece>,
        bool,
    ))
        ensures
            r.1 ==> prompt_layout(*self, messages@, image_token_counts@) == Some(
                pieces_view(r.0@),
            ),
            !r.1 ==> prompt_layout(*self, messages@, image_token_counts@) is None && pieces_view(
                r.0@,
            ) == messages_prefix(*self, messages@, image_token_counts@),
    {
        let mut out: Vec<PromptPiece> = Vec::new();
        let mut k: usize = 0;
        let mut i: usize = 0;
        while i < messages.len()
            invariant
                0 <= i <= messages.len(),
                k <= image_token_counts.len(),
                messages_pieces(*self, messages@.take(i as int), image_token_counts@) == Some(
                    (pieces_view(out@), k as nat),
                ),
            decreases messages.len() - i,
        {
            assert(messages@.take(i + 1).drop_last() == messages@.take(i as int));
            assert(messages@.take(i + 1).last() == messages@[i as int]);
            let m = &messages[i];
            let ghost before = pieces_view(out@);
            self.push_header(&mut out, m.role);
            let ghost after_header = pieces_view(out@);
            match self.push_content(&mut out, &m.content, image_token_counts, k) {
                Some(k2) => {
                    let ghost after_content = pieces_view(out@);
                    self.push_footer(&mut out);
                    proof {
                        let ps = after_content.skip(after_header.len() as int);
                        assert(pieces_view(out@) =~= before + (header_pieces(
                            *self,
                            role_name(m.role),
                        ) + ps + footer_pieces(*self)));
                    }
                    k = k2;
                },
                None => {
                    proof {
                        lemma_messages_pieces_none_extends(
                            *self,
                            messages@,
                            image_token_counts@,
                            i + 1,
                        );
                        assert(pieces_view(out@) =~= before + header_pieces(
                            *self,
                            role_name(m.role),
                        ) + content_prefix(m.content, image_token_counts@, k as nat));
                    }
                    return (out, false);
                },
            }
            i = i + 1;
        }
        assert(messages@.take(messages@.len() as int) == messages@);
        self.push_header(&mut out, MessageRole::Assistant);
        (out, true)
    }

    /// The layout of the prompt for `messages`: for each message a header
    /// (`<|im_start|>`, role, line break), its content (text pieces and image
    /// placeholders, the `i`-th image getting `image_token_counts[i]` tokens)
    /// and a footer (`<|im_end|>`, line break); then an assistant header.
    /// Fails when there are more images than counts.
    pub fn layout(&self, messages: &[Message], image_token_counts: &[usize]) -> (r: Result<
        Vec<PromptPiece>,
        PromptError,
    >)
        ensures
            match r {
                Ok(ps) => prompt_layout(*self, messages@, image_token_counts@) == Some(
                    pieces_view(ps@),
                ),
                Err(e) => prompt_layout(*self, messages@, image_token_counts@) is None && e
                    == PromptError::MissingImageTokenCount(image_token_counts.len()),
            },
    {
        let (pieces, complete) = self.layout_pieces(messages, image_token_counts);
        if complete {
            Ok(pieces)
        } else {
            Err(PromptError::MissingImageTokenCount(image_token_counts.len()))
        }
    }
}


/// The number of text pieces.
pub open spec fn text_count(ps: Seq<PieceSpec>) -> nat
    decreases ps.len(),
{
    if ps.len() == 0 {
        0
    } else {
        text_count(ps.drop_last()) + if ps.last() is Text {
            1nat
        } else {
            0nat
        }
    }
}

/// The placeholder counts of the image pieces, in order.
pub open spec fn image_sizes(ps: Seq<PieceSpec>) -> Seq<nat>
    decreases ps.len(),
{
    if ps.len() == 0 {
        Seq::empty()
    } else {
        match ps.last() {
            PieceSpec::Image(n) => image_sizes(ps.drop_last()).push(n),
            _ => image_sizes(ps.drop_last()),
        }
    }
}

/// The token ids and image spans (start, end) of a laid-out prompt, where the
/// `i`-th text piece is tokenized as `encs[i]`: special tokens stand as
/// they are, and an image of `n` placeholders becomes
/// `<vision_start>`, `n` image tokens, `<vision_end>`, its span covering the
/// image tokens.
pub open spec fn assemble_spec(enc: PromptEncoder, ps: Seq<PieceSpec>, encs: Seq<Seq<u32>>) -> (
    Seq<u32>,
    Seq<(int, int)>,
)
    decreases ps.len(),
{
    if ps.len() == 0 {
        (Seq::empty(), Seq::empty())
    } else {
        let (ids, spans) = assemble_spec(enc, ps.drop_last(), encs);
        match ps.last() {
            PieceSpec::Token(t) => (ids.push(t), spans),
            PieceSpec::Text(_) => (ids + encs[text_count(ps.drop_last()) as int], spans),
            PieceSpec::Image(n) => (
                ids.push(enc.vision_start_token_id) + Seq::new(n, |_j: int| enc.image_token_id).push(
                    enc.vision_end_token_id,
                ),
                spans.push(((ids.len() + 1) as int, (ids.len() + 1 + n) as int)),
            ),
        }
    }
}

pub open spec fn spans_view(spans: Seq<ImageSpan>) -> Seq<(int, int)> {
    spans.map_values(|s: ImageSpan| (s.start as int, s.end as int))
}

pub open spec fn encs_view(encs: Seq<Vec<u32>>) -> Seq<Seq<u32>> {
    encs.map_values(|v: Vec<u32>| v@)
}

/// Every span is framed by `<vision_start>` and `<vision_end>`, covers only
/// image tokens, and comes strictly after the spans before it.
pub open spec fn spans_well_placed(enc: PromptEncoder, ids: Seq<u32>, spans: Seq<(int, int)>) -> bool {
    &&& forall|k: int|
        #![trigger spans[k]]
        0 <= k < spans.len() ==> {
            &&& 1 <= spans[k].0 <= spans[k].1 < ids.len()
            &&& ids[spans[k].0 - 1] == enc.vision_start_token_id
            &&& ids[spans[k].1] == enc.vision_end_token_id
        }
    &&& forall|k: int, j: int|
        #![trigger spans[k], ids[j]]
        0 <= k < spans.len() && spans[k].0 <= j < spans[k].1 ==> ids[j] == enc.image_token_id
    &&& forall|k1: int, k2: int|
        #![trigger spans[k1], spans[k2]]
        0 <= k1 < k2 < spans.len() ==> spans[k1].1 < spans[k2].0
}

proof fn lemma_text_count_prefix(ps: Seq<PieceSpec>, i: int)
    requires
        0 <= i <= ps.len(),
    ensures
        text_count(ps.take(i)) <= text_count(ps),
        i < ps.len() && ps[i] is Text ==> text_count(ps.take(i)) < text_count(ps),
    decreases ps.len() - i,
{
    if i < ps.len() {
        assert(ps.take(i + 1).drop_last() == ps.take(i));
        assert(ps.take(i + 1).last() == ps[i]);
        lemma_text_count_prefix(ps, i + 1);
    } else {
        assert(ps.take(i) == ps);
    }
}

/// The ids built so far are never changed by later pieces, and the spans
/// are well placed with one span per image piece, of the image's size.
pub proof fn lemma_assemble_spans(enc: PromptEncoder, ps: Seq<PieceSpec>, encs: Seq<Seq<u32>>)
    ensures
        ({
            let (ids, spans) = assemble_spec(enc, ps, encs);
            &&& spans_well_placed(enc, ids, spans)
            &&& spans.len() == image_sizes(ps).len()
            &&& forall|k: int|
                #![trigger spans[k]]
                0 <= k < spans.len() ==> spans[k].1 - spans[k].0 == image_sizes(ps)[k]
        }),
    decreases ps.len(),
{
    if ps.len() > 0 {
        lemma_assemble_spans(enc, ps.drop_last(), encs);
        let (ids0, spans0) = assemble_spec(enc, ps.drop_last(), encs);
        let (ids, spans) = assemble_spec(enc, ps, encs);
        assert(forall|j: int| 0 <= j < ids0.len() ==> ids[j] == ids0[j]);
        assert(spans0.len() == image_sizes(ps.drop_last()).len());
        match ps.last() {
            PieceSpec::Image(n) => {
                let l = ids0.len() as int;
                assert(ids[l] == enc.vision_start_token_id);
                assert(ids[l + 1 + n] == enc.vision_end_token_id);
                assert forall|j: int| l + 1 <= j < l + 1 + n implies ids[j] == enc.image_token_id by {}
                assert forall|k: int| 0 <= k < spans.len() implies #[trigger] spans[k].1
                    - spans[k].0 == image_sizes(ps)[k] by {
                    if k < spans0.len() {
                        assert(spans[k] == spans0[k]);
                    }
                }
                assert forall|k: int, j: int|
                    #![trigger spans[k], ids[j]]
                    0 <= k < spans.len() && spans[k].0 <= j < spans[k].1 implies ids[j]
                    == enc.image_token_id by {
                    if k < spans0.len() {
                        assert(spans[k] == spans0[k]);
                        assert(ids0[j] == enc.image_token_id);
                    }
                }
                assert forall|k1: int, k2: int|
                    #![trigger spans[k1], spans[k2]]
                    0 <= k1 < k2 < spans.len() implies spans[k1].1 < spans[k2].0 by {
                    assert(spans[k1] == spans0[k1]);
                    if k2 < spans0.len() {
                        assert(spans[k2] == spans0[k2]);
                    }
                }
                assert forall|k: int|
                    #![trigger spans[k]]
                    0 <= k < spans.len() implies {
                        &&& 1 <= spans[k].0 <= spans[k].1 < ids.len()
                        &&& ids[spans[k].0 - 1] == enc.vision_start_token_id
                        &&& ids[spans[k].1] == enc.vision_end_token_id
                    } by {
                    if k < spans0.len() {
                        assert(spans[k] == spans0[k]);
                    }
                }
            },
            _ => {
                assert forall|k: int, j: int|
                    #![trigger spans[k], ids[j]]
                    0 <= k < spans.len() && spans[k].0 <= j < spans[k].1 implies ids[j]
                    == enc.image_token_id by {
                    assert(ids0[j] == enc.image_token_id);
                }
            },
        }
    }
}

impl PromptEncoder {
    /// Concatenates the pieces into token ids, `encoded_texts[i]` standing for
    /// the `i`-th text piece, and records the span of each image's
    /// placeholder tokens.
    pub fn assemble(&self, pieces: &[PromptPiece], encoded_texts: &[Vec<u32>]) -> (r: (
        Vec<u32>,
        Vec<ImageSpan>,
    ))
        requires
            encoded_texts.len() == text_count(pieces_view(pieces@)),
        ensures
            (r.0@, spans_view(r.1@)) == assemble_spec(
                *self,
                pieces_view(pieces@),
                encs_view(encoded_texts@),
            ),
    {
        let ghost pv = pieces_view(pieces@);
        let ghost encs = encs_view(encoded_texts@);
        let mut ids: Vec<u32> = Vec::new();
        let mut spans: Vec<ImageSpan> = Vec::new();
        let mut tc: usize = 0;
        let mut i: usize = 0;
        while i < pieces.len()
            invariant
                0 <= i <= pieces.len(),
                pv == pieces_view(pieces@),
                encs == encs_view(encoded_texts@),
                encoded_texts.len() == text_count(pv),
                tc == text_count(pv.take(i as int)),
                assemble_spec(*self, pv.take(i as int), encs) == (ids@, spans_view(spans@)),
            decreases pieces.len() - i,
        {
            proof {
                assert(pv.take(i + 1).drop_last() == pv.take(i as int));
                assert(pv.take(i + 1).last() == pv[i as int]);
                lemma_text_count_prefix(pv, i as int);
            }
            match &pieces[i] {
                PromptPiece::Token(t) => {
                    ids.push(*t);
                },
                PromptPiece::Text(_) => {
                    let e = &encoded_texts[tc];
                    let ghost before = ids@;
                    let mut j: usize = 0;
                    while j < e.len()
                        invariant
                            0 <= j <= e.len(),
                            ids@ == before + e@.take(j as int),
                        decreases e.len() - j,
                    {
                        ids.push(e[j]);
                        assert(e@.take(j + 1) == e@.take(j as int).push(e@[j as int]));
                        j = j + 1;
                    }
                    assert(e@.take(e@.len() as int) == e@);
                    tc = tc + 1;
                },
                PromptPiece::Image(n) => {
                    ids.push(self.vision_start_token_id);
                    let start = ids.len();
                    let ghost before = ids@;
                    let mut j: usize = 0;
                    while j < *n
                        invariant
                            0 <= j <= *n,
                            ids@ == before + Seq::new(j as nat, |_j: int| self.image_token_id),
                        decreases *n - j,
                    {
                        ids.push(self.image_token_id);
                        assert(ids@ =~= before + Seq::new((j + 1) as nat, |_j: int| self.image_token_id));
                        j = j + 1;
                    }
                    let end = ids.len();
                    ids.push(self.vision_end_token_id);
                    let ghost spans_before = spans@;
                    spans.push(ImageSpan { start, end });
                    assert(spans_view(spans@) =~= spans_view(spans_before).push(
                        (start as int, end as int),
                    ));
                },
            }
            i = i + 1;
        }
        assert(pv.take(pieces.len() as int) == pv);
        (ids, spans)
    }
}


/// The number of image parts.
pub open spec fn parts_image_count(parts: Seq<ContentPart>) -> nat
    decreases parts.len(),
{
    if parts.len() == 0 {
        0
    } else {
        parts_image_count(parts.drop_last()) + if parts.last() is Text {
            0nat
        } else {
            1nat
        }
    }
}

/// The number of image parts in message content.
pub open spec fn content_image_count(c: MessageContent) -> nat {
    match c {
        MessageContent::Text(_) => 0,
        MessageContent::Parts(parts) => parts_image_count(parts@),
    }
}

/// The number of image parts over all messages.
pub open spec fn messages_image_count(msgs: Seq<Message>) -> nat
    decreases msgs.len(),
{
    if msgs.len() == 0 {
        0
    } else {
        messages_image_count(msgs.drop_last()) + content_image_count(msgs.last().content)
    }
}

pub open spec fn counts_nat(c: Seq<usize>) -> Seq<nat> {
    c.map_values(|x: usize| x as nat)
}

proof fn lemma_image_sizes_concat(a: Seq<PieceSpec>, b: Seq<PieceSpec>)
    ensures
        image_sizes(a + b) == image_sizes(a) + image_sizes(b),
    decreases b.len(),
{
    if b.len() == 0 {
        assert(a + b == a);
        assert(image_sizes(b) =~= Seq::<nat>::empty());
        assert(image_sizes(a) + image_sizes(b) =~= image_sizes(a));
    } else {
        lemma_image_sizes_concat(a, b.drop_last());
        assert((a + b).drop_last() == a + b.drop_last());
        assert((a + b).last() == b.last());
        match b.last() {
            PieceSpec::Image(n) => {
                assert(image_sizes(a) + image_sizes(b) =~= (image_sizes(a) + image_sizes(
                    b.drop_last(),
                )).push(n));
            },
            _ => {},
        }
    }
}

proof fn lemma_parts_pieces_images(parts: Seq<ContentPart>, counts: Seq<usize>, k0: nat)
    requires
        k0 <= counts.len(),
    ensures
        parts_pieces(parts, counts, k0) is Some <==> k0 + parts_image_count(parts) <= counts.len(),
        parts_pieces(parts, counts, k0) matches Some((ps, k)) ==> k == k0 + parts_image_count(
            parts,
        ) && image_sizes(ps) == counts_nat(counts).subrange(k0 as int, k as int),
    decreases parts.len(),
{
    if parts.len() == 0 {
        assert(counts_nat(counts).subrange(k0 as int, k0 as int) =~= Seq::<nat>::empty());
    } else {
        lemma_parts_pieces_images(parts.drop_last(), counts, k0);
        if let Some((ps, k)) = parts_pieces(parts.drop_last(), counts, k0) {
            assert(ps.push(PieceSpec::Image(counts[k as int] as nat)).drop_last() == ps);
            if let ContentPart::Text { text } = parts.last() {
                assert(ps.push(PieceSpec::Text(text@)).drop_last() == ps);
            }
            if !(parts.last() is Text) && k < counts.len() {
                assert(counts_nat(counts).subrange(k0 as int, (k + 1) as int) =~= counts_nat(
                    counts,
                ).subrange(k0 as int, k as int).push(counts[k as int] as nat));
            }
        }
    }
}

proof fn lemma_messages_pieces_images(enc: PromptEncoder, msgs: Seq<Message>, counts: Seq<usize>)
    ensures
        messages_pieces(enc, msgs, counts) is Some <==> messages_image_count(msgs) <= counts.len(),
        messages_pieces(enc, msgs, counts) matches Some((ps, k)) ==> k == messages_image_count(
            msgs,
        ) && image_sizes(ps) == counts_nat(counts).take(k as int),
    decreases msgs.len(),
{
    if msgs.len() == 0 {
        assert(counts_nat(counts).take(0) =~= Seq::<nat>::empty());
    } else {
        lemma_messages_pieces_images(enc, msgs.drop_last(), counts);
        let m = msgs.last();
        if let Some((ps, k)) = messages_pieces(enc, msgs.drop_last(), counts) {
            let h = header_pieces(enc, role_name(m.role));
            let f = footer_pieces(enc);
            assert(image_sizes(h) =~= Seq::<nat>::empty()) by {
                reveal_with_fuel(image_sizes, 4);
            }
            assert(image_sizes(f) =~= Seq::<nat>::empty()) by {
                reveal_with_fuel(image_sizes, 3);
            }
            match m.content {
                MessageContent::Text(t) => {
                    let c = seq![PieceSpec::Text(t@)];
                    assert(image_sizes(c) =~= Seq::<nat>::empty()) by {
                        reveal_with_fuel(image_sizes, 2);
                    }
                    lemma_image_sizes_concat(h, c);
                    lemma_image_sizes_concat(h + c, f);
                    lemma_image_sizes_concat(ps, h + c + f);
                },
                MessageContent::Parts(parts) => {
                    lemma_parts_pieces_images(parts@, counts, k);
                    if let Some((c, k2)) = parts_pieces(parts@, counts, k) {
                        lemma_image_sizes_concat(h, c);
                        lemma_image_sizes_concat(h + c, f);
                        lemma_image_sizes_concat(ps, h + c + f);
                        assert(counts_nat(counts).take(k2 as int) =~= counts_nat(counts).take(
                            k as int,
                        ) + counts_nat(counts).subrange(k as int, k2 as int));
                    }
                },
            }
        }
    }
}

/// Law of prompt encoding: the layout exists exactly when every image part
/// has a placeholder count; then, whatever the tokenizer makes of the text
/// pieces, the assembled prompt has one span per image part, in order, each
/// framed by `<vision_start>`/`<vision_end>`, holding only image tokens, the
/// `i`-th of length `image_token_counts[i]`, and no two spans overlap.
pub proof fn lemma_encoded_prompt_spans(
    enc: PromptEncoder,
    msgs: Seq<Message>,
    counts: Seq<usize>,
    encs: Seq<Seq<u32>>,
)
    ensures
        prompt_layout(enc, msgs, counts) is Some <==> messages_image_count(msgs) <= counts.len(),
        prompt_layout(enc, msgs, counts) matches Some(ps) ==> ({
            let (ids, spans) = assemble_spec(enc, ps, encs);
            &&& spans_well_placed(enc, ids, spans)
            &&& spans.len() == messages_image_count(msgs)
            &&& forall|k: int|
                #![trigger spans[k]]
                0 <= k < spans.len() ==> spans[k].1 - spans[k].0 == counts[k]
        }),
{
    lemma_messages_pieces_images(enc, msgs, counts);
    if let Some((body, kt)) = messages_pieces(enc, msgs, counts) {
        let ps = body + header_pieces(enc, role_name(MessageRole::Assistant));
        assert(image_sizes(header_pieces(enc, role_name(MessageRole::Assistant))) =~= Seq::<
            nat,
        >::empty()) by {
            reveal_with_fuel(image_sizes, 4);
        }
        lemma_image_sizes_concat(body, header_pieces(enc, role_name(MessageRole::Assistant)));
        lemma_assemble_spans(enc, ps, encs);
        let (ids, spans) = assemble_spec(enc, ps, encs);
        assert forall|k: int| #![trigger spans[k]] 0 <= k < spans.len() implies spans[k].1
            - spans[k].0 == counts[k] by {
            assert(image_sizes(ps)[k] == counts_nat(counts).take(kt as int)[k]);
        }
    }
}


#[verifier::external_type_specification]
#[verifier::external_body]
pub struct ExTokenizer(tokenizers::Tokenizer);

/// What `tokenizers::Tokenizer::encode(text, false)` yields for `text` (no
/// special tokens added) when the tokenizer draws no random numbers (see
/// [`tokenizer_deterministic`]): the encoding's token ids, or `None` when
/// the tokenizer fails. It depends on the tokenizer's vocabulary,
/// normalizer and model, which stay opaque here.
pub uninterp spec fn tokenizer_encoding(tokenizer: tokenizers::Tokenizer, text: Seq<char>) -> Option<
    Seq<u32>,
>;

/// What `tokenizers::Tokenizer::token_to_id(token)` yields: the id of
/// `token` in the tokenizer's vocabulary (added tokens included), if any.
pub uninterp spec fn tokenizer_token_to_id(tokenizer: tokenizers::Tokenizer, token: Seq<char>) -> Option<
    u32,
>;

/// The bits of the dropout probability of the tokenizer's model when it is
/// a BPE model with a dropout set (`BPE::dropout` as `f32::to_bits`);
/// `None` for any other model or no dropout.
pub uninterp spec fn tokenizer_dropout_bits(tokenizer: tokenizers::Tokenizer) -> Option<u32>;

/// Whether `encode` gives one answer for one text: a BPE model with a
/// nonzero dropout draws random numbers when it merges (so two calls on one
/// text may differ); every other model, and BPE without dropout or with a
/// zero one, computes its encoding from the text alone.
pub open spec fn tokenizer_deterministic(tokenizer: tokenizers::Tokenizer) -> bool {
    tokenizer_dropout_bits(tokenizer) matches Some(b) ==> b & 0x7fff_ffff == 0
}

/// The dropout of the tokenizer's BPE model, as the bits of the `f32`.
#[verifier::external_body]
fn tokenizer_dropout(tokenizer: &tokenizers::Tokenizer) -> (r: Option<u32>)
    ensures
        r == tokenizer_dropout_bits(*tokenizer),
{
    match tokenizer.get_model() {
        tokenizers::models::ModelWrapper::BPE(bpe) => match bpe.dropout {
            Some(d) => Some(d.to_bits()),
            None => None,
        },
        _ => None,
    }
}

/// Whether the tokenizer encodes deterministically (no BPE dropout).
pub fn encodes_deterministically(tokenizer: &tokenizers::Tokenizer) -> (r: bool)
    ensures
        r == tokenizer_deterministic(*tokenizer),
{
    match tokenizer_dropout(tokenizer) {
        Some(bits) => bits & 0x7fff_ffff == 0,
        None => true,
    }
}

/// `tokenizers::Tokenizer::encode(s, false)` and the ids of the encoding;
/// a failure of the tokenizer becomes `TokenizerFailure`. What comes back
/// is tied to [`tokenizer_encoding`] only for a deterministic tokenizer;
/// with BPE dropout the ids are drawn at random and nothing is said of
/// them.
#[verifier::external_body]
fn tokenizer_encode(tokenizer: &tokenizers::Tokenizer, s: &str) -> (r: Result<Vec<u32>, PromptError>)
    ensures
        r matches Err(e) ==> e == PromptError::TokenizerFailure,
        tokenizer_deterministic(*tokenizer) ==> match r {
            Ok(ids) => tokenizer_encoding(*tokenizer, s@) == Some(ids@),
            Err(_) => tokenizer_encoding(*tokenizer, s@) is None,
        },
{
    match tokenizer.encode(s, false) {
        Ok(encoding) => Ok(encoding.get_ids().to_vec()),
        Err(_) => Err(PromptError::TokenizerFailure),
    }
}

/// `tokenizers::Tokenizer::token_to_id(token)`.
#[verifier::external_body]
fn tokenizer_token_id(tokenizer: &tokenizers::Tokenizer, token: &str) -> (r: Option<u32>)
    ensures
        r == tokenizer_token_to_id(*tokenizer, token@),
{
    tokenizer.token_to_id(token)
}

/// The end-of-stream token id: the one the model's configuration names,
/// else the id of `default_token` in the tokenizer's vocabulary, if any.
pub fn end_of_stream_token(
    configured: Option<u32>,
    tokenizer: &tokenizers::Tokenizer,
    default_token: &str,
) -> (r: Option<u32>)
    ensures
        r == match configured {
            Some(id) => Some(id),
            None => tokenizer_token_to_id(*tokenizer, default_token@),
        },
{
    match configured {
        Some(id) => Some(id),
        None => tokenizer_token_id(tokenizer, default_token),
    }
}

/// `<|im_start|>`.
pub open spec fn im_start_token() -> Seq<char> {
    seq!['<', '|', 'i', 'm', '_', 's', 't', 'a', 'r', 't', '|', '>']
}

/// `<|im_end|>`.
pub open spec fn im_end_token() -> Seq<char> {
    seq!['<', '|', 'i', 'm', '_', 'e', 'n', 'd', '|', '>']
}

/// The encoder for the given special token ids: an error when
/// `<|im_start|>` (checked first) or `<|im_end|>` has no id.
pub open spec fn encoder_from_ids(
    image_token_id: u32,
    vision_start_token_id: u32,
    vision_end_token_id: u32,
    im_start_token_id: Option<u32>,
    im_end_token_id: Option<u32>,
) -> Result<PromptEncoder, PromptError> {
    match (im_start_token_id, im_end_token_id) {
        (Some(s), Some(e)) => Ok(
            PromptEncoder {
                image_token_id,
                vision_start_token_id,
                vision_end_token_id,
                im_start_token_id: s,
                im_end_token_id: e,
            },
        ),
        (None, _) => Err(PromptError::MissingImStart),
        (Some(_), None) => Err(PromptError::MissingImEnd),
    }
}

/// The tokenizer's encodings of the text pieces of `ps`, in order, or
/// `None` when it fails on one of them.
pub open spec fn text_encodings(tokenizer: tokenizers::Tokenizer, ps: Seq<PieceSpec>) -> Option<
    Seq<Seq<u32>>,
>
    decreases ps.len(),
{
    if ps.len() == 0 {
        Some(Seq::empty())
    } else {
        match text_encodings(tokenizer, ps.drop_last()) {
            None => None,
            Some(encs) => match ps.last() {
                PieceSpec::Text(t) => match tokenizer_encoding(tokenizer, t) {
                    Some(ids) => Some(encs.push(ids)),
                    None => None,
                },
                _ => Some(encs),
            },
        }
    }
}

/// Once the tokenizer fails on a prefix of the pieces, it fails on them all.
proof fn lemma_text_encodings_fail_extends(tokenizer: tokenizers::Tokenizer, ps: Seq<PieceSpec>, i: int)
    requires
        0 <= i <= ps.len(),
        text_encodings(tokenizer, ps.take(i)) is None,
    ensures
        text_encodings(tokenizer, ps) is None,
    decreases ps.len() - i,
{
    if i < ps.len() {
        assert(ps.take(i + 1).drop_last() =~= ps.take(i));
        lemma_text_encodings_fail_extends(tokenizer, ps, i + 1);
    } else {
        assert(ps.take(i) =~= ps);
    }
}

impl PromptEncoder {
    /// Builds an encoder from the ids of the special tokens; fails when the
    /// tokenizer has no `<|im_start|>` (checked first) or no `<|im_end|>`.
    pub fn from_special_token_ids(
        image_token_id: u32,
        vision_start_token_id: u32,
        vision_end_token_id: u32,
        im_start_token_id: Option<u32>,
        im_end_token_id: Option<u32>,
    ) -> (r: Result<PromptEncoder, PromptError>)
        ensures
            r == encoder_from_ids(
                image_token_id,
                vision_start_token_id,
                vision_end_token_id,
                im_start_token_id,
                im_end_token_id,
            ),
    {
        let im_start = match im_start_token_id {
            Some(s) => s,
            None => return Err(PromptError::MissingImStart),
        };
        let im_end = match im_end_token_id {
            Some(e) => e,
            None => return Err(PromptError::MissingImEnd),
        };
        Ok(
            PromptEncoder {
                image_token_id,
                vision_start_token_id,
                vision_end_token_id,
                im_start_token_id: im_start,
                im_end_token_id: im_end,
            },
        )
    }

    /// Builds an encoder, looking up `<|im_start|>` and `<|im_end|>` in the
    /// tokenizer.
    pub fn from_tokenizer(
        tokenizer: &tokenizers::Tokenizer,
        image_token_id: u32,
        vision_start_token_id: u32,
        vision_end_token_id: u32,
    ) -> (r: Result<PromptEncoder, PromptError>)
        ensures
            r == encoder_from_ids(
                image_token_id,
                vision_start_token_id,
                vision_end_token_id,
                tokenizer_token_to_id(*tokenizer, im_start_token()),
                tokenizer_token_to_id(*tokenizer, im_end_token()),
            ),
    {
        let start_token = "<|im_start|>";
        let end_token = "<|im_end|>";
        proof {
            reveal_strlit("<|im_start|>");
            reveal_strlit("<|im_end|>");
            assert(start_token@ =~= im_start_token());
            assert(end_token@ =~= im_end_token());
        }
        let im_start = tokenizer_token_id(tokenizer, start_token);
        let im_end = tokenizer_token_id(tokenizer, end_token);
        PromptEncoder::from_special_token_ids(
            image_token_id,
            vision_start_token_id,
            vision_end_token_id,
            im_start,
            im_end,
        )
    }

    /// Encodes messages into input ids, returning also the spans where the
    /// image placeholder tokens were inserted; the `i`-th image part gets
    /// `image_token_counts[i]` placeholders. The result is the layout of
    /// [`PromptEncoder::layout`] assembled by [`PromptEncoder::assemble`] with
    /// the tokenizer's encoding of each text piece. The pieces are encoded in
    /// order, so the first problem met decides the error: a text the
    /// tokenizer fails on, or an image without a count.
    pub fn encode(
        &self,
        tokenizer: &tokenizers::Tokenizer,
        messages: &[Message],
        image_token_counts: &[usize],
    ) -> (r: Result<(Vec<u32>, Vec<ImageSpan>), PromptError>)
        ensures
            r matches Ok(res) ==> prompt_layout(*self, messages@, image_token_counts@) matches Some(
                ps,
            ) && exists|encs: Seq<Seq<u32>>|
                encs.len() == text_count(ps) && #[trigger] assemble_spec(*self, ps, encs) == (
                    res.0@,
                    spans_view(res.1@),
                ),
            r matches Err(e) ==> e == PromptError::TokenizerFailure || e
                == PromptError::MissingImageTokenCount(image_token_counts.len()),
            prompt_layout(*self, messages@, image_token_counts@) is None ==> r is Err,
            tokenizer_deterministic(*tokenizer) && prompt_layout(*self, messages@, image_token_counts@) is None ==> r == (if text_encodings(
                *tokenizer,
                messages_prefix(*self, messages@, image_token_counts@),
            ) is None {
                Err::<(Vec<u32>, Vec<ImageSpan>), PromptError>(PromptError::TokenizerFailure)
            } else {
                Err::<(Vec<u32>, Vec<ImageSpan>), PromptError>(
                    PromptError::MissingImageTokenCount(image_token_counts.len()),
                )
            }),
            tokenizer_deterministic(*tokenizer) ==> (prompt_layout(*self, messages@, image_token_counts@) matches Some(ps) ==> match text_encodings(
                *tokenizer,
                ps,
            ) {
                None => r == Err::<(Vec<u32>, Vec<ImageSpan>), PromptError>(
                    PromptError::TokenizerFailure,
                ),
                Some(encs) => r matches Ok(res) && (res.0@, spans_view(res.1@)) == assemble_spec(
                    *self,
                    ps,
                    encs,
                ),
            }),
    {
        let (pieces, complete) = self.layout_pieces(messages, image_token_counts);
        let ghost pv = pieces_view(pieces@);
        let mut encoded: Vec<Vec<u32>> = Vec::new();
        let mut i: usize = 0;
        while i < pieces.len()
            invariant
                0 <= i <= pieces.len(),
                pv == pieces_view(pieces@),
                encoded.len() == text_count(pv.take(i as int)),
                tokenizer_deterministic(*tokenizer) ==> text_encodings(*tokenizer, pv.take(i as int))
                    == Some(encs_view(encoded@)),
                complete ==> prompt_layout(*self, messages@, image_token_counts@) == Some(pv),
                !complete ==> prompt_layout(*self, messages@, image_token_counts@) is None && pv
                    == messages_prefix(*self, messages@, image_token_counts@),
            decreases pieces.len() - i,
        {
            proof {
                assert(pv.take(i + 1).drop_last() == pv.take(i as int));
                assert(pv.take(i + 1).last() == pv[i as int]);
            }
            match &pieces[i] {
                PromptPiece::Text(s) => {
                    let ids = match tokenizer_encode(tokenizer, s.as_str()) {
                        Ok(ids) => ids,
                        Err(e) => {
                            proof {
                                if tokenizer_deterministic(*tokenizer) {
                                    lemma_text_encodings_fail_extends(*tokenizer, pv, i + 1);
                                }
                            }
                            return Err(e);
                        },
                    };
                    let ghost before = encoded@;
                    encoded.push(ids);
                    assert(encs_view(encoded@) =~= encs_view(before).push(encoded@.last()@));
                },
                _ => {},
            }
            i = i + 1;
        }
        assert(pv.take(pieces.len() as int) == pv);
        if !complete {
            return Err(PromptError::MissingImageTokenCount(image_token_counts.len()));
        }
        let (ids, spans) = self.assemble(&pieces, &encoded);
        assert(encs_view(encoded@).len() == text_count(pv));
        assert(assemble_spec(*self, pv, encs_view(encoded@)) == (ids@, spans_view(spans@)));
        Ok((ids, spans))
    }
}

} // verus!
