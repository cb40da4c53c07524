//! The prompt of a multimodal dialog: the number of placeholder tokens of
//! each image comes from its vision embeddings, the history is encoded with
//! those counts, and every image span is paired with its image's
//! embeddings for injection.

use vstd::prelude::*;

use candle_core::Tensor;

use crate::chat::Message;
use crate::embeds::{spans_fit, splice_ready};
use crate::prompt::{
    assemble_spec, lemma_encoded_prompt_spans, messages_image_count, messages_prefix,
    prompt_error_text, spans_well_placed, prompt_layout, spans_view, text_count, text_encodings,
    tokenizer_deterministic, ImageSpan, PromptEncoder, PromptError,
};
use crate::tensor::{
    dims3, squeeze, squeezed_dims, tensor_clone, tensor_dims, tensor_dtype, tensor_elems,
    tensor_on_cpu,
};
use crate::text::{chars_of, decimal, decimal_chars, extend_chars, string_from_chars};

verus! {

/// Why the prompt of a dialog could not be built.
#[derive(Debug)]
pub enum DialogError {
    /// An image's embeddings are not a tensor of three dimensions.
    Tensor(candle_core::Error),
    /// The history could not be encoded.
    Prompt(PromptError),
    /// The encoded prompt has `spans` image spans for `images` images.
    SpanCountMismatch { spans: usize, images: usize },
}

impl DialogError {
    /// The human-readable description of the error.
    pub fn message(&self) -> (r: String)
        ensures
            r@ == match *self {
                DialogError::Tensor(_) => "tensor operation failed"@,
                DialogError::Prompt(e) => prompt_error_text(e),
                DialogError::SpanCountMismatch { spans, images } => "internal error: spans "@
                    + decimal(spans as nat) + " != image_embeds "@ + decimal(images as nat),
            },
    {
        match self {
            DialogError::Tensor(_) => "tensor operation failed".to_owned(),
            DialogError::Prompt(e) => e.message(),
            DialogError::SpanCountMismatch { spans, images } => {
                let mut v = chars_of("internal error: spans ");
                extend_chars(&mut v, &decimal_chars(*spans as u64));
                extend_chars(&mut v, &chars_of(" != image_embeds "));
                extend_chars(&mut v, &decimal_chars(*images as u64));
                string_from_chars(v.as_slice())
            },
        }
    }
}

/// Every image's embeddings have three dimensions (`1 x n x hidden`).
pub open spec fn all_rank3(embeds: Seq<Tensor>) -> bool {
    forall|i: int| 0 <= i < embeds.len() ==> #[trigger] tensor_dims(embeds[i]).len() == 3
}

/// The number of placeholder tokens of each image: the second dimension of
/// its embeddings.
pub open spec fn embed_token_counts(embeds: Seq<Tensor>) -> Seq<usize> {
    embeds.map_values(|e: Tensor| tensor_dims(e)[1])
}

/// `u` is `e` with its leading dimension of size 1 removed
/// (`Tensor::squeeze(0)`).
pub open spec fn squeezed_from(u: Tensor, e: Tensor) -> bool {
    &&& tensor_dims(u) == squeezed_dims(tensor_dims(e), 0)
    &&& tensor_elems(u) == tensor_elems(e)
    &&& tensor_dtype(u) == tensor_dtype(e)
    &&& tensor_on_cpu(u) == tensor_on_cpu(e)
}

/// The spans of image/embedding pairs, as `(start, end)`.
pub open spec fn pair_spans(pairs: Seq<(ImageSpan, Tensor)>) -> Seq<(int, int)> {
    pairs.map_values(|p: (ImageSpan, Tensor)| (p.0.start as int, p.0.end as int))
}

/// What `PromptEncoder::encode` gives for a tokenizer that encodes
/// deterministically: a history whose layout fails is refused for the
/// first problem met (a text the tokenizer fails on, or an image without a
/// count); otherwise the ids and spans assembled from the encodings of the
/// text pieces, or the tokenizer's failure.
pub open spec fn encode_outcome(
    enc: PromptEncoder,
    tokenizer: tokenizers::Tokenizer,
    msgs: Seq<Message>,
    counts: Seq<usize>,
) -> Result<(Seq<u32>, Seq<(int, int)>), PromptError> {
    match prompt_layout(enc, msgs, counts) {
        None => if text_encodings(tokenizer, messages_prefix(enc, msgs, counts)) is None {
            Err(PromptError::TokenizerFailure)
        } else {
            Err(PromptError::MissingImageTokenCount(counts.len() as usize))
        },
        Some(ps) => match text_encodings(tokenizer, ps) {
            None => Err(PromptError::TokenizerFailure),
            Some(encs) => Ok(assemble_spec(enc, ps, encs)),
        },
    }
}

/// The prompt of a dialog whose images were encoded into `image_embeds`
/// (one `1 x n x hidden` tensor per image part, in conversation order):
/// image `i` gets `n` placeholder tokens, the history is encoded with these
/// counts, and each span is paired with its image's embeddings as an
/// `n x hidden` matrix, so every span holds as many placeholder tokens as
/// its embeddings have rows. Embeddings that are not three-dimensional are
/// a tensor error; more embeddings than image parts are refused.
pub fn dialog_prompt(
    encoder: &PromptEncoder,
    tokenizer: &tokenizers::Tokenizer,
    history: &[Message],
    image_embeds: &[Tensor],
) -> (r: Result<(Vec<u32>, Vec<(ImageSpan, Tensor)>), DialogError>)
    ensures
        !all_rank3(image_embeds@) <==> r matches Err(DialogError::Tensor(_)),
        r matches Err(DialogError::Prompt(e)) ==> e == PromptError::TokenizerFailure || e
            == PromptError::MissingImageTokenCount(image_embeds@.len() as usize),
        all_rank3(image_embeds@) && prompt_layout(
            *encoder,
            history@,
            embed_token_counts(image_embeds@),
        ) is None ==> r matches Err(DialogError::Prompt(_)),
        r matches Err(DialogError::SpanCountMismatch { spans, images }) ==> images
            == image_embeds@.len() && spans == messages_image_count(history@) && spans < images,
        r matches Ok((ids, pairs)) ==> {
            &&& all_rank3(image_embeds@)
            &&& pairs@.len() == image_embeds@.len()
            &&& pairs@.len() == messages_image_count(history@)
            &&& spans_well_placed(*encoder, ids@, pair_spans(pairs@))
            &&& forall|k: int|
                0 <= k < pairs@.len() ==> #[trigger] pair_spans(pairs@)[k].1 - pair_spans(pairs@)[k].0
                    == tensor_dims(image_embeds@[k])[1]
            &&& forall|i: int|
                0 <= i < pairs@.len() ==> squeezed_from(#[trigger] pairs@[i].1, image_embeds@[i])
            &&& prompt_layout(*encoder, history@, embed_token_counts(image_embeds@)) matches Some(
                ps,
            ) && exists|encs: Seq<Seq<u32>>|
                encs.len() == text_count(ps) && #[trigger] assemble_spec(*encoder, ps, encs) == (
                    ids@,
                    pair_spans(pairs@),
                )
        },
        tokenizer_deterministic(*tokenizer) && all_rank3(image_embeds@) ==> match encode_outcome(
            *encoder,
            *tokenizer,
            history@,
            embed_token_counts(image_embeds@),
        ) {
            Err(e) => r matches Err(DialogError::Prompt(pe)) && pe == e,
            Ok((ids, spans)) => if spans.len() != image_embeds@.len() {
                r matches Err(DialogError::SpanCountMismatch { spans: s, images: n }) && s
                    == spans.len() && n == image_embeds@.len()
            } else {
                r matches Ok((rids, pairs)) && rids@ == ids && pair_spans(pairs@) == spans
            },
        },
{
    let mut counts: Vec<usize> = Vec::new();
    let mut squeezed: Vec<Tensor> = Vec::new();
    let mut i: usize = 0;
    while i < image_embeds.len()
        invariant
            0 <= i <= image_embeds@.len(),
            counts@ == embed_token_counts(image_embeds@.take(i as int)),
            squeezed@.len() == i,
            forall|j: int| 0 <= j < i ==> #[trigger] tensor_dims(image_embeds@[j]).len() == 3,
            forall|j: int| 0 <= j < i ==> squeezed_from(#[trigger] squeezed@[j], image_embeds@[j]),
        decreases image_embeds@.len() - i,
    {
        let (_one, n, _hidden) = match dims3(&image_embeds[i]) {
            Ok(d) => d,
            Err(e) => return Err(DialogError::Tensor(e)),
        };
        let s = match squeeze(&image_embeds[i], 0) {
            Ok(s) => s,
            Err(e) => return Err(DialogError::Tensor(e)),
        };
        proof {
            assert(image_embeds@.take(i + 1) =~= image_embeds@.take(i as int).push(image_embeds@[i as int]));
        }
        counts.push(n);
        squeezed.push(s);
        i = i + 1;
    }
    proof {
        assert(image_embeds@.take(image_embeds@.len() as int) =~= image_embeds@);
        assert(counts@.len() == image_embeds@.len());
    }
    let (ids, spans) = match encoder.encode(tokenizer, history, counts.as_slice()) {
        Ok(res) => res,
        Err(e) => return Err(DialogError::Prompt(e)),
    };
    proof {
        let ps = prompt_layout(*encoder, history@, counts@)->Some_0;
        let encs = choose|encs: Seq<Seq<u32>>|
            encs.len() == text_count(ps) && #[trigger] assemble_spec(*encoder, ps, encs) == (
                ids@,
                spans_view(spans@),
            );
        lemma_encoded_prompt_spans(*encoder, history@, counts@, encs);
        assert(spans_view(spans@).len() == spans@.len());
    }
    if spans.len() != squeezed.len() {
        return Err(DialogError::SpanCountMismatch { spans: spans.len(), images: squeezed.len() });
    }
    let mut pairs: Vec<(ImageSpan, Tensor)> = Vec::new();
    let mut k: usize = 0;
    while k < spans.len()
        invariant
            0 <= k <= spans@.len(),
            spans@.len() == squeezed@.len(),
            pairs@.len() == k,
            forall|j: int| 0 <= j < k ==> (#[trigger] pairs@[j]).0 == spans@[j],
            forall|j: int| 0 <= j < k ==> (#[trigger] pairs@[j]).1 == squeezed@[j],
        decreases spans@.len() - k,
    {
        pairs.push((spans[k], tensor_clone(&squeezed[k])));
        k = k + 1;
    }
    proof {
        assert(pair_spans(pairs@) =~= spans_view(spans@));
        assert forall|k: int| 0 <= k < pairs@.len() implies #[trigger] pair_spans(pairs@)[k].1
            - pair_spans(pairs@)[k].0 == tensor_dims(image_embeds@[k])[1] by {
            assert(spans_view(spans@)[k].1 - spans_view(spans@)[k].0 == counts@[k]);
            assert(counts@[k] == embed_token_counts(image_embeds@)[k]);
        }
    }
    Ok((ids, pairs))
}

/// Law of a dialog's prompt and its images: when the prompt's embeddings
/// are a `1 x len x hidden` tensor for the `len` prompt ids, and every
/// image's embeddings are `1 x n x hidden` with the same element type, all
/// in main memory, the spans and embeddings that [`dialog_prompt`] pairs
/// up can be spliced into the prompt's embeddings
/// ([`crate::embeds::inject_image_embeddings`] succeeds on them).
pub proof fn lemma_dialog_spans_splice(
    enc: PromptEncoder,
    ids: Seq<u32>,
    pairs: Seq<(ImageSpan, Tensor)>,
    image_embeds: Seq<Tensor>,
    x: Tensor,
)
    requires
        spans_well_placed(enc, ids, pair_spans(pairs)),
        pairs.len() == image_embeds.len(),
        forall|i: int| 0 <= i < pairs.len() ==> squeezed_from(#[trigger] pairs[i].1, image_embeds[i]),
        forall|k: int|
            0 <= k < pairs.len() ==> #[trigger] pair_spans(pairs)[k].1 - pair_spans(pairs)[k].0
                == tensor_dims(image_embeds[k])[1],
        tensor_dims(x).len() == 3,
        tensor_dims(x)[0] == 1,
        tensor_dims(x)[1] == ids.len(),
        tensor_on_cpu(x),
        forall|i: int|
            0 <= i < image_embeds.len() ==> {
                let d = tensor_dims(#[trigger] image_embeds[i]);
                &&& d.len() == 3
                &&& d[0] == 1
                &&& d[2] == tensor_dims(x)[2]
                &&& tensor_dtype(image_embeds[i]) == tensor_dtype(x)
                &&& tensor_on_cpu(image_embeds[i])
            },
    ensures
        splice_ready(x, pairs),
{
    let xd = tensor_dims(x);
    assert forall|i: int| #![trigger pairs[i]] 0 <= i < pairs.len() implies {
        let (span, e) = pairs[i];
        &&& span.end <= xd[1]
        &&& tensor_dims(e) == seq![(span.end - span.start) as usize, xd[2]]
    } by {
        let sp = pair_spans(pairs);
        assert(sp[i] == (pairs[i].0.start as int, pairs[i].0.end as int));
        assert(1 <= sp[i].0 <= sp[i].1 < ids.len());
        assert(squeezed_from(pairs[i].1, image_embeds[i]));
        let d = tensor_dims(image_embeds[i]);
        assert(d.len() == 3 && d[0] == 1);
        assert(tensor_dims(pairs[i].1) == d.remove(0));
        assert(sp[i].1 - sp[i].0 == d[1]);
        assert(d.remove(0) =~= seq![(pairs[i].0.end - pairs[i].0.start) as usize, xd[2]]);
    }
    assert(spans_fit(pairs, xd));
    assert forall|i: int| #![trigger pairs[i]] 0 <= i < pairs.len() implies tensor_dtype(
        pairs[i].1,
    ) == tensor_dtype(x) && tensor_on_cpu(pairs[i].1) by {
        assert(squeezed_from(pairs[i].1, image_embeds[i]));
        assert(tensor_dims(image_embeds[i]).len() == 3);
    }
}

} // verus!
