//! Token generation bookkeeping shared by the model backends: which tokens
//! each forward pass feeds and at which cache position, how the transformer
//! blocks are grouped into local and remote batches, and layer naming.

use vstd::prelude::*;

use crate::text::{chars_of, decimal, decimal_chars, extend_chars, string_from_chars};

verus! {

/// What one forward pass feeds to the model.
#[derive(Debug, Clone, Copy, PartialEq, Eq, Structural)]
pub struct StepPlan {
    /// The first token fed: the pass feeds `tokens[context_offset..]`.
    pub context_offset: usize,
    /// The cache position of the first token fed.
    pub context_index: usize,
    /// Whether image embeddings are injected (the full prefill pass only).
    pub inject_images: bool,
}

/// The generation state of a conversation: the prompt and generated tokens,
/// the cache position of the next token to feed, and how many tokens were
/// generated.
pub struct GenerationState {
    pub tokens: Vec<u32>,
    pub index_pos: usize,
    pub generated: usize,
}

/// The plan of a forward pass over `num_tokens` tokens: with the KV cache
/// and after the first pass (`index > 0`) only the last token is fed, at
/// `index_pos`; otherwise all tokens are fed from position 0. Images are
/// injected only when the whole prompt is fed from the start.
pub open spec fn step_plan_spec(num_tokens: nat, index_pos: nat, use_kv_cache: bool, index: nat) -> StepPlan {
    let (context_size, context_index) = if use_kv_cache && index > 0 {
        (1nat, index_pos)
    } else {
        (num_tokens, 0nat)
    };
    let offset = if num_tokens >= context_size {
        (num_tokens - context_size) as nat
    } else {
        0nat
    };
    StepPlan {
        context_offset: offset as usize,
        context_index: context_index as usize,
        inject_images: index_pos == 0 && context_index == 0 && context_size == num_tokens,
    }
}

impl GenerationState {
    /// A state with no tokens, at position 0, nothing generated.
    pub fn new() -> (r: GenerationState)
        ensures
            r.tokens@.len() == 0,
            r.index_pos == 0,
            r.generated == 0,
    {
        GenerationState { tokens: Vec::new(), index_pos: 0, generated: 0 }
    }

    /// Forgets the conversation.
    pub fn reset(&mut self)
        ensures
            final(self).tokens@.len() == 0,
            final(self).index_pos == 0,
            final(self).generated == 0,
    {
        self.tokens = Vec::new();
        self.index_pos = 0;
        self.generated = 0;
    }

    /// Whether the next step must first encode the prompt (nothing was
    /// generated yet).
    pub fn needs_prompt(&self) -> (r: bool)
        ensures
            r == (self.generated == 0),
    {
        self.generated == 0
    }

    /// Starts over from the encoded prompt, at position 0.
    pub fn start_prompt(&mut self, prompt: Vec<u32>)
        ensures
            final(self).tokens@ == prompt@,
            final(self).index_pos == 0,
            final(self).generated == old(self).generated,
    {
        self.tokens = prompt;
        self.index_pos = 0;
    }

    /// The plan of the next forward pass (`index` counts the passes of the
    /// current answer, from 0).
    pub fn plan_step(&self, use_kv_cache: bool, index: usize) -> (r: StepPlan)
        ensures
            r == step_plan_spec(
                self.tokens@.len(),
                self.index_pos as nat,
                use_kv_cache,
                index as nat,
            ),
            r.context_offset <= self.tokens@.len(),
            self.index_pos == 0 && (!use_kv_cache || index == 0) ==> r.context_offset == 0
                && r.context_index == 0 && r.inject_images,
            r.inject_images ==> self.index_pos == 0 && r.context_offset == 0 && r.context_index == 0,
    {
        proof {
            lemma_image_injection(self.tokens@.len(), self.index_pos as nat, use_kv_cache, index as nat);
        }
        let num_tokens = self.tokens.len();
        let (context_size, context_index) = if use_kv_cache && index > 0 {
            (1, self.index_pos)
        } else {
            (num_tokens, 0)
        };
        let context_offset = num_tokens.saturating_sub(context_size);
        StepPlan {
            context_offset,
            context_index,
            inject_images: self.index_pos == 0 && context_index == 0 && context_size == num_tokens,
        }
    }

    /// Advances the cache position past the tokens a pass fed.
    pub fn advance_position(&mut self, plan: StepPlan)
        requires
            plan.context_offset <= old(self).tokens@.len(),
            old(self).index_pos + (old(self).tokens@.len() - plan.context_offset) <= usize::MAX,
        ensures
            final(self).index_pos == old(self).index_pos + (old(self).tokens@.len()
                - plan.context_offset),
            final(self).tokens@ == old(self).tokens@,
            final(self).generated == old(self).generated,
    {
        self.index_pos = self.index_pos + (self.tokens.len() - plan.context_offset);
    }

    /// Records a sampled token.
    pub fn record_token(&mut self, token: u32)
        requires
            old(self).generated < usize::MAX,
        ensures
            final(self).tokens@ == old(self).tokens@.push(token),
            final(self).generated == old(self).generated + 1,
            final(self).index_pos == old(self).index_pos,
    {
        self.generated = self.generated + 1;
        self.tokens.push(token);
    }

    /// The bookkeeping of one generated token: the pass that `plan_step`
    /// plans for `use_kv_cache` and `index` has fed
    /// `tokens[context_offset..]`, so the cache position moves past those
    /// tokens; then the sampled token is recorded, and the result says
    /// whether it ends the answer.
    pub fn finish_step(&mut self, use_kv_cache: bool, index: usize, token: u32, eos_token_id: Option<u32>) -> (end: bool)
        requires
            old(self).index_pos + (old(self).tokens@.len() - step_plan_spec(
                old(self).tokens@.len(),
                old(self).index_pos as nat,
                use_kv_cache,
                index as nat,
            ).context_offset) <= usize::MAX,
            old(self).generated < usize::MAX,
        ensures
            final(self).index_pos == old(self).index_pos + (old(self).tokens@.len() - step_plan_spec(
                old(self).tokens@.len(),
                old(self).index_pos as nat,
                use_kv_cache,
                index as nat,
            ).context_offset),
            final(self).tokens@ == old(self).tokens@.push(token),
            final(self).generated == old(self).generated + 1,
            end == (eos_token_id == Some(token)),
    {
        let plan = self.plan_step(use_kv_cache, index);
        self.advance_position(plan);
        self.record_token(token);
        is_end_of_stream(token, eos_token_id)
    }

    /// Where the repeat penalty window starts: the last `repeat_last_n`
    /// tokens (all of them if there are fewer).
    pub fn repeat_penalty_start(&self, repeat_last_n: usize) -> (r: usize)
        ensures
            r == (if self.tokens@.len() >= repeat_last_n {
                (self.tokens@.len() - repeat_last_n) as usize
            } else {
                0usize
            }),
    {
        self.tokens.len().saturating_sub(repeat_last_n)
    }
}

/// Whether `token` ends the answer.
pub fn is_end_of_stream(token: u32, eos_token_id: Option<u32>) -> (r: bool)
    ensures
        r == (eos_token_id == Some(token)),
{
    match eos_token_id {
        Some(e) => e == token,
        None => false,
    }
}

/// Law of image injection: a pass injects the image embeddings exactly when
/// nothing is cached yet (position 0) and it feeds the whole prompt from
/// position 0, which is every pass at position 0 without the KV cache, the
/// first pass with it, and any pass at position 0 over a single token. An
/// injecting pass feeds all tokens from position 0.
pub proof fn lemma_image_injection(num_tokens: nat, index_pos: nat, use_kv_cache: bool, index: nat)
    ensures
        step_plan_spec(num_tokens, index_pos, use_kv_cache, index).inject_images <==> (index_pos == 0
            && (!use_kv_cache || index == 0 || num_tokens == 1)),
        step_plan_spec(num_tokens, index_pos, use_kv_cache, index).inject_images ==> step_plan_spec(
            num_tokens,
            index_pos,
            use_kv_cache,
            index,
        ).context_offset == 0 && step_plan_spec(num_tokens, index_pos, use_kv_cache, index).context_index
            == 0,
        index_pos == 0 && (!use_kv_cache || index == 0) ==> {
            let plan = step_plan_spec(num_tokens, index_pos, use_kv_cache, index);
            &&& plan.context_offset == 0
            &&& plan.context_index == 0
            &&& plan.inject_images
        },
{
}

/// Law of generation with the KV cache: the prefill pass feeds the whole
/// prompt from position 0 (with images), every later pass feeds just the
/// last token at the position right after what the cache holds, and after
/// each pass the position equals the number of tokens run through the
/// model, which is all the tokens known before the pass.
pub proof fn lemma_kv_cache_positions(num_tokens: nat, index_pos: nat, index: nat)
    requires
        num_tokens >= 1,
        num_tokens <= usize::MAX,
        index_pos <= usize::MAX,
        index == 0 ==> index_pos == 0,
        index > 0 ==> index_pos + 1 == num_tokens && index_pos > 0,
    ensures
        ({
            let plan = step_plan_spec(num_tokens, index_pos, true, index);
            let fed = num_tokens - plan.context_offset;
            &&& index == 0 ==> plan.context_offset == 0 && plan.context_index == 0
                && plan.inject_images
            &&& index > 0 ==> fed == 1 && plan.context_index == index_pos && !plan.inject_images
            &&& index_pos + fed == num_tokens
        }),
{
    let plan = step_plan_spec(num_tokens, index_pos, true, index);
    if index == 0 {
        assert(plan.context_offset == 0);
        assert(plan.context_index == 0);
    } else {
        assert(plan.context_offset == num_tokens - 1);
        assert(plan.context_index == index_pos);
    }
}

/// The tokens known and the cache position after `n` passes of a generation
/// with the KV cache that started from a prompt of `p` tokens: each pass is
/// planned by [`step_plan_spec`], advances the position past what it fed
/// and records one sampled token.
pub open spec fn kv_generation(p: nat, n: nat) -> (nat, nat)
    decreases n,
{
    if n == 0 {
        (p, 0)
    } else {
        let (len, pos) = kv_generation(p, (n - 1) as nat);
        let plan = step_plan_spec(len, pos, true, (n - 1) as nat);
        (len + 1, pos + (len - plan.context_offset) as nat)
    }
}

/// Law of a whole generation with the KV cache: after `n >= 1` passes over
/// a prompt of `p >= 1` tokens, `p + n` tokens are known and the cache
/// holds every one of them but the newest.
pub proof fn lemma_kv_generation(p: nat, n: nat)
    requires
        p >= 1,
        n >= 1,
        p + n <= usize::MAX,
    ensures
        kv_generation(p, n) == (p + n, (p + n - 1) as nat),
    decreases n,
{
    let prev = kv_generation(p, (n - 1) as nat);
    if n > 1 {
        lemma_kv_generation(p, (n - 1) as nat);
        assert(prev.0 == p + n - 1 && prev.1 == p + n - 2);
    } else {
        assert(prev.0 == p && prev.1 == 0);
    }
    let plan = step_plan_spec(prev.0, prev.1, true, (n - 1) as nat);
    if n > 1 {
        assert(plan.context_offset == p + n - 2);
    } else {
        assert(plan.context_offset == 0);
    }
    assert(kv_generation(p, n) == (prev.0 + 1, prev.1 + (prev.0 - plan.context_offset) as nat));
}

/// Law of generation without the KV cache: every pass feeds all tokens
/// from position 0.
pub proof fn lemma_no_cache_feeds_all(num_tokens: nat, index_pos: nat, index: nat)
    ensures
        step_plan_spec(num_tokens, index_pos, false, index).context_offset == 0,
        step_plan_spec(num_tokens, index_pos, false, index).context_index == 0,
{
}

/// A contiguous run of transformer blocks executed by one call: a single
/// local block, or consecutive blocks served by the same remote worker.
#[derive(Debug, Clone, Copy, PartialEq, Eq, Structural)]
pub struct BlockRun {
    pub first: usize,
    pub len: usize,
}

pub open spec fn local_ident() -> Seq<char> {
    seq!['l', 'o', 'c', 'a', 'l']
}

/// The runs cover the blocks `0..n` in order without gaps; a local block is
/// a run of its own; a remote run holds blocks of one worker and is not
/// followed by another block of that worker.
pub open spec fn runs_partition(idents: Seq<Seq<char>>, runs: Seq<BlockRun>) -> bool {
    &&& forall|k: int| 0 <= k < runs.len() ==> #[trigger] runs[k].len >= 1
    &&& runs.len() > 0 ==> runs[0].first == 0
    &&& forall|k: int|
        0 <= k < runs.len() - 1 ==> #[trigger] runs[k + 1].first == runs[k].first + runs[k].len
    &&& (if runs.len() == 0 {
        idents.len() == 0
    } else {
        runs.last().first + runs.last().len == idents.len()
    })
    &&& forall|k: int, j: int|
        #![trigger runs[k], idents[j]]
        0 <= k < runs.len() && runs[k].first <= j < runs[k].first + runs[k].len ==> idents[j]
            == idents[runs[k].first as int]
    &&& forall|k: int|
        0 <= k < runs.len() && idents[#[trigger] runs[k].first as int] == local_ident()
            ==> runs[k].len == 1
    &&& forall|k: int|
        #![trigger runs[k]]
        0 <= k < runs.len() && idents[runs[k].first as int] != local_ident() && runs[k].first
            + runs[k].len < idents.len() ==> idents[runs[k].first + runs[k].len]
            != idents[runs[k].first as int]
}

pub open spec fn idents_view(idents: Seq<String>) -> Seq<Seq<char>> {
    idents.map_values(|s: String| s@)
}

fn string_eq(a: &String, b: &String) -> (r: bool)
    ensures
        r == (a@ == b@),
{
    *a == *b
}

/// Groups the blocks for execution by who serves them (`local` or a
/// worker's identity).
pub fn plan_block_runs(idents: &[String]) -> (r: Vec<BlockRun>)
    ensures
        runs_partition(idents_view(idents@), r@),
{
    let ghost iv = idents_view(idents@);
    let local = String::from_str("local");
    proof {
        reveal_strlit("local");
        assert(local@ =~= local_ident());
    }
    let n = idents.len();
    let mut runs: Vec<BlockRun> = Vec::new();
    let mut i: usize = 0;
    while i < n
        invariant
            n == idents@.len(),
            iv == idents_view(idents@),
            iv.len() == n,
            local@ == local_ident(),
            0 <= i <= n,
            forall|k: int| 0 <= k < runs@.len() ==> #[trigger] runs@[k].len >= 1,
            runs@.len() > 0 ==> runs@[0].first == 0,
            forall|k: int|
                0 <= k < runs@.len() - 1 ==> #[trigger] runs@[k + 1].first == runs@[k].first
                    + runs@[k].len,
            runs@.len() == 0 ==> i == 0,
            runs@.len() > 0 ==> runs@.last().first + runs@.last().len == i,
            forall|k: int, j: int|
                #![trigger runs@[k], iv[j]]
                0 <= k < runs@.len() && runs@[k].first <= j < runs@[k].first + runs@[k].len
                    ==> iv[j] == iv[runs@[k].first as int],
            forall|k: int|
                0 <= k < runs@.len() && iv[#[trigger] runs@[k].first as int] == local_ident()
                    ==> runs@[k].len == 1,
            forall|k: int|
                #![trigger runs@[k]]
                0 <= k < runs@.len() && iv[runs@[k].first as int] != local_ident()
                    && runs@[k].first + runs@[k].len < n ==> iv[runs@[k].first + runs@[k].len]
                    != iv[runs@[k].first as int],
        decreases n - i,
    {
        let ghost old_runs = runs@;
        if string_eq(&idents[i], &local) {
            runs.push(BlockRun { first: i, len: 1 });
            i = i + 1;
        } else {
            let mut j = i + 1;
            while j < n && string_eq(&idents[j], &idents[i])
                invariant
                    n == idents@.len(),
                    iv == idents_view(idents@),
                    i < j <= n,
                    forall|t: int| i <= t < j ==> iv[t] == iv[i as int],
                decreases n - j,
            {
                j = j + 1;
            }
            runs.push(BlockRun { first: i, len: j - i });
            i = j;
        }
        assert(runs@.len() == old_runs.len() + 1);
        assert forall|k: int| 0 <= k < old_runs.len() implies #[trigger] runs@[k] == old_runs[k] by {}
    }
    runs
}

/// The name of transformer block `i` of a Llama checkpoint: `model.layers.{i}`.
pub open spec fn llama_layer_name_spec(i: nat) -> Seq<char> {
    seq!['m', 'o', 'd', 'e', 'l', '.', 'l', 'a', 'y', 'e', 'r', 's', '.'] + decimal(i)
}

/// The name of text block `i` of a Qwen3-VL checkpoint:
/// `model.language_model.layers.{i}`.
pub open spec fn qwen3_vl_layer_name_spec(i: nat) -> Seq<char> {
    seq![
        'm', 'o', 'd', 'e', 'l', '.', 'l', 'a', 'n', 'g', 'u', 'a', 'g', 'e', '_', 'm', 'o', 'd',
        'e', 'l', '.', 'l', 'a', 'y', 'e', 'r', 's', '.',
    ] + decimal(i)
}

/// `model.layers.{i}`.
pub fn llama_layer_name(i: usize) -> (r: String)
    ensures
        r@ == llama_layer_name_spec(i as nat),
{
    let mut v = chars_of("model.layers.");
    proof {
        reveal_strlit("model.layers.");
    }
    extend_chars(&mut v, &decimal_chars(i as u64));
    assert(v@ =~= llama_layer_name_spec(i as nat));
    string_from_chars(v.as_slice())
}

/// `model.language_model.layers.{i}`.
pub fn qwen3_vl_layer_name(i: usize) -> (r: String)
    ensures
        r@ == qwen3_vl_layer_name_spec(i as nat),
{
    let mut v = chars_of("model.language_model.layers.");
    proof {
        reveal_strlit("model.language_model.layers.");
    }
    extend_chars(&mut v, &decimal_chars(i as u64));
    assert(v@ =~= qwen3_vl_layer_name_spec(i as nat));
    string_from_chars(v.as_slice())
}

} // verus!
