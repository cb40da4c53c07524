//! Where image features meet the language model, stated on tensor shapes and elements:
//! splicing each image's embeddings over its placeholder tokens, and
//! merging neighbouring vision patches before projection.

use vstd::prelude::*;

use candle_core::Tensor;

use crate::prompt::ImageSpan;
use crate::text::{chars_of, decimal, decimal_chars, extend_chars, string_from_chars};
use crate::tensor::{
    cat2, cat_elems, contiguous, dims3, elem_count, lemma_elem_count_3, lemma_elem_count_4,
    lemma_elem_count_6, narrow, narrow_elems, reshape,
    swap_adjacent_elems, tensor_clone, tensor_dims, tensor_dtype, tensor_elems, tensor_on_cpu,
    transpose, unsqueeze,
};

verus! {

/// Why image features could not be placed.
#[derive(Debug)]
pub enum EmbedError {
    /// An image's embeddings have `rows` rows where its span has a
    /// different number of tokens.
    LengthMismatch { span: ImageSpan, rows: usize },
    /// A span ends after the last of the `seq` tokens.
    SpanOutOfRange { span: ImageSpan, seq: usize },
    /// The `seq` vision tokens are not an `hp x wp` patch grid.
    GridMismatch { seq: usize, hp: usize, wp: usize },
    /// The patch grid does not divide into `m x m` blocks.
    GridNotDivisible { hp: usize, wp: usize, m: usize },
    /// The merged hidden size does not fit in a `usize`.
    ShapeOverflow,
    /// A tensor operation failed.
    Tensor(candle_core::Error),
}

/// The length of a span, or 0 for one that ends before it starts.
pub open spec fn span_len(span: ImageSpan) -> nat {
    if span.end >= span.start {
        (span.end - span.start) as nat
    } else {
        0
    }
}

/// Appends the decimal digits of `n`.
fn push_decimal(v: &mut Vec<char>, n: usize)
    ensures
        final(v)@ == old(v)@ + decimal(n as nat),
{
    extend_chars(v, &decimal_chars(n as u64));
}

impl EmbedError {
    /// The human-readable description of the error.
    pub fn message(&self) -> (r: String)
        ensures
            r@ == match *self {
                EmbedError::LengthMismatch { span, .. } => "image embeds length mismatch, span "@
                    + decimal(span.start as nat) + seq!['.', '.'] + decimal(span.end as nat)
                    + " expects "@ + decimal(span_len(span)),
                EmbedError::SpanOutOfRange { .. } => "image span ends past the sequence"@,
                EmbedError::GridMismatch { seq, hp, wp } => "spatial_merge: seq "@ + decimal(seq as nat)
                    + " != hp*wp "@ + decimal(hp as nat) + seq!['*'] + decimal(wp as nat),
                EmbedError::GridNotDivisible { hp, wp, m } => "spatial_merge: patch grid "@
                    + decimal(hp as nat) + seq!['x'] + decimal(wp as nat)
                    + " not divisible by merge size "@ + decimal(m as nat),
                EmbedError::ShapeOverflow => "spatial_merge: merged hidden size does not fit"@,
                EmbedError::Tensor(_) => "tensor operation failed"@,
            },
    {
        match self {
            EmbedError::LengthMismatch { span, .. } => {
                let mut v = chars_of("image embeds length mismatch, span ");
                push_decimal(&mut v, span.start);
                v.push('.');
                v.push('.');
                push_decimal(&mut v, span.end);
                extend_chars(&mut v, &chars_of(" expects "));
                let n: usize = if span.end >= span.start {
                    span.end - span.start
                } else {
                    0
                };
                push_decimal(&mut v, n);
                string_from_chars(v.as_slice())
            },
            EmbedError::SpanOutOfRange { .. } => "image span ends past the sequence".to_owned(),
            EmbedError::GridMismatch { seq, hp, wp } => {
                let mut v = chars_of("spatial_merge: seq ");
                push_decimal(&mut v, *seq);
                extend_chars(&mut v, &chars_of(" != hp*wp "));
                push_decimal(&mut v, *hp);
                v.push('*');
                push_decimal(&mut v, *wp);
                string_from_chars(v.as_slice())
            },
            EmbedError::GridNotDivisible { hp, wp, m } => {
                let mut v = chars_of("spatial_merge: patch grid ");
                push_decimal(&mut v, *hp);
                v.push('x');
                push_decimal(&mut v, *wp);
                extend_chars(&mut v, &chars_of(" not divisible by merge size "));
                push_decimal(&mut v, *m);
                string_from_chars(v.as_slice())
            },
            EmbedError::ShapeOverflow => "spatial_merge: merged hidden size does not fit".to_owned(),
            EmbedError::Tensor(_) => "tensor operation failed".to_owned(),
        }
    }
}

/// Every span's tokens are replaced: its embeddings are a matrix with one
/// row per token of the span and the hidden size of `x`, and the span lies
/// within the sequence.
pub open spec fn spans_fit(spans: Seq<(ImageSpan, Tensor)>, x: Seq<usize>) -> bool {
    forall|i: int|
        #![trigger spans[i]]
        0 <= i < spans.len() ==> {
            let (span, e) = spans[i];
            &&& span.end <= x[1]
            &&& tensor_dims(e) == seq![(span.end - span.start) as usize, x[2]]
        }
}

/// The elements of the prompt embeddings `xe` (shape `xd`) after one
/// splice: the rows before `span`, the image's embeddings `ee` (shape `ed`,
/// taken as one batch), then the rows from the span's end on.
pub open spec fn splice_elems(
    xe: Seq<Seq<u8>>,
    xd: Seq<usize>,
    span: ImageSpan,
    ee: Seq<Seq<u8>>,
    ed: Seq<usize>,
) -> Seq<Seq<u8>> {
    let before_d = xd.update(1, span.start);
    let e_d = ed.insert(0, 1usize);
    let head = cat_elems(narrow_elems(xe, xd, 1, 0, span.start as int), ee, before_d, e_d, 1);
    let head_d = before_d.update(1, (before_d[1] + e_d[1]) as usize);
    let after_d = xd.update(1, (xd[1] - span.end) as usize);
    cat_elems(head, narrow_elems(xe, xd, 1, span.end as int, xd[1] - span.end), head_d, after_d, 1)
}

/// The elements of the prompt embeddings `xe` (shape `xd`) after splicing
/// every image of `spans`, in order.
pub open spec fn spliced_elems(xe: Seq<Seq<u8>>, xd: Seq<usize>, spans: Seq<(ImageSpan, Tensor)>) -> Seq<
    Seq<u8>,
>
    decreases spans.len(),
{
    if spans.len() == 0 {
        xe
    } else {
        splice_elems(
            spliced_elems(xe, xd, spans.drop_last()),
            xd,
            spans.last().0,
            tensor_elems(spans.last().1),
            tensor_dims(spans.last().1),
        )
    }
}

/// Everything splicing needs: a single batch of embeddings, spans that fit
/// with matrices of the right size, one element type, all in main memory.
pub open spec fn splice_ready(x: Tensor, spans: Seq<(ImageSpan, Tensor)>) -> bool {
    &&& tensor_dims(x).len() == 3
    &&& tensor_dims(x)[0] == 1
    &&& spans_fit(spans, tensor_dims(x))
    &&& tensor_on_cpu(x)
    &&& forall|i: int|
        #![trigger spans[i]]
        0 <= i < spans.len() ==> tensor_dtype(spans[i].1) == tensor_dtype(x) && tensor_on_cpu(
            spans[i].1,
        )
}

/// Replaces, for each image span of the prompt embeddings `x`
/// (`1 x seq x hidden`), the embeddings of the span's placeholder tokens by
/// the image's embeddings (`n x hidden`, `n` the span's length). Spans are
/// applied in order.
pub fn inject_image_embeddings(x: &Tensor, spans: &[(ImageSpan, Tensor)]) -> (r: Result<
    Tensor,
    EmbedError,
>)
    requires
        forall|i: int| 0 <= i < spans@.len() ==> (#[trigger] spans@[i]).0.start <= spans@[i].0.end,
    ensures
        tensor_dims(*x).len() != 3 ==> r matches Err(EmbedError::Tensor(_)),
        r matches Ok(out) ==> tensor_dims(out) == tensor_dims(*x) && spans_fit(spans@, tensor_dims(*x))
            && tensor_elems(out) == spliced_elems(tensor_elems(*x), tensor_dims(*x), spans@),
        splice_ready(*x, spans@) ==> r is Ok,
        r matches Err(EmbedError::LengthMismatch { span, rows }) ==> exists|i: int|
            0 <= i < spans@.len() && (#[trigger] spans@[i]).0 == span && tensor_dims(spans@[i].1).len()
                == 2 && tensor_dims(spans@[i].1)[0] == rows && rows != span.end - span.start,
        r matches Err(EmbedError::SpanOutOfRange { span, seq }) ==> exists|i: int|
            0 <= i < spans@.len() && (#[trigger] spans@[i]).0 == span && seq == tensor_dims(*x)[1]
                && span.end > seq,
        !(r matches Err(EmbedError::GridMismatch { .. })),
        !(r matches Err(EmbedError::GridNotDivisible { .. })),
        !(r matches Err(EmbedError::ShapeOverflow)),
{
    let (_b, seq, _h) = match dims3(x) {
        Ok(d) => d,
        Err(e) => return Err(EmbedError::Tensor(e)),
    };
    let ghost xd = tensor_dims(*x);
    let mut out = tensor_clone(x);
    let mut k: usize = 0;
    while k < spans.len()
        invariant
            0 <= k <= spans@.len(),
            xd == tensor_dims(*x),
            xd == seq![_b, seq, _h],
            tensor_dims(out) == xd,
            spans_fit(spans@.take(k as int), xd),
            tensor_elems(out) == spliced_elems(tensor_elems(*x), xd, spans@.take(k as int)),
            tensor_dtype(out) == tensor_dtype(*x),
            tensor_on_cpu(out) == tensor_on_cpu(*x),
            forall|i: int| 0 <= i < spans@.len() ==> (#[trigger] spans@[i]).0.start <= spans@[i].0.end,
        decreases spans@.len() - k,
    {
        let span = spans[k].0;
        let embeds = &spans[k].1;
        let n = span.end - span.start;
        let ghost prev = out;
        proof {
            if splice_ready(*x, spans@) {
                assert(spans@[k as int].0.end <= xd[1]);
                assert(tensor_dims(spans@[k as int].1) == seq![n, xd[2]]);
                assert(tensor_dtype(spans@[k as int].1) == tensor_dtype(*x));
                assert(tensor_on_cpu(spans@[k as int].1));
            }
        }
        let e = match unsqueeze(embeds, 0) {
            Ok(t) => t,
            Err(err) => return Err(EmbedError::Tensor(err)),
        };
        let (_one, rows, _eh) = match dims3(&e) {
            Ok(d) => d,
            Err(err) => return Err(EmbedError::Tensor(err)),
        };
        proof {
            let ed = tensor_dims(*embeds);
            assert(tensor_dims(e) == ed.insert(0, 1usize));
            assert(ed.len() == 2);
            assert(ed =~= seq![rows, _eh]);
        }
        if rows != n {
            return Err(EmbedError::LengthMismatch { span, rows });
        }
        let before = match narrow(&out, 1, 0, span.start) {
            Ok(t) => t,
            Err(err) => return Err(EmbedError::Tensor(err)),
        };
        if span.end > seq {
            return Err(EmbedError::SpanOutOfRange { span, seq });
        }
        let after = match narrow(&out, 1, span.end, seq - span.end) {
            Ok(t) => t,
            Err(err) => return Err(EmbedError::Tensor(err)),
        };
        let head = match cat2(&before, &e, 1) {
            Ok(t) => t,
            Err(err) => return Err(EmbedError::Tensor(err)),
        };
        out = match cat2(&head, &after, 1) {
            Ok(t) => t,
            Err(err) => return Err(EmbedError::Tensor(err)),
        };
        proof {
            assert(tensor_dims(out) =~= xd);
            assert(tensor_dims(*embeds) =~= seq![n, xd[2]]);
            assert(spans@.take(k + 1) =~= spans@.take(k as int).push(spans@[k as int]));
            assert(spans@.take(k + 1).drop_last() =~= spans@.take(k as int));
            assert(tensor_elems(out) == splice_elems(
                tensor_elems(prev),
                xd,
                span,
                tensor_elems(*embeds),
                tensor_dims(*embeds),
            ));
        }
        k = k + 1;
    }
    proof {
        assert(spans@.take(spans@.len() as int) =~= spans@);
    }
    Ok(out)
}

/// Merges each `m x m` block of neighbouring patches of an `hp x wp` patch
/// grid into one token: `x` (`b x hp*wp x hidden`, grid in row-major order)
/// becomes `b x (hp/m)*(wp/m) x hidden*m*m`. With `m` = 1, `x` itself.
pub fn spatial_merge(x: &Tensor, hp: usize, wp: usize, m: usize) -> (r: Result<Tensor, EmbedError>)
    requires
        m > 0,
    ensures
        tensor_dims(*x).len() != 3 ==> r matches Err(EmbedError::Tensor(_)),
        tensor_dims(*x).len() == 3 ==> {
            let d = tensor_dims(*x);
            &&& d[1] != hp * wp ==> r == Err::<Tensor, EmbedError>(
                EmbedError::GridMismatch { seq: d[1], hp, wp },
            )
            &&& d[1] == hp * wp && m == 1 ==> r == Ok::<Tensor, EmbedError>(*x)
            &&& d[1] == hp * wp && m != 1 && (hp % m != 0 || wp % m != 0) ==> r == Err::<
                Tensor,
                EmbedError,
            >(EmbedError::GridNotDivisible { hp, wp, m })
            &&& r matches Err(EmbedError::ShapeOverflow) ==> d[2] * m * m > usize::MAX
        },
        r matches Ok(t) ==> tensor_dims(t) == seq![
            tensor_dims(*x)[0],
            ((hp / m) * (wp / m)) as usize,
            (tensor_dims(*x)[2] * m * m) as usize,
        ],
        m != 1 ==> (r matches Ok(t) ==> tensor_elems(t) == swap_adjacent_elems(
            tensor_elems(*x),
            seq![tensor_dims(*x)[0], hp / m, m, wp / m, m, tensor_dims(*x)[2]],
            2,
        )),
        ({
            let d = tensor_dims(*x);
            &&& d.len() == 3
            &&& d[1] == hp * wp
            &&& m > 1
            &&& hp % m == 0
            &&& wp % m == 0
            &&& d[2] * m * m <= usize::MAX
            &&& tensor_on_cpu(*x)
        }) ==> r is Ok,
        !(r matches Err(EmbedError::LengthMismatch { .. })),
        !(r matches Err(EmbedError::SpanOutOfRange { .. })),
{
    let (b, seq, hidden) = match dims3(x) {
        Ok(d) => d,
        Err(e) => return Err(EmbedError::Tensor(e)),
    };
    match hp.checked_mul(wp) {
        Some(g) => {
            if g != seq {
                return Err(EmbedError::GridMismatch { seq, hp, wp });
            }
        },
        None => return Err(EmbedError::GridMismatch { seq, hp, wp }),
    }
    if m == 1 {
        proof {
            assert(hidden * m * m == hidden) by (nonlinear_arith)
                requires
                    m == 1,
            ;
            assert((hp / m) * (wp / m) == hp * wp) by (nonlinear_arith)
                requires
                    m == 1,
            ;
        }
        return Ok(tensor_clone(x));
    }
    if hp % m != 0 || wp % m != 0 {
        return Err(EmbedError::GridNotDivisible { hp, wp, m });
    }
    let merged_hidden = match hidden.checked_mul(m) {
        Some(hm) => match hm.checked_mul(m) {
            Some(v) => v,
            None => return Err(EmbedError::ShapeOverflow),
        },
        None => {
            proof {
                assert(hidden * m * m >= hidden * m) by (nonlinear_arith)
                    requires
                        m >= 1,
                ;
            }
            return Err(EmbedError::ShapeOverflow);
        },
    };
    let hb = hp / m;
    let wb = wp / m;
    assert(hb * wb <= hp * wp) by (nonlinear_arith)
        requires
            hb == hp / m,
            wb == wp / m,
            m >= 1,
    {
        assert(hb <= hp);
        assert(wb <= wp);
    }
    let tokens = hb * wb;
    proof {
        vstd::arithmetic::div_mod::lemma_fundamental_div_mod(hp as int, m as int);
        vstd::arithmetic::div_mod::lemma_fundamental_div_mod(wp as int, m as int);
        assert(hp == m * hb);
        assert(wp == m * wb);
        lemma_elem_count_3(b, seq, hidden);
        lemma_elem_count_4(b, hp, wp, hidden);
        lemma_elem_count_6(b, hb, m, wb, m, hidden);
        lemma_elem_count_6(b, hb, wb, m, m, hidden);
        lemma_elem_count_3(b, tokens, merged_hidden);
        assert(b * seq * hidden == b * hp * wp * hidden) by (nonlinear_arith)
            requires
                seq == hp * wp,
        ;
        assert(b * hp * wp * hidden == b * hb * m * wb * m * hidden) by (nonlinear_arith)
            requires
                hp == m * hb,
                wp == m * wb,
        ;
        assert(b * hb * m * wb * m * hidden == b * hb * wb * m * m * hidden) by (nonlinear_arith);
        assert(b * hb * wb * m * m * hidden == b * tokens * merged_hidden) by (nonlinear_arith)
            requires
                tokens == hb * wb,
                merged_hidden == hidden * m * m,
        ;
    }
    let c = match contiguous(x) {
        Ok(t) => t,
        Err(e) => return Err(EmbedError::Tensor(e)),
    };
    let grid = match reshape(&c, vec![b, hp, wp, hidden].as_slice()) {
        Ok(t) => t,
        Err(e) => {
            assert(!tensor_on_cpu(*x));
            return Err(EmbedError::Tensor(e));
        },
    };
    let ghost owed = tensor_on_cpu(*x);
    let blocks = match reshape(&grid, vec![b, hb, m, wb, m, hidden].as_slice()) {
        Ok(t) => t,
        Err(e) => {
            assert(!owed);
            return Err(EmbedError::Tensor(e));
        },
    };
    assert(owed ==> tensor_on_cpu(blocks));
    let swapped = match transpose(&blocks, 2, 3) {
        Ok(t) => t,
        Err(e) => {
            assert(!owed);
            return Err(EmbedError::Tensor(e));
        },
    };
    let packed = match contiguous(&swapped) {
        Ok(t) => t,
        Err(e) => {
            assert(!owed);
            return Err(EmbedError::Tensor(e));
        },
    };
    let shape = vec![b, tokens, merged_hidden];
    assert(tensor_dims(blocks) =~= seq![b, hb, m, wb, m, hidden]);
    assert(tensor_dims(packed) =~= seq![b, hb, wb, m, m, hidden]);
    assert(shape@ =~= seq![b, tokens, merged_hidden]);
    let r = reshape(&packed, shape.as_slice());
    match r {
        Ok(t) => {
            assert(tensor_dims(t) =~= seq![b, tokens, merged_hidden]);
            assert(tensor_dims(blocks) =~= seq![b, hb, m, wb, m, hidden]);
            Ok(t)
        },
        Err(e) => {
            assert(!owed);
            Err(EmbedError::Tensor(e))
        },
    }
}

} // verus!
