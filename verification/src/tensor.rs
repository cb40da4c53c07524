//! Tensors as the library sees them: their shape, their element type and
//! place, and their elements in row-major order. Each tensor operation the
//! library makes states when it succeeds and what it does to these.

use vstd::prelude::*;

use candle_core::{Device, Tensor};

verus! {

#[verifier::external_type_specification]
#[verifier::external_body]
pub struct ExTensor(candle_core::Tensor);

#[verifier::external_type_specification]
#[verifier::external_body]
pub struct ExDevice(candle_core::Device);

#[verifier::external_type_specification]
#[verifier::external_body]
pub struct ExCandleError(candle_core::Error);

/// The shape of a tensor (its dimensions), as `Tensor::dims` reports it.
/// A tensor's shape is fixed when it is made.
pub uninterp spec fn tensor_dims(t: Tensor) -> Seq<usize>;

/// The elements of a tensor in row-major order of its shape, each as the
/// little-endian bytes of its value: what `Tensor::to_vec1` of the
/// flattened tensor holds. The library never writes into a tensor's
/// storage in place (candle's `slice_set` and the like), so a tensor keeps
/// the elements it was made with; a tensor written in place by other code
/// is not covered.
pub uninterp spec fn tensor_elems(t: Tensor) -> Seq<Seq<u8>>;

/// The name of a tensor's element type, `Tensor::dtype().as_str()`.
pub uninterp spec fn tensor_dtype(t: Tensor) -> Seq<char>;

/// Whether a tensor lives in main memory, `Tensor::device().is_cpu()`.
pub uninterp spec fn tensor_on_cpu(t: Tensor) -> bool;

/// `Device::is_cpu`.
pub uninterp spec fn device_is_cpu(d: Device) -> bool;

/// The number of elements of a shape: the product of its dimensions.
pub open spec fn elem_count(d: Seq<usize>) -> nat
    decreases d.len(),
{
    if d.len() == 0 {
        1
    } else {
        d[0] as nat * elem_count(d.drop_first())
    }
}

/// The row-major elements of the `len` slices from `start` along dimension
/// `dim` of elements `e` of shape `d`.
pub open spec fn narrow_elems<A>(e: Seq<A>, d: Seq<usize>, dim: int, start: int, len: int) -> Seq<A> {
    let inner = elem_count(d.skip(dim + 1)) as int;
    let outer = elem_count(d.take(dim)) as int;
    let block = len * inner;
    Seq::new(
        (outer * block) as nat,
        |k: int| e[(k / block) * (d[dim] * inner) + start * inner + k % block],
    )
}

/// The row-major elements of `a` (shape `da`) and `b` (shape `db`) joined
/// along dimension `dim`: for each index before `dim`, `a`'s block then
/// `b`'s.
pub open spec fn cat_elems<A>(a: Seq<A>, b: Seq<A>, da: Seq<usize>, db: Seq<usize>, dim: int) -> Seq<A> {
    let inner = elem_count(da.skip(dim + 1)) as int;
    let outer = elem_count(da.take(dim)) as int;
    let la = da[dim] * inner;
    let lb = db[dim] * inner;
    Seq::new(
        (outer * (la + lb)) as nat,
        |k: int|
            if k % (la + lb) < la {
                a[(k / (la + lb)) * la + k % (la + lb)]
            } else {
                b[(k / (la + lb)) * lb + k % (la + lb) - la]
            },
    )
}

/// The row-major elements of shape `d` with dimensions `i` and `i + 1`
/// swapped: the element at `(.., y, x, ..)` of the result is the element at
/// `(.., x, y, ..)` of `e`.
pub open spec fn swap_adjacent_elems<A>(e: Seq<A>, d: Seq<usize>, i: int) -> Seq<A> {
    let outer = elem_count(d.take(i)) as int;
    let a = d[i] as int;
    let b = d[i + 1] as int;
    let inner = elem_count(d.skip(i + 2)) as int;
    let blk = a * b * inner;
    Seq::new(
        (outer * blk) as nat,
        |k: int|
            e[(k / blk) * blk + ((k % blk) % (a * inner)) / inner * (b * inner) + (k % blk) / (a
                * inner) * inner + ((k % blk) % (a * inner)) % inner],
    )
}

/// `Tensor::dims`.
#[verifier::external_body]
pub(crate) fn dims_of(t: &Tensor) -> (r: Vec<usize>)
    ensures
        r@ == tensor_dims(*t),
{
    t.dims().to_vec()
}

/// `Tensor::clone`: another handle to the same tensor (the inner `Arc` is
/// cloned).
#[verifier::external_body]
pub(crate) fn tensor_clone(t: &Tensor) -> (r: Tensor)
    ensures
        r == *t,
{
    t.clone()
}

/// `Device::clone`: the same device.
#[verifier::external_body]
pub(crate) fn device_clone(d: &Device) -> (r: Device)
    ensures
        r == *d,
{
    d.clone()
}

/// `Tensor::cat(&[a, b], dim)`: on success both have the same rank, `dim`
/// is one of their dimensions, they agree on every other dimension, and the
/// result's shape is `a`'s with the sizes along `dim` added, its elements
/// those of `a` and `b` joined along `dim`. It succeeds when, besides,
/// both have the same element type and live in main memory.
#[verifier::external_body]
pub(crate) fn cat2(a: &Tensor, b: &Tensor, dim: usize) -> (r: Result<Tensor, candle_core::Error>)
    ensures
        r matches Ok(t) ==> {
            let da = tensor_dims(*a);
            let db = tensor_dims(*b);
            &&& dim < da.len()
            &&& da.len() == db.len()
            &&& forall|i: int| 0 <= i < da.len() && i != dim ==> da[i] == db[i]
            &&& tensor_dims(t) == da.update(dim as int, (da[dim as int] + db[dim as int]) as usize)
            &&& tensor_elems(t) == cat_elems(tensor_elems(*a), tensor_elems(*b), da, db, dim as int)
            &&& tensor_dtype(t) == tensor_dtype(*a)
            &&& tensor_on_cpu(t) == tensor_on_cpu(*a)
        },
        ({
            let da = tensor_dims(*a);
            let db = tensor_dims(*b);
            &&& dim < da.len()
            &&& da.len() == db.len()
            &&& forall|i: int| 0 <= i < da.len() && i != dim ==> da[i] == db[i]
            &&& tensor_dtype(*a) == tensor_dtype(*b)
            &&& tensor_on_cpu(*a)
            &&& tensor_on_cpu(*b)
        }) ==> r is Ok,
{
    Tensor::cat(&[a, b], dim)
}

/// `Tensor::narrow(dim, start, len)`: it succeeds exactly when `dim` is a
/// dimension with `start + len` within it, and the result has size `len`
/// along `dim`: the slices `start..start + len` of `t` along it.
#[verifier::external_body]
pub(crate) fn narrow(t: &Tensor, dim: usize, start: usize, len: usize) -> (r: Result<Tensor, candle_core::Error>)
    ensures
        r is Ok <==> (dim < tensor_dims(*t).len() && start + len <= tensor_dims(*t)[dim as int]),
        r matches Ok(n) ==> {
            let d = tensor_dims(*t);
            &&& dim < d.len()
            &&& start + len <= d[dim as int]
            &&& tensor_dims(n) == d.update(dim as int, len)
            &&& tensor_elems(n) == narrow_elems(tensor_elems(*t), d, dim as int, start as int, len as int)
            &&& tensor_dtype(n) == tensor_dtype(*t)
            &&& tensor_on_cpu(n) == tensor_on_cpu(*t)
        },
{
    t.narrow(dim, start, len)
}

/// `Tensor::contiguous`: the same tensor laid out in row-major order (the
/// tensor itself when it already is, else a copy); a copy in main memory
/// always succeeds.
#[verifier::external_body]
pub(crate) fn contiguous(t: &Tensor) -> (r: Result<Tensor, candle_core::Error>)
    ensures
        tensor_on_cpu(*t) ==> r is Ok,
        r matches Ok(c) ==> {
            &&& tensor_dims(c) == tensor_dims(*t)
            &&& tensor_elems(c) == tensor_elems(*t)
            &&& tensor_dtype(c) == tensor_dtype(*t)
            &&& tensor_on_cpu(c) == tensor_on_cpu(*t)
        },
{
    t.contiguous()
}

/// `Tensor::from_slice(data, (rows, cols), device)`: a `rows x cols` tensor
/// of `u8` holding `data` (when `data` has that many elements; the length
/// is not checked). Making it in main memory always succeeds.
#[verifier::external_body]
pub(crate) fn matrix_from_u8(data: &[u8], rows: usize, cols: usize, device: &Device) -> (r: Result<
    Tensor,
    candle_core::Error,
>)
    ensures
        device_is_cpu(*device) ==> r is Ok,
        r matches Ok(t) ==> {
            &&& tensor_dims(t) == seq![rows, cols]
            &&& data@.len() == rows * cols ==> tensor_elems(t) == data@.map_values(
                |v: u8| seq![v],
            )
            &&& tensor_dtype(t) == seq!['u', '8']
            &&& tensor_on_cpu(t) == device_is_cpu(*device)
        },
{
    Tensor::from_slice(data, (rows, cols), device)
}

/// `Tensor::dims3`: the three dimensions of a rank-3 tensor; an error for
/// any other rank.
#[verifier::external_body]
pub(crate) fn dims3(t: &Tensor) -> (r: Result<(usize, usize, usize), candle_core::Error>)
    ensures
        r is Ok <==> tensor_dims(*t).len() == 3,
        r matches Ok((a, b, c)) ==> tensor_dims(*t) == seq![a, b, c],
{
    t.dims3()
}

/// The shape `Tensor::squeeze(dim)` gives a tensor of shape `d`: without
/// `dim` when that dimension has size 1, else unchanged.
pub open spec fn squeezed_dims(d: Seq<usize>, dim: int) -> Seq<usize> {
    if d[dim] == 1 {
        d.remove(dim)
    } else {
        d
    }
}

/// `Tensor::squeeze(dim)`: an error exactly when `dim` is past the rank;
/// otherwise a view of the same elements whose shape drops `dim` when it has
/// size 1 (a tensor of any other size comes back as it is).
#[verifier::external_body]
pub(crate) fn squeeze(t: &Tensor, dim: usize) -> (r: Result<Tensor, candle_core::Error>)
    ensures
        r is Ok <==> dim < tensor_dims(*t).len(),
        r matches Ok(u) ==> {
            &&& tensor_dims(u) == squeezed_dims(tensor_dims(*t), dim as int)
            &&& tensor_elems(u) == tensor_elems(*t)
            &&& tensor_dtype(u) == tensor_dtype(*t)
            &&& tensor_on_cpu(u) == tensor_on_cpu(*t)
        },
{
    t.squeeze(dim)
}

/// `Tensor::unsqueeze(dim)`: a dimension of size 1 inserted at `dim`; an
/// error exactly when `dim` is past the rank.
#[verifier::external_body]
pub(crate) fn unsqueeze(t: &Tensor, dim: usize) -> (r: Result<Tensor, candle_core::Error>)
    ensures
        r is Ok <==> dim <= tensor_dims(*t).len(),
        r matches Ok(u) ==> {
            &&& tensor_dims(u) == tensor_dims(*t).insert(dim as int, 1usize)
            &&& tensor_elems(u) == tensor_elems(*t)
            &&& tensor_dtype(u) == tensor_dtype(*t)
            &&& tensor_on_cpu(u) == tensor_on_cpu(*t)
        },
{
    t.unsqueeze(dim)
}

/// `Tensor::transpose(dim1, dim2)`: it succeeds exactly when both are
/// dimensions; the result has their sizes swapped, and for two neighbouring
/// dimensions its elements are those of `t` with the two indices swapped.
#[verifier::external_body]
pub(crate) fn transpose(t: &Tensor, dim1: usize, dim2: usize) -> (r: Result<Tensor, candle_core::Error>)
    ensures
        r is Ok <==> (dim1 < tensor_dims(*t).len() && dim2 < tensor_dims(*t).len()),
        r matches Ok(u) ==> {
            let d = tensor_dims(*t);
            &&& tensor_dims(u) == d.update(dim1 as int, d[dim2 as int]).update(dim2 as int, d[dim1 as int])
            &&& dim2 == dim1 + 1 ==> tensor_elems(u) == swap_adjacent_elems(tensor_elems(*t), d, dim1 as int)
            &&& dim2 == dim1 ==> tensor_elems(u) == tensor_elems(*t)
            &&& tensor_dtype(u) == tensor_dtype(*t)
            &&& tensor_on_cpu(u) == tensor_on_cpu(*t)
        },
{
    t.transpose(dim1, dim2)
}

/// `Tensor::reshape(shape)`: on success the result has exactly `shape`
/// and the same elements in the same row-major order; in main memory it
/// succeeds when `shape` has as many elements as `t`.
#[verifier::external_body]
pub(crate) fn reshape(t: &Tensor, shape: &[usize]) -> (r: Result<Tensor, candle_core::Error>)
    ensures
        elem_count(shape@) == elem_count(tensor_dims(*t)) && tensor_on_cpu(*t) ==> r is Ok,
        r matches Ok(u) ==> {
            &&& tensor_dims(u) == shape@
            &&& tensor_elems(u) == tensor_elems(*t)
            &&& tensor_dtype(u) == tensor_dtype(*t)
            &&& tensor_on_cpu(u) == tensor_on_cpu(*t)
        },
{
    t.reshape(shape)
}


/// `elem_count` of a shape with one more leading dimension.
pub proof fn lemma_elem_count_cons(a: usize, rest: Seq<usize>)
    ensures
        elem_count(seq![a] + rest) == a * elem_count(rest),
{
    assert((seq![a] + rest).drop_first() =~= rest);
}

/// `elem_count` of a three-dimensional shape.
pub proof fn lemma_elem_count_3(a: usize, b: usize, c: usize)
    ensures
        elem_count(seq![a, b, c]) == a * b * c,
{
    assert(elem_count(Seq::<usize>::empty()) == 1);
    assert(seq![c].drop_first() =~= Seq::<usize>::empty());
    assert(elem_count(seq![c]) == c * 1);
    assert(seq![b, c].drop_first() =~= seq![c]);
    assert(elem_count(seq![b, c]) == b * c);
    assert(seq![a, b, c].drop_first() =~= seq![b, c]);
    assert(elem_count(seq![a, b, c]) == a * (b * c));
    assert(a * (b * c) == a * b * c) by (nonlinear_arith);
}

/// `elem_count` of a four-dimensional shape.
pub proof fn lemma_elem_count_4(a: usize, b: usize, c: usize, d: usize)
    ensures
        elem_count(seq![a, b, c, d]) == a * b * c * d,
{
    lemma_elem_count_3(b, c, d);
    lemma_elem_count_cons(a, seq![b, c, d]);
    assert(seq![a, b, c, d] =~= seq![a] + seq![b, c, d]);
    assert(a * (b * c * d) == a * b * c * d) by (nonlinear_arith);
}

/// `elem_count` of a six-dimensional shape.
pub proof fn lemma_elem_count_6(a: usize, b: usize, c: usize, d: usize, e: usize, f: usize)
    ensures
        elem_count(seq![a, b, c, d, e, f]) == a * b * c * d * e * f,
{
    lemma_elem_count_3(d, e, f);
    lemma_elem_count_cons(c, seq![d, e, f]);
    assert(seq![c, d, e, f] =~= seq![c] + seq![d, e, f]);
    lemma_elem_count_cons(b, seq![c, d, e, f]);
    assert(seq![b, c, d, e, f] =~= seq![b] + seq![c, d, e, f]);
    lemma_elem_count_cons(a, seq![b, c, d, e, f]);
    assert(seq![a, b, c, d, e, f] =~= seq![a] + seq![b, c, d, e, f]);
    assert(a * (b * (c * (d * e * f))) == a * b * c * d * e * f) by (nonlinear_arith);
}

} // verus!
