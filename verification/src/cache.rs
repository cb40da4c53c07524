//! The attention cache of a transformer: rotary tables, causal masks by
//! sequence length, and the per-block key/value cache that grows as tokens
//! are generated and is replaced when a new prompt is prefilled.

use vstd::prelude::*;

use std::collections::HashMap;

use candle_core::{Device, Tensor};

use crate::tensor::{
    cat2, cat_elems, contiguous, device_clone, device_is_cpu, dims_of, matrix_from_u8, narrow,
    narrow_elems, tensor_clone, tensor_dims, tensor_dtype, tensor_elems, tensor_on_cpu,
};

verus! {

broadcast use vstd::std_specs::hash::group_hash_axioms;

/// The causal mask of a sequence of `n` tokens, row-major: position `j` is
/// hidden from position `i` (value 1) exactly when `j > i`.
pub open spec fn causal_mask_spec(n: nat) -> Seq<u8> {
    Seq::new(n * n, |k: int| if k % n as int > k / n as int {
        1u8
    } else {
        0u8
    })
}

/// The values of the causal mask of `n` tokens.
pub fn causal_mask_values(n: usize) -> (r: Vec<u8>)
    requires
        n * n <= usize::MAX,
    ensures
        r@ == causal_mask_spec(n as nat),
{
    let ghost target = causal_mask_spec(n as nat);
    let mut v: Vec<u8> = Vec::new();
    let mut i: usize = 0;
    while i < n
        invariant
            0 <= i <= n,
            n * n <= usize::MAX,
            target == causal_mask_spec(n as nat),
            v@ == target.take(i * n),
            i * n <= n * n,
        decreases n - i,
    {
        let mut j: usize = 0;
        while j < n
            invariant
                0 <= i < n,
                0 <= j <= n,
                n * n <= usize::MAX,
                target == causal_mask_spec(n as nat),
                v@ == target.take(i * n + j),
                i * n + j <= n * n,
            decreases n - j,
        {
            let x: u8 = if j > i {
                1
            } else {
                0
            };
            proof {
                let k = i * n + j;
                assert(k < n * n) by (nonlinear_arith)
                    requires
                        k == i * n + j,
                        i < n,
                        j < n,
                ;
                vstd::arithmetic::div_mod::lemma_fundamental_div_mod_converse(
                    k as int,
                    n as int,
                    i as int,
                    j as int,
                );
                assert(target[k as int] == x);
                assert(target.take(k + 1) =~= target.take(k as int).push(x));
            }
            v.push(x);
            j = j + 1;
            assert(i * n + j <= n * n) by (nonlinear_arith)
                requires
                    i < n,
                    j <= n,
            ;
        }
        i = i + 1;
        assert(i * n == (i - 1) * n + n) by (nonlinear_arith);
        assert(i * n <= n * n) by (nonlinear_arith)
            requires
                i <= n,
        ;
    }
    assert(target.take(n * n) =~= target);
    v
}

/// The cached keys and values of one block.
pub type KvEntry = Option<(Tensor, Tensor)>;

/// The shape kept after appending: at most `max` positions along the
/// sequence dimension (2), the most recent ones.
pub open spec fn kv_window(d: Seq<usize>, max: usize) -> Seq<usize> {
    if d[2] > max {
        d.update(2, max)
    } else {
        d
    }
}

/// The shape of `cached` and `new` concatenated along the sequence
/// dimension (2).
pub open spec fn appended_dims(cached: Seq<usize>, new: Seq<usize>) -> Seq<usize> {
    cached.update(2, (cached[2] + new[2]) as usize)
}

/// The elements kept after appending: when the joined shape `d` has more
/// than `max` positions along the sequence dimension (2), its last `max`
/// positions.
pub open spec fn kv_window_elems(e: Seq<Seq<u8>>, d: Seq<usize>, max: usize) -> Seq<Seq<u8>> {
    if d[2] > max {
        narrow_elems(e, d, 2, d[2] - max, max as int)
    } else {
        e
    }
}

/// Two tensors can be joined along the sequence dimension (2): same rank
/// above 2, the same size on every other dimension, the same element type,
/// both in main memory.
pub open spec fn joinable(a: Tensor, b: Tensor) -> bool {
    let da = tensor_dims(a);
    let db = tensor_dims(b);
    &&& da.len() > 2
    &&& da.len() == db.len()
    &&& forall|i: int| 0 <= i < da.len() && i != 2 ==> da[i] == db[i]
    &&& tensor_dtype(a) == tensor_dtype(b)
    &&& tensor_on_cpu(a)
    &&& tensor_on_cpu(b)
}

/// A `n x n` causal mask of `u8`: 1 where position `j` is hidden from
/// position `i` (`j > i`), else 0.
pub open spec fn is_causal_mask(m: Tensor, n: usize) -> bool {
    &&& tensor_dims(m) == seq![n, n]
    &&& tensor_elems(m) == causal_mask_spec(n as nat).map_values(|v: u8| seq![v])
    &&& tensor_dtype(m) == seq!['u', '8']
}

/// Abstraction over cosine and sine tables, kv-caching and attention
/// masking.
pub struct Cache {
    cos: Tensor,
    sin: Tensor,
    masks: HashMap<usize, Tensor>,
    use_kv_cache: bool,
    kvs: Vec<KvEntry>,
    device: Device,
    max_seq_len: usize,
}

impl Cache {
    /// The rotary tables have one row per position, up to the most
    /// positions, and the same shape; every kept mask is the causal mask of
    /// its length.
    #[verifier::type_invariant]
    closed spec fn tables_and_masks(self) -> bool {
        &&& tensor_dims(self.cos).len() == 2
        &&& tensor_dims(self.cos)[0] == self.max_seq_len
        &&& tensor_dims(self.sin) == tensor_dims(self.cos)
        &&& forall|n: usize| #[trigger]
            self.masks@.contains_key(n) ==> is_causal_mask(self.masks@[n], n)
    }

    /// Whether key/value caching is on.
    pub closed spec fn kv_enabled(&self) -> bool {
        self.use_kv_cache
    }

    /// The cached keys and values of each block.
    pub closed spec fn kv_entries(&self) -> Seq<KvEntry> {
        self.kvs@
    }

    /// The masks built so far, by sequence length.
    pub closed spec fn mask_table(&self) -> Map<usize, Tensor> {
        self.masks@
    }

    /// The most positions kept per block.
    pub closed spec fn max_positions(&self) -> usize {
        self.max_seq_len
    }

    /// The cosine table.
    pub closed spec fn cos_table(&self) -> Tensor {
        self.cos
    }

    /// The sine table.
    pub closed spec fn sin_table(&self) -> Tensor {
        self.sin
    }

    /// The device masks are made on.
    pub closed spec fn device_spec(&self) -> Device {
        self.device
    }

    /// A cache over precomputed rotary tables (`cos`, `sin`, one row per
    /// position) for `num_hidden_layers` blocks; set `use_kv_cache` to false
    /// to disable kv-caching.
    pub fn new(
        use_kv_cache: bool,
        cos: Tensor,
        sin: Tensor,
        num_hidden_layers: usize,
        device: &Device,
        max_seq_len: usize,
    ) -> (r: Cache)
        requires
            tensor_dims(cos).len() == 2,
            tensor_dims(cos)[0] == max_seq_len,
            tensor_dims(sin) == tensor_dims(cos),
        ensures
            r.kv_enabled() == use_kv_cache,
            r.kv_entries() == Seq::new(num_hidden_layers as nat, |_i: int| None::<(Tensor, Tensor)>),
            r.mask_table() == Map::<usize, Tensor>::empty(),
            r.max_positions() == max_seq_len,
            r.cos_table() == cos,
            r.sin_table() == sin,
            r.device_spec() == *device,
    {
        let kvs = empty_entries(num_hidden_layers);
        Cache {
            cos,
            sin,
            masks: HashMap::new(),
            use_kv_cache,
            kvs,
            device: device_clone(device),
            max_seq_len,
        }
    }

    /// `new` for tables whose shape is not known beforehand: `None` unless
    /// both tables have the same two dimensions with one row per position
    /// up to `max_seq_len`; otherwise the cache that `new` builds.
    pub fn new_checked(
        use_kv_cache: bool,
        cos: Tensor,
        sin: Tensor,
        num_hidden_layers: usize,
        device: &Device,
        max_seq_len: usize,
    ) -> (r: Option<Cache>)
        ensures
            r is Some <==> (tensor_dims(cos).len() == 2 && tensor_dims(cos)[0] == max_seq_len
                && tensor_dims(sin) == tensor_dims(cos)),
            r matches Some(c) ==> {
                &&& c.kv_enabled() == use_kv_cache
                &&& c.kv_entries() == Seq::new(
                    num_hidden_layers as nat,
                    |_i: int| None::<(Tensor, Tensor)>,
                )
                &&& c.mask_table() == Map::<usize, Tensor>::empty()
                &&& c.max_positions() == max_seq_len
                &&& c.cos_table() == cos
                &&& c.sin_table() == sin
                &&& c.device_spec() == *device
            },
    {
        let dc = dims_of(&cos);
        let ds = dims_of(&sin);
        if dc.len() != 2 || ds.len() != 2 || dc[0] != max_seq_len || ds[0] != dc[0] || ds[1] != dc[1] {
            proof {
                if ds.len() == 2 && dc.len() == 2 && ds[0] == dc[0] && ds[1] == dc[1] {
                    assert(ds@ =~= dc@);
                }
            }
            return None;
        }
        assert(ds@ =~= dc@);
        Some(Cache::new(use_kv_cache, cos, sin, num_hidden_layers, device, max_seq_len))
    }

    /// Whether kv-caching is enabled.
    pub fn with_kv_cache(&self) -> (r: bool)
        ensures
            r == self.kv_enabled(),
    {
        self.use_kv_cache
    }

    /// The number of blocks with a key/value entry.
    pub fn num_blocks(&self) -> (r: usize)
        ensures
            r == self.kv_entries().len(),
    {
        self.kvs.len()
    }

    /// The cosine table's rows for positions `index_pos..index_pos + seq_len`.
    pub fn cosine(&self, index_pos: usize, seq_len: usize) -> (r: Result<Tensor, candle_core::Error>)
        ensures
            r is Ok <==> index_pos + seq_len <= self.max_positions(),
            r matches Ok(t) ==> tensor_dims(t) == tensor_dims(self.cos_table()).update(0, seq_len)
                && tensor_elems(t) == narrow_elems(
                tensor_elems(self.cos_table()),
                tensor_dims(self.cos_table()),
                0,
                index_pos as int,
                seq_len as int,
            ),
    {
        proof {
            use_type_invariant(self);
        }
        narrow(&self.cos, 0, index_pos, seq_len)
    }

    /// The sine table's rows for positions `index_pos..index_pos + seq_len`.
    pub fn sine(&self, index_pos: usize, seq_len: usize) -> (r: Result<Tensor, candle_core::Error>)
        ensures
            r is Ok <==> index_pos + seq_len <= self.max_positions(),
            r matches Ok(t) ==> tensor_dims(t) == tensor_dims(self.sin_table()).update(0, seq_len)
                && tensor_elems(t) == narrow_elems(
                tensor_elems(self.sin_table()),
                tensor_dims(self.sin_table()),
                0,
                index_pos as int,
                seq_len as int,
            ),
    {
        proof {
            use_type_invariant(self);
        }
        narrow(&self.sin, 0, index_pos, seq_len)
    }

    /// The attention mask for `seq_len` tokens: the `seq_len x seq_len`
    /// causal mask of `u8` (1 above the diagonal), the one built before for
    /// this length or a new one that is kept for later. It succeeds on a
    /// cache in main memory.
    pub fn mask(&mut self, seq_len: usize) -> (r: Result<Tensor, candle_core::Error>)
        requires
            seq_len * seq_len <= usize::MAX,
        ensures
            final(self).kv_entries() == old(self).kv_entries(),
            final(self).kv_enabled() == old(self).kv_enabled(),
            final(self).max_positions() == old(self).max_positions(),
            final(self).cos_table() == old(self).cos_table(),
            final(self).sin_table() == old(self).sin_table(),
            final(self).device_spec() == old(self).device_spec(),
            old(self).mask_table().contains_key(seq_len) ==> r == Ok::<Tensor, candle_core::Error>(
                old(self).mask_table()[seq_len],
            ) && final(self).mask_table() == old(self).mask_table(),
            !old(self).mask_table().contains_key(seq_len) ==> match r {
                Ok(m) => final(self).mask_table() == old(self).mask_table().insert(seq_len, m),
                Err(_) => final(self).mask_table() == old(self).mask_table(),
            },
            r matches Ok(m) ==> is_causal_mask(m, seq_len),
            device_is_cpu(old(self).device_spec()) ==> r is Ok,
    {
        proof {
            use_type_invariant(&*self);
        }
        match self.masks.get(&seq_len) {
            Some(m) => {
                return Ok(tensor_clone(m));
            },
            None => {},
        }
        let values = causal_mask_values(seq_len);
        let m = match matrix_from_u8(values.as_slice(), seq_len, seq_len, &self.device) {
            Ok(m) => m,
            Err(e) => return Err(e),
        };
        let mut masks: HashMap<usize, Tensor> = HashMap::new();
        std::mem::swap(&mut masks, &mut self.masks);
        masks.insert(seq_len, tensor_clone(&m));
        self.masks = masks;
        Ok(m)
    }

    /// Processes the keys `k` and values `v` of block `block_idx` at cache
    /// position `index_pos`. Without kv-caching they are returned as they
    /// are. With it, a new prompt (`index_pos == 0`) replaces the block's
    /// cache entry; otherwise they are appended to the cached ones along the
    /// sequence dimension, keeping at most the last `max_positions()`
    /// positions, and the result becomes the block's entry.
    pub fn process_kv(&mut self, block_idx: usize, index_pos: usize, k: Tensor, v: Tensor) -> (r:
        Result<(Tensor, Tensor), candle_core::Error>)
        requires
            old(self).kv_enabled() ==> block_idx < old(self).kv_entries().len(),
        ensures
            final(self).kv_enabled() == old(self).kv_enabled(),
            final(self).mask_table() == old(self).mask_table(),
            final(self).max_positions() == old(self).max_positions(),
            final(self).cos_table() == old(self).cos_table(),
            final(self).sin_table() == old(self).sin_table(),
            final(self).device_spec() == old(self).device_spec(),
            !old(self).kv_enabled() ==> r == Ok::<(Tensor, Tensor), candle_core::Error>((k, v))
                && final(self).kv_entries() == old(self).kv_entries(),
            old(self).kv_enabled() && (index_pos == 0 || old(self).kv_entries()[block_idx as int]
                is None) ==> r == Ok::<(Tensor, Tensor), candle_core::Error>((k, v))
                && final(self).kv_entries() == old(self).kv_entries().update(
                block_idx as int,
                Some((k, v)),
            ),
            (old(self).kv_enabled() && index_pos > 0) ==> (old(self).kv_entries()[block_idx as int]
                matches Some((ck, cv)) ==> match r {
                Ok((k2, v2)) => {
                    &&& tensor_dims(k2) == kv_window(
                        appended_dims(tensor_dims(ck), tensor_dims(k)),
                        old(self).max_positions(),
                    )
                    &&& tensor_dims(v2) == kv_window(
                        appended_dims(tensor_dims(cv), tensor_dims(v)),
                        old(self).max_positions(),
                    )
                    &&& tensor_elems(k2) == kv_window_elems(
                        cat_elems(tensor_elems(ck), tensor_elems(k), tensor_dims(ck), tensor_dims(k), 2),
                        appended_dims(tensor_dims(ck), tensor_dims(k)),
                        old(self).max_positions(),
                    )
                    &&& tensor_elems(v2) == kv_window_elems(
                        cat_elems(tensor_elems(cv), tensor_elems(v), tensor_dims(cv), tensor_dims(v), 2),
                        appended_dims(tensor_dims(cv), tensor_dims(v)),
                        old(self).max_positions(),
                    )
                    &&& final(self).kv_entries() == old(self).kv_entries().update(
                        block_idx as int,
                        Some((k2, v2)),
                    )
                },
                Err(_) => final(self).kv_entries() == old(self).kv_entries(),
            }),
            (old(self).kv_enabled() && index_pos > 0) ==> (old(self).kv_entries()[block_idx as int]
                matches Some((ck, cv)) ==> (joinable(ck, k) && joinable(cv, v) ==> r is Ok)),
    {
        proof {
            use_type_invariant(&*self);
        }
        if !self.use_kv_cache {
            return Ok((k, v));
        }
        if index_pos == 0 {
            let mut kvs: Vec<KvEntry> = Vec::new();
        std::mem::swap(&mut kvs, &mut self.kvs);
        kvs.set(block_idx, Some((tensor_clone(&k), tensor_clone(&v))));
        self.kvs = kvs;
            return Ok((k, v));
        }
        let (k, v) = match &self.kvs[block_idx] {
            None => (k, v),
            Some((cache_k, cache_v)) => {
                let k = match append_window(cache_k, &k, self.max_seq_len) {
                    Ok(t) => t,
                    Err(e) => return Err(e),
                };
                let v = match append_window(cache_v, &v, self.max_seq_len) {
                    Ok(t) => t,
                    Err(e) => return Err(e),
                };
                (k, v)
            },
        };
        let mut kvs: Vec<KvEntry> = Vec::new();
        std::mem::swap(&mut kvs, &mut self.kvs);
        kvs.set(block_idx, Some((tensor_clone(&k), tensor_clone(&v))));
        self.kvs = kvs;
        Ok((k, v))
    }

    /// A copy of this cache with the same tables and an empty kv table.
    pub fn as_new(&self) -> (r: Cache)
        ensures
            r.kv_enabled() == self.kv_enabled(),
            r.kv_entries() == Seq::new(
                self.kv_entries().len(),
                |_i: int| None::<(Tensor, Tensor)>,
            ),
            r.mask_table() == Map::<usize, Tensor>::empty(),
            r.max_positions() == self.max_positions(),
            r.cos_table() == self.cos_table(),
            r.sin_table() == self.sin_table(),
            r.device_spec() == self.device_spec(),
    {
        proof {
            use_type_invariant(self);
        }
        Cache::new(
            self.use_kv_cache,
            tensor_clone(&self.cos),
            tensor_clone(&self.sin),
            self.kvs.len(),
            &self.device,
            self.max_seq_len,
        )
    }

    /// Clears the masks and every block's kv entry.
    pub fn clear(&mut self)
        ensures
            final(self).kv_enabled() == old(self).kv_enabled(),
            final(self).kv_entries() == Seq::new(
                old(self).kv_entries().len(),
                |_i: int| None::<(Tensor, Tensor)>,
            ),
            final(self).mask_table() == Map::<usize, Tensor>::empty(),
            final(self).max_positions() == old(self).max_positions(),
            final(self).cos_table() == old(self).cos_table(),
            final(self).sin_table() == old(self).sin_table(),
            final(self).device_spec() == old(self).device_spec(),
    {
        proof {
            use_type_invariant(&*self);
        }
        self.masks = HashMap::new();
        self.kvs = empty_entries(self.kvs.len());
    }
}

fn empty_entries(n: usize) -> (r: Vec<KvEntry>)
    ensures
        r@ == Seq::new(n as nat, |_i: int| None::<(Tensor, Tensor)>),
{
    let mut r: Vec<KvEntry> = Vec::new();
    let mut i: usize = 0;
    while i < n
        invariant
            0 <= i <= n,
            r@ == Seq::new(i as nat, |_i: int| None::<(Tensor, Tensor)>),
        decreases n - i,
    {
        r.push(None);
        i = i + 1;
        assert(r@ =~= Seq::new(i as nat, |_i: int| None::<(Tensor, Tensor)>));
    }
    r
}

/// `cached` and `new` concatenated along the sequence dimension, keeping
/// at most the last `max` positions.
fn append_window(cached: &Tensor, new: &Tensor, max: usize) -> (r: Result<Tensor, candle_core::Error>)
    ensures
        r is Ok ==> {
            let dc = tensor_dims(*cached);
            let dn = tensor_dims(*new);
            &&& dc.len() > 2
            &&& dc.len() == dn.len()
            &&& forall|i: int| 0 <= i < dc.len() && i != 2 ==> dc[i] == dn[i]
        },
        joinable(*cached, *new) ==> r is Ok,
        r matches Ok(t) ==> tensor_dims(t) == kv_window(
            appended_dims(tensor_dims(*cached), tensor_dims(*new)),
            max,
        ) && tensor_elems(t) == kv_window_elems(
            cat_elems(
                tensor_elems(*cached),
                tensor_elems(*new),
                tensor_dims(*cached),
                tensor_dims(*new),
                2,
            ),
            appended_dims(tensor_dims(*cached), tensor_dims(*new)),
            max,
        ),
{
    let joined = match cat2(cached, new, 2) {
        Ok(t) => t,
        Err(e) => return Err(e),
    };
    let joined = match contiguous(&joined) {
        Ok(t) => t,
        Err(e) => return Err(e),
    };
    let dims = dims_of(&joined);
    let len = dims[2];
    if len > max {
        let cut = match narrow(&joined, 2, len - max, max) {
            Ok(t) => t,
            Err(e) => return Err(e),
        };
        contiguous(&cut)
    } else {
        Ok(joined)
    }
}

/// Law of the kv cache window: appending `new` positions to the `cached`
/// ones along the sequence dimension keeps `min(cached + new, max)`
/// positions, never more than `max`, and leaves the other dimensions as the
/// cache has them.
pub proof fn lemma_kv_window_bounded(cached: Seq<usize>, new: Seq<usize>, max: usize)
    requires
        cached.len() > 2,
        cached[2] + new[2] <= usize::MAX,
    ensures
        ({
            let w = kv_window(appended_dims(cached, new), max);
            &&& w.len() == cached.len()
            &&& w[2] == (if cached[2] + new[2] > max {
                max as int
            } else {
                cached[2] + new[2]
            })
            &&& w[2] <= max
            &&& forall|i: int| 0 <= i < cached.len() && i != 2 ==> w[i] == cached[i]
        }),
{
}

} // verus!
