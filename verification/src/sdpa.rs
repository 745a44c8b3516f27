//! Scaled dot-product attention, `softmax(Q Kᵗ · scale + mask) V`.
//!
//! Short query blocks are attended in one go. Long ones are cut into tiles
//! along the query axis, so that the score matrix held at any one time stays
//! small; keys and values are never cut, and each tile gets the rows of the
//! mask that belong to it.

use vstd::prelude::*;
use candle_core::Tensor;
use crate::error::{backend, AttentionError};
use crate::mask::{
    every_row_attends,
    lemma_mask_splits,
    mask_bits,
    mask_tensor,
    rows_attend,
    tile_mask,
};
use crate::shape::{
    checked_count4,
    lemma_elem_count4,
    lemma_sized4_shrink,
    lemma_sized4_swap,
    sized,
    sized4,
};
use crate::tensor::{
    broadcast_add,
    broadcast_mul,
    cat,
    cat_compatible,
    cat_len,
    device_of,
    dims,
    dtype_of,
    holds_floats,
    is_float,
    matmul,
    narrow,
    softmax_last_dim,
    tensor_dims,
    transpose,
};

verus! {

/// How a block of queries is attended.
#[derive(Debug, Clone, Copy, PartialEq, Eq, Structural)]
pub enum Strategy {
    /// All queries at once, with one full score matrix.
    Naive,
    /// Tile by tile along the query axis.
    Tiled,
}

/// When to tile, and how large a tile is. This is a matter of speed and
/// memory, never of the result.
#[derive(Debug, Clone, Copy)]
pub struct SdpaPolicy {
    tiling_threshold: usize,
    block_size: usize,
}

impl SdpaPolicy {
    /// A tile holds at least one query.
    #[verifier::type_invariant]
    spec fn valid(self) -> bool {
        self.block_size >= 1
    }

    /// The number of queries from which on tiling is used.
    pub closed spec fn threshold(self) -> usize {
        self.tiling_threshold
    }

    /// The number of queries in a full tile.
    pub closed spec fn block(self) -> usize {
        self.block_size
    }

    /// The strategy this policy picks for `q_len` queries.
    pub open spec fn choice(self, q_len: usize) -> Strategy {
        if q_len < self.threshold() {
            Strategy::Naive
        } else {
            Strategy::Tiled
        }
    }

    /// A policy that tiles from `tiling_threshold` queries on, in tiles of
    /// `block_size`. A tile cannot be empty.
    pub fn new(tiling_threshold: usize, block_size: usize) -> (policy: Option<SdpaPolicy>)
        ensures
            policy is Some <==> block_size >= 1,
            policy matches Some(p) ==> p.threshold() == tiling_threshold && p.block()
                == block_size,
    {
        if block_size == 0 {
            None
        } else {
            Some(SdpaPolicy { tiling_threshold, block_size })
        }
    }

    /// The number of queries from which on tiling is used.
    pub fn tiling_threshold(&self) -> (n: usize)
        ensures
            n == self.threshold(),
    {
        self.tiling_threshold
    }

    /// The number of queries in a full tile.
    pub fn block_size(&self) -> (n: usize)
        ensures
            n == self.block(),
            n >= 1,
    {
        proof {
            use_type_invariant(self);
        }
        self.block_size
    }

    /// Picks the strategy for `q_len` queries: naive below the threshold,
    /// tiled from it on.
    pub fn select_strategy(&self, q_len: usize) -> (strategy: Strategy)
        ensures
            strategy == self.choice(q_len),
    {
        if q_len < self.tiling_threshold {
            Strategy::Naive
        } else {
            Strategy::Tiled
        }
    }
}

impl Default for SdpaPolicy {
    /// Tiles of 128 queries, from 512 queries on.
    fn default() -> (policy: SdpaPolicy)
        ensures
            policy.threshold() == 512,
            policy.block() == 128,
    {
        SdpaPolicy { tiling_threshold: 512, block_size: 128 }
    }
}

/// The shapes `sdpa` accepts: queries `[B, H, Tq, D]`, keys and values
/// `[B, H, Tk, D]`, a scale without axes; no dimension is zero, and neither
/// the operands nor the score matrix `[B, H, Tq, Tk]` have more elements than
/// the machine can count.
pub open spec fn sdpa_shapes_ok(q: Seq<usize>, k: Seq<usize>, v: Seq<usize>, scale: Seq<usize>) -> bool {
    &&& q.len() == 4
    &&& k.len() == 4
    &&& v.len() == 4
    &&& scale.len() == 0
    &&& k[0] == q[0] && k[1] == q[1] && k[3] == q[3]
    &&& v[0] == q[0] && v[1] == q[1] && v[2] == k[2] && v[3] == q[3]
    &&& sized4(q[0], q[1], q[2], q[3])
    &&& sized4(k[0], k[1], k[2], k[3])
    &&& sized4(q[0], q[1], q[2], k[2])
}

/// The operands `sdpa` accepts: shapes that are `sdpa_shapes_ok`, and
/// queries that hold floating-point numbers.
pub open spec fn sdpa_accepts(q: Tensor, k: Tensor, v: Tensor, scale: Tensor) -> bool {
    &&& sdpa_shapes_ok(tensor_dims(q), tensor_dims(k), tensor_dims(v), tensor_dims(scale))
    &&& holds_floats(q)
}

/// What `sdpa` may return.
///
/// * `Shape` is returned exactly for operands that `sdpa_accepts` does not
///   hold of.
/// * Else `Numeric` is returned exactly when some query would be left
///   without any key, which would make its softmax row undefined.
/// * Else the backend decides, and a result has the shape of the queries.
pub open spec fn sdpa_outcome(
    r: Result<Tensor, AttentionError>,
    q: Tensor,
    k: Tensor,
    v: Tensor,
    scale: Tensor,
    is_causal: bool,
    context_window: Option<usize>,
) -> bool {
    let q_len = tensor_dims(q)[2] as int;
    let k_len = tensor_dims(k)[2] as int;
    match r {
        Ok(out) => {
            &&& sdpa_accepts(q, k, v, scale)
            &&& every_row_attends(q_len, k_len, is_causal, context_window)
            &&& tensor_dims(out) == tensor_dims(q)
        },
        Err(AttentionError::Shape) => !sdpa_accepts(q, k, v, scale),
        Err(AttentionError::Numeric) => {
            &&& sdpa_accepts(q, k, v, scale)
            &&& !every_row_attends(q_len, k_len, is_causal, context_window)
        },
        Err(AttentionError::Backend(_)) => {
            &&& sdpa_accepts(q, k, v, scale)
            &&& every_row_attends(q_len, k_len, is_causal, context_window)
        },
        Err(AttentionError::MissingState) => false,
    }
}

/// Checks the operands' shapes against what `sdpa` accepts.
fn shapes_ok(q: &Vec<usize>, k: &Vec<usize>, v: &Vec<usize>, scale: &Vec<usize>) -> (ok: bool)
    ensures
        ok == sdpa_shapes_ok(q@, k@, v@, scale@),
{
    if q.len() != 4 || k.len() != 4 || v.len() != 4 || scale.len() != 0 {
        return false;
    }
    if k[0] != q[0] || k[1] != q[1] || k[3] != q[3] {
        return false;
    }
    if v[0] != q[0] || v[1] != q[1] || v[2] != k[2] || v[3] != q[3] {
        return false;
    }
    checked_count4(q[0], q[1], q[2], q[3]).is_some() && checked_count4(
        k[0],
        k[1],
        k[2],
        k[3],
    ).is_some() && checked_count4(q[0], q[1], q[2], k[2]).is_some()
}

/// A shape with four axes spelled out, and what `sized` means for it.
proof fn lemma_four_axes(s: Seq<usize>)
    requires
        s.len() == 4,
    ensures
        s == seq![s[0], s[1], s[2], s[3]],
        sized(s) <==> sized4(s[0], s[1], s[2], s[3]),
{
    assert(s =~= seq![s[0], s[1], s[2], s[3]]);
    lemma_elem_count4(s[0], s[1], s[2], s[3]);
}

/// The tiles in which `q_len` queries are attended, each as the index of
/// its first query and the number of its queries: one tile with all of them
/// below the policy's threshold, tiles of the policy's block size from
/// there on, the last as short as it has to be. The tiles follow one another
/// and cover the queries exactly.
pub fn tiles(policy: &SdpaPolicy, q_len: usize) -> (plan: Vec<(usize, usize)>)
    ensures
        policy.choice(q_len) == Strategy::Naive ==> plan@ == seq![(0usize, q_len)],
        policy.choice(q_len) == Strategy::Tiled ==> {
            &&& forall|t: int|
                0 <= t < plan@.len() ==> (#[trigger] plan@[t]).0 == t * policy.block() && 1
                    <= plan@[t].1 <= policy.block()
            &&& forall|t: int| 0 <= t < plan@.len() - 1 ==> (#[trigger] plan@[t]).1 == policy.block()
            &&& plan@.len() >= 1 ==> plan@.last().0 + plan@.last().1 == q_len
            &&& plan@.len() == 0 <==> q_len == 0
        },
        covers(plan@, q_len as int),
        q_len >= 1 ==> forall|t: int| 0 <= t < plan@.len() ==> (#[trigger] plan@[t]).1 >= 1,
{
    match policy.select_strategy(q_len) {
        Strategy::Naive => {
            let mut plan: Vec<(usize, usize)> = Vec::new();
            plan.push((0, q_len));
            assert(plan@ =~= seq![(0usize, q_len)]);
            plan
        },
        Strategy::Tiled => {
            let block_size = policy.block_size();
            let mut plan: Vec<(usize, usize)> = Vec::new();
            let mut start: usize = 0;
            while start < q_len
                invariant
                    start <= q_len,
                    block_size >= 1,
                    block_size == policy.block(),
                    plan@.len() == 0 <==> start == 0,
                    start < q_len ==> start == plan@.len() * block_size,
                    plan@.len() >= 1 ==> plan@[0].0 == 0 && plan@.last().0 + plan@.last().1
                        == start,
                    forall|t: int|
                        0 <= t < plan@.len() ==> (#[trigger] plan@[t]).0 == t * block_size && 1
                            <= plan@[t].1 <= block_size && plan@[t].0 + plan@[t].1 <= start,
                    forall|t: int|
                        0 <= t < plan@.len() - 1 ==> (#[trigger] plan@[t]).1 == block_size
                            && plan@[t].0 + plan@[t].1 == plan@[t + 1].0,
                decreases q_len - start,
            {
                let rest = q_len - start;
                let len = if block_size < rest {
                    block_size
                } else {
                    rest
                };
                let ghost n = plan@.len() as int;
                let ghost before = plan@;
                proof {
                    if n >= 1 {
                        // The tile before this one was a full one.
                        assert(before[n - 1].0 == (n - 1) * block_size);
                        assert((n - 1) * block_size + before[n - 1].1 == n * block_size);
                        assert((n - 1) * block_size + block_size == n * block_size)
                            by (nonlinear_arith);
                    }
                    assert((n + 1) * block_size == n * block_size + block_size)
                        by (nonlinear_arith);
                    assert(0 * block_size == 0) by (nonlinear_arith);
                }
                plan.push((start, len));
                start += len;
                proof {
                    assert forall|t: int| 0 <= t < plan@.len() - 1 implies (#[trigger] plan@[t]).1
                        == block_size && plan@[t].0 + plan@[t].1 == plan@[t + 1].0 by {
                        if t < n - 1 {
                            assert(before[t].1 == block_size);
                            assert(plan@[t] == before[t]);
                            assert(plan@[t + 1] == before[t + 1]);
                        } else {
                            assert(plan@[t] == before[n - 1]);
                        }
                    }
                    assert forall|t: int| 0 <= t < plan@.len() implies (#[trigger] plan@[t]).0 == t
                        * block_size && 1 <= plan@[t].1 <= block_size && plan@[t].0 + plan@[t].1
                        <= start by {
                        if t < n {
                            assert(plan@[t] == before[t]);
                        }
                    }
                }
            }
            plan
        },
    }
}

/// The tiles follow one another from the first query on and end with the
/// last: no query is left out and none is attended twice.
pub open spec fn covers(plan: Seq<(usize, usize)>, q_len: int) -> bool {
    if plan.len() == 0 {
        q_len == 0
    } else {
        &&& plan[0].0 == 0
        &&& forall|t: int| 0 <= t < plan.len() - 1 ==> (#[trigger] plan[t]).0 + plan[t].1 == plan[t
            + 1].0
        &&& forall|t: int| 0 <= t < plan.len() ==> (#[trigger] plan[t]).0 + plan[t].1 <= q_len
        &&& plan.last().0 + plan.last().1 == q_len
    }
}

/// The masks of the tiles of a plan, one after the other.
pub open spec fn plan_masks(
    plan: Seq<(usize, usize)>,
    k_len: int,
    q_len: int,
    is_causal: bool,
    context_window: Option<usize>,
) -> Seq<u32>
    decreases plan.len(),
{
    if plan.len() == 0 {
        Seq::empty()
    } else {
        plan_masks(plan.drop_last(), k_len, q_len, is_causal, context_window) + mask_bits(
            plan.last().0 as int,
            plan.last().1 as int,
            k_len,
            q_len,
            is_causal,
            context_window,
        )
    }
}

/// The first `n` tiles of a plan that covers the queries carry, between
/// them, the mask of all queries before tile `n`.
proof fn lemma_plan_masks_upto(
    plan: Seq<(usize, usize)>,
    n: int,
    k_len: int,
    q_len: int,
    is_causal: bool,
    context_window: Option<usize>,
)
    requires
        covers(plan, q_len),
        0 <= k_len,
        1 <= n <= plan.len(),
    ensures
        plan_masks(plan.take(n), k_len, q_len, is_causal, context_window) == mask_bits(
            0,
            plan[n - 1].0 + plan[n - 1].1,
            k_len,
            q_len,
            is_causal,
            context_window,
        ),
    decreases n,
{
    let upto = plan.take(n);
    let last = plan[n - 1];
    let tile = mask_bits(last.0 as int, last.1 as int, k_len, q_len, is_causal, context_window);
    assert(upto.last() == last);
    assert(upto.drop_last() =~= plan.take(n - 1));
    assert(plan_masks(upto, k_len, q_len, is_causal, context_window) == plan_masks(
        plan.take(n - 1),
        k_len,
        q_len,
        is_causal,
        context_window,
    ) + tile);
    if n == 1 {
        assert(plan.take(0) =~= Seq::<(usize, usize)>::empty());
        assert(last.0 == 0);
        assert(Seq::<u32>::empty() + tile =~= tile);
    } else {
        lemma_plan_masks_upto(plan, n - 1, k_len, q_len, is_causal, context_window);
        assert(plan[n - 2].0 + plan[n - 2].1 == plan[n - 2 + 1].0);
        lemma_mask_splits(
            0,
            last.0 as nat,
            last.1 as nat,
            k_len,
            q_len,
            is_causal,
            context_window,
        );
    }
}

/// Tile invariance of the kernel's plan: the masks of the tiles that cover
/// the queries, one after the other, are the mask of all queries at once.
pub proof fn lemma_plan_masks(
    plan: Seq<(usize, usize)>,
    k_len: int,
    q_len: int,
    is_causal: bool,
    context_window: Option<usize>,
)
    requires
        covers(plan, q_len),
        0 <= k_len,
    ensures
        plan_masks(plan, k_len, q_len, is_causal, context_window) == mask_bits(
            0,
            q_len,
            k_len,
            q_len,
            is_causal,
            context_window,
        ),
{
    if plan.len() == 0 {
        assert(0 * k_len == 0) by (nonlinear_arith);
        assert(mask_bits(0, 0, k_len, q_len, is_causal, context_window) =~= Seq::<u32>::empty());
    } else {
        lemma_plan_masks_upto(plan, plan.len() as int, k_len, q_len, is_causal, context_window);
        assert(plan.take(plan.len() as int) =~= plan);
    }
}

/// Attends one tile of queries to all keys:
/// `softmax(q_chunk · k_t · scale + mask) · v`, where the mask is
/// `tile_mask` of the tile.
fn attend(
    q_chunk: &Tensor,
    k_t: &Tensor,
    v: &Tensor,
    scale: &Tensor,
    start: usize,
    len: usize,
    q_len: usize,
    k_len: usize,
    is_causal: bool,
    context_window: Option<usize>,
) -> (r: Result<Tensor, AttentionError>)
    requires
        tensor_dims(*q_chunk).len() == 4,
        tensor_dims(*q_chunk)[2] == len,
        holds_floats(*q_chunk),
        tensor_dims(*k_t) == seq![
            tensor_dims(*q_chunk)[0],
            tensor_dims(*q_chunk)[1],
            tensor_dims(*q_chunk)[3],
            k_len,
        ],
        tensor_dims(*v) == seq![
            tensor_dims(*q_chunk)[0],
            tensor_dims(*q_chunk)[1],
            k_len,
            tensor_dims(*q_chunk)[3],
        ],
        tensor_dims(*scale).len() == 0,
        sized4(tensor_dims(*q_chunk)[0], tensor_dims(*q_chunk)[1], len, tensor_dims(*q_chunk)[3]),
        sized4(tensor_dims(*q_chunk)[0], tensor_dims(*q_chunk)[1], k_len, tensor_dims(*q_chunk)[3]),
        sized4(tensor_dims(*q_chunk)[0], tensor_dims(*q_chunk)[1], len, k_len),
    ensures
        match r {
            Ok(out) => tensor_dims(out) == tensor_dims(*q_chunk),
            Err(e) => e is Backend,
        },
{
    let ghost b = tensor_dims(*q_chunk)[0];
    let ghost h = tensor_dims(*q_chunk)[1];
    let ghost d = tensor_dims(*q_chunk)[3];
    let ghost score_dims = seq![b, h, len, k_len];
    proof {
        lemma_four_axes(tensor_dims(*q_chunk));
        lemma_four_axes(tensor_dims(*k_t));
        lemma_four_axes(tensor_dims(*v));
        lemma_four_axes(score_dims);
        lemma_sized4_swap(b, h, k_len, d);
        assert(crate::tensor::matmul_dims(tensor_dims(*q_chunk), tensor_dims(*k_t)) =~= score_dims);
        assert(len * k_len <= b * h * len * k_len) by (nonlinear_arith)
            requires
                b >= 1,
                h >= 1,
        ;
    }
    let scores = backend(matmul(q_chunk, k_t))?;
    let scores = backend(broadcast_mul(&scores, scale))?;
    let scores = match tile_mask(start, len, k_len, q_len, is_causal, context_window) {
        Some(bits) => {
            let mask = mask_tensor(&bits, len, k_len, device_of(q_chunk))?;
            backend(broadcast_add(&scores, &mask))?
        },
        None => scores,
    };
    let probs = backend(softmax_last_dim(&scores))?;
    proof {
        assert(crate::tensor::matmul_dims(tensor_dims(probs), tensor_dims(*v)) =~= tensor_dims(
            *q_chunk,
        ));
    }
    backend(matmul(&probs, v))
}

/// Scaled dot-product attention with the default policy: one pass for fewer
/// than 512 queries, tiles of 128 queries from there on.
///
/// See [`sdpa_with_policy`] for what is returned.
pub fn sdpa(
    q: &Tensor,
    k: &Tensor,
    v: &Tensor,
    scale: &Tensor,
    is_causal: bool,
    context_window: Option<usize>,
) -> (r: Result<Tensor, AttentionError>)
    ensures
        sdpa_outcome(r, *q, *k, *v, *scale, is_causal, context_window),
{
    let policy = SdpaPolicy::default();
    sdpa_with_policy(q, k, v, scale, is_causal, context_window, &policy)
}

/// Scaled dot-product attention of queries `q` `[B, H, Tq, D]` over keys `k`
/// and values `v` `[B, H, Tk, D]`, with scores multiplied by the scalar
/// tensor `scale`.
///
/// With `is_causal`, a query sees no key after its own position; with a
/// context window, none that lies the window's width or more before it. The
/// queries are taken to be the last `Tq` of the `Tk` positions.
///
/// The queries are attended tile by tile as `tiles` cuts them, each tile
/// under its `tile_mask`, and the tiles' results are put together in order.
///
/// * The call fails with `Shape` exactly when `sdpa_accepts` does not hold
///   of the operands.
/// * Else it fails with `Numeric` exactly when some query would be left
///   without any key, which would make its softmax row undefined.
/// * Else the backend decides: a result has the shape of `q`.
pub fn sdpa_with_policy(
    q: &Tensor,
    k: &Tensor,
    v: &Tensor,
    scale: &Tensor,
    is_causal: bool,
    context_window: Option<usize>,
    policy: &SdpaPolicy,
) -> (r: Result<Tensor, AttentionError>)
    ensures
        sdpa_outcome(r, *q, *k, *v, *scale, is_causal, context_window),
{
    let q_dims = dims(q);
    let k_dims = dims(k);
    let v_dims = dims(v);
    let scale_dims = dims(scale);
    if !shapes_ok(&q_dims, &k_dims, &v_dims, &scale_dims) || !is_float(dtype_of(q)) {
        return Err(AttentionError::Shape);
    }
    let q_len = q_dims[2];
    let kv_len = k_dims[2];
    if !rows_attend(q_len, kv_len, is_causal, context_window) {
        return Err(AttentionError::Numeric);
    }
    let ghost b = q_dims[0];
    let ghost h = q_dims[1];
    let ghost d = q_dims[3];
    proof {
        lemma_four_axes(tensor_dims(*q));
        lemma_four_axes(tensor_dims(*k));
        lemma_four_axes(tensor_dims(*v));
    }
    let k_t = backend(transpose(k, 2, 3))?;
    assert(tensor_dims(k_t) =~= seq![b, h, d, kv_len]);

    let plan = tiles(policy, q_len);
    let mut outputs: Vec<Tensor> = Vec::new();
    let mut t: usize = 0;
    while t < plan.len()
        invariant
            t <= plan@.len(),
            plan@.len() >= 1,
            covers(plan@, q_len as int),
            forall|i: int| 0 <= i < plan@.len() ==> (#[trigger] plan@[i]).1 >= 1,
            q_len >= 1,
            sdpa_accepts(*q, *k, *v, *scale),
            every_row_attends(q_len as int, kv_len as int, is_causal, context_window),
            q_len == tensor_dims(*q)[2],
            kv_len == tensor_dims(*k)[2],
            tensor_dims(*q) == seq![b, h, q_len, d],
            tensor_dims(k_t) == seq![b, h, d, kv_len],
            tensor_dims(*v) == seq![b, h, kv_len, d],
            tensor_dims(*scale).len() == 0,
            sized4(b, h, q_len, d),
            sized4(b, h, kv_len, d),
            sized4(b, h, q_len, kv_len),
            outputs@.len() == t,
            t < plan@.len() ==> cat_len(outputs@, 2) == plan@[t as int].0,
            t == plan@.len() ==> cat_len(outputs@, 2) == q_len,
            forall|p: int|
                0 <= p < outputs@.len() ==> (#[trigger] tensor_dims(outputs@[p])).len() == 4
                    && tensor_dims(outputs@[p])[0] == b && tensor_dims(outputs@[p])[1] == h
                    && tensor_dims(outputs@[p])[3] == d,
        decreases plan@.len() - t,
    {
        let (start, len) = plan[t];
        assert(plan@[t as int].0 + plan@[t as int].1 <= q_len);
        assert(len >= 1);
        let q_chunk = backend(narrow(q, 2, start, len))?;
        proof {
            assert(tensor_dims(q_chunk) =~= seq![b, h, len, d]);
            lemma_sized4_shrink(b, h, q_len, d, len);
            lemma_sized4_shrink(b, h, q_len, kv_len, len);
        }
        let out_chunk = attend(
            &q_chunk,
            &k_t,
            v,
            scale,
            start,
            len,
            q_len,
            kv_len,
            is_causal,
            context_window,
        )?;
        proof {
            assert(outputs@.push(out_chunk).drop_last() =~= outputs@);
            if t + 1 < plan@.len() {
                assert(plan@[t as int].0 + plan@[t as int].1 == plan@[t + 1].0);
            }
        }
        outputs.push(out_chunk);
        t += 1;
    }
    proof {
        let first = tensor_dims(outputs@[0]);
        lemma_four_axes(first);
        assert(first.update(2, q_len) =~= seq![b, h, q_len, d]);
        lemma_four_axes(seq![b, h, q_len, d]);
        assert(cat_compatible(outputs@, 2)) by {
            assert forall|p: int, axis: int|
                #![trigger tensor_dims(outputs@[p])[axis]]
                0 <= p < outputs@.len() implies tensor_dims(outputs@[p]).len() == tensor_dims(
                outputs@[0],
            ).len() && (0 <= axis < tensor_dims(outputs@[0]).len() && axis != 2 ==> tensor_dims(
                outputs@[p],
            )[axis] == tensor_dims(outputs@[0])[axis]) by {
                assert(tensor_dims(outputs@[p]).len() == 4);
            }
        }
    }
    backend(cat(&outputs, 2))
}

} // verus!
