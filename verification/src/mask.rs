//! The attention mask: which keys a query may look at.
//!
//! A mask is additive. An entry is zero where the query may attend and
//! negative infinity where it may not, so that the softmax that follows gives
//! the forbidden key no weight. Entries are held as IEEE 754 binary32 bit
//! patterns; they become a tensor only at the very end.

use vstd::prelude::*;
use vstd::arithmetic::div_mod::{
    lemma_fundamental_div_mod_converse_div,
    lemma_fundamental_div_mod_converse_mod,
};
use candle_core::{Device, Tensor};
use crate::error::{backend, AttentionError};
use crate::tensor::{from_bits, tensor_bits, tensor_dims};

verus! {

/// The binary32 bit pattern of zero: the key may be attended to.
pub const ZERO_BITS: u32 = 0;

/// The binary32 bit pattern of negative infinity: the key is masked out.
pub const NEG_INFINITY_BITS: u32 = 0xFF80_0000;

/// How far the queries are shifted against the keys: with a cache there are
/// more keys than queries, and the queries are the last of them.
pub open spec fn cache_shift(k_len: int, total_q_len: int) -> int {
    if k_len >= total_q_len {
        k_len - total_q_len
    } else {
        0
    }
}

/// The position, among the keys, of the query with absolute index `i_abs`.
pub open spec fn query_position(i_abs: int, k_len: int, total_q_len: int) -> int {
    i_abs + cache_shift(k_len, total_q_len)
}

/// Key `j` lies after the query at `pos_q`, and looking ahead is forbidden.
pub open spec fn is_future(pos_q: int, j: int, causal: bool) -> bool {
    causal && j > pos_q
}

/// Key `j` lies at least `window` positions before the query at `pos_q`.
pub open spec fn is_out_of_context(pos_q: int, j: int, context_window: Option<usize>) -> bool {
    match context_window {
        Some(window) => pos_q >= window && j <= pos_q - window,
        None => false,
    }
}

/// The query at `pos_q` may not attend to key `j`.
pub open spec fn is_masked(pos_q: int, j: int, causal: bool, context_window: Option<usize>) -> bool {
    is_future(pos_q, j, causal) || is_out_of_context(pos_q, j, context_window)
}

/// The mask entry for the query at `pos_q` and key `j`.
pub open spec fn mask_entry(pos_q: int, j: int, causal: bool, context_window: Option<usize>) -> u32 {
    if is_masked(pos_q, j, causal, context_window) {
        NEG_INFINITY_BITS
    } else {
        ZERO_BITS
    }
}

/// The entry at flat index `idx` of the mask for the queries from `start_q`
/// on: row `idx / k_len`, key `idx % k_len`.
pub open spec fn mask_bit_at(
    idx: int,
    start_q: int,
    k_len: int,
    total_q_len: int,
    causal: bool,
    context_window: Option<usize>,
) -> u32 {
    mask_entry(
        query_position(start_q + idx / k_len, k_len, total_q_len),
        idx % k_len,
        causal,
        context_window,
    )
}

/// The mask for the `num_q` queries from `start_q` on against `k_len` keys,
/// row after row.
pub open spec fn mask_bits(
    start_q: int,
    num_q: int,
    k_len: int,
    total_q_len: int,
    causal: bool,
    context_window: Option<usize>,
) -> Seq<u32> {
    Seq::new(
        (num_q * k_len) as nat,
        |idx: int| mask_bit_at(idx, start_q, k_len, total_q_len, causal, context_window),
    )
}

/// The masks of consecutive chunks of queries, of the given sizes and
/// starting at `start_q`, one after the other.
pub open spec fn tiled_mask_bits(
    start_q: int,
    sizes: Seq<nat>,
    k_len: int,
    total_q_len: int,
    causal: bool,
    context_window: Option<usize>,
) -> Seq<u32>
    decreases sizes.len(),
{
    if sizes.len() == 0 {
        Seq::empty()
    } else {
        mask_bits(start_q, sizes[0] as int, k_len, total_q_len, causal, context_window)
            + tiled_mask_bits(
            start_q + sizes[0],
            sizes.drop_first(),
            k_len,
            total_q_len,
            causal,
            context_window,
        )
    }
}

/// The sum of the chunk sizes.
pub open spec fn total_size(sizes: Seq<nat>) -> nat
    decreases sizes.len(),
{
    if sizes.len() == 0 {
        0
    } else {
        sizes[0] + total_size(sizes.drop_first())
    }
}

/// The query at `pos_q` has at least one of the `k_len` keys left to attend
/// to.
pub open spec fn row_attends(
    pos_q: int,
    k_len: int,
    causal: bool,
    context_window: Option<usize>,
) -> bool {
    exists|j: int| 0 <= j < k_len && !is_masked(pos_q, j, causal, context_window)
}

/// Each of `q_len` queries has at least one of the `k_len` keys left to
/// attend to, so that no softmax row is undefined.
pub open spec fn every_row_attends(
    q_len: int,
    k_len: int,
    causal: bool,
    context_window: Option<usize>,
) -> bool {
    forall|i: int|
        0 <= i < q_len ==> #[trigger] row_attends(
            query_position(i, k_len, q_len),
            k_len,
            causal,
            context_window,
        )
}

/// The first key the query at `pos_q` may attend to, as far as the context
/// window is concerned.
pub open spec fn first_in_context(pos_q: int, context_window: Option<usize>) -> int {
    match context_window {
        Some(window) => if pos_q >= window {
            pos_q - window + 1
        } else {
            0
        },
        None => 0,
    }
}

/// The last of `k_len` keys the query at `pos_q` may attend to, as far as
/// causality is concerned.
pub open spec fn last_visible(pos_q: int, k_len: int, causal: bool) -> int {
    if causal && pos_q < k_len - 1 {
        pos_q
    } else {
        k_len - 1
    }
}

/// A row of flat index arithmetic: `row * k + col` splits back into `row`
/// and `col`.
proof fn lemma_flat_index(row: int, col: int, k: int)
    requires
        0 <= col < k,
    ensures
        (row * k + col) / k == row,
        (row * k + col) % k == col,
{
    lemma_fundamental_div_mod_converse_div(row * k + col, k, row, col);
    lemma_fundamental_div_mod_converse_mod(row * k + col, k, row, col);
}

/// The keys a query may attend to form the range from `first_in_context` to
/// `last_visible`, so the query attends exactly when that range is not empty.
pub proof fn lemma_row_attends(pos_q: int, k_len: int, causal: bool, context_window: Option<usize>)
    requires
        0 <= pos_q,
    ensures
        row_attends(pos_q, k_len, causal, context_window) <==> first_in_context(
            pos_q,
            context_window,
        ) <= last_visible(pos_q, k_len, causal),
{
    let lo = first_in_context(pos_q, context_window);
    let hi = last_visible(pos_q, k_len, causal);
    if lo <= hi {
        assert(0 <= lo < k_len && !is_masked(pos_q, lo, causal, context_window));
    } else {
        assert forall|j: int| 0 <= j < k_len implies is_masked(
            pos_q,
            j,
            causal,
            context_window,
        ) by {
            if j > hi {
                assert(is_future(pos_q, j, causal));
            } else {
                assert(is_out_of_context(pos_q, j, context_window));
            }
        }
    }
}

/// A query that attends keeps doing so when it is moved to an earlier
/// position: of all queries, the last is the first to run out of keys.
pub proof fn lemma_row_attends_earlier(
    pos_q: int,
    earlier: int,
    k_len: int,
    causal: bool,
    context_window: Option<usize>,
)
    requires
        0 <= earlier <= pos_q,
        row_attends(pos_q, k_len, causal, context_window),
    ensures
        row_attends(earlier, k_len, causal, context_window),
{
    lemma_row_attends(pos_q, k_len, causal, context_window);
    lemma_row_attends(earlier, k_len, causal, context_window);
}

/// Causality: a key that lies after the query is masked out.
pub proof fn lemma_future_is_masked(
    start_q: int,
    num_q: int,
    k_len: int,
    total_q_len: int,
    context_window: Option<usize>,
    i: int,
    j: int,
)
    requires
        0 <= i < num_q,
        0 <= j < k_len,
        j > query_position(start_q + i, k_len, total_q_len),
    ensures
        i * k_len + j < mask_bits(start_q, num_q, k_len, total_q_len, true, context_window).len(),
        mask_bits(start_q, num_q, k_len, total_q_len, true, context_window)[i * k_len + j]
            == NEG_INFINITY_BITS,
{
    lemma_flat_index(i, j, k_len);
    lemma_flat_in_range(i, j, num_q, k_len);
}

/// Context window: a key that lies `window` or more positions before the
/// query is masked out.
pub proof fn lemma_out_of_context_is_masked(
    start_q: int,
    num_q: int,
    k_len: int,
    total_q_len: int,
    causal: bool,
    window: usize,
    i: int,
    j: int,
)
    requires
        0 <= i < num_q,
        0 <= j < k_len,
        query_position(start_q + i, k_len, total_q_len) >= window,
        j <= query_position(start_q + i, k_len, total_q_len) - window,
    ensures
        i * k_len + j < mask_bits(start_q, num_q, k_len, total_q_len, causal, Some(window)).len(),
        mask_bits(start_q, num_q, k_len, total_q_len, causal, Some(window))[i * k_len + j]
            == NEG_INFINITY_BITS,
{
    lemma_flat_index(i, j, k_len);
    lemma_flat_in_range(i, j, num_q, k_len);
}

/// Every other entry is zero: a key that is neither ahead of the query nor
/// out of its context window can be attended to.
pub proof fn lemma_visible_is_zero(
    start_q: int,
    num_q: int,
    k_len: int,
    total_q_len: int,
    causal: bool,
    context_window: Option<usize>,
    i: int,
    j: int,
)
    requires
        0 <= i < num_q,
        0 <= j < k_len,
        !is_masked(query_position(start_q + i, k_len, total_q_len), j, causal, context_window),
    ensures
        i * k_len + j < mask_bits(start_q, num_q, k_len, total_q_len, causal, context_window).len(),
        mask_bits(start_q, num_q, k_len, total_q_len, causal, context_window)[i * k_len + j]
            == ZERO_BITS,
{
    lemma_flat_index(i, j, k_len);
    lemma_flat_in_range(i, j, num_q, k_len);
}

/// The flat index of an entry inside the mask lies inside the mask.
proof fn lemma_flat_in_range(i: int, j: int, num_q: int, k_len: int)
    requires
        0 <= i < num_q,
        0 <= j < k_len,
    ensures
        0 <= i * k_len + j < num_q * k_len,
{
    assert(i * k_len + j < num_q * k_len) by (nonlinear_arith)
        requires
            0 <= i < num_q,
            0 <= j < k_len,
    ;
    assert(0 <= i * k_len) by (nonlinear_arith)
        requires
            0 <= i,
            0 <= k_len,
    ;
}

/// Tile invariance for two chunks: the mask of `first + second` queries is
/// the mask of the first `first` followed by the mask of the next `second`.
pub proof fn lemma_mask_splits(
    start_q: int,
    first: nat,
    second: nat,
    k_len: int,
    total_q_len: int,
    causal: bool,
    context_window: Option<usize>,
)
    requires
        0 <= k_len,
    ensures
        mask_bits(start_q, (first + second) as int, k_len, total_q_len, causal, context_window)
            == mask_bits(start_q, first as int, k_len, total_q_len, causal, context_window)
            + mask_bits(start_q + first, second as int, k_len, total_q_len, causal, context_window),
{
    let whole = mask_bits(
        start_q,
        (first + second) as int,
        k_len,
        total_q_len,
        causal,
        context_window,
    );
    let head = mask_bits(start_q, first as int, k_len, total_q_len, causal, context_window);
    let tail = mask_bits(start_q + first, second as int, k_len, total_q_len, causal, context_window);
    assert((first + second) * k_len == first * k_len + second * k_len) by (nonlinear_arith);
    assert(0 <= first * k_len && 0 <= second * k_len) by (nonlinear_arith)
        requires
            0 <= k_len,
    ;
    assert(whole.len() == head.len() + tail.len());
    assert forall|idx: int| 0 <= idx < whole.len() implies whole[idx] == (head + tail)[idx] by {
        if idx >= head.len() {
            assert(k_len != 0) by (nonlinear_arith)
                requires
                    0 <= idx < (first + second) * k_len,
            ;
            let rest = idx - first * k_len;
            let row = rest / k_len;
            let col = rest % k_len;
            vstd::arithmetic::div_mod::lemma_fundamental_div_mod(rest, k_len);
            vstd::arithmetic::div_mod::lemma_mod_bound(rest, k_len);
            assert(idx == (row + first) * k_len + col) by (nonlinear_arith)
                requires
                    rest == k_len * row + col,
                    idx == rest + first * k_len,
            ;
            lemma_flat_index(row + first, col, k_len);
        }
    }
    assert(whole =~= head + tail);
}

/// Tile invariance: however a range of queries is cut into consecutive
/// chunks, the chunks' masks one after the other are the mask of the range.
pub proof fn lemma_mask_tile_invariance(
    start_q: int,
    sizes: Seq<nat>,
    k_len: int,
    total_q_len: int,
    causal: bool,
    context_window: Option<usize>,
)
    requires
        0 <= k_len,
    ensures
        tiled_mask_bits(start_q, sizes, k_len, total_q_len, causal, context_window) == mask_bits(
            start_q,
            total_size(sizes) as int,
            k_len,
            total_q_len,
            causal,
            context_window,
        ),
    decreases sizes.len(),
{
    if sizes.len() == 0 {
        assert(0 * k_len == 0) by (nonlinear_arith);
        assert(mask_bits(start_q, 0, k_len, total_q_len, causal, context_window) =~= Seq::<
            u32,
        >::empty());
    } else {
        lemma_mask_tile_invariance(
            start_q + sizes[0],
            sizes.drop_first(),
            k_len,
            total_q_len,
            causal,
            context_window,
        );
        lemma_mask_splits(
            start_q,
            sizes[0],
            total_size(sizes.drop_first()),
            k_len,
            total_q_len,
            causal,
            context_window,
        );
    }
}

/// Tile invariance for the whole query range: the mask computed once over
/// `[0, total_q_len)` is the concatenation of the masks of any partition of
/// that range into consecutive chunks.
pub proof fn lemma_full_mask_from_tiles(
    sizes: Seq<nat>,
    k_len: int,
    total_q_len: int,
    causal: bool,
    context_window: Option<usize>,
)
    requires
        0 <= k_len,
        total_size(sizes) == total_q_len,
    ensures
        mask_bits(0, total_q_len, k_len, total_q_len, causal, context_window) == tiled_mask_bits(
            0,
            sizes,
            k_len,
            total_q_len,
            causal,
            context_window,
        ),
{
    lemma_mask_tile_invariance(0, sizes, k_len, total_q_len, causal, context_window);
}

/// With causal masking, more keys than queries and a context window that is
/// absent or at least one wide, every query can attend to the key at its own
/// position: no row is masked out entirely.
pub proof fn lemma_causal_rows_attend(q_len: int, k_len: int, context_window: Option<usize>)
    requires
        0 <= q_len <= k_len,
        context_window != Some(0usize),
    ensures
        every_row_attends(q_len, k_len, true, context_window),
{
    assert forall|i: int| 0 <= i < q_len implies #[trigger] row_attends(
        query_position(i, k_len, q_len),
        k_len,
        true,
        context_window,
    ) by {
        let pos_q = query_position(i, k_len, q_len);
        assert(0 <= pos_q < k_len && !is_masked(pos_q, pos_q, true, context_window));
    }
}

/// The mask entry for the query at `pos_q` and key `j`.
fn entry(pos_q: u128, j: usize, is_causal: bool, context_window: Option<usize>) -> (bits: u32)
    ensures
        bits == mask_entry(pos_q as int, j as int, is_causal, context_window),
{
    let key = j as u128;
    let future = is_causal && key > pos_q;
    let out_of_context = match context_window {
        Some(window) => pos_q >= window as u128 && key <= pos_q - window as u128,
        None => false,
    };
    if future || out_of_context {
        NEG_INFINITY_BITS
    } else {
        ZERO_BITS
    }
}

/// The position, among the keys, of the query with absolute index
/// `start_q + i`.
fn position(start_q: usize, i: usize, k_len: usize, total_q_len: usize) -> (pos_q: u128)
    ensures
        pos_q == query_position(start_q + i, k_len as int, total_q_len as int),
{
    let shift = if k_len >= total_q_len {
        k_len - total_q_len
    } else {
        0
    };
    start_q as u128 + i as u128 + shift as u128
}

/// Computes the mask for the `num_q` queries from `start_q` on, out of
/// `total_q_len`, against `k_len` keys: `num_q` rows of `k_len` entries each.
/// There is no result only where that many entries cannot be held.
pub fn mask_chunk_bits(
    start_q: usize,
    num_q: usize,
    k_len: usize,
    total_q_len: usize,
    is_causal: bool,
    context_window: Option<usize>,
) -> (r: Option<Vec<u32>>)
    ensures
        r is Some <==> num_q * k_len <= usize::MAX,
        r matches Some(bits) ==> bits@ == mask_bits(
            start_q as int,
            num_q as int,
            k_len as int,
            total_q_len as int,
            is_causal,
            context_window,
        ),
{
    if num_q.checked_mul(k_len).is_none() {
        return None;
    }
    let mut bits: Vec<u32> = Vec::new();
    let mut i: usize = 0;
    while i < num_q
        invariant
            i <= num_q,
            num_q * k_len <= usize::MAX,
            bits@.len() == i * k_len,
            forall|idx: int|
                0 <= idx < bits@.len() ==> bits@[idx] == mask_bit_at(
                    idx,
                    start_q as int,
                    k_len as int,
                    total_q_len as int,
                    is_causal,
                    context_window,
                ),
        decreases num_q - i,
    {
        let pos_q = position(start_q, i, k_len, total_q_len);
        let mut j: usize = 0;
        while j < k_len
            invariant
                i < num_q,
                j <= k_len,
                num_q * k_len <= usize::MAX,
                pos_q == query_position(start_q + i, k_len as int, total_q_len as int),
                bits@.len() == i * k_len + j,
                forall|idx: int|
                    0 <= idx < bits@.len() ==> bits@[idx] == mask_bit_at(
                        idx,
                        start_q as int,
                        k_len as int,
                        total_q_len as int,
                        is_causal,
                        context_window,
                    ),
            decreases k_len - j,
        {
            let bit = entry(pos_q, j, is_causal, context_window);
            proof {
                lemma_flat_index(i as int, j as int, k_len as int);
                lemma_flat_in_range(i as int, j as int, num_q as int, k_len as int);
            }
            bits.push(bit);
            j += 1;
        }
        assert(i * k_len + k_len == (i + 1) * k_len) by (nonlinear_arith);
        i += 1;
    }
    assert(bits@ =~= mask_bits(
        start_q as int,
        num_q as int,
        k_len as int,
        total_q_len as int,
        is_causal,
        context_window,
    ));
    Some(bits)
}

/// Builds the additive mask for the `num_q` queries from `start_q` on as a
/// tensor of shape `[1, 1, num_q, k_len]` on `device`.
///
/// The call fails with `Shape` exactly when the mask would have more entries
/// than can be held; any other failure is the backend's.
pub fn generate_mask_chunk(
    start_q: usize,
    num_q: usize,
    k_len: usize,
    total_q_len: usize,
    is_causal: bool,
    context_window: Option<usize>,
    device: &Device,
) -> (r: Result<Tensor, AttentionError>)
    ensures
        match r {
            Ok(mask) => tensor_dims(mask) == seq![1usize, 1usize, num_q, k_len] && tensor_bits(mask)
                == mask_bits(
                start_q as int,
                num_q as int,
                k_len as int,
                total_q_len as int,
                is_causal,
                context_window,
            ),
            Err(AttentionError::Shape) => num_q * k_len > usize::MAX,
            Err(AttentionError::Backend(_)) => num_q * k_len <= usize::MAX,
            Err(_) => false,
        },
{
    match mask_chunk_bits(start_q, num_q, k_len, total_q_len, is_causal, context_window) {
        Some(bits) => mask_tensor(&bits, num_q, k_len, device),
        None => Err(AttentionError::Shape),
    }
}

/// Lays `num_q` rows of `k_len` mask entries out as a tensor of shape
/// `[1, 1, num_q, k_len]`, which stretches over batch and heads when it is
/// added to the scores.
pub fn mask_tensor(bits: &Vec<u32>, num_q: usize, k_len: usize, device: &Device) -> (r: Result<
    Tensor,
    AttentionError,
>)
    requires
        bits@.len() == num_q * k_len,
    ensures
        match r {
            Ok(mask) => tensor_dims(mask) == seq![1usize, 1usize, num_q, k_len] && tensor_bits(mask)
                == bits@,
            Err(e) => e is Backend,
        },
{
    let dims: Vec<usize> = vec![1, 1, num_q, k_len];
    proof {
        assert(dims@ =~= seq![1usize, 1usize, num_q, k_len]);
        crate::shape::lemma_elem_count4(1, 1, num_q, k_len);
        assert(1 * 1 * num_q * k_len == num_q * k_len) by (nonlinear_arith);
    }
    backend(from_bits(bits, &dims, device))
}

/// The mask for one tile of queries, the `len` from `start` on out of
/// `q_len`: none where neither causality nor a context window asks for one,
/// and none where that many entries cannot be held.
pub fn tile_mask(
    start: usize,
    len: usize,
    k_len: usize,
    q_len: usize,
    is_causal: bool,
    context_window: Option<usize>,
) -> (m: Option<Vec<u32>>)
    ensures
        m is Some <==> (is_causal || context_window is Some) && len * k_len <= usize::MAX,
        m matches Some(bits) ==> bits@ == mask_bits(
            start as int,
            len as int,
            k_len as int,
            q_len as int,
            is_causal,
            context_window,
        ),
{
    if is_causal || context_window.is_some() {
        mask_chunk_bits(start, len, k_len, q_len, is_causal, context_window)
    } else {
        None
    }
}

/// Whether the query at `pos_q` has any of the `k_len` keys left to attend
/// to.
fn row_is_open(pos_q: u128, k_len: usize, is_causal: bool, context_window: Option<usize>) -> (open:
    bool)
    requires
        pos_q < u128::MAX,
    ensures
        open == row_attends(pos_q as int, k_len as int, is_causal, context_window),
{
    proof {
        lemma_row_attends(pos_q as int, k_len as int, is_causal, context_window);
    }
    if k_len == 0 {
        return false;
    }
    let first: u128 = match context_window {
        Some(window) => if pos_q >= window as u128 {
            pos_q - window as u128 + 1
        } else {
            0
        },
        None => 0,
    };
    let last: u128 = if is_causal && pos_q < (k_len - 1) as u128 {
        pos_q
    } else {
        (k_len - 1) as u128
    };
    first <= last
}

/// Whether each of `q_len` queries has at least one of the `k_len` keys left
/// to attend to. Only the last query needs to be looked at.
pub fn rows_attend(
    q_len: usize,
    k_len: usize,
    is_causal: bool,
    context_window: Option<usize>,
) -> (open: bool)
    ensures
        open == every_row_attends(q_len as int, k_len as int, is_causal, context_window),
{
    if q_len == 0 {
        return true;
    }
    let last = position(0, q_len - 1, k_len, q_len);
    let open = row_is_open(last, k_len, is_causal, context_window);
    proof {
        if open {
            assert forall|i: int| 0 <= i < q_len implies #[trigger] row_attends(
                query_position(i, k_len as int, q_len as int),
                k_len as int,
                is_causal,
                context_window,
            ) by {
                lemma_row_attends_earlier(
                    last as int,
                    query_position(i, k_len as int, q_len as int),
                    k_len as int,
                    is_causal,
                    context_window,
                );
            }
        } else {
            assert(!row_attends(
                query_position(q_len - 1, k_len as int, q_len as int),
                k_len as int,
                is_causal,
                context_window,
            ));
        }
    }
    open
}

} // verus!
