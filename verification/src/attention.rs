//! Streaming multi-head self-attention.
//!
//! A layer is called once per decode step, or once for a whole prompt. Each
//! call projects the incoming tokens to queries, keys and values, rotates
//! queries and keys by their absolute position, appends keys and values to
//! the layer's cache and attends the new queries causally to everything the
//! cache now holds.
//!
//! The cache grows by concatenation. A call either succeeds and advances the
//! layer's state by the tokens it was given, or fails and leaves the state
//! exactly as it found it.

use vstd::prelude::*;
use candle_core::{Device, Error, Tensor};
use candle_nn::Linear;
use crate::error::{backend, AttentionError};
use crate::mask::{every_row_attends, is_masked, lemma_causal_rows_attend, query_position, row_attends};
use crate::sdpa::sdpa;
use crate::shape::{
    checked_count4,
    lemma_elem_count3,
    lemma_elem_count4,
    lemma_elem_count5,
    sized4,
};
use crate::state::{LayerState, ModelState};
use crate::tensor::{
    cat,
    cat_compatible,
    cat_len,
    contiguous,
    dims,
    dtype_of,
    device_of,
    holds_floats,
    is_float,
    lies_in,
    linear_forward,
    narrow,
    recip,
    reshape,
    scalar,
    sqrt,
    squeeze,
    tensor_dims,
    to_dtype,
    transpose,
};

verus! {

/// Rotary positional embedding, supplied by the model the layer belongs to.
pub trait RotaryEmbedding {
    /// Rotates queries and keys of shape `[batch, tokens, heads, head_dim]`
    /// whose first token stands at absolute position `offset`, so that the
    /// phase runs on from one call to the next.
    ///
    /// The layer checks what comes back: both must have the shape of what
    /// went in, and the queries must hold floating-point numbers.
    fn forward(&self, q: &Tensor, k: &Tensor, offset: usize) -> Result<(Tensor, Tensor), Error>;
}


/// The number of tokens the layer called `name` has consumed: zero while it
/// has no state.
pub open spec fn position_in(state: Map<Seq<char>, LayerState>, name: Seq<char>) -> usize {
    if state.contains_key(name) {
        state[name].position
    } else {
        0
    }
}

/// An embedding width and a head count that go together: neither is zero,
/// the heads divide the width evenly, and three times the width can be
/// counted.
pub open spec fn config_ok(embed_dim: usize, num_heads: usize) -> bool {
    &&& num_heads >= 1
    &&& embed_dim >= 1
    &&& embed_dim % num_heads == 0
    &&& 3 * embed_dim <= usize::MAX
}

/// The sum of the token counts of a series of calls.
pub open spec fn tokens_total(tokens: Seq<usize>) -> nat
    decreases tokens.len(),
{
    if tokens.len() == 0 {
        0
    } else {
        tokens_total(tokens.drop_last()) + tokens.last() as nat
    }
}

/// One multi-head self-attention layer with a key/value cache.

/// What one call hands on: to the rotary embedding the position of the first
/// new token, to the kernel the number of keys, the masking rules and the
/// number whose inverse square root scales the scores.
#[derive(Debug, Clone, Copy)]
pub struct CallPlan {
    /// The absolute position of the first new token.
    pub offset: usize,
    /// The number of keys the new tokens attend over: cached and new.
    pub key_len: usize,
    /// Whether a token is kept from attending to later ones.
    pub causal: bool,
    /// How far back a token may attend, if that is limited.
    pub window: Option<usize>,
    /// The head width: scores are scaled by one over its square root.
    pub scale_from: u32,
}

/// One multi-head self-attention layer with a key/value cache.
pub struct StreamingMultiheadAttention<R: RotaryEmbedding> {
    embed_dim: usize,
    num_heads: usize,
    rope: R,
    in_proj: Linear,
    out_proj: Linear,
    context: Option<usize>,
    name: String,
}

impl<R: RotaryEmbedding> StreamingMultiheadAttention<R> {
    /// The configuration was checked when the layer was built.
    #[verifier::type_invariant]
    spec fn valid(self) -> bool {
        config_ok(self.embed_dim, self.num_heads)
    }

    /// The width of a token's embedding.
    pub closed spec fn embed_dim(&self) -> usize {
        self.embed_dim
    }

    /// The number of attention heads.
    pub closed spec fn num_heads(&self) -> usize {
        self.num_heads
    }

    /// The width of one head.
    pub open spec fn head_dim(&self) -> usize {
        (self.embed_dim() / self.num_heads()) as usize
    }

    /// How far back a query may look, if that is limited.
    pub closed spec fn context(&self) -> Option<usize> {
        self.context
    }

    /// The name under which the layer keeps its state.
    pub closed spec fn name(&self) -> Seq<char> {
        self.name@
    }

    /// A query the layer accepts: `[batch, tokens, embed_dim]` with at least
    /// one token in at least one batch row, small enough for its projection
    /// to be counted.
    pub open spec fn query_ok(&self, query: Seq<usize>) -> bool {
        &&& query.len() == 3
        &&& query[2] == self.embed_dim()
        &&& query[0] >= 1
        &&& query[1] >= 1
        &&& query[0] * query[1] * (3 * self.embed_dim()) <= usize::MAX
    }

    /// A layer state that has consumed tokens but lacks a cache.
    pub open spec fn cache_missing(layer: LayerState) -> bool {
        layer.position >= 1 && (layer.key_cache is None || layer.value_cache is None)
    }

    /// A layer state whose caches, as far as it has any, are those of this
    /// layer for `batch` rows: `[batch, position, num_heads, head_dim]`.
    pub open spec fn cache_fits(&self, layer: LayerState, batch: usize) -> bool {
        layer.position >= 1 ==> {
            &&& layer.key_cache matches Some(keys)
            &&& layer.value_cache matches Some(values)
            &&& tensor_dims(keys) == seq![
                batch,
                layer.position,
                self.num_heads(),
                self.head_dim(),
            ]
            &&& tensor_dims(values) == tensor_dims(keys)
        }
    }

    /// The caches that `tokens` more tokens behind `position` cached ones
    /// make, and the scores of the new tokens against them, can be counted,
    /// and so can the width of a head in 32 bits.
    pub open spec fn fits(&self, batch: usize, tokens: usize, position: usize) -> bool {
        &&& position + tokens <= usize::MAX
        &&& sized4(batch, (position + tokens) as usize, self.num_heads(), self.head_dim())
        &&& sized4(batch, self.num_heads(), tokens, (position + tokens) as usize)
        &&& self.head_dim() <= u32::MAX
    }

    /// The state the layer starts from: no entry counts as a fresh one.
    pub open spec fn starts_well(&self, state: Map<Seq<char>, LayerState>, batch: usize) -> bool {
        state.contains_key(self.name()) ==> self.cache_fits(state[self.name()], batch)
    }

    /// The projection that yields queries, keys and values.
    pub closed spec fn in_proj(&self) -> Linear {
        self.in_proj
    }

    /// The projection that the attended values pass through last.
    pub closed spec fn out_proj(&self) -> Linear {
        self.out_proj
    }

    /// The rotary embedding applied to queries and keys.
    pub closed spec fn rope(&self) -> R {
        self.rope
    }

    /// `after` is `before` advanced by one call that consumed `tokens`
    /// tokens in `batch` rows: this layer's position has moved on by
    /// `tokens`, both caches are as long as the new position, a state that
    /// was missing has been created, and no other layer has been touched.
    pub open spec fn advances(
        &self,
        before: Map<Seq<char>, LayerState>,
        after: Map<Seq<char>, LayerState>,
        batch: usize,
        tokens: usize,
    ) -> bool {
        let name = self.name();
        let layer = after[name];
        &&& after.contains_key(name)
        &&& after == before.insert(name, layer)
        &&& layer.position == position_in(before, name) + tokens
        &&& self.cache_fits(layer, batch)
        &&& layer.consistent()
    }

    /// What the layer had cached in `before` is still there in `after`,
    /// frame for frame, at the start of the caches: the frames of a call are
    /// put behind the ones that were there, and those are never rewritten.
    pub open spec fn keeps_frames(
        &self,
        before: Map<Seq<char>, LayerState>,
        after: Map<Seq<char>, LayerState>,
    ) -> bool {
        let name = self.name();
        before.contains_key(name) && before[name].position >= 1 ==> {
            &&& before[name].key_cache matches Some(old_keys)
            &&& before[name].value_cache matches Some(old_values)
            &&& after[name].key_cache matches Some(keys)
            &&& after[name].value_cache matches Some(values)
            &&& lies_in(keys, old_keys, 1, 0)
            &&& lies_in(values, old_values, 1, 0)
        }
    }

    /// What `commit` accepts: an output `[batch, tokens, embed_dim]` and
    /// caches `[batch, position + tokens, num_heads, head_dim]`, where
    /// `position` is where the layer stands in `before`.
    pub open spec fn commits(
        &self,
        before: Map<Seq<char>, LayerState>,
        batch: usize,
        tokens: usize,
        keys: Tensor,
        values: Tensor,
        out: Tensor,
    ) -> bool {
        let length = position_in(before, self.name()) + tokens;
        &&& length <= usize::MAX
        &&& tensor_dims(out) == seq![batch, tokens, self.embed_dim()]
        &&& tensor_dims(keys) == seq![batch, length as usize, self.num_heads(), self.head_dim()]
        &&& tensor_dims(values) == tensor_dims(keys)
    }

    /// Builds a layer around its two projections, `in_proj` from `embed_dim`
    /// to three times that and `out_proj` from `embed_dim` to `embed_dim`,
    /// both without bias. `name` must be the layer's own: it is the key of
    /// its state.
    ///
    /// The configuration is refused with `Shape` exactly when width and head
    /// count do not go together.
    pub fn new(
        embed_dim: usize,
        num_heads: usize,
        rope: R,
        context: Option<usize>,
        name: &str,
        in_proj: Linear,
        out_proj: Linear,
    ) -> (r: Result<Self, AttentionError>)
        ensures
            match r {
                Ok(layer) => {
                    &&& config_ok(embed_dim, num_heads)
                    &&& layer.embed_dim() == embed_dim
                    &&& layer.num_heads() == num_heads
                    &&& layer.rope() == rope
                    &&& layer.context() == context
                    &&& layer.name() == name@
                    &&& layer.in_proj() == in_proj
                    &&& layer.out_proj() == out_proj
                },
                Err(e) => e is Shape && !config_ok(embed_dim, num_heads),
            },
    {
        if num_heads == 0 || embed_dim == 0 || embed_dim % num_heads != 0 {
            return Err(AttentionError::Shape);
        }
        if embed_dim.checked_mul(3).is_none() {
            return Err(AttentionError::Shape);
        }
        Ok(
            StreamingMultiheadAttention {
                embed_dim,
                num_heads,
                rope,
                in_proj,
                out_proj,
                context,
                name: name.to_owned(),
            },
        )
    }

    /// The state of a layer that has not consumed anything yet. The caches
    /// come into being with the first tokens, in the batch size and on the
    /// device of those tokens, and grow by concatenation from there: nothing
    /// is set aside ahead of time, whatever `sequence_length` is expected.
    pub fn init_state(
        &self,
        batch_size: usize,
        _sequence_length: usize,
        _device: &Device,
    ) -> (layer: LayerState)
        ensures
            layer == LayerState::fresh(),
            layer.consistent(),
            self.cache_fits(layer, batch_size),
    {
        LayerState::new()
    }

    /// What one call hands to the rotary embedding and to the attention
    /// kernel, given the number of new tokens and the position the layer
    /// stands at. There is a plan unless the positions or the head width
    /// cannot be counted.
    pub fn call_plan(&self, tokens: usize, position: usize) -> (p: Option<CallPlan>)
        ensures
            p is Some <==> position + tokens <= usize::MAX && self.head_dim() <= u32::MAX,
            p matches Some(c) ==> c.offset == position && c.key_len == position + tokens && c.causal
                && c.window == self.context() && c.scale_from == self.head_dim(),
    {
        proof {
            use_type_invariant(self);
        }
        let width = self.embed_dim / self.num_heads;
        let key_len = match position.checked_add(tokens) {
            Some(key_len) => key_len,
            None => {
                return None;
            },
        };
        if width > u32::MAX as usize {
            return None;
        }
        Some(
            CallPlan {
                offset: position,
                key_len,
                causal: true,
                window: self.context,
                scale_from: width as u32,
            },
        )
    }

    /// Ends a call: checks the output and the grown caches against the
    /// layer and the state, stores the caches as the layer's new state and
    /// hands the output back. Where a shape is not as it must be, nothing is
    /// stored.
    pub fn commit(
        &self,
        model_state: &mut ModelState,
        batch: usize,
        tokens: usize,
        keys: Tensor,
        values: Tensor,
        out: Tensor,
    ) -> (r: Result<Tensor, AttentionError>)
        ensures
            r is Ok <==> self.commits(old(model_state)@, batch, tokens, keys, values, out),
            r matches Ok(o) ==> o == out && self.advances(
                old(model_state)@,
                final(model_state)@,
                batch,
                tokens,
            ),
            r matches Ok(o) ==> final(model_state)@[self.name()].key_cache == Some(keys),
            r matches Ok(o) ==> final(model_state)@[self.name()].value_cache == Some(values),
            r matches Err(e) ==> e is Shape && final(model_state)@ == old(model_state)@,
    {
        proof {
            use_type_invariant(self);
        }
        let width = self.embed_dim / self.num_heads;
        let position = match model_state.get(self.name.as_str()) {
            Some(layer) => layer.position,
            None => 0,
        };
        let length = match position.checked_add(tokens) {
            Some(length) => length,
            None => {
                return Err(AttentionError::Shape);
            },
        };
        let out_dims = dims(&out);
        let key_dims = dims(&keys);
        let value_dims = dims(&values);
        if !(three_axes(&out_dims, batch, tokens, self.embed_dim) && four_axes(
            &key_dims,
            batch,
            length,
            self.num_heads,
            width,
        ) && four_axes(&value_dims, batch, length, self.num_heads, width)) {
            return Err(AttentionError::Shape);
        }
        let layer = LayerState { position: length, key_cache: Some(keys), value_cache: Some(values) };
        model_state.insert(self.name.clone(), layer);
        Ok(out)
    }


    /// Splits the packed projection `[batch, tokens, 3, heads, head_dim]`
    /// and takes part `which` of it: queries, keys or values.
    fn part(packed: &Tensor, which: usize) -> (r: Result<Tensor, AttentionError>)
        requires
            tensor_dims(*packed).len() == 5,
            tensor_dims(*packed)[2] == 3,
            which < 3,
        ensures
            match r {
                Ok(part) => tensor_dims(part) == seq![
                    tensor_dims(*packed)[0],
                    tensor_dims(*packed)[1],
                    tensor_dims(*packed)[3],
                    tensor_dims(*packed)[4],
                ],
                Err(e) => e is Backend,
            },
    {
        let slice = backend(narrow(packed, 2, which, 1))?;
        let part = backend(squeeze(&slice, 2))?;
        assert(tensor_dims(part) =~= seq![
            tensor_dims(*packed)[0],
            tensor_dims(*packed)[1],
            tensor_dims(*packed)[3],
            tensor_dims(*packed)[4],
        ]);
        Ok(part)
    }

    /// The attention scale `1 / sqrt(head_dim)`, as a tensor without axes

    /// The attention scale `1 / sqrt(width)`, as a tensor without axes and
    /// with the element type of `like`.
    fn scale(width: u32, like: &Tensor) -> (r: Result<Tensor, AttentionError>)
        requires
            holds_floats(*like),
        ensures
            match r {
                Ok(scale) => tensor_dims(scale).len() == 0,
                Err(e) => e is Backend,
            },
    {
        let width = backend(scalar(width, device_of(like)))?;
        let width = backend(to_dtype(&width, dtype_of(like)))?;
        let root = backend(sqrt(&width))?;
        backend(recip(&root))
    }

    /// Brings `[batch, tokens, heads, head_dim]` into the order the kernel
    /// wants, `[batch, heads, tokens, head_dim]`, laid out row-major.
    fn heads_first(t: &Tensor) -> (r: Result<Tensor, AttentionError>)
        requires
            tensor_dims(*t).len() == 4,
        ensures
            match r {
                Ok(x) => tensor_dims(x) == seq![
                    tensor_dims(*t)[0],
                    tensor_dims(*t)[2],
                    tensor_dims(*t)[1],
                    tensor_dims(*t)[3],
                ],
                Err(e) => e is Backend,
            },
    {
        let swapped = backend(transpose(t, 1, 2))?;
        let packed = backend(contiguous(&swapped))?;
        assert(tensor_dims(packed) =~= seq![
            tensor_dims(*t)[0],
            tensor_dims(*t)[2],
            tensor_dims(*t)[1],
            tensor_dims(*t)[3],
        ]);
        Ok(packed)
    }


    /// Appends the new keys or values to what the cache holds: the old
    /// frames stay where they are, the new ones follow.
    fn grow(
        previous: Option<&Tensor>,
        fresh: Tensor,
        batch: usize,
        position: usize,
        tokens: usize,
        heads: usize,
        width: usize,
    ) -> (r: Result<Tensor, AttentionError>)
        requires
            tensor_dims(fresh) == seq![batch, tokens, heads, width],
            previous matches Some(old) ==> tensor_dims(*old) == seq![batch, position, heads, width],
            previous is None ==> position == 0,
            position + tokens <= usize::MAX,
            sized4(batch, (position + tokens) as usize, heads, width),
        ensures
            match r {
                Ok(grown) => {
                    &&& tensor_dims(grown) == seq![
                        batch,
                        (position + tokens) as usize,
                        heads,
                        width,
                    ]
                    &&& match previous {
                        Some(old) => lies_in(grown, *old, 1, 0) && lies_in(
                            grown,
                            fresh,
                            1,
                            position as int,
                        ),
                        None => grown == fresh,
                    }
                },
                Err(e) => e is Backend,
            },
    {
        match previous {
            None => Ok(fresh),
            Some(old) => {
                let mut parts: Vec<Tensor> = Vec::new();
                parts.push(old.clone());
                parts.push(fresh);
                proof {
                    let grown = seq![batch, (position + tokens) as usize, heads, width];
                    assert(parts@.drop_last() =~= seq![*old]);
                    assert(seq![*old].drop_last() =~= Seq::<Tensor>::empty());
                    assert(parts@.take(0) =~= Seq::<Tensor>::empty());
                    assert(parts@.take(1) =~= seq![*old]);
                    assert(cat_len(Seq::<Tensor>::empty(), 1) == 0);
                    assert(cat_len(seq![*old], 1) == position);
                    assert(cat_len(parts@, 1) == position + tokens);
                    assert(tensor_dims(parts@[0]).update(1, (position + tokens) as usize)
                        =~= grown);
                    lemma_elem_count4(batch, (position + tokens) as usize, heads, width);
                    assert(cat_compatible(parts@, 1));
                }
                let grown = backend(cat(&parts, 1))?;
                proof {
                    assert(lies_in(grown, parts@[0], 1, cat_len(parts@.take(0), 1) as int));
                    assert(lies_in(grown, parts@[1], 1, cat_len(parts@.take(1), 1) as int));
                }
                Ok(grown)
            },
        }
    }

    /// Runs the layer on `query`, `[batch, tokens, embed_dim]`, and advances
    /// the layer's state in `model_state` by `tokens`.
    ///
    /// The new tokens stand at the positions that follow those the state has
    /// already consumed. Each attends to all earlier tokens and to itself, as
    /// far back as the context window allows. What is handed to the rotary
    /// embedding and to the kernel is what `call_plan` says; the call ends
    /// with `commit`.
    ///
    /// * A query of another shape is refused with `Shape`; so is a state
    ///   whose caches are not those of this layer and batch size, and so are
    ///   lengths beyond what `fits`.
    /// * A state that has consumed tokens but has lost a cache is refused
    ///   with `MissingState`.
    /// * A context window of zero leaves no key to attend to; the call fails
    ///   with `Numeric`.
    /// * Otherwise the projections, the rotary embedding and the backend
    ///   decide; what they return in another shape than expected, or in
    ///   whole numbers where the scale needs a square root, is answered
    ///   with `Shape`. On success the result has the shape of `query`, the state
    ///   has advanced and still begins with the frames it held; on any
    ///   failure the state is what it was.
    pub fn forward(&self, query: &Tensor, model_state: &mut ModelState) -> (r: Result<
        Tensor,
        AttentionError,
    >)
        ensures
            match r {
                Ok(out) => {
                    &&& self.query_ok(tensor_dims(*query))
                    &&& self.starts_well(old(model_state)@, tensor_dims(*query)[0])
                    &&& self.context() != Some(0usize)
                    &&& self.fits(
                        tensor_dims(*query)[0],
                        tensor_dims(*query)[1],
                        position_in(old(model_state)@, self.name()),
                    )
                    &&& tensor_dims(out) == tensor_dims(*query)
                    &&& self.advances(
                        old(model_state)@,
                        final(model_state)@,
                        tensor_dims(*query)[0],
                        tensor_dims(*query)[1],
                    )
                    &&& self.keeps_frames(old(model_state)@, final(model_state)@)
                },
                Err(e) => {
                    &&& final(model_state)@ == old(model_state)@
                    &&& e is MissingState <==> self.query_ok(tensor_dims(*query)) && old(
                        model_state,
                    )@.contains_key(self.name()) && Self::cache_missing(
                        old(model_state)@[self.name()],
                    )
                    &&& e is Numeric <==> self.query_ok(tensor_dims(*query)) && self.starts_well(
                        old(model_state)@,
                        tensor_dims(*query)[0],
                    ) && self.context() == Some(0usize)
                },
            },
            !self.query_ok(tensor_dims(*query)) ==> r matches Err(AttentionError::Shape),
            self.query_ok(tensor_dims(*query)) && !self.starts_well(
                old(model_state)@,
                tensor_dims(*query)[0],
            ) && !(old(model_state)@.contains_key(self.name()) && Self::cache_missing(
                old(model_state)@[self.name()],
            )) ==> r matches Err(AttentionError::Shape),
            self.query_ok(tensor_dims(*query)) && self.starts_well(
                old(model_state)@,
                tensor_dims(*query)[0],
            ) && self.context() != Some(0usize) && !self.fits(
                tensor_dims(*query)[0],
                tensor_dims(*query)[1],
                position_in(old(model_state)@, self.name()),
            ) ==> r matches Err(AttentionError::Shape),
    {
        proof {
            use_type_invariant(self);
        }
        let heads = self.num_heads;
        let width = self.embed_dim / self.num_heads;
        let packed_width = self.embed_dim * 3;

        // The query: [batch, tokens, embed_dim].
        let query_dims = dims(query);
        if query_dims.len() != 3 || query_dims[2] != self.embed_dim {
            return Err(AttentionError::Shape);
        }
        let batch = query_dims[0];
        let tokens = query_dims[1];
        if batch == 0 || tokens == 0 {
            return Err(AttentionError::Shape);
        }
        let rows = match batch.checked_mul(tokens) {
            Some(rows) => rows,
            None => {
                assert(batch * tokens <= batch * tokens * (3 * self.embed_dim)) by (nonlinear_arith)
                    requires
                        3 * self.embed_dim >= 1,
                ;
                return Err(AttentionError::Shape);
            },
        };
        if rows.checked_mul(packed_width).is_none() {
            return Err(AttentionError::Shape);
        }
        assert(self.query_ok(tensor_dims(*query)));
        proof {
            assert(heads * width == self.embed_dim) by {
                vstd::arithmetic::div_mod::lemma_fundamental_div_mod(
                    self.embed_dim as int,
                    heads as int,
                );
            }
            assert(batch * tokens * self.embed_dim <= batch * tokens * (3 * self.embed_dim))
                by (nonlinear_arith);
            assert(width >= 1) by (nonlinear_arith)
                requires
                    heads * width == self.embed_dim,
                    self.embed_dim >= 1,
                    heads >= 1,
                    width >= 0,
            ;
            assert(batch * tokens * heads * width == batch * tokens * self.embed_dim)
                by (nonlinear_arith)
                requires
                    heads * width == self.embed_dim,
            ;
            lemma_elem_count3(batch, tokens, self.embed_dim);
            lemma_elem_count3(batch, tokens, packed_width);
            lemma_elem_count4(batch, tokens, heads, width);
            assert(tensor_dims(*query) =~= seq![batch, tokens, self.embed_dim]);
        }

        // The state: where the layer stands, and what it has cached.
        let (position, previous_keys, previous_values) = match model_state.get(self.name.as_str()) {
            None => (0, None, None),
            Some(layer) => {
                if layer.position == 0 {
                    (0, None, None)
                } else {
                    match (&layer.key_cache, &layer.value_cache) {
                        (Some(keys), Some(values)) => {
                            let key_dims = dims(keys);
                            let value_dims = dims(values);
                            if !(four_axes(&key_dims, batch, layer.position, heads, width)
                                && four_axes(&value_dims, batch, layer.position, heads, width)) {
                                return Err(AttentionError::Shape);
                            }
                            (layer.position, Some(keys), Some(values))
                        },
                        _ => {
                            return Err(AttentionError::MissingState);
                        },
                    }
                }
            },
        };
        assert(self.starts_well(model_state@, batch));
        assert(position == position_in(model_state@, self.name()));
        if self.context == Some(0) {
            return Err(AttentionError::Numeric);
        }
        let plan = match self.call_plan(tokens, position) {
            Some(plan) => plan,
            None => {
                return Err(AttentionError::Shape);
            },
        };
        if checked_count4(batch, plan.key_len, heads, width).is_none() || checked_count4(
            batch,
            heads,
            tokens,
            plan.key_len,
        ).is_none() {
            return Err(AttentionError::Shape);
        }
        assert(self.fits(batch, tokens, position));
        let packed_dims = vec![batch, tokens, 3, heads, width];
        proof {
            assert(packed_dims@ =~= seq![batch, tokens, 3usize, heads, width]);
            lemma_elem_count5(batch, tokens, 3, heads, width);
            lemma_elem_count4(batch, tokens, 3, heads);
            assert(batch * tokens * 3 * heads * width == batch * tokens * (3 * self.embed_dim))
                by (nonlinear_arith)
                requires
                    heads * width == self.embed_dim,
            ;
            assert(batch * tokens * 3 * heads <= batch * tokens * 3 * heads * width)
                by (nonlinear_arith)
                requires
                    width >= 1,
            ;
        }
        let merged_dims = vec![batch, tokens, self.embed_dim];
        assert(merged_dims@ =~= seq![batch, tokens, self.embed_dim]);

        // Project, and split into queries, keys and values.
        let projected = backend(linear_forward(&self.in_proj, query))?;
        let projected_dims = dims(&projected);
        if !three_axes(&projected_dims, batch, tokens, packed_width) {
            return Err(AttentionError::Shape);
        }
        let packed = backend(reshape(&projected, &packed_dims))?;
        let q = Self::part(&packed, 0)?;
        let k = Self::part(&packed, 1)?;
        let v = Self::part(&packed, 2)?;

        // Rotate queries and keys by their absolute position. What comes
        // back must have the shape of what went in, and queries of numbers
        // that a square root can be taken of.
        let (q, k) = backend(self.rope.forward(&q, &k, plan.offset))?;
        let q_dims = dims(&q);
        let k_dims = dims(&k);
        if !(four_axes(&q_dims, batch, tokens, heads, width) && four_axes(
            &k_dims,
            batch,
            tokens,
            heads,
            width,
        )) || !is_float(dtype_of(&q)) {
            return Err(AttentionError::Shape);
        }
        // Grow the caches.

        let keys = Self::grow(previous_keys, k, batch, position, tokens, heads, width)?;
        let values = Self::grow(previous_values, v, batch, position, tokens, heads, width)?;

        // Attend the new queries to everything the caches hold.
        let q_t = Self::heads_first(&q)?;
        let k_t = Self::heads_first(&keys)?;
        let v_t = Self::heads_first(&values)?;
        let scale = Self::scale(plan.scale_from, &q)?;
        proof {
            assert(tensor_dims(q_t) =~= seq![batch, heads, tokens, width]);
            assert(tensor_dims(k_t) =~= seq![batch, heads, plan.key_len, width]);
            assert(tensor_dims(v_t) =~= seq![batch, heads, plan.key_len, width]);
            lemma_causal_rows_attend(tokens as int, plan.key_len as int, self.context);
        }
        let attended = sdpa(&q_t, &k_t, &v_t, &scale, plan.causal, plan.window)?;

        // Back to [batch, tokens, embed_dim], and through the output projection.
        let attended = backend(transpose(&attended, 1, 2))?;
        proof {
            assert(tensor_dims(attended) =~= seq![batch, tokens, heads, width]);
        }
        let merged = backend(reshape(&attended, &merged_dims))?;
        let out = backend(linear_forward(&self.out_proj, &merged))?;

        // Everything has worked: only now is the state touched.
        self.commit(model_state, batch, tokens, keys, values, out)
    }
}


impl<R: RotaryEmbedding> StreamingMultiheadAttention<R> {
    /// State growth: after a series of calls that consumed `tokens[0]`,
    /// `tokens[1]`, ... tokens, the layer's position has moved on by their
    /// sum, and once it is past zero both caches are as long as the position.
    pub proof fn lemma_state_growth(
        &self,
        states: Seq<Map<Seq<char>, LayerState>>,
        batch: usize,
        tokens: Seq<usize>,
    )
        requires
            states.len() == tokens.len() + 1,
            forall|i: int|
                0 <= i < tokens.len() ==> #[trigger] self.advances(
                    states[i],
                    states[i + 1],
                    batch,
                    tokens[i],
                ),
        ensures
            position_in(states.last(), self.name()) == position_in(states[0], self.name())
                + tokens_total(tokens),
            tokens.len() >= 1 && position_in(states.last(), self.name()) >= 1 ==> {
                let layer = states.last()[self.name()];
                &&& layer.key_cache matches Some(keys)
                &&& layer.value_cache matches Some(values)
                &&& tensor_dims(keys)[1] == position_in(states[0], self.name()) + tokens_total(
                    tokens,
                )
                &&& tensor_dims(values)[1] == tensor_dims(keys)[1]
            },
        decreases tokens.len(),
    {
        if tokens.len() > 0 {
            let n = tokens.len() as int;
            assert(self.advances(states[n - 1], states[n - 1 + 1], batch, tokens[n - 1]));
            assert forall|i: int| 0 <= i < tokens.drop_last().len() implies #[trigger] self.advances(
                states.drop_last()[i],
                states.drop_last()[i + 1],
                batch,
                tokens.drop_last()[i],
            ) by {
                assert(self.advances(states[i], states[i + 1], batch, tokens[i]));
            }
            self.lemma_state_growth(states.drop_last(), batch, tokens.drop_last());
            assert(states.drop_last().last() == states[n - 1]);
            assert(states.drop_last()[0] == states[0]);
        }
    }

    /// Streaming equivalence, as far as the state goes: from the same
    /// starting state, one call with `n` tokens and `n` calls with one token
    /// each leave the layer at the same position.
    pub proof fn lemma_streaming_position(
        &self,
        after_bulk: Map<Seq<char>, LayerState>,
        steps: Seq<Map<Seq<char>, LayerState>>,
        batch: usize,
        n: usize,
    )
        requires
            steps.len() == n + 1,
            self.advances(steps[0], after_bulk, batch, n),
            forall|i: int|
                0 <= i < n ==> #[trigger] self.advances(steps[i], steps[i + 1], batch, 1usize),
        ensures
            position_in(steps.last(), self.name()) == position_in(after_bulk, self.name()),
    {
        let ones = Seq::new(n as nat, |i: int| 1usize);
        assert forall|i: int| 0 <= i < ones.len() implies #[trigger] self.advances(
            steps[i],
            steps[i + 1],
            batch,
            ones[i],
        ) by {
            assert(self.advances(steps[i], steps[i + 1], batch, 1usize));
        }
        self.lemma_state_growth(steps, batch, ones);
        lemma_tokens_total_of_ones(n as nat);
    }
}

/// A series of `n` calls with one token each consumes `n` tokens.
pub proof fn lemma_tokens_total_of_ones(n: nat)
    ensures
        tokens_total(Seq::new(n, |i: int| 1usize)) == n,
    decreases n,
{
    if n > 0 {
        lemma_tokens_total_of_ones((n - 1) as nat);
        assert(Seq::new(n, |i: int| 1usize).drop_last() =~= Seq::new(
            (n - 1) as nat,
            |i: int| 1usize,
        ));
    }
}

/// Streaming equivalence, as far as the mask goes. Take token `i` of `n`
/// new tokens behind `past` cached ones. Attended alone, in a call of its
/// own, it has `past + i + 1` keys; attended together with the others it has
/// `past + n`. Either way it may attend to the same keys: those both calls
/// have are masked alike, and those only the joint call has lie ahead of the
/// token and are masked out.
pub proof fn lemma_streaming_mask(past: int, n: int, i: int, j: int, context_window: Option<usize>)
    requires
        0 <= past,
        0 <= i < n,
        0 <= j < past + n,
    ensures
        query_position(0, past + i + 1, 1) == query_position(i, past + n, n),
        j <= past + i ==> is_masked(query_position(0, past + i + 1, 1), j, true, context_window)
            == is_masked(query_position(i, past + n, n), j, true, context_window),
        j > past + i ==> is_masked(query_position(i, past + n, n), j, true, context_window),
{
}

/// With causal masking and at least as many keys as queries, a context
/// window of zero leaves the first query without any key.
pub proof fn lemma_zero_window_blinds(q_len: int, k_len: int)
    requires
        1 <= q_len <= k_len,
    ensures
        !every_row_attends(q_len, k_len, true, Some(0usize)),
{
    let pos_q = query_position(0, k_len, q_len);
    assert forall|j: int| 0 <= j < k_len implies is_masked(pos_q, j, true, Some(0usize)) by {}
    assert(!row_attends(pos_q, k_len, true, Some(0usize)));
}

/// Whether `dims` is exactly `[a, b, c, d]`.
fn four_axes(dims: &Vec<usize>, a: usize, b: usize, c: usize, d: usize) -> (same: bool)
    ensures
        same == (dims@ == seq![a, b, c, d]),
{
    if dims.len() != 4 {
        return false;
    }
    assert(dims@ == seq![a, b, c, d] <==> dims@ =~= seq![a, b, c, d]);
    dims[0] == a && dims[1] == b && dims[2] == c && dims[3] == d
}

/// Whether `dims` is exactly `[a, b, c]`.
fn three_axes(dims: &Vec<usize>, a: usize, b: usize, c: usize) -> (same: bool)
    ensures
        same == (dims@ == seq![a, b, c]),
{
    if dims.len() != 3 {
        return false;
    }
    assert(dims@ == seq![a, b, c] <==> dims@ =~= seq![a, b, c]);
    dims[0] == a && dims[1] == b && dims[2] == c
}

} // verus!
