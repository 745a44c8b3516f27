//! Streaming multi-head self-attention with a growing key/value cache, the
//! scaled-dot-product kernel underneath it, and the causal / context-window
//! mask both rely on.
//!
//! Tensor arithmetic is done by `candle`, and its floating-point results
//! are outside what is proved here. What the library itself decides is
//! stated in contracts and proved: the entries of every mask, the tiles
//! the queries are cut into, what is handed to the kernel, the shapes of
//! all tensors, where a cache keeps its old frames, how the state advances
//! and when a call fails.
//!
//! * [`mask`] says which keys a query may attend to, and builds the mask.
//! * [`sdpa`] is the attention kernel, in one pass or tile by tile.
//! * [`state`] holds what a session remembers from one call to the next.
//! * [`attention`] is the layer that ties the three together.
//! * [`tensor`] is the boundary to the backend, [`shape`] the arithmetic on
//!   shapes, [`error`] what can go wrong.
//! * [`voice_cache`], [`names`], [`serve`], [`stream`] and [`wasm_demo`]
//!   serve the programs around the model.

pub mod attention;
pub mod error;
pub mod mask;
pub mod names;
pub mod sdpa;
pub mod serve;
pub mod shape;
pub mod state;
pub mod stream;
pub mod tensor;
pub mod voice_cache;
pub mod wasm_demo;
