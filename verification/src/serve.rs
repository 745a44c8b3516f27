//! What the serving layer needs to agree on with the library.

use vstd::prelude::*;

verus! {

/// Which web interface the server hands out.
#[derive(Debug, Clone, Copy, PartialEq, Eq, Structural)]
pub enum UiMode {
    /// The interface that lets the server do the synthesis.
    Standard,
    /// The experimental interface that runs the model in the browser.
    WasmExperimental,
}

impl UiMode {
    /// Whether the interface can only be handed out once its browser-side
    /// assets have been built.
    pub fn needs_wasm_assets(self) -> (needed: bool)
        ensures
            needed == (self == UiMode::WasmExperimental),
    {
        match self {
            UiMode::Standard => false,
            UiMode::WasmExperimental => true,
        }
    }

    /// The mode's name as it is written on the command line and shown to
    /// the user.
    pub fn as_str(self) -> (name: &'static str)
        ensures
            name@ == (match self {
                UiMode::Standard => "standard"@,
                UiMode::WasmExperimental => "wasm-experimental"@,
            }),
    {
        match self {
            UiMode::Standard => "standard",
            UiMode::WasmExperimental => "wasm-experimental",
        }
    }
}

} // verus!
