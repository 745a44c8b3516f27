//! The arguments of the retired `wasm-demo` command, which now stands for
//! serving with the browser-side interface.

use vstd::prelude::*;
use std::path::PathBuf;

verus! {

/// `std::path::PathBuf`, carried through as an opaque value.
#[verifier::external_type_specification]
#[verifier::external_body]
pub struct ExPathBuf(PathBuf);

/// The arguments of `wasm-demo`.
#[derive(Debug)]
pub struct WasmDemoArgs {
    /// The address to bind.
    pub host: String,
    /// The port to listen on.
    pub port: u16,
    /// No longer used; accepted so that old command lines keep working.
    pub root: Option<PathBuf>,
    /// No longer used; accepted so that old command lines keep working.
    pub models: Option<PathBuf>,
}

impl WasmDemoArgs {
    /// Whether the command line named a path that is no longer used, so that
    /// the user should be told.
    pub fn names_ignored_paths(&self) -> (ignored: bool)
        ensures
            ignored == (self.root is Some || self.models is Some),
    {
        self.root.is_some() || self.models.is_some()
    }
}

} // verus!
