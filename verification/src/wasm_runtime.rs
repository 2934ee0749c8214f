//! The module engine that comes with the library.
//!
//! The engine proper is a collaborator of the host. The one here accepts
//! every module and runs nothing; it serves where no engine is at hand.

use vstd::prelude::*;
use crate::error::Error;

verus! {

/// An engine that accepts every module.
#[derive(Debug)]
pub struct WasmRuntime;

/// An instance of a module in the engine.
#[derive(Debug)]
pub struct PluginInstance;

impl WasmRuntime {
    /// A new engine.
    pub fn new() -> (r: Result<Self, Error>)
        ensures
            r is Ok,
    {
        Ok(WasmRuntime)
    }

    /// Loads the module at `path`. Every module is accepted.
    pub fn load_module(&self, path: &str) -> (r: Result<(), Error>)
        ensures
            r is Ok,
    {
        Ok(())
    }

    /// Makes an instance of the module at `module_file`.
    pub fn instantiate_plugin(&self, module_file: &str) -> (r: Result<PluginInstance, Error>)
        ensures
            r is Ok,
    {
        Ok(PluginInstance)
    }
}

} // verus!
