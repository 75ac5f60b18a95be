//! The answers of the sample plugin that ships with the service: every call
//! succeeds, and every check passes with the empty JSON object as its
//! result, whatever context or check it is asked about. Its C entry points, which hand these answers across the plugin
//! interface, are the program's part.

use vstd::prelude::*;
use crate::protocol::PLUGIN_ERR_CODE_OK;

verus! {

/// One check of the sample plugin (it holds nothing).
pub struct Check {}

/// The sample plugin's context.
pub struct Ctx {
    checks: Vec<Check>,
}

impl Ctx {
    /// The number of checks the context keeps.
    pub closed spec fn spec_check_count(self) -> nat {
        self.checks@.len()
    }

    /// A fresh context, keeping no checks.
    pub fn new() -> (r: Self)
        ensures
            r.spec_check_count() == 0,
    {
        Ctx { checks: Vec::new() }
    }

    /// Initializing the context succeeds (its configuration file is not read).
    pub fn initialize() -> (r: i32)
        ensures
            r == PLUGIN_ERR_CODE_OK,
    {
        PLUGIN_ERR_CODE_OK
    }

    /// Initializing one of the context's checks succeeds (its configuration
    /// file is not read).
    pub fn check_initialize() -> (r: i32)
        ensures
            r == PLUGIN_ERR_CODE_OK,
    {
        PLUGIN_ERR_CODE_OK
    }

    /// Performing one of the context's checks: it passes.
    pub fn check_perform() -> (r: i32)
        ensures
            r == PLUGIN_ERR_CODE_OK,
    {
        PLUGIN_ERR_CODE_OK
    }

    /// The result of one of the context's checks: the empty JSON object.
    pub fn check_result_json() -> (r: &'static str)
        ensures
            r@ == "{}"@,
    {
        "{}"
    }

    /// Finalizing one of the context's checks succeeds.
    pub fn check_finalize() -> (r: i32)
        ensures
            r == PLUGIN_ERR_CODE_OK,
    {
        PLUGIN_ERR_CODE_OK
    }

    /// Finalizing the context succeeds.
    pub fn finalize() -> (r: i32)
        ensures
            r == PLUGIN_ERR_CODE_OK,
    {
        PLUGIN_ERR_CODE_OK
    }
}

} // verus!
