//! The status codes of the plugin protocol and what the service makes of
//! them. A plugin answers each call with an `i32`: `PLUGIN_ERR_CODE_OK` for
//! success; a check may also answer `PLUGIN_ERR_CODE_CHECK_FAIL`, meaning
//! that it ran and found the service unhealthy. Any other answer is an
//! error, whose message the plugin then provides.

use vstd::prelude::*;
use crate::json::{raw_json, raw_json_text};
use crate::report::PluginCheckResult;

verus! {

/// The call succeeded (for a check: it ran and passed).
pub const PLUGIN_ERR_CODE_OK: i32 = 0;

/// The check ran and did not pass.
pub const PLUGIN_ERR_CODE_CHECK_FAIL: i32 = 3;

/// Whether a plugin's answer to initializing or finalizing a context or a
/// check means success; on any other answer the caller asks the plugin for
/// its error message and fails with it.
pub fn call_succeeded(code: i32) -> (r: bool)
    ensures
        r == (code == PLUGIN_ERR_CODE_OK),
        r <==> code == 0,
{
    code == PLUGIN_ERR_CODE_OK
}

/// What a plugin's answer to performing a check means.
#[derive(PartialEq, Eq, Structural, Clone, Copy, Debug)]
pub enum PerformStatus {
    /// The check passed; its result JSON is to be fetched.
    Passed,
    /// The check did not pass; its result JSON is to be fetched.
    Failed,
    /// The check could not be performed; the error message is to be fetched.
    Error,
}

pub open spec fn spec_perform_status(code: i32) -> PerformStatus {
    if code == PLUGIN_ERR_CODE_OK {
        PerformStatus::Passed
    } else if code == PLUGIN_ERR_CODE_CHECK_FAIL {
        PerformStatus::Failed
    } else {
        PerformStatus::Error
    }
}

/// A check's answer is a result exactly for the two codes 0 (passed) and 3
/// (did not pass); every other code is an error.
pub proof fn lemma_perform_status_codes(code: i32)
    ensures
        PLUGIN_ERR_CODE_OK == 0,
        PLUGIN_ERR_CODE_CHECK_FAIL == 3,
        (spec_perform_status(code) == PerformStatus::Passed) <==> code == 0,
        (spec_perform_status(code) == PerformStatus::Failed) <==> code == 3,
        (spec_perform_status(code) == PerformStatus::Error) <==> (code != 0 && code != 3),
{
}

/// Classifies a plugin's answer to performing a check.
pub fn perform_status(code: i32) -> (r: PerformStatus)
    ensures
        r == spec_perform_status(code),
        (r == PerformStatus::Passed) <==> code == 0,
        (r == PerformStatus::Failed) <==> code == 3,
        (r == PerformStatus::Error) <==> (code != 0 && code != 3),
{
    if code == PLUGIN_ERR_CODE_OK {
        PerformStatus::Passed
    } else if code == PLUGIN_ERR_CODE_CHECK_FAIL {
        PerformStatus::Failed
    } else {
        PerformStatus::Error
    }
}

/// After a check ran: whether it reports a result (rather than an error),
/// so that its result JSON, not its error message, is to be fetched.
pub fn reports_result(code: i32) -> (r: bool)
    ensures
        r == (code == PLUGIN_ERR_CODE_OK || code == PLUGIN_ERR_CODE_CHECK_FAIL),
        r <==> (code == 0 || code == 3),
{
    perform_status(code) != PerformStatus::Error
}

/// A check's result from its verdict and the checked text of its result
/// JSON (`None` where that text was not one JSON value).
pub fn result_from_json(passed: bool, json: Option<String>) -> (r: Option<PluginCheckResult>)
    ensures
        match json {
            Some(t) => r matches Some(res) && res.ok == passed && res.extra@ == t@,
            None => r is None,
        },
{
    match json {
        Some(t) => Some(PluginCheckResult { ok: passed, extra: t }),
        None => None,
    }
}

/// The outcome of performing a check, from the plugin's answer `code` and
/// the text fetched after it: the result JSON where the code reports a
/// result, the error message otherwise. An error message gives `Err` with
/// that message. A result gives `Ok`, passed exactly when the code is
/// `PLUGIN_ERR_CODE_OK`, with the JSON value of the text; where the text is
/// not one JSON value there is no outcome (`None`): the plugin broke the
/// protocol.
pub fn perform_outcome(code: i32, text: String) -> (r: Option<Result<PluginCheckResult, String>>)
    ensures
        spec_perform_status(code) == PerformStatus::Error ==> r == Some(
            Err::<PluginCheckResult, String>(text),
        ),
        code != 0 && code != 3 ==> r == Some(Err::<PluginCheckResult, String>(text)),
        (code == 0 || code == 3) ==> match raw_json_text(text@) {
            Some(t) => r matches Some(Ok(res)) && res.ok == (code == 0) && res.extra@ == t,
            None => r is None,
        },
        spec_perform_status(code) != PerformStatus::Error ==> match raw_json_text(text@) {
            Some(t) => r matches Some(Ok(res)) && res.ok == (code == PLUGIN_ERR_CODE_OK)
                && res.extra@ == t,
            None => r is None,
        },
{
    let status = perform_status(code);
    if status == PerformStatus::Error {
        Some(Err(text))
    } else {
        match result_from_json(status == PerformStatus::Passed, raw_json(text)) {
            Some(res) => Some(Ok(res)),
            None => None,
        }
    }
}

} // verus!
