//! Errors as the pages are told of them.
use vstd::prelude::*;
use vstd::string::*;

use crate::text::concat3;

verus! {

/// An error that is sent to a page.
#[derive(Debug, PartialEq, Eq)]
pub struct ServerFnError {
    pub message: String,
}

/// A failure with its text, which names every cause, as an error for a page.
pub fn server_err<T>(result: Result<T, String>) -> (r: Result<T, ServerFnError>)
    ensures
        match result {
            Ok(v) => r == Ok::<T, ServerFnError>(v),
            Err(e) => r matches Err(s) && s.message == e,
        },
{
    match result {
        Ok(v) => Ok(v),
        Err(e) => Err(ServerFnError { message: e }),
    }
}

/// A failure as an error for a page, with what was being done before its text.
pub fn server_err_ctx<T>(result: Result<T, String>, msg: &str) -> (r: Result<T, ServerFnError>)
    ensures
        match result {
            Ok(v) => r == Ok::<T, ServerFnError>(v),
            Err(e) => r matches Err(s) && s.message@ == msg@ + ": "@ + e@,
        },
{
    match result {
        Ok(v) => Ok(v),
        Err(e) => Err(ServerFnError { message: concat3(msg, ": ", e.as_str()) }),
    }
}

/// A value that is not there as an error for a page.
pub fn ok_or_server_err<T>(value: Option<T>, msg: &str) -> (r: Result<T, ServerFnError>)
    ensures
        match value {
            Some(v) => r == Ok::<T, ServerFnError>(v),
            None => r matches Err(s) && s.message@ == msg@,
        },
{
    match value {
        Some(v) => Ok(v),
        None => Err(ServerFnError { message: msg.to_owned() }),
    }
}

} // verus!
