//! Values that pass between the multiplexer and its callers.
use vstd::prelude::*;

verus! {

/// The answer to one submitted command.
#[derive(Debug, Clone)]
pub struct ATResponse {
    pub success: bool,
    pub data: Option<String>,
    pub error: Option<String>,
}

pub struct ResponseView {
    pub success: bool,
    pub data: Option<Seq<char>>,
    pub error: Option<Seq<char>>,
}

pub open spec fn opt_view(o: Option<String>) -> Option<Seq<char>> {
    match o {
        Some(s) => Some(s@),
        None => None,
    }
}

impl View for ATResponse {
    type V = ResponseView;

    open spec fn view(&self) -> ResponseView {
        ResponseView { success: self.success, data: opt_view(self.data), error: opt_view(self.error) }
    }
}

pub open spec fn ok_view(data: Option<Seq<char>>) -> ResponseView {
    ResponseView { success: true, data, error: None }
}

pub open spec fn error_view(err: Seq<char>) -> ResponseView {
    ResponseView { success: false, data: None, error: Some(err) }
}

impl ATResponse {
    pub fn ok(data: Option<String>) -> (r: ATResponse)
        ensures
            r@ == ok_view(opt_view(data)),
    {
        ATResponse { success: true, data, error: None }
    }

    pub fn error(err: String) -> (r: ATResponse)
        ensures
            r@ == error_view(err@),
    {
        ATResponse { success: false, data: None, error: Some(err) }
    }
}

/// How the modem is reached.
#[derive(Debug, Clone, Copy, PartialEq, Eq)]
pub enum ConnectionType {
    Network,
    Serial,
}

/// An SMS as the gateway lists it.
#[derive(Debug, Clone)]
pub struct SMS {
    pub index: String,
    pub sender: String,
    pub content: String,
    pub timestamp: String,
}

} // verus!
