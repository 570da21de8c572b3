//! What can go wrong.

use vstd::prelude::*;

verus! {

/// Why a request could not be made, or why a stream broke off.
#[derive(Debug, PartialEq, Eq)]
pub enum CodexErr {
    /// The provider does not support what was asked of it, or refused it.
    UnsupportedOperation(String),
    /// The stream broke off.
    Stream(String),
    /// A value could not be turned into JSON.
    Json(String),
}

/// What a [`CodexErr`] says.
pub enum CodexErrView {
    UnsupportedOperation(Seq<char>),
    Stream(Seq<char>),
    Json(Seq<char>),
}

impl DeepView for CodexErr {
    type V = CodexErrView;

    open spec fn deep_view(&self) -> CodexErrView {
        match self {
            CodexErr::UnsupportedOperation(s) => CodexErrView::UnsupportedOperation(s@),
            CodexErr::Stream(s) => CodexErrView::Stream(s@),
            CodexErr::Json(s) => CodexErrView::Json(s@),
        }
    }
}

} // verus!
