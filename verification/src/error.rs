//! The library's error type.

use vstd::prelude::*;

verus! {

/// Why a layout could not be converted.
#[derive(Debug)]
pub enum LayoutError {
    /// A failure described by its message.
    Str(String),
    /// A failure of the export, described by its message.
    Export(String),
}

/// The mathematical value of a [`LayoutError`].
pub enum ErrorView {
    Str(Seq<char>),
    Export(Seq<char>),
}

impl View for LayoutError {
    type V = ErrorView;

    open spec fn view(&self) -> ErrorView {
        match self {
            LayoutError::Str(s) => ErrorView::Str(s@),
            LayoutError::Export(s) => ErrorView::Export(s@),
        }
    }
}

/// The result of a step that can fail.
pub type LayoutResult<T> = Result<T, LayoutError>;

/// The mathematical value of a [`LayoutResult`].
pub open spec fn outcome<T: DeepView>(r: LayoutResult<T>) -> Result<T::V, ErrorView> {
    match r {
        Ok(v) => Ok(v.deep_view()),
        Err(e) => Err(e@),
    }
}

impl LayoutError {
    /// The error with message `s`.
    pub fn msg(s: &str) -> (e: LayoutError)
        ensures
            e@ == ErrorView::Str(s@),
    {
        LayoutError::Str(s.to_owned())
    }
}

impl Clone for LayoutError {
    fn clone(&self) -> (e: LayoutError)
        ensures
            e == *self,
    {
        match self {
            LayoutError::Str(s) => LayoutError::Str(s.clone()),
            LayoutError::Export(s) => LayoutError::Export(s.clone()),
        }
    }
}

} // verus!
