//! Why a generation run stops. Every error is fatal to the whole run.
use vstd::prelude::*;

verus! {

#[derive(Debug, PartialEq, Eq)]
pub enum GenerateError {
    /// The declaration block does not follow the grammar; `position` is the
    /// index, in characters, of the place where it stops following it.
    Grammar { position: usize },
    /// The header at `path` has no `#define` line for `name`.
    NotFound { name: String, path: String },
    /// The value `raw` of `#define name` in the header at `path` is not an
    /// expression; `ty` is the declared type.
    ValueParse { raw: String, ty: String, name: String, path: String },
}

pub enum ErrorView {
    Grammar { position: int },
    NotFound { name: Seq<char>, path: Seq<char> },
    ValueParse { raw: Seq<char>, ty: Seq<char>, name: Seq<char>, path: Seq<char> },
}

impl View for GenerateError {
    type V = ErrorView;

    open spec fn view(&self) -> ErrorView {
        match self {
            GenerateError::Grammar { position } => ErrorView::Grammar { position: *position as int },
            GenerateError::NotFound { name, path } => ErrorView::NotFound {
                name: name@,
                path: path@,
            },
            GenerateError::ValueParse { raw, ty, name, path } => ErrorView::ValueParse {
                raw: raw@,
                ty: ty@,
                name: name@,
                path: path@,
            },
        }
    }
}

} // verus!
