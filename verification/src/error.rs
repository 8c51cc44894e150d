//! The errors a document build can end in.
//!
//! Every error is a structural inconsistency in the declared API surface;
//! none is transient, so a build aborts on the first one found.

use vstd::prelude::*;
use crate::document::Method;

verus! {

/// A structural inconsistency found while building or merging a document.
#[derive(Debug)]
pub enum BuildError {
    /// One schema name was bound to two structurally different definitions.
    SchemaConflict { name: String },
    /// Two endpoints were bound to the same final path and method.
    DuplicateOperation { path: String, method: Method },
    /// A base path that is neither `"/"` nor free of a trailing separator.
    InvalidBasePath { value: String },
}

/// The mathematical value of a [`BuildError`].
pub enum ErrorView {
    SchemaConflict { name: Seq<char> },
    DuplicateOperation { path: Seq<char>, method: Method },
    InvalidBasePath { value: Seq<char> },
}

impl View for BuildError {
    type V = ErrorView;

    open spec fn view(&self) -> ErrorView {
        match self {
            BuildError::SchemaConflict { name } => ErrorView::SchemaConflict { name: name@ },
            BuildError::DuplicateOperation { path, method } => ErrorView::DuplicateOperation {
                path: path@,
                method: *method,
            },
            BuildError::InvalidBasePath { value } => ErrorView::InvalidBasePath { value: value@ },
        }
    }
}

} // verus!
