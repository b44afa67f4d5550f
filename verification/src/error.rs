//! Errors of parsing and value resolution.
//!
//! Every error here is local and non-fatal: it is scoped to one rule, one
//! declaration or one (node, property) application, and the surrounding
//! pass continues.

use vstd::prelude::*;
use vstd::string::*;

use crate::tokens::{Token, TokenModel};

verus! {

/// Why a selector prelude or a property value was rejected.
#[derive(Debug, Clone, PartialEq, Eq)]
pub enum EcssError {
    /// An empty or degenerate selector prelude.
    InvalidSelector,
    /// A token that is valid nowhere in the selector grammar, carried along
    /// for diagnostics.
    UnexpectedToken(Token),
    /// A declared value whose token sequence does not fit the property's
    /// shape.
    PropertyValueParseFailure,
}

/// The mathematical shape of an [`EcssError`].
pub enum ErrorModel {
    InvalidSelector,
    UnexpectedToken(TokenModel),
    PropertyValueParseFailure,
}

impl View for EcssError {
    type V = ErrorModel;

    open spec fn view(&self) -> ErrorModel {
        match self {
            EcssError::InvalidSelector => ErrorModel::InvalidSelector,
            EcssError::UnexpectedToken(t) => ErrorModel::UnexpectedToken(t@),
            EcssError::PropertyValueParseFailure => ErrorModel::PropertyValueParseFailure,
        }
    }
}

impl EcssError {
    /// A short human-readable description, for diagnostic log lines.
    pub fn message(&self) -> (r: String)
        ensures
            match self {
                EcssError::InvalidSelector => r@ == "invalid selector"@,
                EcssError::UnexpectedToken(_) => r@ == "unexpected token in selector"@,
                EcssError::PropertyValueParseFailure => r@ == "property value has the wrong shape"@,
            },
    {
        match self {
            EcssError::InvalidSelector => String::from_str("invalid selector"),
            EcssError::UnexpectedToken(_) => String::from_str("unexpected token in selector"),
            EcssError::PropertyValueParseFailure => String::from_str(
                "property value has the wrong shape",
            ),
        }
    }
}

} // verus!
