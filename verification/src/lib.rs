//! A small CSS-like styling core.
//!
//! Stylesheet text is tokenized and parsed into an ordered list of style
//! rules, each a selector (a descendant chain of element groups) together
//! with a set of property declarations.  A matching engine evaluates a
//! selector against a snapshot of the host's object tree, and a per-property
//! resolver turns raw declaration tokens into typed attribute values that a
//! host can write back into its own storage.

use vstd::prelude::*;

pub mod apply;
pub mod error;
pub mod laws;
pub mod matching;
pub mod num;
pub mod parser;
pub mod property;
pub mod resolver;
pub mod selector;
pub mod stylesheet;
pub mod tokenizer;
pub mod tokens;

pub use apply::{apply_pass, AppliedStyles};
pub use error::EcssError;
pub use matching::{match_selector, ComponentFilterRegistry, Node, Tree};
pub use num::Num;
pub use parser::{StyleRule, StyleSheetParser};
pub use property::{Properties, PropertyToken, PropertyValues};
pub use resolver::{try_parse_value, PropertyKind, PropertyRegistry, RegisterProperty, TypedValue, Val};
pub use selector::{Selector, SelectorElement};
pub use stylesheet::StyleSheetAsset;
pub use tokens::Token;

verus! {

/// Configuration for the styling plugin a host installs: whether changed
/// stylesheet text is watched and re-parsed while the application runs.
pub struct BevyCssPlugin {
    pub hot_reload: bool,
}

impl BevyCssPlugin {
    /// Plugin configuration with hot reloading of stylesheet text enabled.
    pub fn with_hot_reload() -> (r: BevyCssPlugin)
        ensures
            r.hot_reload,
    {
        BevyCssPlugin { hot_reload: true }
    }
}

impl Default for BevyCssPlugin {
    /// By default, stylesheets are parsed once and never watched.
    fn default() -> (r: BevyCssPlugin)
        ensures
            !r.hot_reload,
    {
        BevyCssPlugin { hot_reload: false }
    }
}

} // verus!
