//! Stylesheets: the cached, immutable parse result of one source text.
//!
//! A sheet is created whole from one text and never patched in place; a
//! hot reload parses the new text and swaps the complete rule list in as
//! one step, so no reader ever observes a half-updated sheet.

use vstd::prelude::*;

use crate::parser::{rule_models, spec_parse, RuleModel, StyleRule, StyleSheetParser};

verus! {

/// The parsed form of one stylesheet text: its rules in source order.
/// Source order is the only priority signal.
#[derive(Debug, Clone, PartialEq, Eq)]
pub struct StyleSheetAsset {
    pub rules: Vec<StyleRule>,
}

impl View for StyleSheetAsset {
    type V = Seq<RuleModel>;

    open spec fn view(&self) -> Seq<RuleModel> {
        rule_models(self.rules@)
    }
}

impl StyleSheetAsset {
    /// Every rule's declaration set is well-formed.
    pub open spec fn wf(self) -> bool {
        forall|j: int| 0 <= j < self@.len() ==> (#[trigger] self.rules@[j]).wf()
    }

    /// Parse a whole stylesheet text into a fresh sheet.
    pub fn parse(content: &str) -> (r: StyleSheetAsset)
        ensures
            r@ == spec_parse(content@),
            r.wf(),
    {
        StyleSheetAsset { rules: StyleSheetParser::parse(content) }
    }

    /// Replace this sheet with the parse of a new text, wholesale: after
    /// the call the sheet is exactly the new text's rule list.
    pub fn reload(&mut self, content: &str)
        ensures
            final(self)@ == spec_parse(content@),
            final(self).wf(),
    {
        let fresh = StyleSheetAsset::parse(content);
        *self = fresh;
    }

    /// How many rules the sheet holds.
    pub fn len(&self) -> (r: usize)
        ensures
            r == self@.len(),
    {
        self.rules.len()
    }
}

} // verus!
