//! Per-rule type attributes: whether a rule's capture type is visible to its
//! callers, decided by the `invisible_type` attribute.
use vstd::prelude::*;
use crate::ast::Span;
use crate::attribute::{declare_attribute, AttributeEntry};
use crate::utility::chars_of;

verus! {

/// How the rule's capture type joins callers' types: inlined as usual, or
/// invisible (the rule contributes nothing), recording where the attribute
/// was assigned.
#[derive(Clone, Copy, PartialEq, Eq, Debug)]
pub enum RuleTypeStyle {
    Inline,
    Invisible(Span),
}

/// Holds when `i` is the first `invisible_type` entry of the model and that
/// entry has been assigned.
pub open spec fn spec_invisible_at(model: Seq<AttributeEntry>, i: int) -> bool {
    &&& 0 <= i < model.len()
    &&& model[i].name@ == "invisible_type"@
    &&& forall|j: int| 0 <= j < i ==> model[j].name@ != "invisible_type"@
    &&& model[i].info.value is Some
}

/// The style the instantiated model `model` selects: `Invisible` exactly when
/// its first `invisible_type` entry has been assigned.
pub open spec fn spec_style_of(model: Seq<AttributeEntry>) -> RuleTypeStyle {
    if exists|i: int| spec_invisible_at(model, i) {
        RuleTypeStyle::Invisible(model[choose|i: int| spec_invisible_at(model, i)].info.span)
    } else {
        RuleTypeStyle::Inline
    }
}

impl RuleTypeStyle {
    /// Reads the `invisible_type` attribute out of the instantiated model.
    pub fn new(model: &Vec<AttributeEntry>) -> (r: RuleTypeStyle)
        ensures
            r == spec_style_of(model@),
    {
        let name = chars_of("invisible_type");
        let invisible_type = crate::attribute::find_attribute(model, &name);
        proof {
            assert(name@ == "invisible_type"@);
        }
        match invisible_type {
            Some(i) => {
                proof {
                    assert(forall|k: int| spec_invisible_at(model@, k) ==> k == i);
                }
                if model[i].info.value.is_some() {
                    proof {
                        assert(spec_invisible_at(model@, i as int));
                    }
                    RuleTypeStyle::Invisible(model[i].info.span)
                } else {
                    proof {
                        assert(forall|k: int| !spec_invisible_at(model@, k));
                    }
                    RuleTypeStyle::Inline
                }
            },
            None => {
                proof {
                    assert(forall|k: int| !spec_invisible_at(model@, k));
                }
                RuleTypeStyle::Inline
            },
        }
    }

    /// The attribute model a rule's type declares: the presence-only
    /// `invisible_type` flag.
    pub fn model() -> (r: Vec<AttributeEntry>)
        ensures
            r@.len() == 1,
            r@[0].name@ == "invisible_type"@,
            r@[0].info.value is None,
    {
        let name = chars_of("invisible_type");
        let doc = chars_of(
            "the calling site will ignore the type of this rule. The AST of the calling rule will not reference this rule.",
        );
        let entry = declare_attribute(name, doc);
        let mut r: Vec<AttributeEntry> = Vec::new();
        r.push(entry);
        r
    }
}

/// The resolved type attributes of one rule.
#[derive(Clone, Copy, PartialEq, Eq, Debug)]
pub struct RuleType {
    pub style: RuleTypeStyle,
}

impl RuleType {
    /// Resolves a rule's type attributes from its instantiated model.
    pub fn new(model: &Vec<AttributeEntry>) -> (r: RuleType)
        ensures
            r.style == spec_style_of(model@),
    {
        RuleType { style: RuleTypeStyle::new(model) }
    }

    /// The attribute model a rule declares.
    pub fn model() -> (r: Vec<AttributeEntry>)
        ensures
            r@.len() == 1,
            r@[0].name@ == "invisible_type"@,
            r@[0].info.value is None,
    {
        RuleTypeStyle::model()
    }
}

} // verus!
