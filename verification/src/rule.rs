use vstd::prelude::*;
use crate::ast::{AstNode, NodeKind, node_spans_within};
use crate::context::LintContext;
use crate::issue::{IssueModel, issue_models, issue_wf};
use crate::level::Level;

verus! {

/// What a rule tells the walker after visiting one node: keep going,
/// skip this node's children, or stop visiting the rest of the tree.
/// Each of the three binds only the rule that returned it; the other
/// rules' traversals are untouched.
#[derive(Clone, Copy, Debug, PartialEq, Eq, Structural)]
pub enum LintDirective {
    Continue,
    Prune,
    Stop,
}

impl Default for LintDirective {
    /// The default directive keeps the traversal going.
    fn default() -> (r: LintDirective)
        ensures
            r == LintDirective::Continue,
    {
        LintDirective::Continue
    }
}

/// One documentation example of a rule: a code snippet, whether it is
/// valid under the rule, and a line describing it.
pub struct RuleUsageExample {
    pub valid: bool,
    pub description: Vec<u8>,
    pub snippet: Vec<u8>,
}

/// The mathematical value of a `RuleUsageExample`.
#[verifier::ext_equal]
pub ghost struct RuleUsageExampleModel {
    pub valid: bool,
    pub description: Seq<u8>,
    pub snippet: Seq<u8>,
}

impl View for RuleUsageExample {
    type V = RuleUsageExampleModel;

    open spec fn view(&self) -> RuleUsageExampleModel {
        RuleUsageExampleModel {
            valid: self.valid,
            description: self.description@,
            snippet: self.snippet@,
        }
    }
}

impl RuleUsageExample {
    /// An example the rule accepts.
    pub fn valid(description: Vec<u8>, snippet: Vec<u8>) -> (r: RuleUsageExample)
        ensures
            r@ == (RuleUsageExampleModel {
                valid: true,
                description: description@,
                snippet: snippet@,
            }),
    {
        RuleUsageExample { valid: true, description, snippet }
    }

    /// An example the rule flags.
    pub fn invalid(description: Vec<u8>, snippet: Vec<u8>) -> (r: RuleUsageExample)
        ensures
            r@ == (RuleUsageExampleModel {
                valid: false,
                description: description@,
                snippet: snippet@,
            }),
    {
        RuleUsageExample { valid: false, description, snippet }
    }
}

/// The mathematical value of a sequence of usage examples.
pub open spec fn example_models(s: Seq<RuleUsageExample>) -> Seq<RuleUsageExampleModel> {
    s.map_values(|e: RuleUsageExample| e@)
}

/// Static, immutable metadata describing a rule independent of any run:
/// its name, default severity, whether it is on by default, a description
/// and usage examples. Only `default_level` matters during a walk.
pub struct RuleDefinition {
    pub name: Vec<u8>,
    pub default_level: Level,
    pub enabled_by_default: bool,
    pub description: Vec<u8>,
    pub examples: Vec<RuleUsageExample>,
}

/// The mathematical value of a `RuleDefinition`.
#[verifier::ext_equal]
pub ghost struct RuleDefinitionModel {
    pub name: Seq<u8>,
    pub default_level: Level,
    pub enabled_by_default: bool,
    pub description: Seq<u8>,
    pub examples: Seq<RuleUsageExampleModel>,
}

impl View for RuleDefinition {
    type V = RuleDefinitionModel;

    open spec fn view(&self) -> RuleDefinitionModel {
        RuleDefinitionModel {
            name: self.name@,
            default_level: self.default_level,
            enabled_by_default: self.enabled_by_default,
            description: self.description@,
            examples: example_models(self.examples@),
        }
    }
}

impl RuleDefinition {
    /// A definition of a rule that is on by default.
    pub fn enabled(name: Vec<u8>, default_level: Level) -> (r: RuleDefinition)
        ensures
            r@ == (RuleDefinitionModel {
                name: name@,
                default_level,
                enabled_by_default: true,
                description: Seq::<u8>::empty(),
                examples: Seq::<RuleUsageExampleModel>::empty(),
            }),
    {
        let r = RuleDefinition {
            name,
            default_level,
            enabled_by_default: true,
            description: Vec::new(),
            examples: Vec::new(),
        };
        proof {
            assert(r@ =~= RuleDefinitionModel {
                name: r.name@,
                default_level,
                enabled_by_default: true,
                description: Seq::<u8>::empty(),
                examples: Seq::<RuleUsageExampleModel>::empty(),
            });
        }
        r
    }

    pub fn with_description(self, description: Vec<u8>) -> (r: RuleDefinition)
        ensures
            r@ == (RuleDefinitionModel { description: description@, ..self@ }),
    {
        let r = RuleDefinition {
            name: self.name,
            default_level: self.default_level,
            enabled_by_default: self.enabled_by_default,
            description,
            examples: self.examples,
        };
        proof {
            assert(r@ =~= RuleDefinitionModel { description: r.description@, ..self@ });
        }
        r
    }

    pub fn with_example(self, example: RuleUsageExample) -> (r: RuleDefinition)
        ensures
            r@ == (RuleDefinitionModel { examples: self@.examples.push(example@), ..self@ }),
    {
        let ghost e = example@;
        let mut examples = self.examples;
        examples.push(example);
        let r = RuleDefinition {
            name: self.name,
            default_level: self.default_level,
            enabled_by_default: self.enabled_by_default,
            description: self.description,
            examples,
        };
        proof {
            assert(r@.examples =~= self@.examples.push(e));
            assert(r@ =~= RuleDefinitionModel { examples: self@.examples.push(e), ..self@ });
        }
        r
    }
}

/// The one capability every lint rule implements: visit a node with the
/// shared context, optionally report issues, and return a traversal
/// directive. A rule written in the match-everything style declares
/// interest in every kind and matches on node shape inside `lint_node`; a
/// rule with typed entry points declares interest in its kinds only. The
/// three spec functions are the rule's behaviour as the walker's
/// contracts see it; `lint_node` must realise exactly that behaviour.
pub trait Rule: Sized {
    /// Which node kinds the rule wants to be invoked for.
    spec fn spec_interested(&self, kind: NodeKind) -> bool;

    /// The issues the rule reports when it visits `node` over source
    /// `src` at severity `level`.
    spec fn spec_issues(&self, node: AstNode, src: Seq<u8>, level: Level) -> Seq<IssueModel>;

    /// The directive the rule returns for `node`.
    spec fn spec_directive(&self, node: AstNode) -> LintDirective;

    /// The rule's static metadata, as a mathematical value.
    spec fn spec_definition(&self) -> RuleDefinitionModel;

    fn get_definition(&self) -> (r: RuleDefinition)
        ensures
            r@ == self.spec_definition(),
    ;

    fn interested_in(&self, kind: &NodeKind) -> (r: bool)
        ensures
            r == self.spec_interested(*kind),
    ;

    fn lint_node(&self, node: &AstNode, ctx: &mut LintContext) -> (d: LintDirective)
        requires
            node_spans_within(*node, old(ctx).source@.len() as int),
        ensures
            final(ctx).source@ == old(ctx).source@,
            final(ctx).level == old(ctx).level,
            issue_models(final(ctx).issues@) == issue_models(old(ctx).issues@)
                + self.spec_issues(*node, old(ctx).source@, old(ctx).level),
            d == self.spec_directive(*node),
            forall|k: int|
                0 <= k < self.spec_issues(*node, old(ctx).source@, old(ctx).level).len()
                ==> issue_wf(
                    #[trigger] self.spec_issues(*node, old(ctx).source@, old(ctx).level)[k],
                    old(ctx).source@.len() as int,
                ),
    ;
}

/// One rule as a run registers it: the rule together with its resolved
/// severity (the configured override, or the rule's default).
pub struct RegisteredRule<R> {
    pub rule: R,
    pub level: Level,
}

} // verus!
