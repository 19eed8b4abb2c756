use vstd::prelude::*;
use vstd::string::StringSliceAdditionalSpecFns;
use crate::ast::{AstNode, Binary, BinaryOperator, NodeKind, node_spans_within};
use crate::context::LintContext;
use crate::fix::{EditModel, FixPlan, SafetyClassification};
use crate::issue::{Annotation, AnnotationModel, AnnotationRole, Issue, IssueModel, issue_models, issue_wf};
use crate::level::Level;
use crate::rule::{LintDirective, Rule, RuleDefinition, RuleDefinitionModel};
use crate::text::text;

verus! {

/// The issue reported for a loose equality `==`: use `===` instead, with
/// a fix plan that rewrites the operator token, classified unsafe because
/// the rewrite can change what the comparison means.
pub open spec fn equal_issue(binary: Binary, level: Level) -> IssueModel {
    IssueModel {
        level,
        message: "use identity comparison `===` instead of equality comparison `==`".spec_bytes(),
        annotations: seq![
            AnnotationModel { span: binary.operator_span, role: AnnotationRole::Primary, message: None },
            AnnotationModel { span: binary.lhs_span, role: AnnotationRole::Secondary, message: None },
            AnnotationModel { span: binary.rhs_span, role: AnnotationRole::Secondary, message: None },
        ],
        notes: seq![
            "identity comparison `===` checks for both value and type equality, while equality comparison `==` performs type coercion, which can lead to unexpected results".spec_bytes(),
        ],
        help: Some("use `===` to ensure both value and type are equal".spec_bytes()),
        fix_plan: seq![
            EditModel {
                span: binary.operator_span,
                safety: SafetyClassification::Unsafe,
                replacement: "===".spec_bytes(),
            },
        ],
    }
}

/// The issue reported for a loose inequality `!=`: use `!==` instead.
pub open spec fn not_equal_issue(binary: Binary, level: Level) -> IssueModel {
    IssueModel {
        level,
        message: "use identity inequality `!==` instead of inequality comparison `!=`".spec_bytes(),
        annotations: seq![
            AnnotationModel { span: binary.operator_span, role: AnnotationRole::Primary, message: None },
            AnnotationModel { span: binary.lhs_span, role: AnnotationRole::Secondary, message: None },
            AnnotationModel { span: binary.rhs_span, role: AnnotationRole::Secondary, message: None },
        ],
        notes: seq![
            "identity inequality `!==` checks for both value and type inequality, while inequality comparison `!=` performs type coercion, which can lead to unexpected results".spec_bytes(),
        ],
        help: Some("use `!==` to ensure both value and type are different".spec_bytes()),
        fix_plan: seq![
            EditModel {
                span: binary.operator_span,
                safety: SafetyClassification::Unsafe,
                replacement: "!==".spec_bytes(),
            },
        ],
    }
}

/// What the identity-comparison check reports at one binary expression.
pub open spec fn binary_issues(binary: Binary, level: Level) -> Seq<IssueModel> {
    match binary.operator {
        BinaryOperator::Equal => seq![equal_issue(binary, level)],
        BinaryOperator::NotEqual => seq![not_equal_issue(binary, level)],
        _ => Seq::<IssueModel>::empty(),
    }
}

/// Flags loose comparisons `==` and `!=`, recommending the identity forms
/// `===` and `!==`. Written with a typed entry point: it declares
/// interest in binary expressions only.
#[derive(Clone, Debug)]
pub struct RequireIdentityComparisonRule;

impl RequireIdentityComparisonRule {
    pub fn get_name(&self) -> (r: &'static str)
        ensures
            r@ == "require-identity-comparison"@,
    {
        "require-identity-comparison"
    }

    pub fn get_default_level(&self) -> (r: Option<Level>)
        ensures
            r == Some(Level::Warning),
    {
        Some(Level::Warning)
    }

    /// The typed entry point: invoked when the walker enters a binary
    /// expression.
    pub fn walk_in_binary(&self, binary: &Binary, ctx: &mut LintContext)
        requires
            binary.operator_span.wf(),
        ensures
            final(ctx).source@ == old(ctx).source@,
            final(ctx).level == old(ctx).level,
            issue_models(final(ctx).issues@) == issue_models(old(ctx).issues@)
                + binary_issues(*binary, old(ctx).level),
    {
        match binary.operator {
            BinaryOperator::Equal => {
                let issue = Issue::new(
                    ctx.level(),
                    text("use identity comparison `===` instead of equality comparison `==`"),
                )
                    .with_annotation(Annotation::primary(binary.operator_span))
                    .with_annotation(Annotation::secondary(binary.lhs_span))
                    .with_annotation(Annotation::secondary(binary.rhs_span))
                    .with_note(text(
                        "identity comparison `===` checks for both value and type equality, while equality comparison `==` performs type coercion, which can lead to unexpected results",
                    ))
                    .with_help(text("use `===` to ensure both value and type are equal"));
                let mut plan = FixPlan::new();
                plan.replace(binary.operator_span, text("==="), SafetyClassification::Unsafe);
                let ghost before = issue_models(ctx.issues@);
                ctx.report_with_fix(issue, plan);
                proof {
                    assert(IssueModel { fix_plan: plan.view_edits(), ..issue@ }
                        =~~= equal_issue(*binary, old(ctx).level));
                    assert(issue_models(ctx.issues@)
                        =~= before + binary_issues(*binary, old(ctx).level));
                }
            },
            BinaryOperator::NotEqual => {
                let issue = Issue::new(
                    ctx.level(),
                    text("use identity inequality `!==` instead of inequality comparison `!=`"),
                )
                    .with_annotation(Annotation::primary(binary.operator_span))
                    .with_annotation(Annotation::secondary(binary.lhs_span))
                    .with_annotation(Annotation::secondary(binary.rhs_span))
                    .with_note(text(
                        "identity inequality `!==` checks for both value and type inequality, while inequality comparison `!=` performs type coercion, which can lead to unexpected results",
                    ))
                    .with_help(text("use `!==` to ensure both value and type are different"));
                let mut plan = FixPlan::new();
                plan.replace(binary.operator_span, text("!=="), SafetyClassification::Unsafe);
                let ghost before = issue_models(ctx.issues@);
                ctx.report_with_fix(issue, plan);
                proof {
                    assert(IssueModel { fix_plan: plan.view_edits(), ..issue@ }
                        =~~= not_equal_issue(*binary, old(ctx).level));
                    assert(issue_models(ctx.issues@)
                        =~= before + binary_issues(*binary, old(ctx).level));
                }
            },
            _ => {
                proof {
                    assert(issue_models(ctx.issues@)
                        =~= issue_models(ctx.issues@) + binary_issues(*binary, old(ctx).level));
                }
            },
        }
    }
}

impl Rule for RequireIdentityComparisonRule {
    open spec fn spec_interested(&self, kind: NodeKind) -> bool {
        kind is Binary
    }

    open spec fn spec_issues(&self, node: AstNode, src: Seq<u8>, level: Level) -> Seq<IssueModel> {
        match node.kind {
            NodeKind::Binary(b) => binary_issues(b, level),
            _ => Seq::<IssueModel>::empty(),
        }
    }

    open spec fn spec_directive(&self, node: AstNode) -> LintDirective {
        LintDirective::Continue
    }

    open spec fn spec_definition(&self) -> RuleDefinitionModel {
        RuleDefinitionModel {
            name: "require-identity-comparison".spec_bytes(),
            default_level: Level::Warning,
            enabled_by_default: true,
            description: Seq::<u8>::empty(),
            examples: Seq::<crate::rule::RuleUsageExampleModel>::empty(),
        }
    }

    fn get_definition(&self) -> (r: RuleDefinition) {
        RuleDefinition::enabled(text("require-identity-comparison"), Level::Warning)
    }

    fn interested_in(&self, kind: &NodeKind) -> (r: bool) {
        matches!(kind, NodeKind::Binary(_))
    }

    fn lint_node(&self, node: &AstNode, ctx: &mut LintContext) -> (d: LintDirective) {
        match node.kind {
            NodeKind::Binary(binary) => {
                self.walk_in_binary(&binary, ctx);
                proof {
                    lemma_binary_issues_wf(binary, old(ctx).level, old(ctx).source@.len() as int);
                }
            },
            _ => {
                proof {
                    assert(issue_models(ctx.issues@) =~= issue_models(ctx.issues@)
                        + self.spec_issues(*node, old(ctx).source@, old(ctx).level));
                }
            },
        }
        LintDirective::Continue
    }
}

/// The issues of the identity-comparison check keep their spans inside
/// the buffer the binary expression's spans point into.
pub proof fn lemma_binary_issues_wf(binary: Binary, level: Level, len: int)
    requires
        binary.operator_span.within(len),
        binary.lhs_span.within(len),
        binary.rhs_span.within(len),
    ensures
        forall|k: int| 0 <= k < binary_issues(binary, level).len()
            ==> issue_wf(#[trigger] binary_issues(binary, level)[k], len),
{
    assert forall|k: int| 0 <= k < binary_issues(binary, level).len()
        implies issue_wf(#[trigger] binary_issues(binary, level)[k], len) by {
        let m = binary_issues(binary, level)[k];
        assert(m == equal_issue(binary, level) || m == not_equal_issue(binary, level));
        assert(m.fix_plan.len() == 1);
        assert(m.fix_plan[0].span == binary.operator_span);
        assert(m.fix_plan.skip(1) =~= Seq::<EditModel>::empty());
        assert(crate::fix::plan_ordered(
            m.fix_plan.skip(1),
            m.fix_plan[0].span.end as int,
        ));
        assert(crate::fix::plan_ordered(m.fix_plan, 0));
    }
}

/// The identity-comparison check written in the other supported style: it
/// declares interest in every node kind and matches on node shape inside
/// its entry point. It reports exactly what `RequireIdentityComparisonRule`
/// reports at every node.
#[derive(Clone, Debug)]
pub struct RequireIdentityComparisonEveryNodeRule;

impl Rule for RequireIdentityComparisonEveryNodeRule {
    open spec fn spec_interested(&self, kind: NodeKind) -> bool {
        true
    }

    open spec fn spec_issues(&self, node: AstNode, src: Seq<u8>, level: Level) -> Seq<IssueModel> {
        match node.kind {
            NodeKind::Binary(b) => binary_issues(b, level),
            _ => Seq::<IssueModel>::empty(),
        }
    }

    open spec fn spec_directive(&self, node: AstNode) -> LintDirective {
        LintDirective::Continue
    }

    open spec fn spec_definition(&self) -> RuleDefinitionModel {
        RuleDefinitionModel {
            name: "require-identity-comparison".spec_bytes(),
            default_level: Level::Warning,
            enabled_by_default: true,
            description: Seq::<u8>::empty(),
            examples: Seq::<crate::rule::RuleUsageExampleModel>::empty(),
        }
    }

    fn get_definition(&self) -> (r: RuleDefinition) {
        RuleDefinition::enabled(text("require-identity-comparison"), Level::Warning)
    }

    fn interested_in(&self, kind: &NodeKind) -> (r: bool) {
        true
    }

    fn lint_node(&self, node: &AstNode, ctx: &mut LintContext) -> (d: LintDirective) {
        match node.kind {
            NodeKind::Binary(binary) => {
                let helper = RequireIdentityComparisonRule;
                helper.walk_in_binary(&binary, ctx);
                proof {
                    lemma_binary_issues_wf(binary, old(ctx).level, old(ctx).source@.len() as int);
                }
            },
            _ => {
                proof {
                    assert(issue_models(ctx.issues@) =~= issue_models(ctx.issues@)
                        + self.spec_issues(*node, old(ctx).source@, old(ctx).level));
                }
            },
        }
        LintDirective::Continue
    }
}

} // verus!
