use vstd::prelude::*;
use vstd::string::StringSliceAdditionalSpecFns;
use crate::ast::{AstNode, NodeKind};
use crate::context::LintContext;
use crate::issue::{Annotation, AnnotationModel, AnnotationRole, Issue, IssueModel, issue_models, issue_wf};
use crate::level::Level;
use crate::rule::{LintDirective, Rule, RuleDefinition, RuleDefinitionModel, RuleUsageExample, RuleUsageExampleModel};
use crate::text::{push_all, subvec, text};

verus! {

/// The help text suggesting the braced form of the flagged expression.
pub open spec fn implicit_help(expression: Seq<u8>) -> Seq<u8> {
    "Did you mean `{".spec_bytes() + expression + "}` instead?".spec_bytes()
}

/// The issue reported for an implicit (unbraced) variable inside a
/// double-quoted string literal, at `span` over source `src`.
pub open spec fn implicit_issue(level: Level, span: crate::span::Span, src: Seq<u8>) -> IssueModel {
    IssueModel {
        level,
        message: "Avoid using implicit variables in a double-quoted string literal.".spec_bytes(),
        annotations: seq![
            AnnotationModel {
                span,
                role: AnnotationRole::Primary,
                message: Some(
                    "Consider wrapping this expression in braces to make it explicit.".spec_bytes(),
                ),
            },
        ],
        notes: Seq::<Seq<u8>>::empty(),
        help: Some(implicit_help(src.subrange(span.start as int, span.end as int))),
        fix_plan: Seq::<crate::fix::EditModel>::empty(),
    }
}

/// Flags implicit (unbraced) variables inside double-quoted string
/// literals. Written in the match-everything style: it is invoked for
/// every node and matches on node shape inside `lint_node`.
#[derive(Clone, Debug)]
pub struct NoImplicitStringVariableRule;

impl Rule for NoImplicitStringVariableRule {
    open spec fn spec_interested(&self, kind: NodeKind) -> bool {
        true
    }

    open spec fn spec_issues(&self, node: AstNode, src: Seq<u8>, level: Level) -> Seq<IssueModel> {
        if node.kind is StringPartExpression {
            seq![implicit_issue(level, node.span, src)]
        } else {
            Seq::<IssueModel>::empty()
        }
    }

    open spec fn spec_directive(&self, node: AstNode) -> LintDirective {
        LintDirective::Continue
    }

    open spec fn spec_definition(&self) -> RuleDefinitionModel {
        RuleDefinitionModel {
            name: "No Implicit String Variable".spec_bytes(),
            default_level: Level::Note,
            enabled_by_default: true,
            description: "Flags any occurences of implicit (unbraced) variables inside of a double-quoted string literal.".spec_bytes(),
            examples: seq![
                RuleUsageExampleModel {
                    valid: false,
                    description: "Using an implicit variable inside of a double-quoted string literal".spec_bytes(),
                    snippet: "<?php\n\n$name = \"Alice\";\n\necho \"Hello, $name\";\n".spec_bytes(),
                },
                RuleUsageExampleModel {
                    valid: true,
                    description: "Using an explicit variable inside of a double-quoted string literal".spec_bytes(),
                    snippet: "<?php\n\n$name = \"Alice\";\n\necho \"Hello, {$name}\";\n".spec_bytes(),
                },
            ],
        }
    }

    fn get_definition(&self) -> (r: RuleDefinition) {
        let r = RuleDefinition::enabled(text("No Implicit String Variable"), Level::Note)
            .with_description(text(
                "Flags any occurences of implicit (unbraced) variables inside of a double-quoted string literal.",
            ))
            .with_example(RuleUsageExample::invalid(
                text("Using an implicit variable inside of a double-quoted string literal"),
                text("<?php\n\n$name = \"Alice\";\n\necho \"Hello, $name\";\n"),
            ))
            .with_example(RuleUsageExample::valid(
                text("Using an explicit variable inside of a double-quoted string literal"),
                text("<?php\n\n$name = \"Alice\";\n\necho \"Hello, {$name}\";\n"),
            ));
        proof {
            assert(r@ =~~= self.spec_definition());
        }
        r
    }

    fn interested_in(&self, kind: &NodeKind) -> (r: bool) {
        true
    }

    fn lint_node(&self, node: &AstNode, ctx: &mut LintContext) -> (d: LintDirective) {
        match node.kind {
            NodeKind::StringPartExpression => {
                let expression = subvec(&ctx.source, node.span.start, node.span.end);
                let mut help = text("Did you mean `{");
                push_all(&mut help, &expression);
                let suffix = text("}` instead?");
                push_all(&mut help, &suffix);
                let issue = Issue::new(
                    ctx.level(),
                    text("Avoid using implicit variables in a double-quoted string literal."),
                )
                    .with_annotation(
                        Annotation::primary(node.span).with_message(text(
                            "Consider wrapping this expression in braces to make it explicit.",
                        )),
                    )
                    .with_help(help);
                let ghost before = issue_models(ctx.issues@);
                ctx.report(issue);
                proof {
                    assert(issue@ =~~= implicit_issue(
                        old(ctx).level,
                        node.span,
                        old(ctx).source@,
                    ));
                    assert(issue_models(ctx.issues@) =~= before + self.spec_issues(
                        *node,
                        old(ctx).source@,
                        old(ctx).level,
                    ));
                    assert(issue_wf(issue@, old(ctx).source@.len() as int));
                }
            },
            _ => {
                proof {
                    assert(issue_models(ctx.issues@) =~= issue_models(ctx.issues@)
                        + self.spec_issues(*node, old(ctx).source@, old(ctx).level));
                }
            },
        }
        LintDirective::Continue
    }
}

} // verus!
