use vstd::prelude::*;
use crate::ast::{Ast, AstNode, NodeKind};
use crate::context::LintContext;
use crate::issue::{IssueCollection, IssueModel, fixable_only, issue_models, issue_wf};
use crate::level::Level;
use crate::no_implicit_string_variable::NoImplicitStringVariableRule;
use crate::require_identity_comparison::RequireIdentityComparisonRule;
use crate::rule::{LintDirective, RegisteredRule, Rule, RuleDefinition, RuleDefinitionModel};
use crate::text::copy_bytes;
use crate::walker::{walk, walk_issues};
use crate::fixer::issues_edits_within;

verus! {

/// One enabled rule of this library, so that rules of different types can
/// be registered side by side for one walk. Every call is handed to the
/// wrapped rule unchanged.
pub enum LintRule {
    NoImplicitStringVariable(NoImplicitStringVariableRule),
    RequireIdentityComparison(RequireIdentityComparisonRule),
}

impl Rule for LintRule {
    open spec fn spec_interested(&self, kind: NodeKind) -> bool {
        match self {
            LintRule::NoImplicitStringVariable(r) => r.spec_interested(kind),
            LintRule::RequireIdentityComparison(r) => r.spec_interested(kind),
        }
    }

    open spec fn spec_issues(&self, node: AstNode, src: Seq<u8>, level: Level) -> Seq<IssueModel> {
        match self {
            LintRule::NoImplicitStringVariable(r) => r.spec_issues(node, src, level),
            LintRule::RequireIdentityComparison(r) => r.spec_issues(node, src, level),
        }
    }

    open spec fn spec_directive(&self, node: AstNode) -> LintDirective {
        match self {
            LintRule::NoImplicitStringVariable(r) => r.spec_directive(node),
            LintRule::RequireIdentityComparison(r) => r.spec_directive(node),
        }
    }

    open spec fn spec_definition(&self) -> RuleDefinitionModel {
        match self {
            LintRule::NoImplicitStringVariable(r) => r.spec_definition(),
            LintRule::RequireIdentityComparison(r) => r.spec_definition(),
        }
    }

    fn get_definition(&self) -> (r: RuleDefinition) {
        match self {
            LintRule::NoImplicitStringVariable(r) => r.get_definition(),
            LintRule::RequireIdentityComparison(r) => r.get_definition(),
        }
    }

    fn interested_in(&self, kind: &NodeKind) -> (r: bool) {
        match self {
            LintRule::NoImplicitStringVariable(r) => r.interested_in(kind),
            LintRule::RequireIdentityComparison(r) => r.interested_in(kind),
        }
    }

    fn lint_node(&self, node: &AstNode, ctx: &mut LintContext) -> (d: LintDirective) {
        match self {
            LintRule::NoImplicitStringVariable(r) => r.lint_node(node, ctx),
            LintRule::RequireIdentityComparison(r) => r.lint_node(node, ctx),
        }
    }
}

/// The rules this library ships, each registered at its default level.
pub fn default_rules() -> (r: Vec<RegisteredRule<LintRule>>)
    ensures
        r@ == seq![
            RegisteredRule {
                rule: LintRule::NoImplicitStringVariable(NoImplicitStringVariableRule),
                level: Level::Note,
            },
            RegisteredRule {
                rule: LintRule::RequireIdentityComparison(RequireIdentityComparisonRule),
                level: Level::Warning,
            },
        ],
{
    let mut r: Vec<RegisteredRule<LintRule>> = Vec::new();
    r.push(RegisteredRule {
        rule: LintRule::NoImplicitStringVariable(NoImplicitStringVariableRule),
        level: Level::Note,
    });
    r.push(RegisteredRule {
        rule: LintRule::RequireIdentityComparison(RequireIdentityComparisonRule),
        level: Level::Warning,
    });
    proof {
        assert(r@ =~= seq![
            RegisteredRule {
                rule: LintRule::NoImplicitStringVariable(NoImplicitStringVariableRule),
                level: Level::Note,
            },
            RegisteredRule {
                rule: LintRule::RequireIdentityComparison(RequireIdentityComparisonRule),
                level: Level::Warning,
            },
        ]);
    }
    r
}

/// Runs the registered rules over one file's tree and collects the
/// issues, in traversal order. Every collected issue's spans lie inside
/// the source buffer, so its fixes can be handed straight to the fixer.
pub fn lint_file<R: Rule>(
    source: &Vec<u8>,
    ast: &Ast,
    rules: &Vec<RegisteredRule<R>>,
) -> (r: IssueCollection)
    requires
        ast.wf(source@.len() as int),
    ensures
        r.models() == walk_issues(ast.nodes@, source@, rules@),
        issues_edits_within(r.models(), source@.len() as int),
{
    let mut ctx = LintContext::new(copy_bytes(source), Level::Note);
    walk(ast, rules, &mut ctx);
    let ghost models = issue_models(ctx.issues@);
    let r = IssueCollection::from_issues(ctx.into_issues());
    proof {
        assert(Seq::<IssueModel>::empty() + walk_issues(ast.nodes@, source@, rules@)
            =~= walk_issues(ast.nodes@, source@, rules@));
        assert forall|i: int, k: int|
            0 <= i < r.models().len() && 0 <= k < r.models()[i].fix_plan.len()
            implies (#[trigger] r.models()[i].fix_plan[k]).span.within(source@.len() as int) by {
            assert(issue_wf(models[i], source@.len() as int));
        }
    }
    r
}

/// Lints one file when its tree is well formed over the source buffer;
/// hands back nothing when some span or subtree extent of the tree does
/// not fit, rather than walking a malformed tree.
pub fn lint_source<R: Rule>(
    source: &Vec<u8>,
    ast: &Ast,
    rules: &Vec<RegisteredRule<R>>,
) -> (r: Option<IssueCollection>)
    ensures
        (r is Some) <==> ast.wf(source@.len() as int),
        r matches Some(c) ==> {
            &&& c.models() == walk_issues(ast.nodes@, source@, rules@)
            &&& issues_edits_within(c.models(), source@.len() as int)
        },
{
    let len = source.len();
    if ast.check(len) {
        Some(lint_file(source, ast, rules))
    } else {
        None
    }
}

/// What the lint command asks for: reporting every issue, or only the
/// fixable ones.
pub struct LintCommand {
    pub only_fixable: bool,
}

/// The decision half of the lint command: given the collected issues,
/// pick the collection to report — filtered to fixable issues when asked —
/// and the process exit status, which is nonzero exactly when some issue
/// reaches the Error level. The surrounding program does the loading,
/// parsing and printing.
pub fn execute(command: &LintCommand, issues: IssueCollection) -> (r: (IssueCollection, i32))
    ensures
        r.0.models() == if command.only_fixable {
            fixable_only(issues.models())
        } else {
            issues.models()
        },
        r.1 == 1i32 <==> exists|k: int| 0 <= k < issues.models().len()
            && (#[trigger] issues.models()[k]).level.rank() >= Level::Error.rank(),
        r.1 == 1i32 || r.1 == 0i32,
{
    let contain_errors = match issues.highest_level() {
        Some(level) => level.at_least(&Level::Error),
        None => false,
    };
    let code: i32 = if contain_errors {
        1
    } else {
        0
    };
    if command.only_fixable {
        (issues.only_fixable(), code)
    } else {
        (issues, code)
    }
}

} // verus!
