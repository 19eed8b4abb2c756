use lintfix::ast::{Ast, AstNode, Binary, BinaryOperator, NodeKind};
use lintfix::fix::SafetyClassification;
use lintfix::fixer::fix;
use lintfix::level::Level;
use lintfix::no_implicit_string_variable::NoImplicitStringVariableRule;
use lintfix::require_identity_comparison::{
    RequireIdentityComparisonEveryNodeRule, RequireIdentityComparisonRule,
};
use lintfix::rule::{RegisteredRule, Rule};
use lintfix::service::{LintCommand, default_rules, execute, lint_file, lint_source};
use lintfix::span::Span;

fn bytes(s: &str) -> Vec<u8> {
    s.as_bytes().to_vec()
}

/// The tree for the source `"Hello, $name"`: a double-quoted literal with
/// a literal part and an implicit variable expression part.
fn implicit_variable_ast() -> (Vec<u8>, Ast) {
    let source = bytes("\"Hello, $name\"");
    let nodes = vec![
        AstNode { kind: NodeKind::Program, span: Span::new(0, 14), subtree_end: 4 },
        AstNode { kind: NodeKind::LiteralString, span: Span::new(0, 14), subtree_end: 4 },
        AstNode { kind: NodeKind::StringPartLiteral, span: Span::new(1, 8), subtree_end: 3 },
        AstNode { kind: NodeKind::StringPartExpression, span: Span::new(8, 13), subtree_end: 4 },
    ];
    (source, Ast { nodes })
}

/// The tree for the source `$a == $b`: one binary expression comparing
/// two variables with the loose equality operator.
fn loose_equality_ast() -> (Vec<u8>, Ast) {
    let source = bytes("$a == $b");
    let binary = Binary {
        operator: BinaryOperator::Equal,
        operator_span: Span::new(3, 5),
        lhs_span: Span::new(0, 2),
        rhs_span: Span::new(6, 8),
    };
    let nodes = vec![
        AstNode { kind: NodeKind::Program, span: Span::new(0, 8), subtree_end: 4 },
        AstNode { kind: NodeKind::Binary(binary), span: Span::new(0, 8), subtree_end: 4 },
        AstNode { kind: NodeKind::Variable, span: Span::new(0, 2), subtree_end: 3 },
        AstNode { kind: NodeKind::Variable, span: Span::new(6, 8), subtree_end: 4 },
    ];
    (source, Ast { nodes })
}

#[test]
fn implicit_string_variable_is_flagged_with_braced_help() {
    let (source, ast) = implicit_variable_ast();
    let rules = vec![RegisteredRule { rule: NoImplicitStringVariableRule, level: Level::Note }];
    let issues = lint_file(&source, &ast, &rules);
    assert_eq!(issues.len(), 1);
    let issue = issues.get(0);
    assert_eq!(issue.level, Level::Note);
    assert_eq!(
        issue.message,
        bytes("Avoid using implicit variables in a double-quoted string literal.")
    );
    assert_eq!(issue.annotations.len(), 1);
    assert_eq!(issue.annotations[0].span, Span::new(8, 13));
    assert_eq!(issue.help, Some(bytes("Did you mean `{$name}` instead?")));
    assert!(issue.fix_plan.is_empty());
}

#[test]
fn loose_equality_is_flagged_and_fixed_only_above_the_ceiling() {
    let (source, ast) = loose_equality_ast();
    let rules =
        vec![RegisteredRule { rule: RequireIdentityComparisonRule, level: Level::Warning }];
    let issues = lint_file(&source, &ast, &rules);
    assert_eq!(issues.len(), 1);
    let issue = issues.get(0);
    assert_eq!(
        issue.message,
        bytes("use identity comparison `===` instead of equality comparison `==`")
    );
    assert_eq!(issue.annotations.len(), 3);
    assert_eq!(issue.annotations[0].span, Span::new(3, 5));
    assert_eq!(issue.annotations[1].span, Span::new(0, 2));
    assert_eq!(issue.annotations[2].span, Span::new(6, 8));
    assert_eq!(issue.fix_plan.len(), 1);
    assert_eq!(issue.fix_plan[0].span, Span::new(3, 5));
    assert_eq!(issue.fix_plan[0].replacement, bytes("==="));
    assert_eq!(issue.fix_plan[0].safety, SafetyClassification::Unsafe);

    let untouched = fix(&source, &issues, SafetyClassification::Safe);
    assert_eq!(untouched.buffer, source);
    assert_eq!(untouched.applied, 0);

    let repaired = fix(&source, &issues, SafetyClassification::Unsafe);
    assert_eq!(repaired.buffer, bytes("$a === $b"));
    assert_eq!(repaired.applied, 1);
}

#[test]
fn loose_inequality_is_flagged_with_its_own_fix() {
    let source = bytes("$a != $b");
    let binary = Binary {
        operator: BinaryOperator::NotEqual,
        operator_span: Span::new(3, 5),
        lhs_span: Span::new(0, 2),
        rhs_span: Span::new(6, 8),
    };
    let nodes = vec![
        AstNode { kind: NodeKind::Binary(binary), span: Span::new(0, 8), subtree_end: 1 },
    ];
    let ast = Ast { nodes };
    let rules =
        vec![RegisteredRule { rule: RequireIdentityComparisonRule, level: Level::Warning }];
    let issues = lint_file(&source, &ast, &rules);
    assert_eq!(issues.len(), 1);
    assert_eq!(
        issues.get(0).message,
        bytes("use identity inequality `!==` instead of inequality comparison `!=`")
    );
    let repaired = fix(&source, &issues, SafetyClassification::Unsafe);
    assert_eq!(repaired.buffer, bytes("$a !== $b"));
}

#[test]
fn identity_comparisons_pass_the_rule() {
    let source = bytes("$a === $b");
    let binary = Binary {
        operator: BinaryOperator::Identical,
        operator_span: Span::new(3, 6),
        lhs_span: Span::new(0, 2),
        rhs_span: Span::new(7, 9),
    };
    let nodes = vec![
        AstNode { kind: NodeKind::Binary(binary), span: Span::new(0, 9), subtree_end: 1 },
    ];
    let ast = Ast { nodes };
    let rules =
        vec![RegisteredRule { rule: RequireIdentityComparisonRule, level: Level::Warning }];
    let issues = lint_file(&source, &ast, &rules);
    assert_eq!(issues.len(), 0);
}

#[test]
fn both_registration_styles_report_identically() {
    // the same condition registered with a typed entry point and in the
    // match-everything style: identical issue sequences
    let (source, ast) = loose_equality_ast();
    let typed =
        vec![RegisteredRule { rule: RequireIdentityComparisonRule, level: Level::Warning }];
    let every_node = vec![RegisteredRule {
        rule: RequireIdentityComparisonEveryNodeRule,
        level: Level::Warning,
    }];
    let from_typed = lint_file(&source, &ast, &typed);
    let from_every_node = lint_file(&source, &ast, &every_node);
    assert_eq!(from_typed.len(), from_every_node.len());
    for i in 0..from_typed.len() {
        let a = from_typed.get(i);
        let b = from_every_node.get(i);
        assert_eq!(a.level, b.level);
        assert_eq!(a.message, b.message);
        assert_eq!(a.help, b.help);
        assert_eq!(a.annotations.len(), b.annotations.len());
        assert_eq!(a.fix_plan.len(), b.fix_plan.len());
        for k in 0..a.fix_plan.len() {
            assert_eq!(a.fix_plan[k].span, b.fix_plan[k].span);
            assert_eq!(a.fix_plan[k].replacement, b.fix_plan[k].replacement);
        }
    }
}

#[test]
fn the_default_rules_run_side_by_side_in_traversal_order() {
    // a program with a flagged string part first and a loose comparison
    // after it: issues come out in traversal order
    let source = bytes("\"$x\" $a == $b");
    let binary = Binary {
        operator: BinaryOperator::Equal,
        operator_span: Span::new(8, 10),
        lhs_span: Span::new(5, 7),
        rhs_span: Span::new(11, 13),
    };
    let nodes = vec![
        AstNode { kind: NodeKind::Program, span: Span::new(0, 13), subtree_end: 6 },
        AstNode { kind: NodeKind::LiteralString, span: Span::new(0, 4), subtree_end: 3 },
        AstNode { kind: NodeKind::StringPartExpression, span: Span::new(1, 3), subtree_end: 3 },
        AstNode { kind: NodeKind::Binary(binary), span: Span::new(5, 13), subtree_end: 6 },
        AstNode { kind: NodeKind::Variable, span: Span::new(5, 7), subtree_end: 5 },
        AstNode { kind: NodeKind::Variable, span: Span::new(11, 13), subtree_end: 6 },
    ];
    let ast = Ast { nodes };
    let rules = default_rules();
    let issues = lint_file(&source, &ast, &rules);
    assert_eq!(issues.len(), 2);
    assert_eq!(issues.get(0).level, Level::Note);
    assert_eq!(issues.get(0).annotations[0].span, Span::new(1, 3));
    assert_eq!(issues.get(1).level, Level::Warning);
    assert_eq!(issues.get(1).annotations[0].span, Span::new(8, 10));
}

#[test]
fn a_configured_level_overrides_the_default() {
    let (source, ast) = loose_equality_ast();
    let rules = vec![RegisteredRule { rule: RequireIdentityComparisonRule, level: Level::Error }];
    let issues = lint_file(&source, &ast, &rules);
    assert_eq!(issues.len(), 1);
    assert_eq!(issues.get(0).level, Level::Error);
}

#[test]
fn lint_source_refuses_a_malformed_tree() {
    let source = bytes("$a");
    let nodes = vec![
        AstNode { kind: NodeKind::Variable, span: Span::new(0, 7), subtree_end: 1 },
    ];
    let ast = Ast { nodes };
    assert!(lint_source(&source, &ast, &default_rules()).is_none());
    let good = Ast {
        nodes: vec![AstNode { kind: NodeKind::Variable, span: Span::new(0, 2), subtree_end: 1 }],
    };
    assert!(lint_source(&source, &good, &default_rules()).is_some());
}

#[test]
fn rule_metadata_matches_the_rules() {
    let identity = RequireIdentityComparisonRule;
    assert_eq!(identity.get_name(), "require-identity-comparison");
    assert_eq!(identity.get_default_level(), Some(Level::Warning));
    let implicit = NoImplicitStringVariableRule;
    let definition = implicit.get_definition();
    assert_eq!(definition.name, bytes("No Implicit String Variable"));
    assert_eq!(definition.default_level, Level::Note);
    assert!(definition.enabled_by_default);
    assert_eq!(definition.examples.len(), 2);
}

#[test]
fn execute_reports_everything_or_only_fixable() {
    let (source, ast) = loose_equality_ast();
    let issues = lint_file(&source, &ast, &default_rules());
    let (reported, code) = execute(&LintCommand { only_fixable: false }, issues);
    assert_eq!(reported.len(), 1);
    assert_eq!(code, 0);

    let (source2, ast2) = implicit_variable_ast();
    let issues2 = lint_file(&source2, &ast2, &default_rules());
    assert_eq!(issues2.len(), 1);
    // the implicit-variable issue carries no fix plan, so it is filtered
    let (fixable, code2) = execute(&LintCommand { only_fixable: true }, issues2);
    assert_eq!(fixable.len(), 0);
    assert_eq!(code2, 0);
}

#[test]
fn execute_exits_nonzero_on_errors() {
    let (source, ast) = loose_equality_ast();
    let rules = vec![RegisteredRule { rule: RequireIdentityComparisonRule, level: Level::Error }];
    let issues = lint_file(&source, &ast, &rules);
    let (_, code) = execute(&LintCommand { only_fixable: false }, issues);
    assert_eq!(code, 1);
    let fatal_rules =
        vec![RegisteredRule { rule: RequireIdentityComparisonRule, level: Level::Fatal }];
    let fatal_issues = lint_file(&source, &ast, &fatal_rules);
    let (_, fatal_code) = execute(&LintCommand { only_fixable: false }, fatal_issues);
    assert_eq!(fatal_code, 1);
}
