use lintfix::fix::{Edit, FixPlan, SafetyClassification};
use lintfix::issue::{Annotation, AnnotationRole, Issue, IssueCollection};
use lintfix::level::Level;
use lintfix::rule::{LintDirective, RuleDefinition, RuleUsageExample};
use lintfix::span::Span;

fn bytes(s: &str) -> Vec<u8> {
    s.as_bytes().to_vec()
}

#[test]
fn level_order_is_strict() {
    assert!(Level::Note.severity() < Level::Warning.severity());
    assert!(Level::Warning.severity() < Level::Error.severity());
    assert!(Level::Error.severity() < Level::Fatal.severity());
    assert!(Level::Error.at_least(&Level::Warning));
    assert!(Level::Error.at_least(&Level::Error));
    assert!(!Level::Note.at_least(&Level::Warning));
}

#[test]
fn safety_order_is_strict() {
    assert!(SafetyClassification::Safe.at_most(&SafetyClassification::Safe));
    assert!(SafetyClassification::Safe.at_most(&SafetyClassification::Unsafe));
    assert!(!SafetyClassification::Unsafe.at_most(&SafetyClassification::Safe));
    assert!(
        SafetyClassification::PotentiallyUnsafe.at_most(&SafetyClassification::PotentiallyUnsafe)
    );
    assert!(!SafetyClassification::Unsafe.at_most(&SafetyClassification::PotentiallyUnsafe));
}

#[test]
fn directive_default_is_continue() {
    assert_eq!(LintDirective::default(), LintDirective::Continue);
}

#[test]
fn span_len_counts_bytes() {
    let span = Span::new(3, 8);
    assert_eq!(span.len(), 5);
    assert_eq!(Span::new(4, 4).len(), 0);
}

#[test]
fn issue_builder_keeps_everything_in_order() {
    let issue = Issue::new(Level::Warning, bytes("something looks off"))
        .with_annotation(Annotation::primary(Span::new(0, 2)).with_message(bytes("here")))
        .with_annotation(Annotation::secondary(Span::new(4, 6)))
        .with_note(bytes("first note"))
        .with_note(bytes("second note"))
        .with_help(bytes("try the other form"));
    assert_eq!(issue.level, Level::Warning);
    assert_eq!(issue.message, bytes("something looks off"));
    assert_eq!(issue.annotations.len(), 2);
    assert_eq!(issue.annotations[0].role, AnnotationRole::Primary);
    assert_eq!(issue.annotations[0].span, Span::new(0, 2));
    assert_eq!(issue.annotations[0].message, Some(bytes("here")));
    assert_eq!(issue.annotations[1].role, AnnotationRole::Secondary);
    assert_eq!(issue.annotations[1].message, None);
    assert_eq!(issue.notes, vec![bytes("first note"), bytes("second note")]);
    assert_eq!(issue.help, Some(bytes("try the other form")));
    assert!(issue.fix_plan.is_empty());
}

#[test]
fn highest_level_of_empty_collection_is_none() {
    let collection = IssueCollection::new();
    assert_eq!(collection.highest_level(), None);
}

#[test]
fn highest_level_is_the_true_maximum() {
    let mut collection = IssueCollection::new();
    collection.push(Issue::new(Level::Note, bytes("a")));
    collection.push(Issue::new(Level::Error, bytes("b")));
    collection.push(Issue::new(Level::Warning, bytes("c")));
    assert_eq!(collection.highest_level(), Some(Level::Error));
    let mut single = IssueCollection::new();
    single.push(Issue::new(Level::Fatal, bytes("d")));
    assert_eq!(single.highest_level(), Some(Level::Fatal));
}

fn issue_with_edit(level: Level, safety: SafetyClassification) -> Issue {
    let mut plan = FixPlan::new();
    plan.replace(Span::new(0, 1), bytes("x"), safety);
    Issue::new(level, bytes("fixable")).with_fix_plan(plan)
}

#[test]
fn only_fixable_drops_issues_without_a_plan() {
    let mut collection = IssueCollection::new();
    collection.push(Issue::new(Level::Note, bytes("no plan")));
    collection.push(issue_with_edit(Level::Warning, SafetyClassification::Safe));
    collection.push(Issue::new(Level::Error, bytes("also no plan")));
    let fixable = collection.only_fixable();
    assert_eq!(fixable.len(), 1);
    assert_eq!(fixable.get(0).message, bytes("fixable"));
    assert!(!fixable.get(0).fix_plan.is_empty());
    // the original collection is untouched
    assert_eq!(collection.len(), 3);
}

#[test]
fn only_fixable_up_to_respects_the_ceiling() {
    let mut collection = IssueCollection::new();
    collection.push(issue_with_edit(Level::Warning, SafetyClassification::Safe));
    collection.push(issue_with_edit(Level::Warning, SafetyClassification::Unsafe));
    collection.push(Issue::new(Level::Warning, bytes("no plan")));
    let safe_only = collection.only_fixable_up_to(SafetyClassification::Safe);
    assert_eq!(safe_only.len(), 1);
    for i in 0..safe_only.len() {
        assert!(!safe_only.get(i).fix_plan.is_empty());
        for edit in safe_only.get(i).fix_plan.iter() {
            assert!(edit.safety.at_most(&SafetyClassification::Safe));
        }
    }
    let everything = collection.only_fixable_up_to(SafetyClassification::Unsafe);
    assert_eq!(everything.len(), 2);
}

#[test]
fn collections_append_in_order() {
    let mut first = IssueCollection::new();
    first.push(Issue::new(Level::Note, bytes("a")));
    let mut second = IssueCollection::new();
    second.push(Issue::new(Level::Warning, bytes("b")));
    second.push(Issue::new(Level::Error, bytes("c")));
    first.append(&mut second);
    assert_eq!(first.len(), 3);
    assert_eq!(second.len(), 0);
    assert_eq!(first.get(0).message, bytes("a"));
    assert_eq!(first.get(1).message, bytes("b"));
    assert_eq!(first.get(2).message, bytes("c"));
}

#[test]
fn rule_definition_builder_keeps_its_fields() {
    let definition = RuleDefinition::enabled(bytes("some-rule"), Level::Warning)
        .with_description(bytes("What the rule is about."))
        .with_example(RuleUsageExample::invalid(bytes("bad"), bytes("a == b")))
        .with_example(RuleUsageExample::valid(bytes("good"), bytes("a === b")));
    assert_eq!(definition.name, bytes("some-rule"));
    assert_eq!(definition.default_level, Level::Warning);
    assert!(definition.enabled_by_default);
    assert_eq!(definition.description, bytes("What the rule is about."));
    assert_eq!(definition.examples.len(), 2);
    assert!(!definition.examples[0].valid);
    assert_eq!(definition.examples[0].snippet, bytes("a == b"));
    assert!(definition.examples[1].valid);
}

#[test]
fn fix_plan_builder_orders_edits() {
    let mut plan = FixPlan::new();
    plan.replace(Span::new(1, 3), bytes("x"), SafetyClassification::Safe);
    plan.replace(Span::new(5, 6), bytes("yy"), SafetyClassification::Unsafe);
    assert_eq!(plan.len(), 2);
    let edits: Vec<Edit> = plan.into_edits();
    assert_eq!(edits[0].span, Span::new(1, 3));
    assert_eq!(edits[0].replacement, bytes("x"));
    assert_eq!(edits[1].span, Span::new(5, 6));
    assert_eq!(edits[1].safety, SafetyClassification::Unsafe);
}
