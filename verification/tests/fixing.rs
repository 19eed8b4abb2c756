use lintfix::fix::{FixPlan, SafetyClassification};
use lintfix::fixer::{check_edits_within, fix};
use lintfix::issue::{Issue, IssueCollection};
use lintfix::level::Level;
use lintfix::span::Span;

fn bytes(s: &str) -> Vec<u8> {
    s.as_bytes().to_vec()
}

fn one_edit_issue(span: Span, replacement: &str, safety: SafetyClassification) -> Issue {
    let mut plan = FixPlan::new();
    plan.replace(span, bytes(replacement), safety);
    Issue::new(Level::Warning, bytes("issue")).with_fix_plan(plan)
}

#[test]
fn empty_collection_round_trips_the_buffer() {
    let source = bytes("nothing to do here");
    let collection = IssueCollection::new();
    let result = fix(&source, &collection, SafetyClassification::Unsafe);
    assert_eq!(result.buffer, source);
    assert_eq!(result.applied, 0);
    assert!(result.rejected.is_empty());
}

#[test]
fn ineligible_edits_round_trip_the_buffer() {
    // no eligible edit: everything is above the ceiling
    let source = bytes("$a == $b");
    let mut collection = IssueCollection::new();
    collection.push(one_edit_issue(Span::new(3, 5), "===", SafetyClassification::Unsafe));
    let result = fix(&source, &collection, SafetyClassification::Safe);
    assert_eq!(result.buffer, source);
    assert_eq!(result.applied, 0);
    assert!(result.rejected.is_empty());
}

#[test]
fn a_single_eligible_edit_is_applied() {
    let source = bytes("$a == $b");
    let mut collection = IssueCollection::new();
    collection.push(one_edit_issue(Span::new(3, 5), "===", SafetyClassification::Unsafe));
    assert!(check_edits_within(&collection, source.len()));
    let result = fix(&source, &collection, SafetyClassification::Unsafe);
    assert_eq!(result.buffer, bytes("$a === $b"));
    assert_eq!(result.applied, 1);
    assert!(result.rejected.is_empty());
}

#[test]
fn fixing_twice_yields_the_same_buffer() {
    let source = bytes("one two three");
    let mut collection = IssueCollection::new();
    collection.push(one_edit_issue(Span::new(0, 3), "1", SafetyClassification::Safe));
    collection.push(one_edit_issue(Span::new(4, 7), "2", SafetyClassification::Safe));
    let first = fix(&source, &collection, SafetyClassification::Safe);
    let second = fix(&source, &collection, SafetyClassification::Safe);
    assert_eq!(first.buffer, second.buffer);
    assert_eq!(first.applied, second.applied);
    assert_eq!(first.buffer, bytes("1 2 three"));
}

#[test]
fn overlapping_edits_keep_the_first_by_sort_order() {
    // two rules propose edits over overlapping spans of the same 10-byte
    // region: the first by sort order wins, the other is rejected
    let source = bytes("0123456789");
    let mut collection = IssueCollection::new();
    collection.push(one_edit_issue(Span::new(2, 7), "AAAAA", SafetyClassification::Safe));
    collection.push(one_edit_issue(Span::new(4, 9), "B", SafetyClassification::Safe));
    let result = fix(&source, &collection, SafetyClassification::Safe);
    assert_eq!(result.buffer, bytes("01AAAAA789"));
    assert_eq!(result.applied, 1);
    assert_eq!(result.rejected.len(), 1);
    assert_eq!(result.rejected[0].span, Span::new(4, 9));
    // the winning replacement appears exactly once
    let hits = result
        .buffer
        .windows(5)
        .filter(|w| *w == b"AAAAA")
        .count();
    assert_eq!(hits, 1);
}

#[test]
fn sort_order_does_not_depend_on_issue_order() {
    let source = bytes("0123456789");
    let mut collection = IssueCollection::new();
    // pushed in reverse span order; the fixer sorts by span start
    collection.push(one_edit_issue(Span::new(6, 8), "Y", SafetyClassification::Safe));
    collection.push(one_edit_issue(Span::new(0, 2), "X", SafetyClassification::Safe));
    let result = fix(&source, &collection, SafetyClassification::Safe);
    assert_eq!(result.buffer, bytes("X2345Y89"));
    assert_eq!(result.applied, 2);
    assert!(result.rejected.is_empty());
}

#[test]
fn adjacent_edits_both_apply() {
    // the end of one edit equals the start of the next: no conflict
    let source = bytes("abcdef");
    let mut collection = IssueCollection::new();
    collection.push(one_edit_issue(Span::new(0, 2), "X", SafetyClassification::Safe));
    collection.push(one_edit_issue(Span::new(2, 4), "Y", SafetyClassification::Safe));
    let result = fix(&source, &collection, SafetyClassification::Safe);
    assert_eq!(result.buffer, bytes("XYef"));
    assert_eq!(result.applied, 2);
    assert!(result.rejected.is_empty());
}

#[test]
fn ties_on_span_start_put_the_shorter_edit_first() {
    // an insertion at the start of a replaced range composes with it
    let source = bytes("0123456789");
    let mut collection = IssueCollection::new();
    collection.push(one_edit_issue(Span::new(2, 5), "Z", SafetyClassification::Safe));
    collection.push(one_edit_issue(Span::new(2, 2), "I", SafetyClassification::Safe));
    let result = fix(&source, &collection, SafetyClassification::Safe);
    assert_eq!(result.buffer, bytes("01IZ56789"));
    assert_eq!(result.applied, 2);
    assert!(result.rejected.is_empty());
}

#[test]
fn an_insertion_inside_a_replaced_range_is_rejected() {
    let source = bytes("0123456789");
    let mut collection = IssueCollection::new();
    collection.push(one_edit_issue(Span::new(2, 5), "Z", SafetyClassification::Safe));
    collection.push(one_edit_issue(Span::new(3, 3), "I", SafetyClassification::Safe));
    let result = fix(&source, &collection, SafetyClassification::Safe);
    assert_eq!(result.buffer, bytes("01Z56789"));
    assert_eq!(result.applied, 1);
    assert_eq!(result.rejected.len(), 1);
    assert_eq!(result.rejected[0].span, Span::new(3, 3));
}

#[test]
fn the_ceiling_filters_per_edit() {
    // one issue carries a safe and an unsafe edit; only the safe one is
    // applied under a safe ceiling
    let source = bytes("0123456789");
    let mut plan = FixPlan::new();
    plan.replace(Span::new(0, 2), bytes("S"), SafetyClassification::Safe);
    plan.replace(Span::new(5, 7), bytes("U"), SafetyClassification::Unsafe);
    let mut collection = IssueCollection::new();
    collection.push(Issue::new(Level::Warning, bytes("mixed")).with_fix_plan(plan));
    let result = fix(&source, &collection, SafetyClassification::Safe);
    assert_eq!(result.buffer, bytes("S23456789"));
    assert_eq!(result.applied, 1);
    let all = fix(&source, &collection, SafetyClassification::Unsafe);
    assert_eq!(all.buffer, bytes("S234U789"));
    assert_eq!(all.applied, 2);
}

#[test]
fn bounds_check_spots_an_edit_past_the_buffer() {
    let mut collection = IssueCollection::new();
    collection.push(one_edit_issue(Span::new(3, 5), "x", SafetyClassification::Safe));
    assert!(check_edits_within(&collection, 5));
    assert!(!check_edits_within(&collection, 4));
}
