use vstd::prelude::*;
use crate::span::conflicts;
use crate::fix::{Edit, EditModel, SafetyClassification, edit_models, plan_ordered};
use crate::issue::{IssueCollection, IssueModel};
use crate::text::{push_all, push_range};

verus! {

// ---------------------------------------------------------------------------
// The patch engine. It flattens every eligible edit of every issue into one
// sequence, sorts it by span start (ties by span end, shorter first), walks
// it left to right accepting each edit that begins at or after the end of
// the last accepted one, rejects the rest as conflicts, and splices the
// accepted replacements into a fresh buffer. Rejecting keeps the
// at-most-one-writer-per-byte-range invariant: edits come from rules that
// cannot know about each other, and applying one side of an overlap could
// change meaning in a way neither rule intended.
// ---------------------------------------------------------------------------

/// The sort order of the global edit sequence: ascending span start,
/// ties broken by ascending span end.
pub open spec fn edit_le(a: EditModel, b: EditModel) -> bool {
    ||| a.span.start < b.span.start
    ||| (a.span.start == b.span.start && a.span.end <= b.span.end)
}

pub open spec fn sorted_by_span(s: Seq<EditModel>) -> bool {
    forall|i: int, j: int| 0 <= i < j < s.len() ==> edit_le(#[trigger] s[i], #[trigger] s[j])
}

/// Every span of the edit sequence lies inside a buffer of `len` bytes.
pub open spec fn edits_within(s: Seq<EditModel>, len: int) -> bool {
    forall|k: int| 0 <= k < s.len() ==> (#[trigger] s[k]).span.within(len)
}

/// Every fix-plan span of every issue lies inside a buffer of `len` bytes.
pub open spec fn issues_edits_within(s: Seq<IssueModel>, len: int) -> bool {
    forall|i: int, k: int| 0 <= i < s.len() && 0 <= k < s[i].fix_plan.len()
        ==> (#[trigger] s[i].fix_plan[k]).span.within(len)
}

/// The edits of one plan classified at or below the ceiling, in order.
pub open spec fn keep_eligible(plan: Seq<EditModel>, ceiling: SafetyClassification) -> Seq<EditModel>
    decreases plan.len(),
{
    if plan.len() == 0 {
        Seq::<EditModel>::empty()
    } else {
        keep_eligible(plan.drop_last(), ceiling)
            + if plan.last().safety.rank() <= ceiling.rank() {
            seq![plan.last()]
        } else {
            Seq::<EditModel>::empty()
        }
    }
}

/// Every eligible edit of every issue, flattened in issue order.
pub open spec fn eligible_edits(issues: Seq<IssueModel>, ceiling: SafetyClassification) -> Seq<EditModel>
    decreases issues.len(),
{
    if issues.len() == 0 {
        Seq::<EditModel>::empty()
    } else {
        eligible_edits(issues.drop_last(), ceiling) + keep_eligible(issues.last().fix_plan, ceiling)
    }
}

/// `e` inserted into `s` after every element that sorts at or before it.
pub open spec fn insert_sorted(s: Seq<EditModel>, e: EditModel) -> Seq<EditModel>
    decreases s.len(),
{
    if s.len() > 0 && edit_le(s[0], e) {
        seq![s[0]] + insert_sorted(s.skip(1), e)
    } else {
        seq![e] + s
    }
}

/// Insertion sort of the edit sequence: stable, so edits with equal spans
/// keep their flattening order.
pub open spec fn sort_edits(s: Seq<EditModel>) -> Seq<EditModel>
    decreases s.len(),
{
    if s.len() == 0 {
        Seq::<EditModel>::empty()
    } else {
        insert_sorted(sort_edits(s.drop_last()), s.last())
    }
}

/// Of a sorted edit sequence, the edits the left-to-right walk accepts,
/// starting with `last_end` as the end of the region already written.
pub open spec fn accepted_from(s: Seq<EditModel>, last_end: int) -> Seq<EditModel>
    decreases s.len(),
{
    if s.len() == 0 {
        Seq::<EditModel>::empty()
    } else if s[0].span.start >= last_end {
        seq![s[0]] + accepted_from(s.skip(1), s[0].span.end as int)
    } else {
        accepted_from(s.skip(1), last_end)
    }
}

/// The edits the same walk rejects as conflicting.
pub open spec fn rejected_from(s: Seq<EditModel>, last_end: int) -> Seq<EditModel>
    decreases s.len(),
{
    if s.len() == 0 {
        Seq::<EditModel>::empty()
    } else if s[0].span.start >= last_end {
        rejected_from(s.skip(1), s[0].span.end as int)
    } else {
        seq![s[0]] + rejected_from(s.skip(1), last_end)
    }
}

/// The original bytes from `from` on, with each edit's range replaced by
/// its replacement text.
pub open spec fn splice_from(src: Seq<u8>, edits: Seq<EditModel>, from: int) -> Seq<u8>
    decreases edits.len(),
{
    if edits.len() == 0 {
        src.subrange(from, src.len() as int)
    } else {
        src.subrange(from, edits[0].span.start as int) + edits[0].replacement
            + splice_from(src, edits.skip(1), edits[0].span.end as int)
    }
}

/// The global sorted sequence of eligible edits.
pub open spec fn sorted_eligible(issues: Seq<IssueModel>, ceiling: SafetyClassification) -> Seq<EditModel> {
    sort_edits(eligible_edits(issues, ceiling))
}

/// The edits one fixer run applies.
pub open spec fn accepted_edits(issues: Seq<IssueModel>, ceiling: SafetyClassification) -> Seq<EditModel> {
    accepted_from(sorted_eligible(issues, ceiling), 0)
}

/// The edits one fixer run rejects as conflicts.
pub open spec fn rejected_edits(issues: Seq<IssueModel>, ceiling: SafetyClassification) -> Seq<EditModel> {
    rejected_from(sorted_eligible(issues, ceiling), 0)
}

/// The buffer one fixer run produces.
pub open spec fn fixed_buffer(src: Seq<u8>, issues: Seq<IssueModel>, ceiling: SafetyClassification) -> Seq<u8> {
    splice_from(src, accepted_edits(issues, ceiling), 0)
}

/// What one fixer run reports back: the rewritten buffer, how many edits
/// were applied, and the edits rejected because they conflicted.
pub struct FixResult {
    pub buffer: Vec<u8>,
    pub applied: usize,
    pub rejected: Vec<Edit>,
}

fn edit_le_exec(a: &Edit, b: &Edit) -> (r: bool)
    ensures
        r == edit_le(a@, b@),
{
    a.span.start < b.span.start || (a.span.start == b.span.start && a.span.end <= b.span.end)
}

/// Flattens every eligible edit of every issue, in issue order.
fn collect_eligible(issues: &IssueCollection, ceiling: SafetyClassification) -> (r: Vec<Edit>)
    ensures
        edit_models(r@) == eligible_edits(issues.models(), ceiling),
{
    let mut out: Vec<Edit> = Vec::new();
    proof {
        assert(edit_models(out@) =~= Seq::<EditModel>::empty());
    }
    let n = issues.len();
    let mut i: usize = 0;
    while i < n
        invariant
            i <= n == issues.models().len(),
            edit_models(out@) == eligible_edits(issues.models().take(i as int), ceiling),
        decreases n - i,
    {
        let issue = issues.get(i);
        let ghost plan = issue@.fix_plan;
        let mut j: usize = 0;
        while j < issue.fix_plan.len()
            invariant
                j <= plan.len() == issue.fix_plan@.len(),
                issue@ == issues.models()[i as int],
                i < issues.models().len(),
                plan == issue@.fix_plan,
                edit_models(out@) == eligible_edits(issues.models().take(i as int), ceiling)
                    + keep_eligible(plan.take(j as int), ceiling),
            decreases plan.len() - j,
        {
            let ghost prev = out@;
            if issue.fix_plan[j].safety.at_most(&ceiling) {
                out.push(issue.fix_plan[j].duplicate());
            }
            j = j + 1;
            proof {
                let k = j as int - 1;
                assert(plan[k] == issue.fix_plan@[k]@);
                assert(plan.take(k + 1).drop_last() =~= plan.take(k));
                assert(plan.take(k + 1).last() == plan[k]);
                if plan[k].safety.rank() <= ceiling.rank() {
                    crate::issue::lemma_edit_models_push(prev, out@[prev.len() as int]);
                    assert(edit_models(out@) =~= eligible_edits(issues.models().take(i as int), ceiling)
                        + keep_eligible(plan.take(j as int), ceiling));
                } else {
                    assert(edit_models(out@) =~= eligible_edits(issues.models().take(i as int), ceiling)
                        + keep_eligible(plan.take(j as int), ceiling));
                }
            }
        }
        i = i + 1;
        proof {
            let k = i as int - 1;
            assert(plan.take(plan.len() as int) =~= plan);
            assert(issues.models().take(k + 1).drop_last() =~= issues.models().take(k));
            assert(issues.models().take(k + 1).last() == issues.models()[k]);
            assert(edit_models(out@) =~= eligible_edits(issues.models().take(i as int), ceiling));
        }
    }
    proof {
        assert(issues.models().take(issues.models().len() as int) =~= issues.models());
    }
    out
}

/// Inserting at the first position whose element sorts after `e` is what
/// `insert_sorted` does.
proof fn lemma_insert_at_position(s: Seq<EditModel>, e: EditModel, pos: int)
    requires
        0 <= pos <= s.len(),
        forall|k: int| 0 <= k < pos ==> edit_le(#[trigger] s[k], e),
        pos < s.len() ==> !edit_le(s[pos], e),
    ensures
        s.insert(pos, e) == insert_sorted(s, e),
    decreases s.len(),
{
    if pos == 0 {
        assert(s.insert(0, e) =~= seq![e] + s);
    } else {
        lemma_insert_at_position(s.skip(1), e, pos - 1);
        assert(s.insert(pos, e) =~= seq![s[0]] + s.skip(1).insert(pos - 1, e));
    }
}

/// Sorts the edits by ascending span start, ties by ascending span end,
/// keeping the original order of edits whose keys are equal.
fn sort_by_span(edits: &Vec<Edit>) -> (r: Vec<Edit>)
    ensures
        edit_models(r@) == sort_edits(edit_models(edits@)),
{
    let ghost all = edit_models(edits@);
    let mut out: Vec<Edit> = Vec::new();
    proof {
        assert(edit_models(out@) =~= Seq::<EditModel>::empty());
        assert(all.take(0) =~= Seq::<EditModel>::empty());
    }
    let mut i: usize = 0;
    while i < edits.len()
        invariant
            i <= edits@.len(),
            all == edit_models(edits@),
            edit_models(out@) == sort_edits(all.take(i as int)),
        decreases edits@.len() - i,
    {
        let e = edits[i].duplicate();
        let mut pos: usize = 0;
        loop
            invariant_except_break
                pos <= out@.len(),
                forall|k: int| 0 <= k < pos ==> edit_le(#[trigger] edit_models(out@)[k], e@),
            invariant
                edit_models(out@) == sort_edits(all.take(i as int)),
                e@ == all[i as int],
                i < all.len(),
            ensures
                pos <= out@.len(),
                forall|k: int| 0 <= k < pos ==> edit_le(#[trigger] edit_models(out@)[k], e@),
                pos < out@.len() ==> !edit_le(edit_models(out@)[pos as int], e@),
            decreases out@.len() - pos,
        {
            if pos >= out.len() {
                break;
            }
            if !edit_le_exec(&out[pos], &e) {
                proof {
                    assert(edit_models(out@)[pos as int] == out@[pos as int]@);
                }
                break;
            }
            proof {
                assert(edit_models(out@)[pos as int] == out@[pos as int]@);
            }
            pos = pos + 1;
        }
        let ghost prev = edit_models(out@);
        out.insert(pos, e);
        i = i + 1;
        proof {
            let k = i as int - 1;
            assert(edit_models(out@) =~= prev.insert(pos as int, all[k]));
            lemma_insert_at_position(prev, all[k], pos as int);
            assert(all.take(k + 1).drop_last() =~= all.take(k));
            assert(all.take(k + 1).last() == all[k]);
        }
    }
    proof {
        assert(all.take(all.len() as int) =~= all);
    }
    out
}

/// Walks the sorted sequence left to right, accepting each edit that
/// begins at or after the end of the last accepted one and rejecting the
/// rest as conflicts.
fn partition_conflicts(sorted: &Vec<Edit>) -> (r: (Vec<Edit>, Vec<Edit>))
    ensures
        edit_models(r.0@) == accepted_from(edit_models(sorted@), 0),
        edit_models(r.1@) == rejected_from(edit_models(sorted@), 0),
{
    let ghost all = edit_models(sorted@);
    let mut acc: Vec<Edit> = Vec::new();
    let mut rej: Vec<Edit> = Vec::new();
    let mut last_end: usize = 0;
    let mut k: usize = 0;
    proof {
        assert(edit_models(acc@) =~= Seq::<EditModel>::empty());
        assert(edit_models(rej@) =~= Seq::<EditModel>::empty());
        assert(all.skip(0) =~= all);
    }
    while k < sorted.len()
        invariant
            k <= all.len() == sorted@.len(),
            all == edit_models(sorted@),
            edit_models(acc@) + accepted_from(all.skip(k as int), last_end as int)
                == accepted_from(all, 0),
            edit_models(rej@) + rejected_from(all.skip(k as int), last_end as int)
                == rejected_from(all, 0),
        decreases all.len() - k,
    {
        let ghost rest = all.skip(k as int);
        proof {
            assert(rest[0] == all[k as int]);
            assert(rest.skip(1) =~= all.skip(k as int + 1));
            assert(all[k as int] == sorted@[k as int]@);
        }
        let ghost prev_acc = edit_models(acc@);
        let ghost prev_rej = edit_models(rej@);
        if sorted[k].span.start >= last_end {
            acc.push(sorted[k].duplicate());
            last_end = sorted[k].span.end;
            proof {
                crate::issue::lemma_edit_models_push(acc@.drop_last(), acc@.last());
            }
        } else {
            rej.push(sorted[k].duplicate());
            proof {
                crate::issue::lemma_edit_models_push(rej@.drop_last(), rej@.last());
            }
        }
        k = k + 1;
        proof {
            assert(edit_models(acc@) + accepted_from(all.skip(k as int), last_end as int)
                =~= accepted_from(all, 0));
            assert(edit_models(rej@) + rejected_from(all.skip(k as int), last_end as int)
                =~= rejected_from(all, 0));
        }
    }
    proof {
        assert(all.skip(all.len() as int) =~= Seq::<EditModel>::empty());
        assert(edit_models(acc@) =~= accepted_from(all, 0));
        assert(edit_models(rej@) =~= rejected_from(all, 0));
    }
    (acc, rej)
}

/// Splices the accepted edits into the original buffer: bytes between
/// edits are copied verbatim, each edit's range is replaced by its text.
fn splice(source: &Vec<u8>, edits: &Vec<Edit>) -> (r: Vec<u8>)
    requires
        plan_ordered(edit_models(edits@), 0),
        edits_within(edit_models(edits@), source@.len() as int),
    ensures
        r@ == splice_from(source@, edit_models(edits@), 0),
{
    let ghost all = edit_models(edits@);
    let mut out: Vec<u8> = Vec::new();
    let mut pos: usize = 0;
    let mut k: usize = 0;
    proof {
        assert(all.skip(0) =~= all);
        assert(out@ + splice_from(source@, all, 0) =~= splice_from(source@, all, 0));
    }
    while k < edits.len()
        invariant
            k <= all.len() == edits@.len(),
            all == edit_models(edits@),
            edits_within(all, source@.len() as int),
            plan_ordered(all.skip(k as int), pos as int),
            pos <= source@.len(),
            out@ + splice_from(source@, all.skip(k as int), pos as int)
                == splice_from(source@, all, 0),
        decreases all.len() - k,
    {
        let ghost rest = all.skip(k as int);
        proof {
            assert(rest[0] == all[k as int]);
            assert(all[k as int] == edits@[k as int]@);
            assert(rest.skip(1) =~= all.skip(k as int + 1));
        }
        let start = edits[k].span.start;
        let end = edits[k].span.end;
        push_range(&mut out, source, pos, start);
        push_all(&mut out, &edits[k].replacement);
        pos = end;
        k = k + 1;
        proof {
            assert(out@ + splice_from(source@, all.skip(k as int), pos as int)
                =~= splice_from(source@, all, 0));
        }
    }
    proof {
        assert(all.skip(all.len() as int) =~= Seq::<EditModel>::empty());
    }
    let n = source.len();
    push_range(&mut out, source, pos, n);
    proof {
        assert(out@ =~= splice_from(source@, all, 0));
    }
    out
}

/// Every eligible edit of one plan keeps its bounds.
proof fn lemma_keep_eligible_within(plan: Seq<EditModel>, ceiling: SafetyClassification, len: int)
    requires
        forall|k: int| 0 <= k < plan.len() ==> (#[trigger] plan[k]).span.within(len),
    ensures
        edits_within(keep_eligible(plan, ceiling), len),
    decreases plan.len(),
{
    if plan.len() > 0 {
        lemma_keep_eligible_within(plan.drop_last(), ceiling, len);
    }
}

/// Every eligible edit of every issue keeps its bounds.
proof fn lemma_eligible_within(issues: Seq<IssueModel>, ceiling: SafetyClassification, len: int)
    requires
        issues_edits_within(issues, len),
    ensures
        edits_within(eligible_edits(issues, ceiling), len),
    decreases issues.len(),
{
    if issues.len() > 0 {
        assert(issues_edits_within(issues.drop_last(), len));
        lemma_eligible_within(issues.drop_last(), ceiling, len);
        assert(forall|k: int| 0 <= k < issues.last().fix_plan.len()
            ==> (#[trigger] issues.last().fix_plan[k]).span.within(len));
        lemma_keep_eligible_within(issues.last().fix_plan, ceiling, len);
    }
}

/// Insertion keeps every edit's bounds.
proof fn lemma_insert_sorted_within(s: Seq<EditModel>, e: EditModel, len: int)
    requires
        edits_within(s, len),
        e.span.within(len),
    ensures
        edits_within(insert_sorted(s, e), len),
    decreases s.len(),
{
    if s.len() > 0 && edit_le(s[0], e) {
        assert(edits_within(s.skip(1), len));
        lemma_insert_sorted_within(s.skip(1), e, len);
    }
}

/// Sorting keeps every edit's bounds.
proof fn lemma_sort_within(s: Seq<EditModel>, len: int)
    requires
        edits_within(s, len),
    ensures
        edits_within(sort_edits(s), len),
    decreases s.len(),
{
    if s.len() > 0 {
        assert(edits_within(s.drop_last(), len));
        lemma_sort_within(s.drop_last(), len);
        lemma_insert_sorted_within(sort_edits(s.drop_last()), s.last(), len);
    }
}

/// The accepted edits come out chained: each begins at or after the end
/// of the one before, starting at `last_end`, and all keep their bounds.
proof fn lemma_accepted_ordered(s: Seq<EditModel>, last_end: int, len: int)
    requires
        edits_within(s, len),
        0 <= last_end <= len,
    ensures
        plan_ordered(accepted_from(s, last_end), last_end),
        edits_within(accepted_from(s, last_end), len),
    decreases s.len(),
{
    if s.len() > 0 {
        assert(edits_within(s.skip(1), len));
        if s[0].span.start >= last_end {
            lemma_accepted_ordered(s.skip(1), s[0].span.end as int, len);
            let r = seq![s[0]] + accepted_from(s.skip(1), s[0].span.end as int);
            assert(r.skip(1) =~= accepted_from(s.skip(1), s[0].span.end as int));
            assert(r[0] == s[0]);
        } else {
            lemma_accepted_ordered(s.skip(1), last_end, len);
        }
    }
}

/// Applies every eligible fix of the collection to the source buffer:
/// eligible edits are flattened, sorted, walked for conflicts, and the
/// accepted ones spliced into a fresh buffer. Reports the new buffer, the
/// number of edits applied, and the rejected edits.
pub fn fix(source: &Vec<u8>, issues: &IssueCollection, ceiling: SafetyClassification) -> (r: FixResult)
    requires
        issues_edits_within(issues.models(), source@.len() as int),
    ensures
        r.buffer@ == fixed_buffer(source@, issues.models(), ceiling),
        r.applied == accepted_edits(issues.models(), ceiling).len(),
        edit_models(r.rejected@) == rejected_edits(issues.models(), ceiling),
{
    let eligible = collect_eligible(issues, ceiling);
    let sorted = sort_by_span(&eligible);
    proof {
        lemma_eligible_within(issues.models(), ceiling, source@.len() as int);
        lemma_sort_within(eligible_edits(issues.models(), ceiling), source@.len() as int);
    }
    let (accepted, rejected) = partition_conflicts(&sorted);
    proof {
        lemma_accepted_ordered(edit_models(sorted@), 0, source@.len() as int);
    }
    let buffer = splice(source, &accepted);
    let applied = accepted.len();
    FixResult { buffer, applied, rejected }
}


/// Elements of an insertion are the inserted edit and the old elements.
proof fn lemma_insert_sorted_elements(s: Seq<EditModel>, e: EditModel)
    ensures
        forall|k: int| 0 <= k < insert_sorted(s, e).len()
            ==> (#[trigger] insert_sorted(s, e)[k] == e || s.contains(insert_sorted(s, e)[k])),
        insert_sorted(s, e).len() == s.len() + 1,
    decreases s.len(),
{
    if s.len() > 0 && edit_le(s[0], e) {
        lemma_insert_sorted_elements(s.skip(1), e);
        let r = seq![s[0]] + insert_sorted(s.skip(1), e);
        assert forall|k: int| 0 <= k < r.len()
            implies (r[k] == e || s.contains(r[k])) by {
            if k == 0 {
                assert(s.contains(s[0]));
            } else {
                let x = insert_sorted(s.skip(1), e)[k - 1];
                assert(r[k] == x);
                if x != e {
                    let j = choose|j: int| 0 <= j < s.skip(1).len() && s.skip(1)[j] == x;
                    assert(s[j + 1] == x);
                    assert(s.contains(x));
                }
            }
        }
    } else {
        let r = seq![e] + s;
        assert forall|k: int| 0 <= k < r.len()
            implies (r[k] == e || s.contains(r[k])) by {
            if k > 0 {
                assert(r[k] == s[k - 1]);
                assert(s.contains(s[k - 1]));
            }
        }
    }
}

/// Inserting into a sorted sequence keeps it sorted.
proof fn lemma_insert_sorted_sorted(s: Seq<EditModel>, e: EditModel)
    requires
        sorted_by_span(s),
    ensures
        sorted_by_span(insert_sorted(s, e)),
    decreases s.len(),
{
    if s.len() > 0 && edit_le(s[0], e) {
        assert(sorted_by_span(s.skip(1)));
        lemma_insert_sorted_sorted(s.skip(1), e);
        lemma_insert_sorted_elements(s.skip(1), e);
        let r = seq![s[0]] + insert_sorted(s.skip(1), e);
        assert forall|i: int, j: int| 0 <= i < j < r.len()
            implies edit_le(r[i], r[j]) by {
            if i == 0 {
                let x = insert_sorted(s.skip(1), e)[j - 1];
                assert(r[j] == x);
                if x == e {
                    assert(edit_le(s[0], e));
                } else {
                    let m = choose|m: int| 0 <= m < s.skip(1).len() && s.skip(1)[m] == x;
                    assert(s[m + 1] == x);
                    assert(edit_le(s[0], s[m + 1]));
                }
            } else {
                assert(r[i] == insert_sorted(s.skip(1), e)[i - 1]);
                assert(r[j] == insert_sorted(s.skip(1), e)[j - 1]);
            }
        }
    } else {
        let r = seq![e] + s;
        assert forall|i: int, j: int| 0 <= i < j < r.len()
            implies edit_le(r[i], r[j]) by {
            if i == 0 {
                if s.len() > 0 {
                    assert(edit_le(e, s[0]));
                    if j > 1 {
                        assert(edit_le(s[0], s[j - 1]));
                    }
                }
            } else {
                assert(r[i] == s[i - 1] && r[j] == s[j - 1]);
            }
        }
    }
}

/// The sort produces a sorted sequence.
proof fn lemma_sort_sorted(s: Seq<EditModel>)
    ensures
        sorted_by_span(sort_edits(s)),
    decreases s.len(),
{
    if s.len() > 0 {
        lemma_sort_sorted(s.drop_last());
        lemma_insert_sorted_sorted(sort_edits(s.drop_last()), s.last());
    }
}

/// A chained sequence is pairwise non-overlapping: every edit ends at or
/// before every later edit starts.
proof fn lemma_plan_ordered_pairwise(s: Seq<EditModel>, from: int)
    requires
        plan_ordered(s, from),
    ensures
        forall|i: int, j: int| 0 <= i < j < s.len()
            ==> (#[trigger] s[i]).span.end <= (#[trigger] s[j]).span.start,
        forall|k: int| 0 <= k < s.len()
            ==> from <= (#[trigger] s[k]).span.start && s[k].span.wf(),
    decreases s.len(),
{
    if s.len() > 0 {
        lemma_plan_ordered_pairwise(s.skip(1), s[0].span.end as int);
        assert forall|i: int, j: int| 0 <= i < j < s.len()
            implies (#[trigger] s[i]).span.end <= (#[trigger] s[j]).span.start by {
            assert(s[j] == s.skip(1)[j - 1]);
            if i > 0 {
                assert(s[i] == s.skip(1)[i - 1]);
            }
        }
        assert forall|k: int| 0 <= k < s.len()
            implies from <= (#[trigger] s[k]).span.start && s[k].span.wf() by {
            if k > 0 {
                assert(s[k] == s.skip(1)[k - 1]);
            }
        }
    }
}

/// Every rejected edit conflicts with some accepted edit: the walk rejects
/// an edit only because it would overwrite bytes an accepted edit already
/// claimed. `prev` carries the edits accepted before the walk reached `s`.
proof fn lemma_reject_helper(s: Seq<EditModel>, prev: Seq<EditModel>, last_end: int)
    requires
        sorted_by_span(s),
        forall|k: int| 0 <= k < s.len() ==> (#[trigger] s[k]).span.wf(),
        forall|p: int, k: int| 0 <= p < prev.len() && 0 <= k < s.len()
            ==> edit_le(#[trigger] prev[p], #[trigger] s[k]),
        prev.len() == 0 ==> last_end == 0,
        prev.len() > 0 ==> prev.last().span.end == last_end,
    ensures
        forall|k: int| 0 <= k < rejected_from(s, last_end).len()
            ==> exists|j: int| 0 <= j < (prev + accepted_from(s, last_end)).len()
                && conflicts(
                    (prev + accepted_from(s, last_end))[j].span,
                    (#[trigger] rejected_from(s, last_end)[k]).span,
                ),
    decreases s.len(),
{
    if s.len() == 0 {
    } else {
        let s0 = s[0];
        assert(sorted_by_span(s.skip(1)));
        assert(forall|k: int| 0 <= k < s.skip(1).len()
            ==> (#[trigger] s.skip(1)[k]) == s[k + 1]);
        if s0.span.start >= last_end {
            let prev2 = prev.push(s0);
            assert forall|p: int, k: int| 0 <= p < prev2.len() && 0 <= k < s.skip(1).len()
                implies edit_le(#[trigger] prev2[p], #[trigger] s.skip(1)[k]) by {
                assert(s.skip(1)[k] == s[k + 1]);
                if p < prev.len() {
                    assert(edit_le(prev[p], s[k + 1]));
                } else {
                    assert(edit_le(s[0], s[k + 1]));
                }
            }
            lemma_reject_helper(s.skip(1), prev2, s0.span.end as int);
            let whole = prev + accepted_from(s, last_end);
            let whole2 = prev2 + accepted_from(s.skip(1), s0.span.end as int);
            let rej = rejected_from(s, last_end);
            let rej2 = rejected_from(s.skip(1), s0.span.end as int);
            assert(whole =~= whole2);
            assert(rej == rej2);
            assert forall|k: int| 0 <= k < rej.len()
                implies exists|j: int| 0 <= j < whole.len()
                    && conflicts(whole[j].span, (#[trigger] rej[k]).span) by {
                assert(rej[k] == rej2[k]);
                let j0 = choose|j: int| 0 <= j < whole2.len()
                    && conflicts(whole2[j].span, #[trigger] rej2[k].span);
                assert(whole[j0] == whole2[j0]);
                assert(conflicts(whole[j0].span, rej[k].span));
            }
        } else {
            // the first edit is rejected; the most recently accepted edit
            // conflicts with it
            assert(last_end > s0.span.start >= 0);
            assert(prev.len() > 0);
            let a = prev.last();
            assert(edit_le(a, s0));
            assert(conflicts(a.span, s0.span));
            lemma_reject_helper(s.skip(1), prev, last_end);
            let whole = prev + accepted_from(s, last_end);
            let rej = rejected_from(s, last_end);
            assert(rej == seq![s0] + rejected_from(s.skip(1), last_end));
            assert(accepted_from(s, last_end) == accepted_from(s.skip(1), last_end));
            let whole2 = prev + accepted_from(s.skip(1), last_end);
            let rej2 = rejected_from(s.skip(1), last_end);
            assert(whole == whole2);
            assert forall|k: int| 0 <= k < rej.len()
                implies exists|j: int| 0 <= j < whole.len()
                    && conflicts(whole[j].span, (#[trigger] rej[k]).span) by {
                if k == 0 {
                    assert(whole[prev.len() - 1] == a);
                    assert(conflicts(whole[prev.len() - 1].span, rej[0].span));
                } else {
                    assert(rej[k] == rej2[k - 1]);
                    let j0 = choose|j: int| 0 <= j < whole2.len()
                        && conflicts(whole2[j].span, #[trigger] rej2[k - 1].span);
                    assert(whole[j0] == whole2[j0]);
                    assert(conflicts(whole[j0].span, rej[k].span));
                }
            }
        }
    }
}

/// The edits one run accepts never overlap one another: each ends at or
/// before the next begins, and no two conflict.
pub proof fn lemma_accepted_non_overlapping(
    issues: Seq<IssueModel>,
    ceiling: SafetyClassification,
    len: int,
)
    requires
        issues_edits_within(issues, len),
        0 <= len,
    ensures
        forall|i: int, j: int| 0 <= i < j < accepted_edits(issues, ceiling).len()
            ==> (#[trigger] accepted_edits(issues, ceiling)[i]).span.end
                <= (#[trigger] accepted_edits(issues, ceiling)[j]).span.start,
        forall|i: int, j: int|
            0 <= i < accepted_edits(issues, ceiling).len()
                && 0 <= j < accepted_edits(issues, ceiling).len() && i != j
            ==> !conflicts(
                (#[trigger] accepted_edits(issues, ceiling)[i]).span,
                (#[trigger] accepted_edits(issues, ceiling)[j]).span,
            ),
{
    lemma_eligible_within(issues, ceiling, len);
    lemma_sort_within(eligible_edits(issues, ceiling), len);
    lemma_accepted_ordered(sorted_eligible(issues, ceiling), 0, len);
    lemma_plan_ordered_pairwise(accepted_edits(issues, ceiling), 0);
    let acc = accepted_edits(issues, ceiling);
    assert forall|i: int, j: int| 0 <= i < acc.len() && 0 <= j < acc.len() && i != j
        implies !conflicts((#[trigger] acc[i]).span, (#[trigger] acc[j]).span) by {
        if i < j {
            assert(acc[i].span.end <= acc[j].span.start);
        } else {
            assert(acc[j].span.end <= acc[i].span.start);
        }
    }
}

/// Every edit one run rejects conflicts with some edit the run accepted.
pub proof fn lemma_rejected_overlap_accepted(
    issues: Seq<IssueModel>,
    ceiling: SafetyClassification,
    len: int,
)
    requires
        issues_edits_within(issues, len),
        0 <= len,
    ensures
        forall|k: int| 0 <= k < rejected_edits(issues, ceiling).len()
            ==> exists|j: int| 0 <= j < accepted_edits(issues, ceiling).len()
                && conflicts(
                    accepted_edits(issues, ceiling)[j].span,
                    (#[trigger] rejected_edits(issues, ceiling)[k]).span,
                ),
{
    lemma_eligible_within(issues, ceiling, len);
    lemma_sort_within(eligible_edits(issues, ceiling), len);
    lemma_sort_sorted(eligible_edits(issues, ceiling));
    let s = sorted_eligible(issues, ceiling);
    lemma_reject_helper(s, Seq::<EditModel>::empty(), 0);
    let whole = Seq::<EditModel>::empty() + accepted_from(s, 0);
    let acc = accepted_edits(issues, ceiling);
    let rej = rejected_edits(issues, ceiling);
    assert(whole =~= acc);
    assert forall|k: int| 0 <= k < rej.len()
        implies exists|j: int| 0 <= j < acc.len()
            && conflicts(acc[j].span, (#[trigger] rej[k]).span) by {
        assert(rej[k] == rejected_from(s, 0)[k]);
        let j0 = choose|j: int| 0 <= j < whole.len()
            && conflicts(whole[j].span, #[trigger] rejected_from(s, 0)[k].span);
        assert(acc[j0] == whole[j0]);
        assert(conflicts(acc[j0].span, rej[k].span));
    }
}

/// The fixer is a function of the original buffer, the issue set and the
/// ceiling: running it twice on the same inputs yields the same buffer.
/// It never re-lints its own output inside one run.
pub proof fn lemma_fix_deterministic(
    src: Seq<u8>,
    issues: Seq<IssueModel>,
    ceiling: SafetyClassification,
    first: Seq<u8>,
    second: Seq<u8>,
)
    requires
        first == fixed_buffer(src, issues, ceiling),
        second == fixed_buffer(src, issues, ceiling),
    ensures
        first == second,
{
}

/// When no edit is eligible the output buffer is byte-identical to the
/// input buffer.
pub proof fn lemma_round_trip_no_eligible(
    src: Seq<u8>,
    issues: Seq<IssueModel>,
    ceiling: SafetyClassification,
)
    requires
        eligible_edits(issues, ceiling).len() == 0,
    ensures
        fixed_buffer(src, issues, ceiling) == src,
{
    assert(eligible_edits(issues, ceiling) =~= Seq::<EditModel>::empty());
    assert(sorted_eligible(issues, ceiling) =~= Seq::<EditModel>::empty());
    assert(accepted_edits(issues, ceiling) =~= Seq::<EditModel>::empty());
    assert(fixed_buffer(src, issues, ceiling) == src.subrange(0, src.len() as int));
    assert(src.subrange(0, src.len() as int) =~= src);
}


/// Checks at run time that every fix-plan span of every issue lies inside
/// a buffer of `len` bytes, so unverified callers can establish the
/// fixer's precondition before asking for fixes.
pub fn check_edits_within(issues: &IssueCollection, len: usize) -> (r: bool)
    ensures
        r == issues_edits_within(issues.models(), len as int),
{
    let n = issues.len();
    let mut ok = true;
    let mut i: usize = 0;
    while i < n
        invariant
            i <= n == issues.models().len(),
            ok == (forall|a: int, k: int|
                0 <= a < i && 0 <= k < issues.models()[a].fix_plan.len()
                ==> (#[trigger] issues.models()[a].fix_plan[k]).span.within(len as int)),
        decreases n - i,
    {
        let issue = issues.get(i);
        let mut j: usize = 0;
        while j < issue.fix_plan.len()
            invariant
                j <= issue.fix_plan@.len(),
                issue@ == issues.models()[i as int],
                i < issues.models().len(),
                n == issues.models().len(),
                ok == ((forall|a: int, k: int|
                    0 <= a < i && 0 <= k < issues.models()[a].fix_plan.len()
                    ==> (#[trigger] issues.models()[a].fix_plan[k]).span.within(len as int))
                    && (forall|k: int| 0 <= k < j
                        ==> (#[trigger] issue@.fix_plan[k]).span.within(len as int))),
            decreases issue.fix_plan@.len() - j,
        {
            proof {
                assert(issue@.fix_plan[j as int] == issue.fix_plan@[j as int]@);
            }
            let span = issue.fix_plan[j].span;
            if !(span.start <= span.end && span.end <= len) {
                ok = false;
            }
            j = j + 1;
        }
        i = i + 1;
        proof {
            assert forall|a: int, k: int|
                0 <= a < i && 0 <= k < issues.models()[a].fix_plan.len()
                    && (forall|b: int, m: int|
                        0 <= b < i - 1 && 0 <= m < issues.models()[b].fix_plan.len()
                        ==> (#[trigger] issues.models()[b].fix_plan[m]).span.within(len as int))
                    && (forall|m: int| 0 <= m < issue@.fix_plan.len()
                        ==> (#[trigger] issue@.fix_plan[m]).span.within(len as int))
                implies (#[trigger] issues.models()[a].fix_plan[k]).span.within(len as int) by {
                if a == i - 1 {
                    assert(issues.models()[a] == issue@);
                }
            }
        }
    }
    ok
}

} // verus!
