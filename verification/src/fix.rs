use vstd::prelude::*;
use crate::span::Span;
use crate::text::copy_bytes;

verus! {

/// How safe a single edit is to apply unattended, ordered
/// Safe < PotentiallyUnsafe < Unsafe. The fixer applies an edit only when
/// its classification is at or below the caller's ceiling.
#[derive(Clone, Copy, Debug, PartialEq, Eq, Structural)]
pub enum SafetyClassification {
    Safe,
    PotentiallyUnsafe,
    Unsafe,
}

impl SafetyClassification {
    /// The position of the classification in the risk order.
    pub open spec fn rank(self) -> int {
        match self {
            SafetyClassification::Safe => 0,
            SafetyClassification::PotentiallyUnsafe => 1,
            SafetyClassification::Unsafe => 2,
        }
    }

    pub fn risk(&self) -> (r: u8)
        ensures
            r as int == self.rank(),
    {
        match self {
            SafetyClassification::Safe => 0,
            SafetyClassification::PotentiallyUnsafe => 1,
            SafetyClassification::Unsafe => 2,
        }
    }

    /// Whether this classification is at or below the given ceiling.
    pub fn at_most(&self, ceiling: &SafetyClassification) -> (r: bool)
        ensures
            r == (self.rank() <= ceiling.rank()),
    {
        self.risk() <= ceiling.risk()
    }
}

/// One proposed textual repair: replace the byte range `span` of the
/// original buffer with `replacement`, at the given risk.
pub struct Edit {
    pub span: Span,
    pub safety: SafetyClassification,
    pub replacement: Vec<u8>,
}

/// The mathematical value of an `Edit`.
#[verifier::ext_equal]
pub ghost struct EditModel {
    pub span: Span,
    pub safety: SafetyClassification,
    pub replacement: Seq<u8>,
}

impl View for Edit {
    type V = EditModel;

    open spec fn view(&self) -> EditModel {
        EditModel { span: self.span, safety: self.safety, replacement: self.replacement@ }
    }
}

impl Edit {
    pub fn new(span: Span, replacement: Vec<u8>, safety: SafetyClassification) -> (r: Edit)
        ensures
            r@ == (EditModel { span, safety, replacement: replacement@ }),
    {
        Edit { span, safety, replacement }
    }

    /// A fresh copy of the edit.
    pub fn duplicate(&self) -> (r: Edit)
        ensures
            r@ == self@,
    {
        Edit { span: self.span, safety: self.safety, replacement: copy_bytes(&self.replacement) }
    }
}

/// The mathematical value of a sequence of edits.
pub open spec fn edit_models(s: Seq<Edit>) -> Seq<EditModel> {
    s.map_values(|e: Edit| e@)
}

/// Edits of one plan must come in ascending span order and must not touch:
/// each edit begins no earlier than the end of the one before it.
pub open spec fn plan_ordered(s: Seq<EditModel>, next_start: int) -> bool
    decreases s.len(),
{
    if s.len() == 0 {
        true
    } else {
        &&& next_start <= s[0].span.start
        &&& s[0].span.wf()
        &&& plan_ordered(s.skip(1), s[0].span.end as int)
    }
}

/// An ordered set of edits proposed by one rule to repair one issue.
/// A rule must append its edits in ascending span order, without overlap;
/// breaking that order is a programming error in the rule, and the builder
/// refuses it up front so a malformed plan can never reach the fixer.
pub struct FixPlan {
    edits: Vec<Edit>,
}

impl FixPlan {
    /// The mathematical value of the plan.
    pub closed spec fn view_edits(self) -> Seq<EditModel> {
        edit_models(self.edits@)
    }

    /// The byte offset at which the next appended edit may begin.
    pub open spec fn frontier(self) -> int {
        if self.view_edits().len() == 0 {
            0
        } else {
            self.view_edits().last().span.end as int
        }
    }

    pub open spec fn wf(self) -> bool {
        plan_ordered(self.view_edits(), 0)
    }

    pub fn new() -> (r: FixPlan)
        ensures
            r.view_edits() == Seq::<EditModel>::empty(),
            r.frontier() == 0,
            r.wf(),
    {
        let r = FixPlan { edits: Vec::new() };
        proof {
            assert(r.view_edits() =~= Seq::<EditModel>::empty());
        }
        r
    }

    /// Appends one replacement to the plan. The new edit must begin at or
    /// after the end of the last edit already in the plan.
    pub fn replace(&mut self, span: Span, replacement: Vec<u8>, safety: SafetyClassification)
        requires
            span.wf(),
            old(self).frontier() <= span.start,
        ensures
            final(self).view_edits() == old(self).view_edits().push(
                EditModel { span, safety, replacement: replacement@ },
            ),
            final(self).frontier() == span.end as int,
            old(self).wf() ==> final(self).wf(),
    {
        let ghost e = EditModel { span, safety, replacement: replacement@ };
        self.edits.push(Edit { span, safety, replacement });
        proof {
            assert(self.view_edits() =~= old(self).view_edits().push(e));
            if old(self).wf() {
                lemma_plan_ordered_push(old(self).view_edits(), 0, e);
            }
        }
    }

    pub fn len(&self) -> (r: usize)
        ensures
            r == self.view_edits().len(),
    {
        self.edits.len()
    }

    /// Hands the finished plan over as a plain edit sequence.
    pub fn into_edits(self) -> (r: Vec<Edit>)
        ensures
            edit_models(r@) == self.view_edits(),
            self.wf() ==> plan_ordered(edit_models(r@), 0),
    {
        self.edits
    }
}

/// Appending in ascending, non-touching order keeps a plan ordered.
pub proof fn lemma_plan_ordered_push(s: Seq<EditModel>, next_start: int, e: EditModel)
    requires
        plan_ordered(s, next_start),
        e.span.wf(),
        s.len() > 0 ==> s[s.len() - 1].span.end <= e.span.start,
        s.len() == 0 ==> next_start <= e.span.start,
    ensures
        plan_ordered(s.push(e), next_start),
    decreases s.len(),
{
    if s.len() == 0 {
        assert(s.push(e).skip(1) =~= Seq::<EditModel>::empty());
        assert(plan_ordered(Seq::<EditModel>::empty(), e.span.end as int));
        assert(plan_ordered(s.push(e).skip(1), e.span.end as int));
    } else {
        assert(s.push(e).skip(1) =~= s.skip(1).push(e));
        if s.len() > 1 {
            assert(s.skip(1)[s.skip(1).len() - 1] == s[s.len() - 1]);
        }
        lemma_plan_ordered_push(s.skip(1), s[0].span.end as int, e);
        assert(s.push(e)[0] == s[0]);
    }
}

} // verus!
