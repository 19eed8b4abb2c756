use vstd::prelude::*;
use crate::span::Span;
use crate::level::Level;
use crate::fix::{Edit, EditModel, FixPlan, SafetyClassification, edit_models, plan_ordered};
use crate::text::copy_bytes;

verus! {

/// Whether an annotation marks the locus of the problem or supporting
/// context around it.
#[derive(Clone, Copy, Debug, PartialEq, Eq, Structural)]
pub enum AnnotationRole {
    Primary,
    Secondary,
}

/// A span of the source together with an optional message and a role.
pub struct Annotation {
    pub span: Span,
    pub role: AnnotationRole,
    pub message: Option<Vec<u8>>,
}

/// The mathematical value of an `Annotation`.
#[verifier::ext_equal]
pub ghost struct AnnotationModel {
    pub span: Span,
    pub role: AnnotationRole,
    pub message: Option<Seq<u8>>,
}

impl View for Annotation {
    type V = AnnotationModel;

    open spec fn view(&self) -> AnnotationModel {
        AnnotationModel {
            span: self.span,
            role: self.role,
            message: match self.message {
                Some(m) => Some(m@),
                None => None,
            },
        }
    }
}

impl Annotation {
    /// An annotation at the locus of the problem.
    pub fn primary(span: Span) -> (r: Annotation)
        ensures
            r@ == (AnnotationModel { span, role: AnnotationRole::Primary, message: None }),
    {
        Annotation { span, role: AnnotationRole::Primary, message: None }
    }

    /// An annotation giving supporting context.
    pub fn secondary(span: Span) -> (r: Annotation)
        ensures
            r@ == (AnnotationModel { span, role: AnnotationRole::Secondary, message: None }),
    {
        Annotation { span, role: AnnotationRole::Secondary, message: None }
    }

    pub fn with_message(self, message: Vec<u8>) -> (r: Annotation)
        ensures
            r@ == (AnnotationModel { message: Some(message@), ..self@ }),
    {
        Annotation { span: self.span, role: self.role, message: Some(message) }
    }

    /// A fresh copy of the annotation.
    pub fn duplicate(&self) -> (r: Annotation)
        ensures
            r@ == self@,
    {
        Annotation {
            span: self.span,
            role: self.role,
            message: match &self.message {
                Some(m) => Some(copy_bytes(m)),
                None => None,
            },
        }
    }
}

/// The mathematical value of a sequence of annotations.
pub open spec fn annotation_models(s: Seq<Annotation>) -> Seq<AnnotationModel> {
    s.map_values(|a: Annotation| a@)
}

/// The mathematical value of a sequence of notes.
pub open spec fn note_models(s: Seq<Vec<u8>>) -> Seq<Seq<u8>> {
    s.map_values(|n: Vec<u8>| n@)
}

pub proof fn lemma_annotation_models_push(s: Seq<Annotation>, x: Annotation)
    ensures
        annotation_models(s.push(x)) == annotation_models(s).push(x@),
{
    assert(annotation_models(s.push(x)) =~= annotation_models(s).push(x@));
}

pub proof fn lemma_note_models_push(s: Seq<Vec<u8>>, x: Vec<u8>)
    ensures
        note_models(s.push(x)) == note_models(s).push(x@),
{
    assert(note_models(s.push(x)) =~= note_models(s).push(x@));
}

pub proof fn lemma_edit_models_push(s: Seq<Edit>, x: Edit)
    ensures
        edit_models(s.push(x)) == edit_models(s).push(x@),
{
    assert(edit_models(s.push(x)) =~= edit_models(s).push(x@));
}

/// One reported diagnostic: a severity, a message, span annotations,
/// explanatory notes, an optional help text, and an optional plan of edits
/// that would repair it. Created by a rule during its visit and immutable
/// once handed to the collection.
pub struct Issue {
    pub level: Level,
    pub message: Vec<u8>,
    pub annotations: Vec<Annotation>,
    pub notes: Vec<Vec<u8>>,
    pub help: Option<Vec<u8>>,
    pub fix_plan: Vec<Edit>,
}

/// The mathematical value of an `Issue`.
#[verifier::ext_equal]
pub ghost struct IssueModel {
    pub level: Level,
    pub message: Seq<u8>,
    pub annotations: Seq<AnnotationModel>,
    pub notes: Seq<Seq<u8>>,
    pub help: Option<Seq<u8>>,
    pub fix_plan: Seq<EditModel>,
}

impl View for Issue {
    type V = IssueModel;

    open spec fn view(&self) -> IssueModel {
        IssueModel {
            level: self.level,
            message: self.message@,
            annotations: annotation_models(self.annotations@),
            notes: note_models(self.notes@),
            help: match self.help {
                Some(h) => Some(h@),
                None => None,
            },
            fix_plan: edit_models(self.fix_plan@),
        }
    }
}

/// An issue's spans all lie inside a buffer of `len` bytes, and its fix
/// plan is in ascending, non-overlapping order.
pub open spec fn issue_wf(m: IssueModel, len: int) -> bool {
    &&& forall|k: int| 0 <= k < m.annotations.len() ==> (#[trigger] m.annotations[k]).span.within(len)
    &&& forall|k: int| 0 <= k < m.fix_plan.len() ==> (#[trigger] m.fix_plan[k]).span.within(len)
    &&& plan_ordered(m.fix_plan, 0)
}

impl Issue {
    pub fn new(level: Level, message: Vec<u8>) -> (r: Issue)
        ensures
            r@ == (IssueModel {
                level,
                message: message@,
                annotations: Seq::<AnnotationModel>::empty(),
                notes: Seq::<Seq<u8>>::empty(),
                help: None,
                fix_plan: Seq::<EditModel>::empty(),
            }),
    {
        let r = Issue {
            level,
            message,
            annotations: Vec::new(),
            notes: Vec::new(),
            help: None,
            fix_plan: Vec::new(),
        };
        proof {
            assert(r@ =~= IssueModel {
                level,
                message: r.message@,
                annotations: Seq::<AnnotationModel>::empty(),
                notes: Seq::<Seq<u8>>::empty(),
                help: None,
                fix_plan: Seq::<EditModel>::empty(),
            });
        }
        r
    }

    pub fn with_annotation(self, annotation: Annotation) -> (r: Issue)
        ensures
            r@ == (IssueModel { annotations: self@.annotations.push(annotation@), ..self@ }),
    {
        let ghost a = annotation@;
        let mut annotations = self.annotations;
        annotations.push(annotation);
        let r = Issue {
            level: self.level,
            message: self.message,
            annotations,
            notes: self.notes,
            help: self.help,
            fix_plan: self.fix_plan,
        };
        proof {
            assert(r@.annotations =~= self@.annotations.push(a));
            assert(r@ =~= IssueModel { annotations: self@.annotations.push(a), ..self@ });
        }
        r
    }

    /// Appends every annotation of `annotations`, in order.
    pub fn with_annotations(self, annotations: Vec<Annotation>) -> (r: Issue)
        ensures
            r@ == (IssueModel {
                annotations: self@.annotations + annotation_models(annotations@),
                ..self@
            }),
    {
        let ghost orig = self@;
        let Issue { level, message, annotations: mut acc, notes, help, fix_plan } = self;
        let mut i: usize = 0;
        while i < annotations.len()
            invariant
                i <= annotations@.len(),
                annotation_models(acc@) == orig.annotations
                    + annotation_models(annotations@.take(i as int)),
            decreases annotations@.len() - i,
        {
            let ghost prev = acc@;
            acc.push(annotations[i].duplicate());
            i = i + 1;
            proof {
                let k = i as int - 1;
                lemma_annotation_models_push(prev, acc@[prev.len() as int]);
                assert(annotations@.take(k + 1) =~= annotations@.take(k).push(annotations@[k]));
                lemma_annotation_models_push(annotations@.take(k), annotations@[k]);
                assert(annotation_models(acc@) =~= orig.annotations
                    + annotation_models(annotations@.take(i as int)));
            }
        }
        let r = Issue { level, message, annotations: acc, notes, help, fix_plan };
        proof {
            assert(annotations@.take(annotations@.len() as int) =~= annotations@);
            assert(annotation_models(acc@) =~= orig.annotations + annotation_models(annotations@));
            assert(r@ =~= IssueModel {
                annotations: orig.annotations + annotation_models(annotations@),
                ..orig
            });
        }
        r
    }

    pub fn with_note(self, note: Vec<u8>) -> (r: Issue)
        ensures
            r@ == (IssueModel { notes: self@.notes.push(note@), ..self@ }),
    {
        let ghost n = note@;
        let mut notes = self.notes;
        notes.push(note);
        let r = Issue {
            level: self.level,
            message: self.message,
            annotations: self.annotations,
            notes,
            help: self.help,
            fix_plan: self.fix_plan,
        };
        proof {
            assert(r@.notes =~= self@.notes.push(n));
            assert(r@ =~= IssueModel { notes: self@.notes.push(n), ..self@ });
        }
        r
    }

    pub fn with_help(self, help: Vec<u8>) -> (r: Issue)
        ensures
            r@ == (IssueModel { help: Some(help@), ..self@ }),
    {
        let r = Issue {
            level: self.level,
            message: self.message,
            annotations: self.annotations,
            notes: self.notes,
            help: Some(help),
            fix_plan: self.fix_plan,
        };
        proof {
            assert(r@ =~= IssueModel { help: Some(r.help->Some_0@), ..self@ });
        }
        r
    }

    /// Attaches a finished fix plan to the issue.
    pub fn with_fix_plan(self, plan: FixPlan) -> (r: Issue)
        ensures
            r@ == (IssueModel { fix_plan: plan.view_edits(), ..self@ }),
    {
        let ghost p = plan.view_edits();
        let edits = plan.into_edits();
        let r = Issue {
            level: self.level,
            message: self.message,
            annotations: self.annotations,
            notes: self.notes,
            help: self.help,
            fix_plan: edits,
        };
        proof {
            assert(r@ =~= IssueModel { fix_plan: p, ..self@ });
        }
        r
    }

    /// A fresh copy of the issue.
    pub fn duplicate(&self) -> (r: Issue)
        ensures
            r@ == self@,
    {
        let mut annotations: Vec<Annotation> = Vec::new();
        let mut i: usize = 0;
        while i < self.annotations.len()
            invariant
                i <= self.annotations@.len(),
                annotation_models(annotations@) == annotation_models(self.annotations@.take(i as int)),
            decreases self.annotations@.len() - i,
        {
            let ghost prev = annotations@;
            annotations.push(self.annotations[i].duplicate());
            i = i + 1;
            proof {
                let k = i as int - 1;
                lemma_annotation_models_push(prev, annotations@[prev.len() as int]);
                assert(self.annotations@.take(k + 1)
                    =~= self.annotations@.take(k).push(self.annotations@[k]));
                lemma_annotation_models_push(self.annotations@.take(k), self.annotations@[k]);
                assert(annotation_models(annotations@)
                    =~= annotation_models(self.annotations@.take(i as int)));
            }
        }
        let mut notes: Vec<Vec<u8>> = Vec::new();
        let mut j: usize = 0;
        while j < self.notes.len()
            invariant
                j <= self.notes@.len(),
                note_models(notes@) == note_models(self.notes@.take(j as int)),
            decreases self.notes@.len() - j,
        {
            let ghost prev = notes@;
            notes.push(copy_bytes(&self.notes[j]));
            j = j + 1;
            proof {
                let k = j as int - 1;
                lemma_note_models_push(prev, notes@[prev.len() as int]);
                assert(self.notes@.take(k + 1) =~= self.notes@.take(k).push(self.notes@[k]));
                lemma_note_models_push(self.notes@.take(k), self.notes@[k]);
                assert(note_models(notes@) =~= note_models(self.notes@.take(j as int)));
            }
        }
        let mut fix_plan: Vec<Edit> = Vec::new();
        let mut k: usize = 0;
        while k < self.fix_plan.len()
            invariant
                k <= self.fix_plan@.len(),
                edit_models(fix_plan@) == edit_models(self.fix_plan@.take(k as int)),
            decreases self.fix_plan@.len() - k,
        {
            let ghost prev = fix_plan@;
            fix_plan.push(self.fix_plan[k].duplicate());
            k = k + 1;
            proof {
                let m = k as int - 1;
                lemma_edit_models_push(prev, fix_plan@[prev.len() as int]);
                assert(self.fix_plan@.take(m + 1) =~= self.fix_plan@.take(m).push(self.fix_plan@[m]));
                lemma_edit_models_push(self.fix_plan@.take(m), self.fix_plan@[m]);
                assert(edit_models(fix_plan@) =~= edit_models(self.fix_plan@.take(k as int)));
            }
        }
        let help = match &self.help {
            Some(h) => Some(copy_bytes(h)),
            None => None,
        };
        let r = Issue {
            level: self.level,
            message: copy_bytes(&self.message),
            annotations,
            notes,
            help,
            fix_plan,
        };
        proof {
            assert(self.annotations@.take(self.annotations@.len() as int) =~= self.annotations@);
            assert(self.notes@.take(self.notes@.len() as int) =~= self.notes@);
            assert(self.fix_plan@.take(self.fix_plan@.len() as int) =~= self.fix_plan@);
            assert(r@ =~= self@);
        }
        r
    }
}


/// The mathematical value of a sequence of issues.
pub open spec fn issue_models(s: Seq<Issue>) -> Seq<IssueModel> {
    s.map_values(|i: Issue| i@)
}

pub proof fn lemma_issue_models_push(s: Seq<Issue>, x: Issue)
    ensures
        issue_models(s.push(x)) == issue_models(s).push(x@),
{
    assert(issue_models(s.push(x)) =~= issue_models(s).push(x@));
}

/// Every edit of the plan is classified at or below the ceiling.
pub open spec fn plan_at_most(plan: Seq<EditModel>, ceiling: SafetyClassification) -> bool {
    forall|k: int| 0 <= k < plan.len() ==> (#[trigger] plan[k]).safety.rank() <= ceiling.rank()
}

/// The issues whose fix plan is non-empty, in order.
pub open spec fn fixable_only(s: Seq<IssueModel>) -> Seq<IssueModel>
    decreases s.len(),
{
    if s.len() == 0 {
        Seq::<IssueModel>::empty()
    } else {
        fixable_only(s.drop_last()) + if s.last().fix_plan.len() > 0 {
            seq![s.last()]
        } else {
            Seq::<IssueModel>::empty()
        }
    }
}

/// The issues whose fix plan is non-empty and classified wholly at or
/// below the ceiling, in order.
pub open spec fn fixable_within(s: Seq<IssueModel>, ceiling: SafetyClassification) -> Seq<IssueModel>
    decreases s.len(),
{
    if s.len() == 0 {
        Seq::<IssueModel>::empty()
    } else {
        fixable_within(s.drop_last(), ceiling)
            + if s.last().fix_plan.len() > 0 && plan_at_most(s.last().fix_plan, ceiling) {
            seq![s.last()]
        } else {
            Seq::<IssueModel>::empty()
        }
    }
}

/// Filtering to fixable issues keeps only issues with a non-empty plan.
pub proof fn lemma_fixable_only_plans_nonempty(s: Seq<IssueModel>)
    ensures
        forall|k: int| 0 <= k < fixable_only(s).len()
            ==> (#[trigger] fixable_only(s)[k]).fix_plan.len() > 0,
    decreases s.len(),
{
    if s.len() > 0 {
        lemma_fixable_only_plans_nonempty(s.drop_last());
    }
}

/// Filtering with a ceiling keeps only issues with a non-empty plan whose
/// every edit is classified at or below the ceiling.
pub proof fn lemma_fixable_within_ceiling(s: Seq<IssueModel>, ceiling: SafetyClassification)
    ensures
        forall|k: int| 0 <= k < fixable_within(s, ceiling).len()
            ==> (#[trigger] fixable_within(s, ceiling)[k]).fix_plan.len() > 0,
        forall|k: int| 0 <= k < fixable_within(s, ceiling).len()
            ==> plan_at_most((#[trigger] fixable_within(s, ceiling)[k]).fix_plan, ceiling),
    decreases s.len(),
{
    if s.len() > 0 {
        lemma_fixable_within_ceiling(s.drop_last(), ceiling);
    }
}

/// An append-only, insertion-ordered sequence of issues, produced by one
/// lint run. Filters hand back new collections; they never mutate this one.
pub struct IssueCollection {
    issues: Vec<Issue>,
}

impl IssueCollection {
    /// The mathematical value of the collection.
    pub closed spec fn models(self) -> Seq<IssueModel> {
        issue_models(self.issues@)
    }

    pub fn new() -> (r: IssueCollection)
        ensures
            r.models() == Seq::<IssueModel>::empty(),
    {
        let r = IssueCollection { issues: Vec::new() };
        proof {
            assert(r.models() =~= Seq::<IssueModel>::empty());
        }
        r
    }

    /// Wraps an already collected run of issues.
    pub fn from_issues(issues: Vec<Issue>) -> (r: IssueCollection)
        ensures
            r.models() == issue_models(issues@),
    {
        IssueCollection { issues }
    }

    pub fn push(&mut self, issue: Issue)
        ensures
            final(self).models() == old(self).models().push(issue@),
    {
        proof {
            lemma_issue_models_push(self.issues@, issue);
        }
        self.issues.push(issue);
    }

    pub fn len(&self) -> (r: usize)
        ensures
            r == self.models().len(),
    {
        self.issues.len()
    }

    pub fn is_empty(&self) -> (r: bool)
        ensures
            r == (self.models().len() == 0),
    {
        self.issues.len() == 0
    }

    pub fn get(&self, i: usize) -> (r: &Issue)
        requires
            i < self.models().len(),
        ensures
            r@ == self.models()[i as int],
    {
        &self.issues[i]
    }

    /// Moves every issue of `other` to the end of this collection, keeping
    /// both orders; `other` is left empty.
    pub fn append(&mut self, other: &mut IssueCollection)
        ensures
            final(self).models() == old(self).models() + old(other).models(),
            final(other).models() == Seq::<IssueModel>::empty(),
    {
        self.issues.append(&mut other.issues);
        proof {
            assert(final(other).models() =~= Seq::<IssueModel>::empty());
            assert(self.models() =~= old(self).models() + old(other).models());
        }
    }

    /// The most severe level among the collected issues, or `None` when
    /// the collection is empty. Only the level value matters, so ties need
    /// no breaking.
    pub fn highest_level(&self) -> (r: Option<Level>)
        ensures
            (r is None) <==> self.models().len() == 0,
            r matches Some(l) ==> {
                &&& exists|k: int| 0 <= k < self.models().len()
                    && (#[trigger] self.models()[k]).level == l
                &&& forall|k: int| 0 <= k < self.models().len()
                    ==> (#[trigger] self.models()[k]).level.rank() <= l.rank()
            },
    {
        let mut best: Option<Level> = None;
        let mut i: usize = 0;
        while i < self.issues.len()
            invariant
                i <= self.models().len(),
                (best is None) <==> i == 0,
                best matches Some(l) ==> {
                    &&& exists|k: int| 0 <= k < i && (#[trigger] self.models()[k]).level == l
                    &&& forall|k: int| 0 <= k < i
                        ==> (#[trigger] self.models()[k]).level.rank() <= l.rank()
                },
            decreases self.models().len() - i,
        {
            let lv = self.issues[i].level;
            proof {
                assert(self.models()[i as int].level == lv);
            }
            best = match best {
                None => Some(lv),
                Some(b) => if lv.at_least(&b) {
                    Some(lv)
                } else {
                    Some(b)
                },
            };
            i = i + 1;
        }
        best
    }

    /// A new collection holding only the issues that carry at least one
    /// edit, in their original order.
    pub fn only_fixable(&self) -> (r: IssueCollection)
        ensures
            r.models() == fixable_only(self.models()),
    {
        let mut out = IssueCollection::new();
        let mut i: usize = 0;
        while i < self.issues.len()
            invariant
                i <= self.models().len(),
                out.models() == fixable_only(self.models().take(i as int)),
            decreases self.models().len() - i,
        {
            if self.issues[i].fix_plan.len() > 0 {
                out.push(self.issues[i].duplicate());
            }
            i = i + 1;
            proof {
                let k = i as int - 1;
                assert(self.models().take(k + 1).drop_last() =~= self.models().take(k));
                assert(self.models().take(k + 1).last() == self.models()[k]);
                if self.models()[k].fix_plan.len() > 0 {
                    assert(out.models() =~= fixable_only(self.models().take(k))
                        + seq![self.models()[k]]);
                } else {
                    assert(out.models() =~= fixable_only(self.models().take(k)));
                }
                assert(out.models() =~= fixable_only(self.models().take(i as int)));
            }
        }
        proof {
            assert(self.models().take(self.models().len() as int) =~= self.models());
        }
        out
    }

    /// A new collection holding only the issues that carry at least one
    /// edit and whose every edit is classified at or below `ceiling`.
    pub fn only_fixable_up_to(&self, ceiling: SafetyClassification) -> (r: IssueCollection)
        ensures
            r.models() == fixable_within(self.models(), ceiling),
    {
        let mut out = IssueCollection::new();
        let mut i: usize = 0;
        while i < self.issues.len()
            invariant
                i <= self.models().len(),
                out.models() == fixable_within(self.models().take(i as int), ceiling),
            decreases self.models().len() - i,
        {
            let issue = &self.issues[i];
            let mut all_within = true;
            let mut j: usize = 0;
            while j < issue.fix_plan.len()
                invariant
                    j <= issue@.fix_plan.len(),
                    all_within == (forall|k: int| 0 <= k < j
                        ==> (#[trigger] issue@.fix_plan[k]).safety.rank() <= ceiling.rank()),
                decreases issue@.fix_plan.len() - j,
            {
                proof {
                    assert(issue@.fix_plan[j as int] == issue.fix_plan@[j as int]@);
                }
                if !issue.fix_plan[j].safety.at_most(&ceiling) {
                    all_within = false;
                }
                j = j + 1;
            }
            if issue.fix_plan.len() > 0 && all_within {
                out.push(issue.duplicate());
            }
            i = i + 1;
            proof {
                let k = i as int - 1;
                assert(self.models().take(k + 1).drop_last() =~= self.models().take(k));
                assert(self.models().take(k + 1).last() == self.models()[k]);
                if self.models()[k].fix_plan.len() > 0
                    && plan_at_most(self.models()[k].fix_plan, ceiling) {
                    assert(out.models() =~= fixable_within(self.models().take(k), ceiling)
                        + seq![self.models()[k]]);
                } else {
                    assert(out.models() =~= fixable_within(self.models().take(k), ceiling));
                }
                assert(out.models() =~= fixable_within(self.models().take(i as int), ceiling));
            }
        }
        proof {
            assert(self.models().take(self.models().len() as int) =~= self.models());
        }
        out
    }
}

} // verus!
