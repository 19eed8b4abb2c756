use vstd::prelude::*;
use crate::level::Level;
use crate::issue::{Issue, IssueModel, issue_models, lemma_issue_models_push};
use crate::fix::FixPlan;

verus! {

/// Per-file, per-run state shared by every rule invocation during one
/// walk: the immutable source text, the severity the current rule reports
/// at (its configured level, or its default when unconfigured), and the
/// sink the issues are pushed into. It lives for one walk of one file;
/// afterwards the issues are extracted into the file's collection.
pub struct LintContext {
    pub source: Vec<u8>,
    pub level: Level,
    pub issues: Vec<Issue>,
}

impl LintContext {
    pub fn new(source: Vec<u8>, level: Level) -> (r: LintContext)
        ensures
            r.source@ == source@,
            r.level == level,
            issue_models(r.issues@) == Seq::<IssueModel>::empty(),
    {
        let r = LintContext { source, level, issues: Vec::new() };
        proof {
            assert(issue_models(r.issues@) =~= Seq::<IssueModel>::empty());
        }
        r
    }

    /// The severity the rule being invoked reports at.
    pub fn level(&self) -> (r: Level)
        ensures
            r == self.level,
    {
        self.level
    }

    /// Pushes one finished issue into the sink.
    pub fn report(&mut self, issue: Issue)
        ensures
            final(self).source@ == old(self).source@,
            final(self).level == old(self).level,
            issue_models(final(self).issues@) == issue_models(old(self).issues@).push(issue@),
    {
        proof {
            lemma_issue_models_push(self.issues@, issue);
        }
        self.issues.push(issue);
    }

    /// Attaches the finished fix plan to the issue, then pushes it: the
    /// plan is built only when reporting actually happens, so an issue
    /// without a repair costs nothing here.
    pub fn report_with_fix(&mut self, issue: Issue, plan: FixPlan)
        ensures
            final(self).source@ == old(self).source@,
            final(self).level == old(self).level,
            issue_models(final(self).issues@) == issue_models(old(self).issues@).push(
                IssueModel { fix_plan: plan.view_edits(), ..issue@ },
            ),
    {
        let fixed = issue.with_fix_plan(plan);
        proof {
            lemma_issue_models_push(self.issues@, fixed);
        }
        self.issues.push(fixed);
    }

    /// Ends the walk, handing the accumulated issues over.
    pub fn into_issues(self) -> (r: Vec<Issue>)
        ensures
            issue_models(r@) == issue_models(self.issues@),
    {
        self.issues
    }
}

} // verus!
