use vstd::prelude::*;
use crate::ast::{Ast, AstNode};
use crate::context::LintContext;
use crate::issue::{IssueModel, issue_models, issue_wf};
use crate::level::Level;
use crate::rule::{LintDirective, RegisteredRule, Rule};
use crate::require_identity_comparison::{
    RequireIdentityComparisonEveryNodeRule, RequireIdentityComparisonRule, binary_issues,
};

verus! {

// ---------------------------------------------------------------------------
// The walker: one pre-order traversal of the tree per file. At every node
// it invokes, in registration order, each rule whose declared interest
// matches the node's kind and which is still walking here: a rule that
// returned Prune skips the rest of that subtree, one that returned Stop
// skips the rest of the tree — and neither touches any other rule.
// ---------------------------------------------------------------------------

/// The traversal state of one rule: whether it has stopped for the rest
/// of the file, and the first node index it will visit again after a
/// prune.
#[derive(Clone, Copy, Debug, PartialEq, Eq, Structural)]
pub struct WalkState {
    pub stopped: bool,
    pub skip_until: usize,
}

/// Every rule starts walking at the first node.
pub open spec fn init_states(n: nat) -> Seq<WalkState> {
    Seq::new(n, |k: int| WalkState { stopped: false, skip_until: 0 })
}

/// Whether a rule is invoked at node index `i`: it has not stopped, it is
/// not inside a pruned subtree, and its interest matches the node's kind.
pub open spec fn rule_active<R: Rule>(
    reg: RegisteredRule<R>,
    st: WalkState,
    node: AstNode,
    i: int,
) -> bool {
    !st.stopped && st.skip_until <= i && reg.rule.spec_interested(node.kind)
}

/// What one rule's invocation at one node contributes to the collection.
pub open spec fn node_issues<R: Rule>(
    reg: RegisteredRule<R>,
    st: WalkState,
    node: AstNode,
    src: Seq<u8>,
    i: int,
) -> Seq<IssueModel> {
    if rule_active(reg, st, node, i) {
        reg.rule.spec_issues(node, src, reg.level)
    } else {
        Seq::<IssueModel>::empty()
    }
}

/// The rule's traversal state after the node: a prune skips to the end of
/// the node's subtree, a stop ends the rule's walk, anything else leaves
/// the state alone.
pub open spec fn next_state<R: Rule>(
    reg: RegisteredRule<R>,
    st: WalkState,
    node: AstNode,
    i: int,
) -> WalkState {
    if rule_active(reg, st, node, i) {
        match reg.rule.spec_directive(node) {
            LintDirective::Continue => st,
            LintDirective::Prune => WalkState { stopped: st.stopped, skip_until: node.subtree_end },
            LintDirective::Stop => WalkState { stopped: true, skip_until: st.skip_until },
        }
    } else {
        st
    }
}

/// One node's visit, folded over the rules from index `j` on: the issues
/// they emit, in registration order, and the states they leave behind.
pub open spec fn visit_rules_from<R: Rule>(
    rules: Seq<RegisteredRule<R>>,
    states: Seq<WalkState>,
    node: AstNode,
    src: Seq<u8>,
    i: int,
    j: int,
) -> (Seq<IssueModel>, Seq<WalkState>)
    decreases rules.len() - j,
{
    if j < 0 || j >= rules.len() {
        (Seq::<IssueModel>::empty(), states)
    } else {
        let emitted = node_issues(rules[j], states[j], node, src, i);
        let updated = states.update(j, next_state(rules[j], states[j], node, i));
        let rest = visit_rules_from(rules, updated, node, src, i, j + 1);
        (emitted + rest.0, rest.1)
    }
}

/// The whole walk from node index `i` on: the issues of every remaining
/// node, in traversal order, with registration order within one node.
pub open spec fn walk_issues_from<R: Rule>(
    nodes: Seq<AstNode>,
    src: Seq<u8>,
    rules: Seq<RegisteredRule<R>>,
    states: Seq<WalkState>,
    i: int,
) -> Seq<IssueModel>
    decreases nodes.len() - i,
{
    if i < 0 || i >= nodes.len() {
        Seq::<IssueModel>::empty()
    } else {
        let step = visit_rules_from(rules, states, nodes[i], src, i, 0);
        step.0 + walk_issues_from(nodes, src, rules, step.1, i + 1)
    }
}

/// The issues one full walk of the tree collects.
pub open spec fn walk_issues<R: Rule>(
    nodes: Seq<AstNode>,
    src: Seq<u8>,
    rules: Seq<RegisteredRule<R>>,
) -> Seq<IssueModel> {
    walk_issues_from(nodes, src, rules, init_states(rules.len()), 0)
}

/// Walks the tree once in pre-order, dispatching every node to every
/// registered rule that is interested and still walking, in registration
/// order. Issues land in the context's sink in traversal order; every
/// issue's spans stay inside the source buffer.
pub fn walk<R: Rule>(ast: &Ast, rules: &Vec<RegisteredRule<R>>, ctx: &mut LintContext)
    requires
        ast.wf(old(ctx).source@.len() as int),
    ensures
        final(ctx).source@ == old(ctx).source@,
        final(ctx).level == old(ctx).level,
        issue_models(final(ctx).issues@) == issue_models(old(ctx).issues@)
            + walk_issues(ast.nodes@, old(ctx).source@, rules@),
        forall|k: int|
            issue_models(old(ctx).issues@).len() <= k < issue_models(final(ctx).issues@).len()
            ==> issue_wf(
                #[trigger] issue_models(final(ctx).issues@)[k],
                old(ctx).source@.len() as int,
            ),
{
    let ghost src = old(ctx).source@;
    let ghost base = issue_models(old(ctx).issues@);
    let entry_level = ctx.level;
    let n = ast.len();
    let m = rules.len();
    let mut states: Vec<WalkState> = Vec::new();
    let mut t: usize = 0;
    while t < m
        invariant
            t <= m,
            states@ == init_states(t as nat),
        decreases m - t,
    {
        states.push(WalkState { stopped: false, skip_until: 0 });
        t = t + 1;
        proof {
            assert(states@ =~= init_states(t as nat));
        }
    }
    proof {
        assert(states@ =~= init_states(rules@.len()));
    }
    let mut i: usize = 0;
    while i < n
        invariant
            i <= n == ast.nodes@.len(),
            m == rules@.len(),
            states@.len() == m,
            ctx.source@ == src,
            ctx.level == entry_level,
            ast.wf(src.len() as int),
            base.len() <= issue_models(ctx.issues@).len(),
            base == issue_models(ctx.issues@).take(base.len() as int),
            base + walk_issues(ast.nodes@, src, rules@)
                == issue_models(ctx.issues@)
                    + walk_issues_from(ast.nodes@, src, rules@, states@, i as int),
            forall|k: int| base.len() <= k < issue_models(ctx.issues@).len()
                ==> issue_wf(#[trigger] issue_models(ctx.issues@)[k], src.len() as int),
        decreases n - i,
    {
        let node = ast.nodes[i];
        proof {
            assert(node == ast.nodes@[i as int]);
        }
        let mut j: usize = 0;
        while j < m
            invariant
                j <= m == rules@.len(),
                states@.len() == m,
                i < n == ast.nodes@.len(),
                node == ast.nodes@[i as int],
                ctx.source@ == src,
                ctx.level == entry_level,
                ast.wf(src.len() as int),
                base.len() <= issue_models(ctx.issues@).len(),
                base == issue_models(ctx.issues@).take(base.len() as int),
                base + walk_issues(ast.nodes@, src, rules@)
                    == issue_models(ctx.issues@)
                        + visit_rules_from(rules@, states@, node, src, i as int, j as int).0
                        + walk_issues_from(
                        ast.nodes@,
                        src,
                        rules@,
                        visit_rules_from(rules@, states@, node, src, i as int, j as int).1,
                        i as int + 1,
                    ),
                forall|k: int| base.len() <= k < issue_models(ctx.issues@).len()
                    ==> issue_wf(#[trigger] issue_models(ctx.issues@)[k], src.len() as int),
            decreases m - j,
        {
            let ghost pre_states = states@;
            let ghost pre_issues = issue_models(ctx.issues@);
            let st = states[j];
            let active = !st.stopped && st.skip_until <= i
                && rules[j].rule.interested_in(&node.kind);
            proof {
                assert(st == pre_states[j as int]);
                assert(active == rule_active(rules@[j as int], st, node, i as int));
            }
            if active {
                ctx.level = rules[j].level;
                let d = rules[j].rule.lint_node(&node, ctx);
                ctx.level = entry_level;
                match d {
                    LintDirective::Continue => {},
                    LintDirective::Prune => {
                        states[j] = WalkState { stopped: st.stopped, skip_until: node.subtree_end };
                    },
                    LintDirective::Stop => {
                        states[j] = WalkState { stopped: true, skip_until: st.skip_until };
                    },
                }
                proof {
                    assert(states@ =~= pre_states.update(
                        j as int,
                        next_state(rules@[j as int], st, node, i as int),
                    ));
                    assert(issue_models(ctx.issues@) =~= pre_issues
                        + node_issues(rules@[j as int], st, node, src, i as int));
                }
            } else {
                proof {
                    assert(states@ =~= pre_states.update(
                        j as int,
                        next_state(rules@[j as int], st, node, i as int),
                    ));
                    assert(issue_models(ctx.issues@) =~= pre_issues
                        + node_issues(rules@[j as int], st, node, src, i as int));
                }
            }
            j = j + 1;
            proof {
                let jj = j as int - 1;
                let step_pre = visit_rules_from(rules@, pre_states, node, src, i as int, jj);
                let step_post = visit_rules_from(rules@, states@, node, src, i as int, jj + 1);
                assert(step_pre.0 == node_issues(rules@[jj], pre_states[jj], node, src, i as int)
                    + step_post.0);
                assert(step_pre.1 == step_post.1);
                assert(pre_issues + (node_issues(rules@[jj], st, node, src, i as int)
                    + step_post.0) =~= issue_models(ctx.issues@) + step_post.0);
                assert(base == issue_models(ctx.issues@).take(base.len() as int));
            }
        }
        i = i + 1;
        proof {
            let ii = i as int - 1;
            let step = visit_rules_from(rules@, states@, node, src, ii, m as int);
            assert(step.0 =~= Seq::<IssueModel>::empty());
            assert(step.1 == states@);
            assert(Seq::<IssueModel>::empty() + walk_issues_from(
                ast.nodes@, src, rules@, states@, ii + 1,
            ) =~= walk_issues_from(ast.nodes@, src, rules@, states@, ii + 1));
        }
    }
    proof {
        assert(walk_issues_from(ast.nodes@, src, rules@, states@, n as int)
            =~= Seq::<IssueModel>::empty());
        assert(issue_models(ctx.issues@) + Seq::<IssueModel>::empty()
            =~= issue_models(ctx.issues@));
        assert(issue_models(ctx.issues@) =~= base + walk_issues(ast.nodes@, src, rules@));
    }
}


/// What a registered rule effectively contributes at a node once the
/// walker's interest check is folded in: nothing where its interest does
/// not match, its own reports where it does.
pub open spec fn effective_issues<R: Rule>(
    reg: RegisteredRule<R>,
    node: AstNode,
    src: Seq<u8>,
) -> Seq<IssueModel> {
    if reg.rule.spec_interested(node.kind) {
        reg.rule.spec_issues(node, src, reg.level)
    } else {
        Seq::<IssueModel>::empty()
    }
}

/// The directive a registered rule effectively gives at a node: Continue
/// where its interest does not match.
pub open spec fn effective_directive<R: Rule>(reg: RegisteredRule<R>, node: AstNode) -> LintDirective {
    if reg.rule.spec_interested(node.kind) {
        reg.rule.spec_directive(node)
    } else {
        LintDirective::Continue
    }
}

proof fn lemma_single_rule_step<RA: Rule, RB: Rule>(
    ra: RegisteredRule<RA>,
    rb: RegisteredRule<RB>,
    st: WalkState,
    node: AstNode,
    src: Seq<u8>,
    i: int,
)
    requires
        effective_issues(ra, node, src) == effective_issues(rb, node, src),
        effective_directive(ra, node) == effective_directive(rb, node),
    ensures
        node_issues(ra, st, node, src, i) == node_issues(rb, st, node, src, i),
        next_state(ra, st, node, i) == next_state(rb, st, node, i),
{
    if !st.stopped && st.skip_until <= i {
        if ra.rule.spec_interested(node.kind) {
            assert(node_issues(ra, st, node, src, i) == effective_issues(ra, node, src));
        } else {
            assert(node_issues(ra, st, node, src, i) =~= effective_issues(ra, node, src));
        }
        if rb.rule.spec_interested(node.kind) {
            assert(node_issues(rb, st, node, src, i) == effective_issues(rb, node, src));
        } else {
            assert(node_issues(rb, st, node, src, i) =~= effective_issues(rb, node, src));
        }
        match effective_directive(ra, node) {
            LintDirective::Continue => {
                assert(next_state(ra, st, node, i) == st);
                assert(next_state(rb, st, node, i) == st);
            },
            LintDirective::Prune => {},
            LintDirective::Stop => {},
        }
    }
}

proof fn lemma_single_rule_walk<RA: Rule, RB: Rule>(
    nodes: Seq<AstNode>,
    src: Seq<u8>,
    ra: RegisteredRule<RA>,
    rb: RegisteredRule<RB>,
    st: WalkState,
    i: int,
)
    requires
        forall|n: AstNode| #[trigger] effective_issues(ra, n, src) == effective_issues(rb, n, src),
        forall|n: AstNode| #[trigger] effective_directive(ra, n) == effective_directive(rb, n),
    ensures
        walk_issues_from(nodes, src, seq![ra], seq![st], i)
            == walk_issues_from(nodes, src, seq![rb], seq![st], i),
    decreases nodes.len() - i,
{
    if 0 <= i < nodes.len() {
        let node = nodes[i];
        lemma_single_rule_step(ra, rb, st, node, src, i);
        let st2 = next_state(ra, st, node, i);
        let step_a = visit_rules_from(seq![ra], seq![st], node, src, i, 0);
        let step_b = visit_rules_from(seq![rb], seq![st], node, src, i, 0);
        assert(seq![st].update(0, st2) =~= seq![st2]);
        assert(seq![st].update(0, next_state(rb, st, node, i)) =~= seq![st2]);
        let rest_a = visit_rules_from(seq![ra], seq![st2], node, src, i, 1);
        let rest_b = visit_rules_from(seq![rb], seq![st2], node, src, i, 1);
        assert(rest_a.0 =~= Seq::<IssueModel>::empty());
        assert(rest_b.0 =~= Seq::<IssueModel>::empty());
        assert(rest_a.1 == seq![st2]);
        assert(rest_b.1 == seq![st2]);
        assert(step_a.0 =~= node_issues(ra, st, node, src, i));
        assert(step_b.0 =~= node_issues(rb, st, node, src, i));
        assert(step_a.1 == seq![st2]);
        assert(step_b.1 == seq![st2]);
        lemma_single_rule_walk(nodes, src, ra, rb, st2, i + 1);
    }
}

/// Dispatch-style equivalence: register one rule in the match-everything
/// style and one with declared kind interests — whenever the two
/// effectively report the same issues and give the same directive at
/// every node, a full walk with either produces the identical issue
/// sequence.
pub proof fn lemma_dispatch_style_equivalence<RA: Rule, RB: Rule>(
    nodes: Seq<AstNode>,
    src: Seq<u8>,
    ra: RegisteredRule<RA>,
    rb: RegisteredRule<RB>,
)
    requires
        forall|n: AstNode| #[trigger] effective_issues(ra, n, src) == effective_issues(rb, n, src),
        forall|n: AstNode| #[trigger] effective_directive(ra, n) == effective_directive(rb, n),
    ensures
        walk_issues(nodes, src, seq![ra]) == walk_issues(nodes, src, seq![rb]),
{
    let st = WalkState { stopped: false, skip_until: 0 };
    assert(init_states(1) =~= seq![st]);
    lemma_single_rule_walk(nodes, src, ra, rb, st, 0);
}

/// The identity-comparison check reports the same issues over any walk of
/// any tree whichever way it is registered: with its typed entry point
/// invoked for binary expressions only, or in the match-everything style.
pub proof fn lemma_identity_comparison_styles_agree(
    nodes: Seq<AstNode>,
    src: Seq<u8>,
    level: Level,
)
    ensures
        walk_issues(nodes, src, seq![
            RegisteredRule { rule: RequireIdentityComparisonRule, level },
        ]) == walk_issues(nodes, src, seq![
            RegisteredRule { rule: RequireIdentityComparisonEveryNodeRule, level },
        ]),
{
    let ra = RegisteredRule { rule: RequireIdentityComparisonRule, level };
    let rb = RegisteredRule { rule: RequireIdentityComparisonEveryNodeRule, level };
    assert forall|n: AstNode| #[trigger] effective_issues(ra, n, src)
        == effective_issues(rb, n, src) by {
        match n.kind {
            crate::ast::NodeKind::Binary(b) => {
                assert(effective_issues(ra, n, src) == binary_issues(b, level));
                assert(effective_issues(rb, n, src) == binary_issues(b, level));
            },
            _ => {
                assert(effective_issues(ra, n, src) =~= effective_issues(rb, n, src));
            },
        }
    }
    assert forall|n: AstNode| #[trigger] effective_directive(ra, n)
        == effective_directive(rb, n) by {}
    lemma_dispatch_style_equivalence(nodes, src, ra, rb);
}

} // verus!
