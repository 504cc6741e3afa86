use crate::config::{AccountPattern, PostPattern, RulePattern};
use crate::pattern::compiler::{
    eval, eval_all, eval_any, join_and, join_or, lemma_eval_push, lemma_no_empty_evaluates, negate, optimize,
    CompileError, PatternNode,
};
use crate::pattern::tree::{
    compiled_from, map_leaves, matcher_leaf, pattern_leaf, tree_holds, tree_is_match, CompileLeaf, LeafMatcher,
};
use crate::pattern::account::{account_pattern_eval, AccountMatcher, AccountMatcherInput};
use crate::pattern::post::{post_pattern_eval, PostMatcher, PostMatcherInput};
use crate::pattern::account::account_pattern_compiles;
use crate::pattern::post::post_pattern_compiles;
use crate::pattern::compiler::{keeps_leaves, leaves_in, all_leaves_in, lemma_all_leaves_in_index};
use crate::pattern::tree::{leaf_compiles, mirrors};
use vstd::prelude::*;

verus! {

broadcast use vstd::seq::axiom_seq_subrange_decreases, vstd::std_specs::vec::axiom_vec_decreases_to_view,
    vstd::std_specs::vec::axiom_vec_index_decreases;

/// A post and its author as the rules see them, with the spam filter's
/// verdict when it ran.
#[derive(Clone, Debug, PartialEq)]
pub struct RuleMatcherInput {
    pub account: AccountMatcherInput,
    pub post: PostMatcherInput,
    pub rspamd: Option<String>,
}

impl RuleMatcherInput {
    pub fn new(account: AccountMatcherInput, post: PostMatcherInput) -> (r: RuleMatcherInput)
        ensures
            r.account == account,
            r.post == post,
            r.rspamd is None,
    {
        RuleMatcherInput { account, post, rspamd: None }
    }

    /// Records the spam filter's verdict.
    pub fn rspamd(&mut self, action: String)
        ensures
            final(self).account == old(self).account,
            final(self).post == old(self).post,
            final(self).rspamd == Some(action),
    {
        self.rspamd = Some(action);
    }
}

/// Truth value of a rule pattern on a post and its author; `None` where the
/// pattern holds only empty lists.
pub open spec fn rule_pattern_eval(p: RulePattern, input: RuleMatcherInput) -> Option<bool>
    decreases p,
{
    match p {
        RulePattern::Account { account } => Some(account_pattern_eval(account, input.account) == Some(true)),
        RulePattern::Post { post } => Some(post_pattern_eval(post, input.post) == Some(true)),
        RulePattern::Rspamd { action } => Some(input.rspamd is Some && input.rspamd->0@ == action@),
        RulePattern::Any { any } => rule_patterns_any(any@, input),
        RulePattern::All { all } => rule_patterns_all(all@, input),
        RulePattern::Not { not } => negate(rule_pattern_eval(*not, input)),
    }
}

pub open spec fn rule_patterns_any(s: Seq<RulePattern>, input: RuleMatcherInput) -> Option<bool>
    decreases s,
{
    if s.len() == 0 {
        None
    } else {
        join_or(rule_patterns_any(s.subrange(0, s.len() - 1), input), rule_pattern_eval(s[s.len() - 1], input))
    }
}

pub open spec fn rule_patterns_all(s: Seq<RulePattern>, input: RuleMatcherInput) -> Option<bool>
    decreases s,
{
    if s.len() == 0 {
        None
    } else {
        join_and(rule_patterns_all(s.subrange(0, s.len() - 1), input), rule_pattern_eval(s[s.len() - 1], input))
    }
}

/// Whether every sub-pattern that a rule pattern refers to compiles.
pub open spec fn rule_parts_compile(p: RulePattern) -> bool
    decreases p,
{
    match p {
        RulePattern::Account { account } => account_pattern_compiles(account),
        RulePattern::Post { post } => post_pattern_compiles(post),
        RulePattern::Rspamd { .. } => true,
        RulePattern::Any { any } => rule_parts_compile_list(any@),
        RulePattern::All { all } => rule_parts_compile_list(all@),
        RulePattern::Not { not } => rule_parts_compile(*not),
    }
}

pub open spec fn rule_parts_compile_list(s: Seq<RulePattern>) -> bool
    decreases s,
{
    if s.len() == 0 {
        true
    } else {
        rule_parts_compile_list(s.subrange(0, s.len() - 1)) && rule_parts_compile(s[s.len() - 1])
    }
}

/// A rule pattern that is an expression on every input, and whose
/// sub-patterns compile.
pub open spec fn rule_pattern_compiles(p: RulePattern) -> bool {
    &&& forall|input: RuleMatcherInput| #[trigger] rule_pattern_eval(p, input) is Some
    &&& rule_parts_compile(p)
}

/// A leaf of a rule pattern, before compiling.
pub enum RulePatternLeaf<'a> {
    Account(&'a AccountPattern),
    Post(&'a PostPattern),
    Rspamd(String),
}

/// A compiled leaf of a rule pattern.
pub enum RuleLeafMatcher {
    Account(AccountMatcher),
    Post(PostMatcher),
    Rspamd(String),
}

impl LeafMatcher<RuleMatcherInput> for RuleLeafMatcher {
    open spec fn leaf_holds(&self, input: RuleMatcherInput) -> bool {
        match self {
            RuleLeafMatcher::Account(m) => m.holds(input.account),
            RuleLeafMatcher::Post(m) => m.holds(input.post),
            RuleLeafMatcher::Rspamd(action) => input.rspamd is Some && input.rspamd->0@ == action@,
        }
    }

    fn leaf_is_match(&self, input: &RuleMatcherInput) -> (r: bool) {
        match self {
            RuleLeafMatcher::Account(m) => m.is_match(&input.account),
            RuleLeafMatcher::Post(m) => m.is_match(&input.post),
            RuleLeafMatcher::Rspamd(action) => match &input.rspamd {
                Some(verdict) => {
                    let same = verdict.eq(action);
                    proof {
                        assert(same == (verdict@ == action@));
                    }
                    same
                },
                None => false,
            },
        }
    }
}

impl<'a> CompileLeaf<RuleLeafMatcher, RuleMatcherInput> for RulePatternLeaf<'a> {
    open spec fn compiled_as(&self, m: RuleLeafMatcher) -> bool {
        match self {
            RulePatternLeaf::Account(_) => m is Account,
            RulePatternLeaf::Post(_) => m is Post,
            RulePatternLeaf::Rspamd(action) => m matches RuleLeafMatcher::Rspamd(a) && a@ == action@,
        }
    }

    open spec fn compiles(&self) -> bool {
        match self {
            RulePatternLeaf::Account(p) => account_pattern_compiles(**p),
            RulePatternLeaf::Post(p) => post_pattern_compiles(**p),
            RulePatternLeaf::Rspamd(_) => true,
        }
    }

    open spec fn pattern_holds(&self, input: RuleMatcherInput) -> bool {
        match self {
            RulePatternLeaf::Account(p) => account_pattern_eval(**p, input.account) == Some(true),
            RulePatternLeaf::Post(p) => post_pattern_eval(**p, input.post) == Some(true),
            RulePatternLeaf::Rspamd(action) => input.rspamd is Some && input.rspamd->0@ == action@,
        }
    }

    fn compile_leaf(self) -> (r: Result<RuleLeafMatcher, CompileError>) {
        match self {
            RulePatternLeaf::Account(p) => match AccountMatcher::compile(p) {
                Ok(m) => Ok(RuleLeafMatcher::Account(m)),
                Err(e) => Err(e),
            },
            RulePatternLeaf::Post(p) => match PostMatcher::compile(p) {
                Ok(m) => Ok(RuleLeafMatcher::Post(m)),
                Err(e) => Err(e),
            },
            RulePatternLeaf::Rspamd(action) => Ok(RuleLeafMatcher::Rspamd(action)),
        }
    }
}

pub open spec fn rule_leaf<'a>(input: RuleMatcherInput) -> spec_fn(RulePatternLeaf<'a>) -> bool {
    pattern_leaf::<RulePatternLeaf<'a>, RuleLeafMatcher, RuleMatcherInput>(input)
}

/// Lowers a rule pattern to a tree whose leaves refer to the account and
/// post patterns, or name a spam filter verdict.
pub fn lower_rule_pattern<'a>(p: &'a RulePattern) -> (r: PatternNode<RulePatternLeaf<'a>>)
    ensures
        forall|input: RuleMatcherInput| #[trigger] eval(r, rule_leaf(input)) == rule_pattern_eval(*p, input),
        rule_parts_compile(*p) ==> leaves_in(r, leaf_compiles::<RulePatternLeaf<'a>, RuleLeafMatcher, RuleMatcherInput>()),
    decreases p,
{
    let r = match p {
        RulePattern::Account { account } => PatternNode::Leaf { leaf: RulePatternLeaf::Account(account) },
        RulePattern::Post { post } => PatternNode::Leaf { leaf: RulePatternLeaf::Post(post) },
        RulePattern::Rspamd { action } => PatternNode::Leaf { leaf: RulePatternLeaf::Rspamd(action.clone()) },
        RulePattern::Any { any } => PatternNode::Any { children: lower_rule_patterns(any, true) },
        RulePattern::All { all } => PatternNode::All { children: lower_rule_patterns(all, false) },
        RulePattern::Not { not } => PatternNode::Not { child: Box::new(lower_rule_pattern(not)) },
    };
    proof {
        assert forall|input: RuleMatcherInput| #[trigger] eval(r, rule_leaf(input)) == rule_pattern_eval(*p, input) by {
            match r {
                PatternNode::Leaf { leaf } => {
                    assert(eval(r, rule_leaf(input)) == Some(leaf.pattern_holds(input)));
                },
                PatternNode::Any { children } => {
                    assert(eval(r, rule_leaf(input)) == eval_any(children@, rule_leaf(input)));
                },
                PatternNode::All { children } => {
                    assert(eval(r, rule_leaf(input)) == eval_all(children@, rule_leaf(input)));
                },
                PatternNode::Not { child } => {
                    assert(eval(r, rule_leaf(input)) == negate(eval(*child, rule_leaf(input))));
                },
            }
        }
         if rule_parts_compile(*p) {
            if r is Leaf {
                assert(leaf_compiles::<RulePatternLeaf<'a>, RuleLeafMatcher, RuleMatcherInput>()(r->Leaf_leaf));
            }
        }
    }
    r
}

fn lower_rule_patterns<'a>(ps: &'a Vec<RulePattern>, any: bool) -> (r: Vec<PatternNode<RulePatternLeaf<'a>>>)
    ensures
        forall|input: RuleMatcherInput| any ==> #[trigger] eval_any(r@, rule_leaf(input)) == rule_patterns_any(ps@, input),
        forall|input: RuleMatcherInput| !any ==> #[trigger] eval_all(r@, rule_leaf(input)) == rule_patterns_all(ps@, input),
        rule_parts_compile_list(ps@) ==> all_leaves_in(r@, leaf_compiles::<RulePatternLeaf<'a>, RuleLeafMatcher, RuleMatcherInput>()),
    decreases ps,
{
    let mut out: Vec<PatternNode<RulePatternLeaf<'a>>> = Vec::new();
    let mut i: usize = 0;
    proof {
        assert(ps@.subrange(0, 0) =~= Seq::<RulePattern>::empty());
    }
    while i < ps.len()
        invariant
            i <= ps@.len(),
            forall|input: RuleMatcherInput| any ==> #[trigger] eval_any(out@, rule_leaf(input)) == rule_patterns_any(ps@.subrange(0, i as int), input),
            forall|input: RuleMatcherInput| !any ==> #[trigger] eval_all(out@, rule_leaf(input)) == rule_patterns_all(ps@.subrange(0, i as int), input),
            rule_parts_compile_list(ps@.subrange(0, i as int)) ==> all_leaves_in(out@, leaf_compiles::<RulePatternLeaf<'a>, RuleLeafMatcher, RuleMatcherInput>()),
        decreases ps@.len() - i,
    {
        let ghost prev = out@;
        proof {
            assert(decreases_to!(ps => ps[i as int]));
        }
        let node = lower_rule_pattern(&ps[i]);
        out.push(node);
        proof {
            let take = ps@.subrange(0, i as int);
            assert(ps@.subrange(0, i + 1).subrange(0, i as int) =~= take);
            assert forall|input: RuleMatcherInput| any implies #[trigger] eval_any(out@, rule_leaf(input)) == rule_patterns_any(ps@.subrange(0, i + 1), input) by {
                lemma_eval_push(prev, node, rule_leaf(input));
            }
            assert forall|input: RuleMatcherInput| !any implies #[trigger] eval_all(out@, rule_leaf(input)) == rule_patterns_all(ps@.subrange(0, i + 1), input) by {
                lemma_eval_push(prev, node, rule_leaf(input));
            }
            lemma_eval_push(prev, node, rule_leaf(arbitrary()));
            assert(rule_parts_compile_list(ps@.subrange(0, i + 1)) == (rule_parts_compile_list(take) && rule_parts_compile(ps@[i as int])));
        }
        i = i + 1;
    }
    proof {
        assert(ps@.subrange(0, i as int) =~= ps@);
    }
    out
}

/// Compiled user pattern.
/// Compiled tree of a rule pattern.
pub struct RuleMatcherInner(pub PatternNode<RuleLeafMatcher>);

impl RuleMatcherInner {
    /// Compiles each leaf of an optimized tree: the sub-patterns it refers
    /// to become matchers.
    pub fn from(node: PatternNode<RulePatternLeaf>) -> (r: Result<Self, CompileError>)
        ensures
            r is Ok ==> compiled_from(node, r->Ok_0.0),
            r is Ok ==> mirrors::<RulePatternLeaf, RuleLeafMatcher, RuleMatcherInput>(node, r->Ok_0.0),
            leaves_in(node, leaf_compiles::<RulePatternLeaf, RuleLeafMatcher, RuleMatcherInput>()) ==> r is Ok,
    {
        match map_leaves::<RulePatternLeaf, RuleLeafMatcher, RuleMatcherInput>(node) {
            Ok(tree) => Ok(RuleMatcherInner(tree)),
            Err(e) => Err(e),
        }
    }
}

/// Compiled rule pattern.
pub struct RuleMatcher(RuleMatcherInner);

impl RuleMatcher {
    #[verifier::type_invariant]
    spec fn wf(self) -> bool {
        crate::pattern::compiler::no_empty(self.0.0)
    }

    /// Whether the matcher accepts `input`.
    pub closed spec fn holds(self, input: RuleMatcherInput) -> bool {
        tree_holds(self.0.0, input)
    }

    /// Lowers, optimizes and compiles a rule pattern, with each of its
    /// sub-patterns. The matcher accepts exactly the posts
    /// on which the pattern holds.
    pub fn compile(p: &RulePattern) -> (r: Result<RuleMatcher, CompileError>)
        ensures
            r is Ok ==> forall|input: RuleMatcherInput| #[trigger] rule_pattern_eval(*p, input) is Some,
            r is Ok ==> forall|input: RuleMatcherInput| #[trigger] r->Ok_0.holds(input) == (rule_pattern_eval(*p, input) == Some(true)),
            (exists|input: RuleMatcherInput| #[trigger] rule_pattern_eval(*p, input) is None) ==> r is Err,
            rule_pattern_compiles(*p) ==> r is Ok,
    {
        let lowered = lower_rule_pattern(p);
        let ghost lw = lowered;
        match optimize(lowered) {
            Ok(optimized) => {
                let ghost op = optimized;
                match RuleMatcherInner::from(optimized) {
                    Ok(inner) => {
                        let ghost tree = inner.0;
                        let m = RuleMatcher(inner);
                        proof {
                            assert(compiled_from(op, tree));
                            assert forall|input: RuleMatcherInput| #[trigger] rule_pattern_eval(*p, input) is Some by {
                                assert(eval(op, rule_leaf(input)) == eval(lw, rule_leaf(input)));
                                lemma_no_empty_evaluates(op, rule_leaf(input));
                            }
                            assert forall|input: RuleMatcherInput| #[trigger] m.holds(input) == (rule_pattern_eval(*p, input) == Some(true)) by {
                                assert(eval(op, rule_leaf(input)) == eval(lw, rule_leaf(input)));
                                assert(eval(tree, matcher_leaf::<RuleLeafMatcher, RuleMatcherInput>(input)) == eval(op, rule_leaf(input)));
                            }
                        }
                        Ok(m)
                    },
                    Err(e) => {
                        proof {
                            if rule_pattern_compiles(*p) {
                                assert(leaves_in(lw, leaf_compiles::<RulePatternLeaf, RuleLeafMatcher, RuleMatcherInput>()));
                                assert(leaves_in(op, leaf_compiles::<RulePatternLeaf, RuleLeafMatcher, RuleMatcherInput>()));
                            }
                        }
                        Err(e)
                    },
                }
            },
            Err(e) => {
                proof {
                    if rule_pattern_compiles(*p) {
                        let input = arbitrary::<RuleMatcherInput>();
                        assert(eval(lw, rule_leaf(input)) is None);
                        assert(rule_pattern_eval(*p, input) is Some);
                    }
                }
                Err(e)
            },
        }
    }

    /// Whether the matcher accepts `input`.
    pub fn is_match(&self, input: &RuleMatcherInput) -> (r: bool)
        ensures
            r == self.holds(*input),
    {
        proof {
            use_type_invariant(self);
        }
        tree_is_match(&self.0.0, input)
    }
}

} // verus!
