use crate::config::{AccountPattern, TextPattern, UserPattern};
use crate::pattern::compiler::{
    eval, eval_all, eval_any, join_and, join_or, lemma_eval_push, lemma_no_empty_evaluates, negate, optimize,
    CompileError, PatternNode,
};
use crate::pattern::tree::{
    compiled_from, map_leaves, matcher_leaf, pattern_leaf, tree_holds, tree_is_match, CompileLeaf, LeafMatcher,
};
use crate::pattern::text::{text_pattern_eval, TextMatcher, TextMatcherInput};
use crate::pattern::user::{user_pattern_eval, UserMatcher, UserMatcherInput};
use crate::pattern::text::text_pattern_compiles;
use crate::pattern::user::user_pattern_compiles;
use crate::pattern::compiler::{keeps_leaves, leaves_in, all_leaves_in, lemma_all_leaves_in_index};
use crate::pattern::tree::{leaf_compiles, mirrors};
use vstd::prelude::*;

verus! {

broadcast use vstd::seq::axiom_seq_subrange_decreases, vstd::std_specs::vec::axiom_vec_decreases_to_view,
    vstd::std_specs::vec::axiom_vec_index_decreases;

/// An account as the matchers see it: its user facets, and its bio with
/// display name and profile fields.
#[derive(Clone, Debug, PartialEq)]
pub struct AccountMatcherInput {
    pub user: UserMatcherInput,
    pub text: TextMatcherInput,
}

/// Truth value of an account pattern on an account; `None` where the pattern holds
/// only empty lists.
pub open spec fn account_pattern_eval(p: AccountPattern, input: AccountMatcherInput) -> Option<bool>
    decreases p,
{
    match p {
        AccountPattern::User { user } => Some(user_pattern_eval(user, input.user) == Some(true)),
        AccountPattern::Text { text } => Some(text_pattern_eval(text, input.text) == Some(true)),
        AccountPattern::Any { any } => account_patterns_any(any@, input),
        AccountPattern::All { all } => account_patterns_all(all@, input),
        AccountPattern::Not { not } => negate(account_pattern_eval(*not, input)),
    }
}

pub open spec fn account_patterns_any(s: Seq<AccountPattern>, input: AccountMatcherInput) -> Option<bool>
    decreases s,
{
    if s.len() == 0 {
        None
    } else {
        join_or(account_patterns_any(s.subrange(0, s.len() - 1), input), account_pattern_eval(s[s.len() - 1], input))
    }
}

pub open spec fn account_patterns_all(s: Seq<AccountPattern>, input: AccountMatcherInput) -> Option<bool>
    decreases s,
{
    if s.len() == 0 {
        None
    } else {
        join_and(account_patterns_all(s.subrange(0, s.len() - 1), input), account_pattern_eval(s[s.len() - 1], input))
    }
}

/// Whether every sub-pattern that a account pattern refers to compiles.
pub open spec fn account_parts_compile(p: AccountPattern) -> bool
    decreases p,
{
    match p {
        AccountPattern::User { user } => user_pattern_compiles(user),
        AccountPattern::Text { text } => text_pattern_compiles(text),
        AccountPattern::Any { any } => account_parts_compile_list(any@),
        AccountPattern::All { all } => account_parts_compile_list(all@),
        AccountPattern::Not { not } => account_parts_compile(*not),
    }
}

pub open spec fn account_parts_compile_list(s: Seq<AccountPattern>) -> bool
    decreases s,
{
    if s.len() == 0 {
        true
    } else {
        account_parts_compile_list(s.subrange(0, s.len() - 1)) && account_parts_compile(s[s.len() - 1])
    }
}

/// A account pattern that is an expression on every input, and whose
/// sub-patterns compile.
pub open spec fn account_pattern_compiles(p: AccountPattern) -> bool {
    &&& forall|input: AccountMatcherInput| #[trigger] account_pattern_eval(p, input) is Some
    &&& account_parts_compile(p)
}

/// A leaf of an account pattern, before compiling.
pub enum AccountPatternLeaf<'a> {
    User(&'a UserPattern),
    Text(&'a TextPattern),
}

/// A compiled leaf of an account pattern.
pub enum AccountLeafMatcher {
    User(UserMatcher),
    Text(TextMatcher),
}

impl LeafMatcher<AccountMatcherInput> for AccountLeafMatcher {
    open spec fn leaf_holds(&self, input: AccountMatcherInput) -> bool {
        match self {
            AccountLeafMatcher::User(m) => m.holds(input.user),
            AccountLeafMatcher::Text(m) => m.holds(input.text),
        }
    }

    fn leaf_is_match(&self, input: &AccountMatcherInput) -> (r: bool) {
        match self {
            AccountLeafMatcher::User(m) => m.is_match(&input.user),
            AccountLeafMatcher::Text(m) => m.is_match(&input.text),
        }
    }
}

impl<'a> CompileLeaf<AccountLeafMatcher, AccountMatcherInput> for AccountPatternLeaf<'a> {
    open spec fn compiled_as(&self, m: AccountLeafMatcher) -> bool {
        match self {
            AccountPatternLeaf::User(_) => m is User,
            AccountPatternLeaf::Text(_) => m is Text,
        }
    }

    open spec fn compiles(&self) -> bool {
        match self {
            AccountPatternLeaf::User(p) => user_pattern_compiles(**p),
            AccountPatternLeaf::Text(p) => text_pattern_compiles(**p),
        }
    }

    open spec fn pattern_holds(&self, input: AccountMatcherInput) -> bool {
        match self {
            AccountPatternLeaf::User(p) => user_pattern_eval(**p, input.user) == Some(true),
            AccountPatternLeaf::Text(p) => text_pattern_eval(**p, input.text) == Some(true),
        }
    }

    fn compile_leaf(self) -> (r: Result<AccountLeafMatcher, CompileError>) {
        match self {
            AccountPatternLeaf::User(p) => match UserMatcher::compile(p) {
                Ok(m) => Ok(AccountLeafMatcher::User(m)),
                Err(e) => Err(e),
            },
            AccountPatternLeaf::Text(p) => match TextMatcher::compile(p) {
                Ok(m) => Ok(AccountLeafMatcher::Text(m)),
                Err(e) => Err(e),
            },
        }
    }
}

pub open spec fn account_leaf<'a>(input: AccountMatcherInput) -> spec_fn(AccountPatternLeaf<'a>) -> bool {
    pattern_leaf::<AccountPatternLeaf<'a>, AccountLeafMatcher, AccountMatcherInput>(input)
}

/// Lowers an account pattern to a tree whose leaves refer to the user and
/// text patterns.
pub fn lower_account_pattern<'a>(p: &'a AccountPattern) -> (r: PatternNode<AccountPatternLeaf<'a>>)
    ensures
        forall|input: AccountMatcherInput| #[trigger] eval(r, account_leaf(input)) == account_pattern_eval(*p, input),
        account_parts_compile(*p) ==> leaves_in(r, leaf_compiles::<AccountPatternLeaf<'a>, AccountLeafMatcher, AccountMatcherInput>()),
    decreases p,
{
    let r = match p {
        AccountPattern::User { user } => PatternNode::Leaf { leaf: AccountPatternLeaf::User(user) },
        AccountPattern::Text { text } => PatternNode::Leaf { leaf: AccountPatternLeaf::Text(text) },
        AccountPattern::Any { any } => PatternNode::Any { children: lower_account_patterns(any, true) },
        AccountPattern::All { all } => PatternNode::All { children: lower_account_patterns(all, false) },
        AccountPattern::Not { not } => PatternNode::Not { child: Box::new(lower_account_pattern(not)) },
    };
    proof {
        assert forall|input: AccountMatcherInput| #[trigger] eval(r, account_leaf(input)) == account_pattern_eval(*p, input) by {
            match r {
                PatternNode::Leaf { leaf } => {
                    assert(eval(r, account_leaf(input)) == Some(leaf.pattern_holds(input)));
                },
                PatternNode::Any { children } => {
                    assert(eval(r, account_leaf(input)) == eval_any(children@, account_leaf(input)));
                },
                PatternNode::All { children } => {
                    assert(eval(r, account_leaf(input)) == eval_all(children@, account_leaf(input)));
                },
                PatternNode::Not { child } => {
                    assert(eval(r, account_leaf(input)) == negate(eval(*child, account_leaf(input))));
                },
            }
        }
         if account_parts_compile(*p) {
            if r is Leaf {
                assert(leaf_compiles::<AccountPatternLeaf<'a>, AccountLeafMatcher, AccountMatcherInput>()(r->Leaf_leaf));
            }
        }
    }
    r
}

fn lower_account_patterns<'a>(ps: &'a Vec<AccountPattern>, any: bool) -> (r: Vec<PatternNode<AccountPatternLeaf<'a>>>)
    ensures
        forall|input: AccountMatcherInput| any ==> #[trigger] eval_any(r@, account_leaf(input)) == account_patterns_any(ps@, input),
        forall|input: AccountMatcherInput| !any ==> #[trigger] eval_all(r@, account_leaf(input)) == account_patterns_all(ps@, input),
        account_parts_compile_list(ps@) ==> all_leaves_in(r@, leaf_compiles::<AccountPatternLeaf<'a>, AccountLeafMatcher, AccountMatcherInput>()),
    decreases ps,
{
    let mut out: Vec<PatternNode<AccountPatternLeaf<'a>>> = Vec::new();
    let mut i: usize = 0;
    proof {
        assert(ps@.subrange(0, 0) =~= Seq::<AccountPattern>::empty());
    }
    while i < ps.len()
        invariant
            i <= ps@.len(),
            forall|input: AccountMatcherInput| any ==> #[trigger] eval_any(out@, account_leaf(input)) == account_patterns_any(ps@.subrange(0, i as int), input),
            forall|input: AccountMatcherInput| !any ==> #[trigger] eval_all(out@, account_leaf(input)) == account_patterns_all(ps@.subrange(0, i as int), input),
            account_parts_compile_list(ps@.subrange(0, i as int)) ==> all_leaves_in(out@, leaf_compiles::<AccountPatternLeaf<'a>, AccountLeafMatcher, AccountMatcherInput>()),
        decreases ps@.len() - i,
    {
        let ghost prev = out@;
        proof {
            assert(decreases_to!(ps => ps[i as int]));
        }
        let node = lower_account_pattern(&ps[i]);
        out.push(node);
        proof {
            let take = ps@.subrange(0, i as int);
            assert(ps@.subrange(0, i + 1).subrange(0, i as int) =~= take);
            assert forall|input: AccountMatcherInput| any implies #[trigger] eval_any(out@, account_leaf(input)) == account_patterns_any(ps@.subrange(0, i + 1), input) by {
                lemma_eval_push(prev, node, account_leaf(input));
            }
            assert forall|input: AccountMatcherInput| !any implies #[trigger] eval_all(out@, account_leaf(input)) == account_patterns_all(ps@.subrange(0, i + 1), input) by {
                lemma_eval_push(prev, node, account_leaf(input));
            }
            lemma_eval_push(prev, node, account_leaf(arbitrary()));
            assert(account_parts_compile_list(ps@.subrange(0, i + 1)) == (account_parts_compile_list(take) && account_parts_compile(ps@[i as int])));
        }
        i = i + 1;
    }
    proof {
        assert(ps@.subrange(0, i as int) =~= ps@);
    }
    out
}

/// Compiled user pattern.
/// Compiled tree of an account pattern.
pub struct AccountMatcherInner(pub PatternNode<AccountLeafMatcher>);

impl AccountMatcherInner {
    /// Compiles each leaf of an optimized tree: the sub-patterns it refers
    /// to become matchers.
    pub fn from(node: PatternNode<AccountPatternLeaf>) -> (r: Result<Self, CompileError>)
        ensures
            r is Ok ==> compiled_from(node, r->Ok_0.0),
            r is Ok ==> mirrors::<AccountPatternLeaf, AccountLeafMatcher, AccountMatcherInput>(node, r->Ok_0.0),
            leaves_in(node, leaf_compiles::<AccountPatternLeaf, AccountLeafMatcher, AccountMatcherInput>()) ==> r is Ok,
    {
        match map_leaves::<AccountPatternLeaf, AccountLeafMatcher, AccountMatcherInput>(node) {
            Ok(tree) => Ok(AccountMatcherInner(tree)),
            Err(e) => Err(e),
        }
    }
}

/// Compiled account pattern.
pub struct AccountMatcher(AccountMatcherInner);

impl AccountMatcher {
    #[verifier::type_invariant]
    spec fn wf(self) -> bool {
        crate::pattern::compiler::no_empty(self.0.0)
    }

    /// Whether the matcher accepts `input`.
    pub closed spec fn holds(self, input: AccountMatcherInput) -> bool {
        tree_holds(self.0.0, input)
    }

    /// Lowers, optimizes and compiles an account pattern, with each of its
    /// sub-patterns. The matcher accepts exactly the accounts
    /// on which the pattern holds.
    pub fn compile(p: &AccountPattern) -> (r: Result<AccountMatcher, CompileError>)
        ensures
            r is Ok ==> forall|input: AccountMatcherInput| #[trigger] account_pattern_eval(*p, input) is Some,
            r is Ok ==> forall|input: AccountMatcherInput| #[trigger] r->Ok_0.holds(input) == (account_pattern_eval(*p, input) == Some(true)),
            (exists|input: AccountMatcherInput| #[trigger] account_pattern_eval(*p, input) is None) ==> r is Err,
            account_pattern_compiles(*p) ==> r is Ok,
    {
        let lowered = lower_account_pattern(p);
        let ghost lw = lowered;
        match optimize(lowered) {
            Ok(optimized) => {
                let ghost op = optimized;
                match AccountMatcherInner::from(optimized) {
                    Ok(inner) => {
                        let ghost tree = inner.0;
                        let m = AccountMatcher(inner);
                        proof {
                            assert(compiled_from(op, tree));
                            assert forall|input: AccountMatcherInput| #[trigger] account_pattern_eval(*p, input) is Some by {
                                assert(eval(op, account_leaf(input)) == eval(lw, account_leaf(input)));
                                lemma_no_empty_evaluates(op, account_leaf(input));
                            }
                            assert forall|input: AccountMatcherInput| #[trigger] m.holds(input) == (account_pattern_eval(*p, input) == Some(true)) by {
                                assert(eval(op, account_leaf(input)) == eval(lw, account_leaf(input)));
                                assert(eval(tree, matcher_leaf::<AccountLeafMatcher, AccountMatcherInput>(input)) == eval(op, account_leaf(input)));
                            }
                        }
                        Ok(m)
                    },
                    Err(e) => {
                        proof {
                            if account_pattern_compiles(*p) {
                                assert(leaves_in(lw, leaf_compiles::<AccountPatternLeaf, AccountLeafMatcher, AccountMatcherInput>()));
                                assert(leaves_in(op, leaf_compiles::<AccountPatternLeaf, AccountLeafMatcher, AccountMatcherInput>()));
                            }
                        }
                        Err(e)
                    },
                }
            },
            Err(e) => {
                proof {
                    if account_pattern_compiles(*p) {
                        let input = arbitrary::<AccountMatcherInput>();
                        assert(eval(lw, account_leaf(input)) is None);
                        assert(account_pattern_eval(*p, input) is Some);
                    }
                }
                Err(e)
            },
        }
    }

    /// Whether the matcher accepts `input`.
    pub fn is_match(&self, input: &AccountMatcherInput) -> (r: bool)
        ensures
            r == self.holds(*input),
    {
        proof {
            use_type_invariant(self);
        }
        tree_is_match(&self.0.0, input)
    }
}

} // verus!
