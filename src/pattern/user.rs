use crate::config::{InstancePattern, StringPattern, UserPattern};
use crate::pattern::compiler::{
    eval, eval_all, eval_any, join_and, join_or, lemma_eval_push, lemma_no_empty_evaluates, negate, optimize,
    CompileError, PatternNode,
};
use crate::pattern::instance::{instance_pattern_eval, InstanceMatcher};
use crate::pattern::string::{string_pattern_eval, StringMatcher};
use crate::pattern::tree::{
    compiled_from, map_leaves, matcher_leaf, pattern_leaf, tree_holds, tree_is_match, CompileLeaf, LeafMatcher,
};
use crate::pattern::instance::instance_pattern_compiles;
use crate::pattern::string::string_pattern_compiles;
use crate::pattern::compiler::{keeps_leaves, leaves_in, all_leaves_in, lemma_all_leaves_in_index};
use crate::pattern::tree::{leaf_compiles, mirrors};
use vstd::prelude::*;

verus! {

broadcast use vstd::seq::axiom_seq_subrange_decreases, vstd::std_specs::vec::axiom_vec_decreases_to_view,
    vstd::std_specs::vec::axiom_vec_index_decreases;

/// The user facets of an account or a mention: its username, and its domain
/// unless it is local.
#[derive(Clone, Debug, PartialEq, Eq, Hash)]
pub struct UserMatcherInput {
    pub username: String,
    pub domain: Option<String>,
}

/// The part of `acct` after its first `@`, if it has one.
pub open spec fn acct_domain(acct: Seq<char>) -> Option<Seq<char>> {
    if exists|i: int| 0 <= i < acct.len() && acct[i] == '@' {
        let i = choose|i: int| 0 <= i < acct.len() && acct[i] == '@' && forall|k: int| 0 <= k < i ==> acct[k] != '@';
        Some(acct.subrange(i + 1, acct.len() as int))
    } else {
        None
    }
}

impl UserMatcherInput {
    /// The input of an account or mention with this username and account
    /// identifier (`user` for a local account, `user@domain` otherwise).
    pub fn from_acct(username: &str, acct: &str) -> (r: UserMatcherInput)
        ensures
            r.username@ == username@,
            r.domain is None <==> acct_domain(acct@) is None,
            r.domain is Some ==> r.domain->0@ == acct_domain(acct@)->0,
    {
        let n = acct.unicode_len();
        let mut i: usize = 0;
        while i < n
            invariant
                n == acct@.len(),
                i <= n,
                forall|k: int| 0 <= k < i ==> acct@[k] != '@',
            decreases n - i,
        {
            if acct.get_char(i) == '@' {
                let domain = acct.substring_char(i + 1, n);
                proof {
                    assert(0 <= i < acct@.len() && acct@[i as int] == '@' && forall|k: int| 0 <= k < i ==> acct@[k] != '@');
                    let j = choose|j: int| 0 <= j < acct@.len() && acct@[j] == '@' && forall|k: int| 0 <= k < j ==> acct@[k] != '@';
                    assert(j == i) by {
                        if j < i {
                            assert(acct@[j] != '@');
                        } else if j > i {
                            assert(acct@[i as int] != '@');
                        }
                    }
                }
                return UserMatcherInput { username: username.to_owned(), domain: Some(domain.to_owned()) };
            }
            i = i + 1;
        }
        UserMatcherInput { username: username.to_owned(), domain: None }
    }
}

/// Truth value of a user pattern on a user; `None` where the pattern holds
/// only empty lists.
pub open spec fn user_pattern_eval(p: UserPattern, input: UserMatcherInput) -> Option<bool>
    decreases p,
{
    match p {
        UserPattern::Username { username } => Some(string_pattern_eval(username, input.username@) == Some(true)),
        UserPattern::Instance { instance } => Some(
            match input.domain {
                Some(d) => instance_pattern_eval(instance, d@) == Some(true),
                None => false,
            },
        ),
        UserPattern::Local { local } => Some(local == input.domain is None),
        UserPattern::Any { any } => user_patterns_any(any@, input),
        UserPattern::All { all } => user_patterns_all(all@, input),
        UserPattern::Not { not } => negate(user_pattern_eval(*not, input)),
    }
}

pub open spec fn user_patterns_any(s: Seq<UserPattern>, input: UserMatcherInput) -> Option<bool>
    decreases s,
{
    if s.len() == 0 {
        None
    } else {
        join_or(user_patterns_any(s.subrange(0, s.len() - 1), input), user_pattern_eval(s[s.len() - 1], input))
    }
}

pub open spec fn user_patterns_all(s: Seq<UserPattern>, input: UserMatcherInput) -> Option<bool>
    decreases s,
{
    if s.len() == 0 {
        None
    } else {
        join_and(user_patterns_all(s.subrange(0, s.len() - 1), input), user_pattern_eval(s[s.len() - 1], input))
    }
}

/// Whether every sub-pattern that a user pattern refers to compiles.
pub open spec fn user_parts_compile(p: UserPattern) -> bool
    decreases p,
{
    match p {
        UserPattern::Username { username } => string_pattern_compiles(username),
        UserPattern::Instance { instance } => instance_pattern_compiles(instance),
        UserPattern::Local { .. } => true,
        UserPattern::Any { any } => user_parts_compile_list(any@),
        UserPattern::All { all } => user_parts_compile_list(all@),
        UserPattern::Not { not } => user_parts_compile(*not),
    }
}

pub open spec fn user_parts_compile_list(s: Seq<UserPattern>) -> bool
    decreases s,
{
    if s.len() == 0 {
        true
    } else {
        user_parts_compile_list(s.subrange(0, s.len() - 1)) && user_parts_compile(s[s.len() - 1])
    }
}

/// A user pattern that is an expression on every input, and whose
/// sub-patterns compile.
pub open spec fn user_pattern_compiles(p: UserPattern) -> bool {
    &&& forall|input: UserMatcherInput| #[trigger] user_pattern_eval(p, input) is Some
    &&& user_parts_compile(p)
}

/// A leaf of a user pattern, before compiling.
pub enum UserPatternLeaf<'a> {
    Username(&'a StringPattern),
    Instance(&'a InstancePattern),
    Local(bool),
}

/// A compiled leaf of a user pattern.
pub enum UserLeafMatcher {
    Username(StringMatcher),
    Instance(InstanceMatcher),
    Local(bool),
}

impl LeafMatcher<UserMatcherInput> for UserLeafMatcher {
    open spec fn leaf_holds(&self, input: UserMatcherInput) -> bool {
        match self {
            UserLeafMatcher::Username(m) => m.holds(input.username@),
            UserLeafMatcher::Instance(m) => match input.domain {
                Some(d) => m.holds(d@),
                None => false,
            },
            UserLeafMatcher::Local(local) => *local == input.domain is None,
        }
    }

    fn leaf_is_match(&self, input: &UserMatcherInput) -> (r: bool) {
        match self {
            UserLeafMatcher::Username(m) => m.is_match(input.username.as_str()),
            UserLeafMatcher::Instance(m) => match &input.domain {
                Some(d) => m.is_match(d.as_str()),
                None => false,
            },
            UserLeafMatcher::Local(local) => *local == input.domain.is_none(),
        }
    }
}

impl<'a> CompileLeaf<UserLeafMatcher, UserMatcherInput> for UserPatternLeaf<'a> {
    open spec fn compiled_as(&self, m: UserLeafMatcher) -> bool {
        match self {
            UserPatternLeaf::Username(_) => m is Username,
            UserPatternLeaf::Instance(_) => m is Instance,
            UserPatternLeaf::Local(local) => m == UserLeafMatcher::Local(*local),
        }
    }

    open spec fn compiles(&self) -> bool {
        match self {
            UserPatternLeaf::Username(p) => string_pattern_compiles(**p),
            UserPatternLeaf::Instance(p) => instance_pattern_compiles(**p),
            UserPatternLeaf::Local(_) => true,
        }
    }

    open spec fn pattern_holds(&self, input: UserMatcherInput) -> bool {
        match self {
            UserPatternLeaf::Username(p) => string_pattern_eval(**p, input.username@) == Some(true),
            UserPatternLeaf::Instance(p) => match input.domain {
                Some(d) => instance_pattern_eval(**p, d@) == Some(true),
                None => false,
            },
            UserPatternLeaf::Local(local) => *local == input.domain is None,
        }
    }

    fn compile_leaf(self) -> (r: Result<UserLeafMatcher, CompileError>) {
        match self {
            UserPatternLeaf::Username(p) => match StringMatcher::compile(p) {
                Ok(m) => Ok(UserLeafMatcher::Username(m)),
                Err(e) => Err(e),
            },
            UserPatternLeaf::Instance(p) => match InstanceMatcher::compile(p) {
                Ok(m) => Ok(UserLeafMatcher::Instance(m)),
                Err(e) => Err(e),
            },
            UserPatternLeaf::Local(local) => Ok(UserLeafMatcher::Local(local)),
        }
    }
}

pub open spec fn user_leaf<'a>(input: UserMatcherInput) -> spec_fn(UserPatternLeaf<'a>) -> bool {
    pattern_leaf::<UserPatternLeaf<'a>, UserLeafMatcher, UserMatcherInput>(input)
}

/// Lowers a user pattern to a tree whose leaves refer to the sub-patterns.
pub fn lower_user_pattern<'a>(p: &'a UserPattern) -> (r: PatternNode<UserPatternLeaf<'a>>)
    ensures
        forall|input: UserMatcherInput| #[trigger] eval(r, user_leaf(input)) == user_pattern_eval(*p, input),
        user_parts_compile(*p) ==> leaves_in(r, leaf_compiles::<UserPatternLeaf<'a>, UserLeafMatcher, UserMatcherInput>()),
    decreases p,
{
    let r = match p {
        UserPattern::Username { username } => PatternNode::Leaf { leaf: UserPatternLeaf::Username(username) },
        UserPattern::Instance { instance } => PatternNode::Leaf { leaf: UserPatternLeaf::Instance(instance) },
        UserPattern::Local { local } => PatternNode::Leaf { leaf: UserPatternLeaf::Local(*local) },
        UserPattern::Any { any } => PatternNode::Any { children: lower_user_patterns(any, true) },
        UserPattern::All { all } => PatternNode::All { children: lower_user_patterns(all, false) },
        UserPattern::Not { not } => PatternNode::Not { child: Box::new(lower_user_pattern(not)) },
    };
    proof {
        assert forall|input: UserMatcherInput| #[trigger] eval(r, user_leaf(input)) == user_pattern_eval(*p, input) by {
            match r {
                PatternNode::Leaf { leaf } => {
                    assert(eval(r, user_leaf(input)) == Some(leaf.pattern_holds(input)));
                },
                PatternNode::Any { children } => {
                    assert(eval(r, user_leaf(input)) == eval_any(children@, user_leaf(input)));
                },
                PatternNode::All { children } => {
                    assert(eval(r, user_leaf(input)) == eval_all(children@, user_leaf(input)));
                },
                PatternNode::Not { child } => {
                    assert(eval(r, user_leaf(input)) == negate(eval(*child, user_leaf(input))));
                },
            }
        }
         if user_parts_compile(*p) {
            if r is Leaf {
                assert(leaf_compiles::<UserPatternLeaf<'a>, UserLeafMatcher, UserMatcherInput>()(r->Leaf_leaf));
            }
        }
    }
    r
}

fn lower_user_patterns<'a>(ps: &'a Vec<UserPattern>, any: bool) -> (r: Vec<PatternNode<UserPatternLeaf<'a>>>)
    ensures
        forall|input: UserMatcherInput| any ==> #[trigger] eval_any(r@, user_leaf(input)) == user_patterns_any(ps@, input),
        forall|input: UserMatcherInput| !any ==> #[trigger] eval_all(r@, user_leaf(input)) == user_patterns_all(ps@, input),
        user_parts_compile_list(ps@) ==> all_leaves_in(r@, leaf_compiles::<UserPatternLeaf<'a>, UserLeafMatcher, UserMatcherInput>()),
    decreases ps,
{
    let mut out: Vec<PatternNode<UserPatternLeaf<'a>>> = Vec::new();
    let mut i: usize = 0;
    proof {
        assert(ps@.subrange(0, 0) =~= Seq::<UserPattern>::empty());
    }
    while i < ps.len()
        invariant
            i <= ps@.len(),
            forall|input: UserMatcherInput| any ==> #[trigger] eval_any(out@, user_leaf(input)) == user_patterns_any(ps@.subrange(0, i as int), input),
            forall|input: UserMatcherInput| !any ==> #[trigger] eval_all(out@, user_leaf(input)) == user_patterns_all(ps@.subrange(0, i as int), input),
            user_parts_compile_list(ps@.subrange(0, i as int)) ==> all_leaves_in(out@, leaf_compiles::<UserPatternLeaf<'a>, UserLeafMatcher, UserMatcherInput>()),
        decreases ps@.len() - i,
    {
        let ghost prev = out@;
        proof {
            assert(decreases_to!(ps => ps[i as int]));
        }
        let node = lower_user_pattern(&ps[i]);
        out.push(node);
        proof {
            let take = ps@.subrange(0, i as int);
            assert(ps@.subrange(0, i + 1).subrange(0, i as int) =~= take);
            assert forall|input: UserMatcherInput| any implies #[trigger] eval_any(out@, user_leaf(input)) == user_patterns_any(ps@.subrange(0, i + 1), input) by {
                lemma_eval_push(prev, node, user_leaf(input));
            }
            assert forall|input: UserMatcherInput| !any implies #[trigger] eval_all(out@, user_leaf(input)) == user_patterns_all(ps@.subrange(0, i + 1), input) by {
                lemma_eval_push(prev, node, user_leaf(input));
            }
            lemma_eval_push(prev, node, user_leaf(arbitrary()));
            assert(user_parts_compile_list(ps@.subrange(0, i + 1)) == (user_parts_compile_list(take) && user_parts_compile(ps@[i as int])));
        }
        i = i + 1;
    }
    proof {
        assert(ps@.subrange(0, i as int) =~= ps@);
    }
    out
}

/// Compiled tree of a user pattern.
pub struct UserMatcherInner(pub PatternNode<UserLeafMatcher>);

impl UserMatcherInner {
    /// Compiles each leaf of an optimized tree: the sub-patterns it refers
    /// to become matchers.
    pub fn from(node: PatternNode<UserPatternLeaf>) -> (r: Result<Self, CompileError>)
        ensures
            r is Ok ==> compiled_from(node, r->Ok_0.0),
            r is Ok ==> mirrors::<UserPatternLeaf, UserLeafMatcher, UserMatcherInput>(node, r->Ok_0.0),
            leaves_in(node, leaf_compiles::<UserPatternLeaf, UserLeafMatcher, UserMatcherInput>()) ==> r is Ok,
    {
        match map_leaves::<UserPatternLeaf, UserLeafMatcher, UserMatcherInput>(node) {
            Ok(tree) => Ok(UserMatcherInner(tree)),
            Err(e) => Err(e),
        }
    }
}

/// Compiled user pattern.
pub struct UserMatcher(UserMatcherInner);

impl UserMatcher {
    #[verifier::type_invariant]
    spec fn wf(self) -> bool {
        crate::pattern::compiler::no_empty(self.0.0)
    }

    /// Whether the matcher accepts `input`.
    pub closed spec fn holds(self, input: UserMatcherInput) -> bool {
        tree_holds(self.0.0, input)
    }

    /// Lowers, optimizes and compiles a user pattern, with each of its
    /// username and instance patterns. The matcher accepts exactly the users
    /// on which the pattern holds.
    pub fn compile(p: &UserPattern) -> (r: Result<UserMatcher, CompileError>)
        ensures
            r is Ok ==> forall|input: UserMatcherInput| #[trigger] user_pattern_eval(*p, input) is Some,
            r is Ok ==> forall|input: UserMatcherInput| #[trigger] r->Ok_0.holds(input) == (user_pattern_eval(*p, input) == Some(true)),
            (exists|input: UserMatcherInput| #[trigger] user_pattern_eval(*p, input) is None) ==> r is Err,
            user_pattern_compiles(*p) ==> r is Ok,
    {
        let lowered = lower_user_pattern(p);
        let ghost lw = lowered;
        match optimize(lowered) {
            Ok(optimized) => {
                let ghost op = optimized;
                match UserMatcherInner::from(optimized) {
                    Ok(inner) => {
                        let ghost tree = inner.0;
                        let m = UserMatcher(inner);
                        proof {
                            assert(compiled_from(op, tree));
                            assert forall|input: UserMatcherInput| #[trigger] user_pattern_eval(*p, input) is Some by {
                                assert(eval(op, user_leaf(input)) == eval(lw, user_leaf(input)));
                                lemma_no_empty_evaluates(op, user_leaf(input));
                            }
                            assert forall|input: UserMatcherInput| #[trigger] m.holds(input) == (user_pattern_eval(*p, input) == Some(true)) by {
                                assert(eval(op, user_leaf(input)) == eval(lw, user_leaf(input)));
                                assert(eval(tree, matcher_leaf::<UserLeafMatcher, UserMatcherInput>(input)) == eval(op, user_leaf(input)));
                            }
                        }
                        Ok(m)
                    },
                    Err(e) => {
                        proof {
                            if user_pattern_compiles(*p) {
                                assert(leaves_in(lw, leaf_compiles::<UserPatternLeaf, UserLeafMatcher, UserMatcherInput>()));
                                assert(leaves_in(op, leaf_compiles::<UserPatternLeaf, UserLeafMatcher, UserMatcherInput>()));
                            }
                        }
                        Err(e)
                    },
                }
            },
            Err(e) => {
                proof {
                    if user_pattern_compiles(*p) {
                        let input = arbitrary::<UserMatcherInput>();
                        assert(eval(lw, user_leaf(input)) is None);
                        assert(user_pattern_eval(*p, input) is Some);
                    }
                }
                Err(e)
            },
        }
    }

    /// Whether the matcher accepts `input`.
    pub fn is_match(&self, input: &UserMatcherInput) -> (r: bool)
        ensures
            r == self.holds(*input),
    {
        proof {
            use_type_invariant(self);
        }
        tree_is_match(&self.0.0, input)
    }
}

} // verus!
