use crate::config::{PostPattern, TextPattern};
use crate::pattern::compiler::{
    eval, eval_all, eval_any, join_and, join_or, lemma_eval_push, lemma_no_empty_evaluates, negate, optimize,
    CompileError, PatternNode,
};
use crate::pattern::tree::{
    compiled_from, map_leaves, matcher_leaf, pattern_leaf, tree_holds, tree_is_match, CompileLeaf, LeafMatcher,
};
use crate::pattern::text::{text_pattern_eval, TextMatcher, TextMatcherInput};
use crate::pattern::text::text_pattern_compiles;
use crate::pattern::compiler::{keeps_leaves, leaves_in, all_leaves_in, lemma_all_leaves_in_index};
use crate::pattern::tree::{leaf_compiles, mirrors};
use vstd::prelude::*;

verus! {

broadcast use vstd::seq::axiom_seq_subrange_decreases, vstd::std_specs::vec::axiom_vec_decreases_to_view,
    vstd::std_specs::vec::axiom_vec_index_decreases;

/// A post as the matchers see it: its text with links, mentions and
/// hashtags.
#[derive(Clone, Debug, PartialEq)]
pub struct PostMatcherInput {
    pub text: TextMatcherInput,
}

/// Truth value of a post pattern on a post; `None` where the pattern holds
/// only empty lists.
pub open spec fn post_pattern_eval(p: PostPattern, input: PostMatcherInput) -> Option<bool>
    decreases p,
{
    match p {
        PostPattern::Text { text } => Some(text_pattern_eval(text, input.text) == Some(true)),
        PostPattern::Any { any } => post_patterns_any(any@, input),
        PostPattern::All { all } => post_patterns_all(all@, input),
        PostPattern::Not { not } => negate(post_pattern_eval(*not, input)),
    }
}

pub open spec fn post_patterns_any(s: Seq<PostPattern>, input: PostMatcherInput) -> Option<bool>
    decreases s,
{
    if s.len() == 0 {
        None
    } else {
        join_or(post_patterns_any(s.subrange(0, s.len() - 1), input), post_pattern_eval(s[s.len() - 1], input))
    }
}

pub open spec fn post_patterns_all(s: Seq<PostPattern>, input: PostMatcherInput) -> Option<bool>
    decreases s,
{
    if s.len() == 0 {
        None
    } else {
        join_and(post_patterns_all(s.subrange(0, s.len() - 1), input), post_pattern_eval(s[s.len() - 1], input))
    }
}

/// Whether every sub-pattern that a post pattern refers to compiles.
pub open spec fn post_parts_compile(p: PostPattern) -> bool
    decreases p,
{
    match p {
        PostPattern::Text { text } => text_pattern_compiles(text),
        PostPattern::Any { any } => post_parts_compile_list(any@),
        PostPattern::All { all } => post_parts_compile_list(all@),
        PostPattern::Not { not } => post_parts_compile(*not),
    }
}

pub open spec fn post_parts_compile_list(s: Seq<PostPattern>) -> bool
    decreases s,
{
    if s.len() == 0 {
        true
    } else {
        post_parts_compile_list(s.subrange(0, s.len() - 1)) && post_parts_compile(s[s.len() - 1])
    }
}

/// A post pattern that is an expression on every input, and whose
/// sub-patterns compile.
pub open spec fn post_pattern_compiles(p: PostPattern) -> bool {
    &&& forall|input: PostMatcherInput| #[trigger] post_pattern_eval(p, input) is Some
    &&& post_parts_compile(p)
}

/// A leaf of a post pattern, before compiling.
pub enum PostPatternLeaf<'a> {
    Text(&'a TextPattern),
}

/// A compiled leaf of a post pattern.
pub enum PostLeafMatcher {
    Text(TextMatcher),
}

impl LeafMatcher<PostMatcherInput> for PostLeafMatcher {
    open spec fn leaf_holds(&self, input: PostMatcherInput) -> bool {
        match self {
            PostLeafMatcher::Text(m) => m.holds(input.text),
        }
    }

    fn leaf_is_match(&self, input: &PostMatcherInput) -> (r: bool) {
        match self {
            PostLeafMatcher::Text(m) => m.is_match(&input.text),
        }
    }
}

impl<'a> CompileLeaf<PostLeafMatcher, PostMatcherInput> for PostPatternLeaf<'a> {
    open spec fn compiled_as(&self, m: PostLeafMatcher) -> bool {
        match self {
            PostPatternLeaf::Text(_) => m is Text,
        }
    }

    open spec fn compiles(&self) -> bool {
        match self {
            PostPatternLeaf::Text(p) => text_pattern_compiles(**p),
        }
    }

    open spec fn pattern_holds(&self, input: PostMatcherInput) -> bool {
        match self {
            PostPatternLeaf::Text(p) => text_pattern_eval(**p, input.text) == Some(true),
        }
    }

    fn compile_leaf(self) -> (r: Result<PostLeafMatcher, CompileError>) {
        match self {
            PostPatternLeaf::Text(p) => match TextMatcher::compile(p) {
                Ok(m) => Ok(PostLeafMatcher::Text(m)),
                Err(e) => Err(e),
            },
        }
    }
}

pub open spec fn post_leaf<'a>(input: PostMatcherInput) -> spec_fn(PostPatternLeaf<'a>) -> bool {
    pattern_leaf::<PostPatternLeaf<'a>, PostLeafMatcher, PostMatcherInput>(input)
}

/// Lowers a post pattern to a tree whose leaves refer to the text patterns.
pub fn lower_post_pattern<'a>(p: &'a PostPattern) -> (r: PatternNode<PostPatternLeaf<'a>>)
    ensures
        forall|input: PostMatcherInput| #[trigger] eval(r, post_leaf(input)) == post_pattern_eval(*p, input),
        post_parts_compile(*p) ==> leaves_in(r, leaf_compiles::<PostPatternLeaf<'a>, PostLeafMatcher, PostMatcherInput>()),
    decreases p,
{
    let r = match p {
        PostPattern::Text { text } => PatternNode::Leaf { leaf: PostPatternLeaf::Text(text) },
        PostPattern::Any { any } => PatternNode::Any { children: lower_post_patterns(any, true) },
        PostPattern::All { all } => PatternNode::All { children: lower_post_patterns(all, false) },
        PostPattern::Not { not } => PatternNode::Not { child: Box::new(lower_post_pattern(not)) },
    };
    proof {
        assert forall|input: PostMatcherInput| #[trigger] eval(r, post_leaf(input)) == post_pattern_eval(*p, input) by {
            match r {
                PatternNode::Leaf { leaf } => {
                    assert(eval(r, post_leaf(input)) == Some(leaf.pattern_holds(input)));
                },
                PatternNode::Any { children } => {
                    assert(eval(r, post_leaf(input)) == eval_any(children@, post_leaf(input)));
                },
                PatternNode::All { children } => {
                    assert(eval(r, post_leaf(input)) == eval_all(children@, post_leaf(input)));
                },
                PatternNode::Not { child } => {
                    assert(eval(r, post_leaf(input)) == negate(eval(*child, post_leaf(input))));
                },
            }
        }
         if post_parts_compile(*p) {
            if r is Leaf {
                assert(leaf_compiles::<PostPatternLeaf<'a>, PostLeafMatcher, PostMatcherInput>()(r->Leaf_leaf));
            }
        }
    }
    r
}

fn lower_post_patterns<'a>(ps: &'a Vec<PostPattern>, any: bool) -> (r: Vec<PatternNode<PostPatternLeaf<'a>>>)
    ensures
        forall|input: PostMatcherInput| any ==> #[trigger] eval_any(r@, post_leaf(input)) == post_patterns_any(ps@, input),
        forall|input: PostMatcherInput| !any ==> #[trigger] eval_all(r@, post_leaf(input)) == post_patterns_all(ps@, input),
        post_parts_compile_list(ps@) ==> all_leaves_in(r@, leaf_compiles::<PostPatternLeaf<'a>, PostLeafMatcher, PostMatcherInput>()),
    decreases ps,
{
    let mut out: Vec<PatternNode<PostPatternLeaf<'a>>> = Vec::new();
    let mut i: usize = 0;
    proof {
        assert(ps@.subrange(0, 0) =~= Seq::<PostPattern>::empty());
    }
    while i < ps.len()
        invariant
            i <= ps@.len(),
            forall|input: PostMatcherInput| any ==> #[trigger] eval_any(out@, post_leaf(input)) == post_patterns_any(ps@.subrange(0, i as int), input),
            forall|input: PostMatcherInput| !any ==> #[trigger] eval_all(out@, post_leaf(input)) == post_patterns_all(ps@.subrange(0, i as int), input),
            post_parts_compile_list(ps@.subrange(0, i as int)) ==> all_leaves_in(out@, leaf_compiles::<PostPatternLeaf<'a>, PostLeafMatcher, PostMatcherInput>()),
        decreases ps@.len() - i,
    {
        let ghost prev = out@;
        proof {
            assert(decreases_to!(ps => ps[i as int]));
        }
        let node = lower_post_pattern(&ps[i]);
        out.push(node);
        proof {
            let take = ps@.subrange(0, i as int);
            assert(ps@.subrange(0, i + 1).subrange(0, i as int) =~= take);
            assert forall|input: PostMatcherInput| any implies #[trigger] eval_any(out@, post_leaf(input)) == post_patterns_any(ps@.subrange(0, i + 1), input) by {
                lemma_eval_push(prev, node, post_leaf(input));
            }
            assert forall|input: PostMatcherInput| !any implies #[trigger] eval_all(out@, post_leaf(input)) == post_patterns_all(ps@.subrange(0, i + 1), input) by {
                lemma_eval_push(prev, node, post_leaf(input));
            }
            lemma_eval_push(prev, node, post_leaf(arbitrary()));
            assert(post_parts_compile_list(ps@.subrange(0, i + 1)) == (post_parts_compile_list(take) && post_parts_compile(ps@[i as int])));
        }
        i = i + 1;
    }
    proof {
        assert(ps@.subrange(0, i as int) =~= ps@);
    }
    out
}

/// Compiled user pattern.
/// Compiled tree of a post pattern.
pub struct PostMatcherInner(pub PatternNode<PostLeafMatcher>);

impl PostMatcherInner {
    /// Compiles each leaf of an optimized tree: the sub-patterns it refers
    /// to become matchers.
    pub fn from(node: PatternNode<PostPatternLeaf>) -> (r: Result<Self, CompileError>)
        ensures
            r is Ok ==> compiled_from(node, r->Ok_0.0),
            r is Ok ==> mirrors::<PostPatternLeaf, PostLeafMatcher, PostMatcherInput>(node, r->Ok_0.0),
            leaves_in(node, leaf_compiles::<PostPatternLeaf, PostLeafMatcher, PostMatcherInput>()) ==> r is Ok,
    {
        match map_leaves::<PostPatternLeaf, PostLeafMatcher, PostMatcherInput>(node) {
            Ok(tree) => Ok(PostMatcherInner(tree)),
            Err(e) => Err(e),
        }
    }
}

/// Compiled post pattern.
pub struct PostMatcher(PostMatcherInner);

impl PostMatcher {
    #[verifier::type_invariant]
    spec fn wf(self) -> bool {
        crate::pattern::compiler::no_empty(self.0.0)
    }

    /// Whether the matcher accepts `input`.
    pub closed spec fn holds(self, input: PostMatcherInput) -> bool {
        tree_holds(self.0.0, input)
    }

    /// Lowers, optimizes and compiles a post pattern, with each of its
    /// sub-patterns. The matcher accepts exactly the posts
    /// on which the pattern holds.
    pub fn compile(p: &PostPattern) -> (r: Result<PostMatcher, CompileError>)
        ensures
            r is Ok ==> forall|input: PostMatcherInput| #[trigger] post_pattern_eval(*p, input) is Some,
            r is Ok ==> forall|input: PostMatcherInput| #[trigger] r->Ok_0.holds(input) == (post_pattern_eval(*p, input) == Some(true)),
            (exists|input: PostMatcherInput| #[trigger] post_pattern_eval(*p, input) is None) ==> r is Err,
            post_pattern_compiles(*p) ==> r is Ok,
    {
        let lowered = lower_post_pattern(p);
        let ghost lw = lowered;
        match optimize(lowered) {
            Ok(optimized) => {
                let ghost op = optimized;
                match PostMatcherInner::from(optimized) {
                    Ok(inner) => {
                        let ghost tree = inner.0;
                        let m = PostMatcher(inner);
                        proof {
                            assert(compiled_from(op, tree));
                            assert forall|input: PostMatcherInput| #[trigger] post_pattern_eval(*p, input) is Some by {
                                assert(eval(op, post_leaf(input)) == eval(lw, post_leaf(input)));
                                lemma_no_empty_evaluates(op, post_leaf(input));
                            }
                            assert forall|input: PostMatcherInput| #[trigger] m.holds(input) == (post_pattern_eval(*p, input) == Some(true)) by {
                                assert(eval(op, post_leaf(input)) == eval(lw, post_leaf(input)));
                                assert(eval(tree, matcher_leaf::<PostLeafMatcher, PostMatcherInput>(input)) == eval(op, post_leaf(input)));
                            }
                        }
                        Ok(m)
                    },
                    Err(e) => {
                        proof {
                            if post_pattern_compiles(*p) {
                                assert(leaves_in(lw, leaf_compiles::<PostPatternLeaf, PostLeafMatcher, PostMatcherInput>()));
                                assert(leaves_in(op, leaf_compiles::<PostPatternLeaf, PostLeafMatcher, PostMatcherInput>()));
                            }
                        }
                        Err(e)
                    },
                }
            },
            Err(e) => {
                proof {
                    if post_pattern_compiles(*p) {
                        let input = arbitrary::<PostMatcherInput>();
                        assert(eval(lw, post_leaf(input)) is None);
                        assert(post_pattern_eval(*p, input) is Some);
                    }
                }
                Err(e)
            },
        }
    }

    /// Whether the matcher accepts `input`.
    pub fn is_match(&self, input: &PostMatcherInput) -> (r: bool)
        ensures
            r == self.holds(*input),
    {
        proof {
            use_type_invariant(self);
        }
        tree_is_match(&self.0.0, input)
    }
}

} // verus!
