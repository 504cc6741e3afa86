use crate::pattern::compiler::{
    all_no_empty, eval, eval_all, eval_any, lemma_all_no_empty_index, lemma_eval_push, lemma_eval_quantified,
    lemma_no_empty_evaluates, negate, no_empty, CompileError, PatternNode, all_leaves_in, leaves_in,
    lemma_all_leaves_in_index,
};
use crate::pattern::regex_matcher::{build_regex_set, every_set_builds, regex_set_builds, regex_set_patterns, string_views};
use vstd::prelude::*;

verus! {

broadcast use vstd::seq::axiom_seq_subrange_decreases, vstd::std_specs::vec::axiom_vec_decreases_to_view,
    vstd::std_specs::vec::axiom_vec_index_decreases;

/// A compiled leaf that tests an input of type `I`.
pub trait LeafMatcher<I> {
    spec fn leaf_holds(&self, input: I) -> bool;

    fn leaf_is_match(&self, input: &I) -> (r: bool)
        ensures
            r == self.leaf_holds(*input),
    ;
}

/// A leaf of a pattern that compiles to a leaf matcher of type `M`.
pub trait CompileLeaf<M: LeafMatcher<I>, I> {
    /// Whether the leaf holds on `input`.
    spec fn pattern_holds(&self, input: I) -> bool;

    /// A condition under which the leaf compiles.
    spec fn compiles(&self) -> bool;

    /// Whether `m` is the compiled leaf of this one.
    spec fn compiled_as(&self, m: M) -> bool;

    fn compile_leaf(self) -> (r: Result<M, CompileError>)
        ensures
            self.compiles() ==> r is Ok,
            r is Ok ==> self.compiled_as(r->Ok_0),
            r is Ok ==> forall|input: I| #[trigger] r->Ok_0.leaf_holds(input) == self.pattern_holds(input),
    ;
}

/// Leaves that satisfy their condition to compile.
pub open spec fn leaf_compiles<A: CompileLeaf<B, I>, B: LeafMatcher<I>, I>() -> spec_fn(A) -> bool {
    |a: A| a.compiles()
}

/// Whether `b` has the shape of `a`, each leaf compiled: the compiled leaf
/// of each leaf, the same lists with one node for each child in order, a
/// negation for each negation.
pub open spec fn mirrors<A: CompileLeaf<B, I>, B: LeafMatcher<I>, I>(a: PatternNode<A>, b: PatternNode<B>) -> bool
    decreases a,
{
    match a {
        PatternNode::Leaf { leaf } => b is Leaf && leaf.compiled_as(b->Leaf_leaf),
        PatternNode::Any { children } => b is Any && mirrors_list::<A, B, I>(children@, b->Any_children@),
        PatternNode::All { children } => b is All && mirrors_list::<A, B, I>(children@, b->All_children@),
        PatternNode::Not { child } => b is Not && mirrors::<A, B, I>(*child, *b->Not_child),
    }
}

pub open spec fn mirrors_list<A: CompileLeaf<B, I>, B: LeafMatcher<I>, I>(s: Seq<PatternNode<A>>, t: Seq<PatternNode<B>>) -> bool
    decreases s,
{
    s.len() == t.len() && (s.len() == 0 || (mirrors_list::<A, B, I>(s.subrange(0, s.len() - 1), t.subrange(0, t.len() - 1))
        && mirrors::<A, B, I>(s[s.len() - 1], t[t.len() - 1])))
}

/// Leaf valuation of compiled leaves on a given input.
pub open spec fn matcher_leaf<L: LeafMatcher<I>, I>(input: I) -> spec_fn(L) -> bool {
    |l: L| l.leaf_holds(input)
}

/// Whether a compiled tree accepts `input`.
pub open spec fn tree_holds<L: LeafMatcher<I>, I>(n: PatternNode<L>, input: I) -> bool {
    eval(n, matcher_leaf::<L, I>(input)) == Some(true)
}

/// Two lists whose nodes agree one by one agree under `Any` and `All`.
pub proof fn lemma_lists_agree<A, B>(s: Seq<PatternNode<A>>, t: Seq<PatternNode<B>>, fa: spec_fn(A) -> bool, fb: spec_fn(B) -> bool)
    requires
        s.len() == t.len(),
        forall|j: int| 0 <= j < s.len() ==> #[trigger] eval(s[j], fa) == eval(t[j], fb),
    ensures
        eval_any(s, fa) == eval_any(t, fb),
        eval_all(s, fa) == eval_all(t, fb),
    decreases s.len(),
{
    if s.len() > 0 {
        let k = s.len() - 1;
        let s0 = s.subrange(0, k);
        let t0 = t.subrange(0, k);
        assert forall|j: int| 0 <= j < s0.len() implies #[trigger] eval(s0[j], fa) == eval(t0[j], fb) by {
            assert(eval(s[j], fa) == eval(t[j], fb));
        }
        lemma_lists_agree(s0, t0, fa, fb);
        assert(eval(s[k], fa) == eval(t[k], fb));
    }
}

/// Evaluates a compiled tree without empty lists on `input`.
#[verifier::loop_isolation(false)]
pub fn tree_is_match<L: LeafMatcher<I>, I>(n: &PatternNode<L>, input: &I) -> (r: bool)
    requires
        no_empty(*n),
    ensures
        r == tree_holds(*n, *input),
    decreases n,
{
    let ghost f = matcher_leaf::<L, I>(*input);
    match n {
        PatternNode::Leaf { leaf } => {
            let r = leaf.leaf_is_match(input);
            assert(eval(*n, f) == Some(leaf.leaf_holds(*input)));
            assert(tree_holds(*n, *input) == r);
            r
        },
        PatternNode::Any { children } => {
            proof {
                lemma_all_no_empty_index(children@);
                assert(children@.len() > 0);
                assert(children@.subrange(0, 0) =~= Seq::<PatternNode<L>>::empty());
            }
            let mut i: usize = 0;
            while i < children.len()
                invariant
                    i <= children@.len(),
                    eval_any(children@.subrange(0, i as int), f) != Some(true),
                    i > 0 ==> eval_any(children@.subrange(0, i as int), f) is Some,
                decreases children@.len() - i,
            {
                let hit = tree_is_match(&children[i], input);
                proof {
                    let take = children@.subrange(0, i as int);
                    assert(children@.subrange(0, i + 1) =~= take.push(children@[i as int]));
                    lemma_eval_push(take, children@[i as int], f);
                    lemma_no_empty_evaluates(children@[i as int], f);
                }
                if hit {
                    proof {
                        lemma_prefix_true(children@, i + 1, f);
                        assert(eval(*n, f) == eval_any(children@, f));
                        assert(tree_holds(*n, *input));
                    }
                    return true;
                }
                i = i + 1;
            }
            proof {
                assert(children@.subrange(0, i as int) =~= children@);
                assert(eval(*n, f) == eval_any(children@, f));
            }
            false
        },
        PatternNode::All { children } => {
            proof {
                lemma_all_no_empty_index(children@);
                assert(children@.len() > 0);
                assert(children@.subrange(0, 0) =~= Seq::<PatternNode<L>>::empty());
            }
            let mut i: usize = 0;
            while i < children.len()
                invariant
                    i <= children@.len(),
                    children@.len() > 0,
                    eval_all(children@.subrange(0, i as int), f) != Some(false),
                    i > 0 ==> eval_all(children@.subrange(0, i as int), f) is Some,
                decreases children@.len() - i,
            {
                let hit = tree_is_match(&children[i], input);
                proof {
                    let take = children@.subrange(0, i as int);
                    assert(children@.subrange(0, i + 1) =~= take.push(children@[i as int]));
                    lemma_eval_push(take, children@[i as int], f);
                    lemma_no_empty_evaluates(children@[i as int], f);
                }
                if !hit {
                    proof {
                        lemma_prefix_true(children@, i + 1, f);
                        assert(eval_all(children@.subrange(0, i + 1), f) == Some(false));
                        assert(eval(*n, f) == eval_all(children@, f));
                    }
                    return false;
                }
                i = i + 1;
            }
            proof {
                assert(children@.subrange(0, i as int) =~= children@);
                assert(i > 0);
                assert(eval_all(children@, f) is Some);
                assert(eval_all(children@, f) != Some(false));
                assert(eval_all(children@, f) == Some(true));
                assert(eval(*n, f) == eval_all(children@, f));
                assert(tree_holds(*n, *input));
            }
            true
        },
        PatternNode::Not { child } => {
            proof {
                lemma_no_empty_evaluates(**child, f);
            }
            let inner = tree_is_match(child, input);
            assert(eval(*n, f) == negate(eval(**child, f)));
            assert(tree_holds(*n, *input) == !inner);
            !inner
        },
    }
}

/// Once a prefix of an `Any` list holds, the list holds; once a prefix of an
/// `All` list fails, the list fails.
pub proof fn lemma_prefix_true<L>(s: Seq<PatternNode<L>>, i: int, f: spec_fn(L) -> bool)
    requires
        0 <= i <= s.len(),
    ensures
        eval_any(s.subrange(0, i), f) == Some(true) ==> eval_any(s, f) == Some(true),
        eval_all(s.subrange(0, i), f) == Some(false) ==> eval_all(s, f) == Some(false),
    decreases s.len(),
{
    if i < s.len() {
        let s0 = s.subrange(0, s.len() - 1);
        assert(s0.subrange(0, i) =~= s.subrange(0, i));
        lemma_prefix_true(s0, i, f);
    } else {
        assert(s.subrange(0, i) =~= s);
    }
}

/// Pattern leaf valuation on a given input.
pub open spec fn pattern_leaf<A: CompileLeaf<B, I>, B: LeafMatcher<I>, I>(input: I) -> spec_fn(A) -> bool {
    |a: A| a.pattern_holds(input)
}

/// Whether `b` is a compilation of `a`: it keeps the absence of empty lists,
/// and has the same truth value on every input.
pub open spec fn compiled_from<A: CompileLeaf<B, I>, B: LeafMatcher<I>, I>(a: PatternNode<A>, b: PatternNode<B>) -> bool {
    &&& (no_empty(a) ==> no_empty(b))
    &&& forall|input: I| #[trigger] eval(b, matcher_leaf::<B, I>(input)) == eval(a, pattern_leaf::<A, B, I>(input))
}

/// Compiles every leaf of a tree, keeping its shape.
pub fn map_leaves<A: CompileLeaf<B, I>, B: LeafMatcher<I>, I>(node: PatternNode<A>) -> (r: Result<PatternNode<B>, CompileError>)
    ensures
        r is Ok ==> compiled_from(node, r->Ok_0),
        r is Ok ==> mirrors::<A, B, I>(node, r->Ok_0),
        leaves_in(node, leaf_compiles::<A, B, I>()) ==> r is Ok,
    decreases node,
{
    let ghost g = node;
    match node {
        PatternNode::Leaf { leaf } => {
            let ghost a = leaf;
            match leaf.compile_leaf() {
                Ok(m) => {
                    let r = PatternNode::Leaf { leaf: m };
                    assert forall|input: I| #[trigger] eval(r, matcher_leaf::<B, I>(input)) == eval(g, pattern_leaf::<A, B, I>(input)) by {
                        assert(m.leaf_holds(input) == a.pattern_holds(input));
                    }
                    Ok(r)
                },
                Err(e) => Err(e),
            }
        },
        PatternNode::Any { children } => {
            let ghost cs = children@;
            match map_children::<A, B, I>(children) {
                Ok(ms) => {
                    let r = PatternNode::Any { children: ms };
                    assert forall|input: I| #[trigger] eval(r, matcher_leaf::<B, I>(input)) == eval(g, pattern_leaf::<A, B, I>(input)) by {
                        assert forall|j: int| 0 <= j < ms@.len() implies #[trigger] eval(ms@[j], matcher_leaf::<B, I>(input)) == eval(cs[j], pattern_leaf::<A, B, I>(input)) by {
                            assert(compiled_from(cs[j], ms@[j]));
                        }
                        lemma_lists_agree(ms@, cs, matcher_leaf::<B, I>(input), pattern_leaf::<A, B, I>(input));
                    }
                    Ok(r)
                },
                Err(e) => Err(e),
            }
        },
        PatternNode::All { children } => {
            let ghost cs = children@;
            match map_children::<A, B, I>(children) {
                Ok(ms) => {
                    let r = PatternNode::All { children: ms };
                    assert forall|input: I| #[trigger] eval(r, matcher_leaf::<B, I>(input)) == eval(g, pattern_leaf::<A, B, I>(input)) by {
                        assert forall|j: int| 0 <= j < ms@.len() implies #[trigger] eval(ms@[j], matcher_leaf::<B, I>(input)) == eval(cs[j], pattern_leaf::<A, B, I>(input)) by {
                            assert(compiled_from(cs[j], ms@[j]));
                        }
                        lemma_lists_agree(ms@, cs, matcher_leaf::<B, I>(input), pattern_leaf::<A, B, I>(input));
                    }
                    Ok(r)
                },
                Err(e) => Err(e),
            }
        },
        PatternNode::Not { child } => {
            let ghost c = *child;
            match map_leaves::<A, B, I>(*child) {
                Ok(m) => {
                    let r = PatternNode::Not { child: Box::new(m) };
                    assert forall|input: I| #[trigger] eval(r, matcher_leaf::<B, I>(input)) == eval(g, pattern_leaf::<A, B, I>(input)) by {
                        assert(eval(m, matcher_leaf::<B, I>(input)) == eval(c, pattern_leaf::<A, B, I>(input)));
                    }
                    Ok(r)
                },
                Err(e) => Err(e),
            }
        },
    }
}

fn map_children<A: CompileLeaf<B, I>, B: LeafMatcher<I>, I>(children: Vec<PatternNode<A>>) -> (r: Result<Vec<PatternNode<B>>, CompileError>)
    ensures
        r is Ok ==> r->Ok_0@.len() == children@.len() && (all_no_empty(children@) ==> all_no_empty(r->Ok_0@))
            && forall|j: int| 0 <= j < children@.len() ==> #[trigger] compiled_from(children@[j], r->Ok_0@[j]),
        r is Ok ==> mirrors_list::<A, B, I>(children@, r->Ok_0@),
        all_leaves_in(children@, leaf_compiles::<A, B, I>()) ==> r is Ok,
    decreases children,
{
    let ghost orig = children;
    let mut rest = children;
    let mut out: Vec<PatternNode<B>> = Vec::new();
    let n: usize = rest.len();
    let mut i: usize = 0;
    proof {
        lemma_all_no_empty_index(orig@);
        assert(orig@.subrange(0, 0) =~= Seq::<PatternNode<A>>::empty());
    }
    while i < n
        invariant
            orig == children,
            n == orig@.len(),
            i <= n,
            rest@ == orig@.subrange(i as int, n as int),
            out@.len() == i,
            all_no_empty(orig@) <==> forall|j: int| 0 <= j < orig@.len() ==> no_empty(#[trigger] orig@[j]),
            forall|j: int| 0 <= j < i ==> #[trigger] compiled_from(orig@[j], out@[j]),
            mirrors_list::<A, B, I>(orig@.subrange(0, i as int), out@),
        decreases n - i,
    {
        let child = rest.remove(0);
        assert(child == orig[i as int]);
        proof {
            assert(decreases_to!(orig => orig[i as int]));
        }
        match map_leaves::<A, B, I>(child) {
            Ok(m) => {
                let ghost prev = out@;
                out.push(m);
                proof {
                    let t = orig@.subrange(0, i + 1);
                    assert(t.subrange(0, i as int) =~= orig@.subrange(0, i as int));
                    assert(out@.subrange(0, i as int) =~= prev);
                }
            },
            Err(e) => {
                proof {
                    lemma_all_leaves_in_index(orig@, leaf_compiles::<A, B, I>());
                }
                return Err(e);
            },
        }
        i = i + 1;
        proof {
            assert(rest@ =~= orig@.subrange(i as int, n as int));
        }
    }
    proof {
        assert(orig@.subrange(0, n as int) =~= orig@);
        lemma_all_no_empty_index(out@);
        if all_no_empty(orig@) {
            assert forall|j: int| 0 <= j < out@.len() implies no_empty(#[trigger] out@[j]) by {
                assert(compiled_from(orig@[j], out@[j]));
            }
        }
    }
    Ok(out)
}

/// A pattern leaf that may be a regex of some kind; lists of regex leaves
/// of one kind are fused into one regex set.
pub trait FuseLeaf<M: LeafMatcher<I>, I>: CompileLeaf<M, I> + Sized {
    /// Whether a regex of this kind holds on the input.
    spec fn kind_holds(kind: u8, pattern: Seq<char>, input: I) -> bool;

    /// The kind of the leaf, if it is a regex.
    spec fn regex_kind(&self) -> Option<u8>;

    /// The regex of a regex leaf.
    spec fn regex_source(&self) -> Seq<char>;

    proof fn lemma_regex_leaf(&self, input: I)
        requires
            self.regex_kind() is Some,
        ensures
            self.pattern_holds(input) == Self::kind_holds(self.regex_kind()->0, self.regex_source(), input),
    ;

    fn kind(&self) -> (r: Option<u8>)
        ensures
            r == self.regex_kind(),
    ;

    fn into_regex(self) -> (r: String)
        ensures
            r@ == self.regex_source(),
    ;

    /// Whether `m` is the leaf matcher of a regex set of `patterns` of one
    /// kind, under `Any` (`any`) or `All`.
    spec fn is_fused(m: M, kind: u8, any: bool, patterns: Seq<Seq<char>>) -> bool;

    /// The leaf matcher of a regex set of one kind, under `Any` (`any`) or
    /// `All`.
    fn fused(kind: u8, any: bool, set: regex::RegexSet) -> (r: M)
        requires
            regex_set_patterns(set).len() > 0,
        ensures
            Self::is_fused(r, kind, any, regex_set_patterns(set)),
            forall|input: I| any ==> #[trigger] r.leaf_holds(input) == (exists|i: int| 0 <= i < regex_set_patterns(set).len() && #[trigger] Self::kind_holds(kind, regex_set_patterns(set)[i], input)),
            forall|input: I| !any ==> #[trigger] r.leaf_holds(input) == (forall|i: int| 0 <= i < regex_set_patterns(set).len() ==> #[trigger] Self::kind_holds(kind, regex_set_patterns(set)[i], input)),
    ;
}

/// What a fused set of regexes of one kind holds on.
pub open spec fn fused_holds<M: LeafMatcher<I>, I, A: FuseLeaf<M, I>>(kind: u8, any: bool, patterns: Seq<Seq<char>>, input: I) -> bool {
    if any {
        exists|i: int| 0 <= i < patterns.len() && #[trigger] A::kind_holds(kind, patterns[i], input)
    } else {
        forall|i: int| 0 <= i < patterns.len() ==> #[trigger] A::kind_holds(kind, patterns[i], input)
    }
}

/// The regexes of a list of regex leaves.
pub open spec fn regex_sources<M: LeafMatcher<I>, I, A: FuseLeaf<M, I>>(s: Seq<PatternNode<A>>) -> Seq<Seq<char>> {
    s.map_values(
        |n: PatternNode<A>|
            match n {
                PatternNode::Leaf { leaf } => leaf.regex_source(),
                _ => Seq::empty(),
            },
    )
}

/// Leaves that compile and whose regex, if they are one, is drawn from
/// `regexes`.
pub open spec fn fuse_ready<M: LeafMatcher<I>, I, A: FuseLeaf<M, I>>(regexes: Set<Seq<char>>) -> spec_fn(A) -> bool {
    |a: A| a.compiles() && (a.regex_kind() is Some ==> regexes.contains(a.regex_source()))
}

/// Whether every node is a regex leaf of kind `kind`.
pub open spec fn all_of_kind<M: LeafMatcher<I>, I, A: FuseLeaf<M, I>>(s: Seq<PatternNode<A>>, kind: u8) -> bool {
    forall|j: int| 0 <= j < s.len() ==> ((#[trigger] s[j]) matches PatternNode::Leaf { leaf } && leaf.regex_kind() == Some(kind))
}

fn list_kind<M: LeafMatcher<I>, I, A: FuseLeaf<M, I>>(children: &Vec<PatternNode<A>>) -> (r: Option<u8>)
    requires
        children@.len() > 0,
    ensures
        r is Some ==> all_of_kind::<M, I, A>(children@, r->0),
        r is None ==> forall|k: u8| !all_of_kind::<M, I, A>(children@, k),
{
    let first = match &children[0] {
        PatternNode::Leaf { leaf } => match leaf.kind() {
            Some(k) => k,
            None => {
                assert forall|k: u8| !all_of_kind::<M, I, A>(children@, k) by {
                    assert(!(children@[0] matches PatternNode::Leaf { leaf } && leaf.regex_kind() == Some(k)));
                }
                return None;
            },
        },
        _ => {
            assert forall|k: u8| !all_of_kind::<M, I, A>(children@, k) by {
                assert(!(children@[0] matches PatternNode::Leaf { leaf } && leaf.regex_kind() == Some(k)));
            }
            return None;
        },
    };
    let mut i: usize = 1;
    while i < children.len()
        invariant
            1 <= i <= children@.len(),
            children@[0] matches PatternNode::Leaf { leaf } && leaf.regex_kind() == Some(first),
            forall|j: int| 0 <= j < i ==> ((#[trigger] children@[j]) matches PatternNode::Leaf { leaf } && leaf.regex_kind() == Some(first)),
        decreases children@.len() - i,
    {
        let same = match &children[i] {
            PatternNode::Leaf { leaf } => match leaf.kind() {
                Some(k) => k == first,
                None => false,
            },
            _ => false,
        };
        if !same {
            assert forall|k: u8| !all_of_kind::<M, I, A>(children@, k) by {
                if all_of_kind::<M, I, A>(children@, k) {
                    assert(children@[0] matches PatternNode::Leaf { leaf } && leaf.regex_kind() == Some(k));
                    assert(children@[i as int] matches PatternNode::Leaf { leaf } && leaf.regex_kind() == Some(k));
                }
            }
            return None;
        }
        i = i + 1;
    }
    Some(first)
}

/// Takes the regexes out of a list of regex leaves.
fn take_regexes<M: LeafMatcher<I>, I, A: FuseLeaf<M, I>>(children: Vec<PatternNode<A>>, kind: Ghost<u8>) -> (r: Vec<String>)
    requires
        all_of_kind::<M, I, A>(children@, kind@),
    ensures
        r@.len() == children@.len(),
        forall|j: int| 0 <= j < r@.len() ==> ((#[trigger] children@[j]) matches PatternNode::Leaf { leaf } && leaf.regex_source() == r@[j]@),
{
    let ghost orig = children@;
    let mut rest = children;
    let mut out: Vec<String> = Vec::new();
    let n: usize = rest.len();
    let mut i: usize = 0;
    while i < n
        invariant
            n == orig.len(),
            i <= n,
            all_of_kind::<M, I, A>(orig, kind@),
            rest@ == orig.subrange(i as int, n as int),
            out@.len() == i,
            forall|j: int| 0 <= j < i ==> ((#[trigger] orig[j]) matches PatternNode::Leaf { leaf } && leaf.regex_source() == out@[j]@),
        decreases n - i,
    {
        let child = rest.remove(0);
        assert(child == orig[i as int]);
        match child {
            PatternNode::Leaf { leaf } => {
                out.push(leaf.into_regex());
            },
            _ => {
                assert(false);
            },
        }
        i = i + 1;
        proof {
            assert(rest@ =~= orig.subrange(i as int, n as int));
        }
    }
    out
}

/// The regexes taken out of a list of regex leaves are its regex sources,
/// and they build into a set when they are drawn from a set whose every
/// sequence builds.
proof fn lemma_group_builds<M: LeafMatcher<I>, I, A: FuseLeaf<M, I>>(cs: Seq<PatternNode<A>>, kind: u8, patterns: Seq<String>, regexes: Set<Seq<char>>)
    requires
        cs.len() > 0,
        all_of_kind::<M, I, A>(cs, kind),
        patterns.len() == cs.len(),
        forall|j: int| 0 <= j < patterns.len() ==> ((#[trigger] cs[j]) matches PatternNode::Leaf { leaf } && leaf.regex_source() == patterns[j]@),
    ensures
        regex_sources::<M, I, A>(cs) == string_views(patterns),
        all_leaves_in(cs, fuse_ready::<M, I, A>(regexes)) && every_set_builds(regexes) ==> regex_set_builds(string_views(patterns)),
{
    assert forall|j: int| 0 <= j < cs.len() implies #[trigger] regex_sources::<M, I, A>(cs)[j] == string_views(patterns)[j] by {
        assert(cs[j] matches PatternNode::Leaf { leaf } && leaf.regex_source() == patterns[j]@);
    }
    assert(regex_sources::<M, I, A>(cs) =~= string_views(patterns));
    if all_leaves_in(cs, fuse_ready::<M, I, A>(regexes)) && every_set_builds(regexes) {
        lemma_all_leaves_in_index(cs, fuse_ready::<M, I, A>(regexes));
        let ps = string_views(patterns);
        assert forall|k: int| 0 <= k < ps.len() implies regexes.contains(#[trigger] ps[k]) by {
            assert(leaves_in(cs[k], fuse_ready::<M, I, A>(regexes)));
            assert(cs[k] matches PatternNode::Leaf { leaf } && leaf.regex_kind() == Some(kind));
        }
        assert(regex_set_builds(ps));
    }
}

/// A list of `n` regex leaves of one kind holds exactly when the fused set
/// of their regexes does.
proof fn lemma_fused<M: LeafMatcher<I>, I, A: FuseLeaf<M, I>>(cs: Seq<PatternNode<A>>, kind: u8, patterns: Seq<Seq<char>>, input: I)
    requires
        cs.len() > 0,
        cs.len() == patterns.len(),
        all_of_kind::<M, I, A>(cs, kind),
        forall|j: int| 0 <= j < cs.len() ==> ((#[trigger] cs[j]) matches PatternNode::Leaf { leaf } && leaf.regex_source() == patterns[j]),
    ensures
        eval_any(cs, pattern_leaf::<A, M, I>(input)) == Some(fused_holds::<M, I, A>(kind, true, patterns, input)),
        eval_all(cs, pattern_leaf::<A, M, I>(input)) == Some(fused_holds::<M, I, A>(kind, false, patterns, input)),
{
    let f = pattern_leaf::<A, M, I>(input);
    assert forall|j: int| 0 <= j < cs.len() implies no_empty(#[trigger] cs[j]) by {}
    lemma_all_no_empty_index(cs);
    lemma_eval_quantified(cs, f);
    assert forall|j: int| 0 <= j < cs.len() implies #[trigger] eval(cs[j], f) == Some(A::kind_holds(kind, patterns[j], input)) by {
        let leaf = cs[j]->Leaf_leaf;
        leaf.lemma_regex_leaf(input);
    }
    if fused_holds::<M, I, A>(kind, true, patterns, input) {
        let i = choose|i: int| 0 <= i < patterns.len() && #[trigger] A::kind_holds(kind, patterns[i], input);
        assert(eval(cs[i], f) == Some(true));
    }
    if eval_any(cs, f) == Some(true) {
        let i = choose|i: int| 0 <= i < cs.len() && #[trigger] eval(cs[i], f) == Some(true);
        assert(A::kind_holds(kind, patterns[i], input));
    }
    if !fused_holds::<M, I, A>(kind, false, patterns, input) {
        let i = choose|i: int| 0 <= i < patterns.len() && !#[trigger] A::kind_holds(kind, patterns[i], input);
        assert(eval(cs[i], f) != Some(true));
    }
    if eval_all(cs, f) != Some(true) {
        let i = choose|i: int| 0 <= i < cs.len() && !(#[trigger] eval(cs[i], f) == Some(true));
        assert(!A::kind_holds(kind, patterns[i], input));
    }
}

/// Compiles every leaf of a tree, and fuses each list of regex leaves of
/// one kind into one regex set.
pub fn fuse_leaves<M: LeafMatcher<I>, I, A: FuseLeaf<M, I>>(node: PatternNode<A>) -> (r: Result<PatternNode<M>, CompileError>)
    requires
        no_empty(node),
    ensures
        r is Ok ==> compiled_from(node, r->Ok_0),
        forall|regexes: Set<Seq<char>>|
            #[trigger] leaves_in(node, fuse_ready::<M, I, A>(regexes)) && every_set_builds(regexes) ==> r is Ok,
        forall|k: u8|
            r is Ok && node is Any && #[trigger] all_of_kind::<M, I, A>(node->Any_children@, k) ==> r->Ok_0 is Leaf
                && A::is_fused(r->Ok_0->Leaf_leaf, k, true, regex_sources::<M, I, A>(node->Any_children@)),
        forall|k: u8|
            r is Ok && node is All && #[trigger] all_of_kind::<M, I, A>(node->All_children@, k) ==> r->Ok_0 is Leaf
                && A::is_fused(r->Ok_0->Leaf_leaf, k, false, regex_sources::<M, I, A>(node->All_children@)),
        r is Ok && node is Any && !(exists|k: u8| all_of_kind::<M, I, A>(node->Any_children@, k)) ==> r->Ok_0 is Any
            && r->Ok_0->Any_children@.len() == node->Any_children@.len()
            && forall|j: int| 0 <= j < node->Any_children@.len() ==> #[trigger] compiled_from(node->Any_children@[j], r->Ok_0->Any_children@[j]),
        r is Ok && node is All && !(exists|k: u8| all_of_kind::<M, I, A>(node->All_children@, k)) ==> r->Ok_0 is All
            && r->Ok_0->All_children@.len() == node->All_children@.len()
            && forall|j: int| 0 <= j < node->All_children@.len() ==> #[trigger] compiled_from(node->All_children@[j], r->Ok_0->All_children@[j]),
    decreases node,
{
    let ghost g = node;
    match node {
        PatternNode::Leaf { leaf } => {
            let ghost a = leaf;
            match leaf.compile_leaf() {
                Ok(m) => {
                    let r = PatternNode::Leaf { leaf: m };
                    assert forall|input: I| #[trigger] eval(r, matcher_leaf::<M, I>(input)) == eval(g, pattern_leaf::<A, M, I>(input)) by {
                        assert(m.leaf_holds(input) == a.pattern_holds(input));
                    }
                    Ok(r)
                },
                Err(e) => {
                    proof {
                        assert forall|regexes: Set<Seq<char>>| #[trigger] leaves_in(g, fuse_ready::<M, I, A>(regexes)) implies !every_set_builds(regexes) by {
                            assert(fuse_ready::<M, I, A>(regexes)(a));
                        }
                    }
                    Err(e)
                },
            }
        },
        PatternNode::Any { children } => {
            let ghost cs = children@;
            match list_kind::<M, I, A>(&children) {
                Some(kind) => {
                    let patterns = take_regexes::<M, I, A>(children, Ghost(kind));
                    proof {
                        assert forall|regexes: Set<Seq<char>>| #![trigger fuse_ready::<M, I, A>(regexes)] true implies (all_leaves_in(cs, fuse_ready::<M, I, A>(regexes)) && every_set_builds(regexes) ==> regex_set_builds(string_views(patterns@))) by {
                            lemma_group_builds::<M, I, A>(cs, kind, patterns@, regexes);
                        }
                        lemma_group_builds::<M, I, A>(cs, kind, patterns@, Set::empty());
                        assert forall|k: u8| #[trigger] all_of_kind::<M, I, A>(cs, k) implies k == kind by {
                            assert(cs[0] matches PatternNode::Leaf { leaf } && leaf.regex_kind() == Some(k));
                        }
                    }
                    match build_regex_set(&patterns) {
                        Some(set) => {
                            let m = A::fused(kind, true, set);
                            let r = PatternNode::Leaf { leaf: m };
                            assert forall|input: I| #[trigger] eval(r, matcher_leaf::<M, I>(input)) == eval(g, pattern_leaf::<A, M, I>(input)) by {
                                lemma_fused::<M, I, A>(cs, kind, string_views(patterns@), input);
                            }
                            Ok(r)
                        },
                        None => {
                            proof {
                                assert forall|regexes: Set<Seq<char>>| #[trigger] leaves_in(g, fuse_ready::<M, I, A>(regexes)) implies !every_set_builds(regexes) by {
                                    assert(all_leaves_in(cs, fuse_ready::<M, I, A>(regexes)));
                                }
                            }
                            Err(CompileError::InvalidRegex)
                        },
                    }
                },
                None => match fuse_children::<M, I, A>(children) {
                    Ok(ms) => {
                        let r = PatternNode::Any { children: ms };
                        assert forall|input: I| #[trigger] eval(r, matcher_leaf::<M, I>(input)) == eval(g, pattern_leaf::<A, M, I>(input)) by {
                            assert forall|j: int| 0 <= j < ms@.len() implies #[trigger] eval(ms@[j], matcher_leaf::<M, I>(input)) == eval(cs[j], pattern_leaf::<A, M, I>(input)) by {
                                assert(compiled_from(cs[j], ms@[j]));
                            }
                            lemma_lists_agree(ms@, cs, matcher_leaf::<M, I>(input), pattern_leaf::<A, M, I>(input));
                        }
                        Ok(r)
                    },
                    Err(e) => {
                        proof {
                            assert forall|regexes: Set<Seq<char>>| #[trigger] leaves_in(g, fuse_ready::<M, I, A>(regexes)) implies !every_set_builds(regexes) by {
                                assert(all_leaves_in(cs, fuse_ready::<M, I, A>(regexes)));
                            }
                        }
                        Err(e)
                    },
                },
            }
        },
        PatternNode::All { children } => {
            let ghost cs = children@;
            match list_kind::<M, I, A>(&children) {
                Some(kind) => {
                    let patterns = take_regexes::<M, I, A>(children, Ghost(kind));
                    proof {
                        assert forall|regexes: Set<Seq<char>>| #![trigger fuse_ready::<M, I, A>(regexes)] true implies (all_leaves_in(cs, fuse_ready::<M, I, A>(regexes)) && every_set_builds(regexes) ==> regex_set_builds(string_views(patterns@))) by {
                            lemma_group_builds::<M, I, A>(cs, kind, patterns@, regexes);
                        }
                        lemma_group_builds::<M, I, A>(cs, kind, patterns@, Set::empty());
                        assert forall|k: u8| #[trigger] all_of_kind::<M, I, A>(cs, k) implies k == kind by {
                            assert(cs[0] matches PatternNode::Leaf { leaf } && leaf.regex_kind() == Some(k));
                        }
                    }
                    match build_regex_set(&patterns) {
                        Some(set) => {
                            let m = A::fused(kind, false, set);
                            let r = PatternNode::Leaf { leaf: m };
                            assert forall|input: I| #[trigger] eval(r, matcher_leaf::<M, I>(input)) == eval(g, pattern_leaf::<A, M, I>(input)) by {
                                lemma_fused::<M, I, A>(cs, kind, string_views(patterns@), input);
                            }
                            Ok(r)
                        },
                        None => {
                            proof {
                                assert forall|regexes: Set<Seq<char>>| #[trigger] leaves_in(g, fuse_ready::<M, I, A>(regexes)) implies !every_set_builds(regexes) by {
                                    assert(all_leaves_in(cs, fuse_ready::<M, I, A>(regexes)));
                                }
                            }
                            Err(CompileError::InvalidRegex)
                        },
                    }
                },
                None => match fuse_children::<M, I, A>(children) {
                    Ok(ms) => {
                        let r = PatternNode::All { children: ms };
                        assert forall|input: I| #[trigger] eval(r, matcher_leaf::<M, I>(input)) == eval(g, pattern_leaf::<A, M, I>(input)) by {
                            assert forall|j: int| 0 <= j < ms@.len() implies #[trigger] eval(ms@[j], matcher_leaf::<M, I>(input)) == eval(cs[j], pattern_leaf::<A, M, I>(input)) by {
                                assert(compiled_from(cs[j], ms@[j]));
                            }
                            lemma_lists_agree(ms@, cs, matcher_leaf::<M, I>(input), pattern_leaf::<A, M, I>(input));
                        }
                        Ok(r)
                    },
                    Err(e) => {
                        proof {
                            assert forall|regexes: Set<Seq<char>>| #[trigger] leaves_in(g, fuse_ready::<M, I, A>(regexes)) implies !every_set_builds(regexes) by {
                                assert(all_leaves_in(cs, fuse_ready::<M, I, A>(regexes)));
                            }
                        }
                        Err(e)
                    },
                },
            }
        },
        PatternNode::Not { child } => {
            let ghost c = *child;
            match fuse_leaves::<M, I, A>(*child) {
                Ok(m) => {
                    let r = PatternNode::Not { child: Box::new(m) };
                    assert forall|input: I| #[trigger] eval(r, matcher_leaf::<M, I>(input)) == eval(g, pattern_leaf::<A, M, I>(input)) by {
                        assert(eval(m, matcher_leaf::<M, I>(input)) == eval(c, pattern_leaf::<A, M, I>(input)));
                    }
                    Ok(r)
                },
                Err(e) => {
                    proof {
                        assert forall|regexes: Set<Seq<char>>| #[trigger] leaves_in(g, fuse_ready::<M, I, A>(regexes)) implies !every_set_builds(regexes) by {
                            assert(leaves_in(c, fuse_ready::<M, I, A>(regexes)));
                        }
                    }
                    Err(e)
                },
            }
        },
    }
}

fn fuse_children<M: LeafMatcher<I>, I, A: FuseLeaf<M, I>>(children: Vec<PatternNode<A>>) -> (r: Result<Vec<PatternNode<M>>, CompileError>)
    requires
        all_no_empty(children@),
    ensures
        r is Ok ==> r->Ok_0@.len() == children@.len() && all_no_empty(r->Ok_0@)
            && forall|j: int| 0 <= j < children@.len() ==> #[trigger] compiled_from(children@[j], r->Ok_0@[j]),
        forall|regexes: Set<Seq<char>>|
            #[trigger] all_leaves_in(children@, fuse_ready::<M, I, A>(regexes)) && every_set_builds(regexes) ==> r is Ok,
    decreases children,
{
    let ghost orig = children;
    let mut rest = children;
    let mut out: Vec<PatternNode<M>> = Vec::new();
    let n: usize = rest.len();
    let mut i: usize = 0;
    proof {
        lemma_all_no_empty_index(orig@);
    }
    while i < n
        invariant
            orig == children,
            n == orig@.len(),
            i <= n,
            rest@ == orig@.subrange(i as int, n as int),
            out@.len() == i,
            forall|j: int| 0 <= j < orig@.len() ==> no_empty(#[trigger] orig@[j]),
            forall|j: int| 0 <= j < i ==> #[trigger] compiled_from(orig@[j], out@[j]),
        decreases n - i,
    {
        let child = rest.remove(0);
        assert(child == orig[i as int]);
        proof {
            assert(decreases_to!(orig => orig[i as int]));
        }
        match fuse_leaves::<M, I, A>(child) {
            Ok(m) => {
                out.push(m);
            },
            Err(e) => {
                proof {
                    assert forall|regexes: Set<Seq<char>>| #[trigger] all_leaves_in(orig@, fuse_ready::<M, I, A>(regexes)) implies !every_set_builds(regexes) by {
                        lemma_all_leaves_in_index(orig@, fuse_ready::<M, I, A>(regexes));
                        assert(leaves_in(orig@[i as int], fuse_ready::<M, I, A>(regexes)));
                    }
                }
                return Err(e);
            },
        }
        i = i + 1;
        proof {
            assert(rest@ =~= orig@.subrange(i as int, n as int));
        }
    }
    proof {
        lemma_all_no_empty_index(out@);
        assert forall|j: int| 0 <= j < out@.len() implies no_empty(#[trigger] out@[j]) by {
            assert(compiled_from(orig@[j], out@[j]));
        }
    }
    Ok(out)
}

} // verus!
