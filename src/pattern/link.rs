use crate::config::LinkPattern;
use crate::pattern::compiler::{
    eval, eval_all, eval_any, join_and, join_or, lemma_eval_push, lemma_no_empty_evaluates, negate, no_empty,
    optimize, CompileError, PatternNode,
};
use crate::pattern::regex_matcher::{
    build_regex_set, domain_regex, domain_to_regex, every_set_builds, regex_matches, regex_set_builds,
    regex_set_patterns, set_matches_all, set_matches_any, string_views, word_regex, word_to_regex,
};
use crate::pattern::compiler::{all_leaves_in, leaves_in, lemma_all_leaves_in_weaken, lemma_leaves_in_weaken};
use crate::pattern::tree::{
    all_of_kind, compiled_from, fuse_leaves, fuse_ready, regex_sources, matcher_leaf, pattern_leaf, tree_holds, tree_is_match, CompileLeaf, FuseLeaf,
    LeafMatcher,
};
use vstd::prelude::*;

verus! {

broadcast use vstd::seq::axiom_seq_subrange_decreases, vstd::std_specs::vec::axiom_vec_decreases_to_view,
    vstd::std_specs::vec::axiom_vec_index_decreases;

/// A link as the matchers see it: the URL as a whole, and the domain of its
/// host if it has one.
#[derive(Clone, Debug, PartialEq, Eq, Hash)]
pub struct LinkInput {
    pub url: String,
    pub domain: Option<String>,
}

/// Whether a regex of the given kind holds on a link: kind 0 tests the whole
/// URL, kind 1 the domain, and fails where there is none.
pub open spec fn link_kind_holds(kind: u8, pattern: Seq<char>, input: LinkInput) -> bool {
    if kind == 0 {
        regex_matches(pattern, input.url@)
    } else {
        match input.domain {
            Some(d) => regex_matches(pattern, d@),
            None => false,
        }
    }
}

/// Truth value of a link pattern on a link; `None` where the pattern holds
/// only empty lists.
pub open spec fn link_pattern_eval(p: LinkPattern, input: LinkInput) -> Option<bool>
    decreases p,
{
    match p {
        LinkPattern::Word { word } => Some(link_kind_holds(0, word_regex(word@), input)),
        LinkPattern::Regex { regex } => Some(link_kind_holds(0, regex@, input)),
        LinkPattern::Domain { domain } => Some(link_kind_holds(1, domain_regex(domain@), input)),
        LinkPattern::Any { any } => link_patterns_any(any@, input),
        LinkPattern::All { all } => link_patterns_all(all@, input),
        LinkPattern::Not { not } => negate(link_pattern_eval(*not, input)),
    }
}

pub open spec fn link_patterns_any(s: Seq<LinkPattern>, input: LinkInput) -> Option<bool>
    decreases s,
{
    if s.len() == 0 {
        None
    } else {
        join_or(link_patterns_any(s.subrange(0, s.len() - 1), input), link_pattern_eval(s[s.len() - 1], input))
    }
}

pub open spec fn link_patterns_all(s: Seq<LinkPattern>, input: LinkInput) -> Option<bool>
    decreases s,
{
    if s.len() == 0 {
        None
    } else {
        join_and(link_patterns_all(s.subrange(0, s.len() - 1), input), link_pattern_eval(s[s.len() - 1], input))
    }
}

/// A leaf of a link pattern: a regex over the whole URL, or over its domain.
pub enum LinkPatternLeaf {
    Regex(String),
    Domain(String),
}

/// A compiled leaf of a link pattern: a regex set over the whole URL or over
/// the domain, under `Any` or `All`.
pub enum LinkLeafMatcher {
    AnyRegexes(regex::RegexSet),
    AllRegexes(regex::RegexSet),
    AnyDomains(regex::RegexSet),
    AllDomains(regex::RegexSet),
}

pub open spec fn link_set_any(kind: u8, set: regex::RegexSet, input: LinkInput) -> bool {
    exists|i: int| 0 <= i < regex_set_patterns(set).len() && #[trigger] link_kind_holds(kind, regex_set_patterns(set)[i], input)
}

pub open spec fn link_set_all(kind: u8, set: regex::RegexSet, input: LinkInput) -> bool {
    forall|i: int| 0 <= i < regex_set_patterns(set).len() ==> #[trigger] link_kind_holds(kind, regex_set_patterns(set)[i], input)
}

proof fn lemma_link_set(kind: u8, set: regex::RegexSet, input: LinkInput, text: Seq<char>)
    requires
        forall|p: Seq<char>| #[trigger] link_kind_holds(kind, p, input) == regex_matches(p, text),
    ensures
        link_set_any(kind, set, input) == (exists|i: int| 0 <= i < regex_set_patterns(set).len() && #[trigger] regex_matches(regex_set_patterns(set)[i], text)),
        link_set_all(kind, set, input) == (forall|i: int| 0 <= i < regex_set_patterns(set).len() ==> #[trigger] regex_matches(regex_set_patterns(set)[i], text)),
{
    let ps = regex_set_patterns(set);
    if link_set_any(kind, set, input) {
        let i = choose|i: int| 0 <= i < ps.len() && #[trigger] link_kind_holds(kind, ps[i], input);
        assert(regex_matches(ps[i], text));
    }
    if exists|i: int| 0 <= i < ps.len() && #[trigger] regex_matches(ps[i], text) {
        let i = choose|i: int| 0 <= i < ps.len() && #[trigger] regex_matches(ps[i], text);
        assert(link_kind_holds(kind, ps[i], input));
    }
    if !link_set_all(kind, set, input) {
        let i = choose|i: int| 0 <= i < ps.len() && !#[trigger] link_kind_holds(kind, ps[i], input);
        assert(!regex_matches(ps[i], text));
    }
    if !(forall|i: int| 0 <= i < ps.len() ==> #[trigger] regex_matches(ps[i], text)) {
        let i = choose|i: int| 0 <= i < ps.len() && !#[trigger] regex_matches(ps[i], text);
        assert(!link_kind_holds(kind, ps[i], input));
    }
}

impl LeafMatcher<LinkInput> for LinkLeafMatcher {
    open spec fn leaf_holds(&self, input: LinkInput) -> bool {
        match self {
            LinkLeafMatcher::AnyRegexes(set) => link_set_any(0, *set, input),
            LinkLeafMatcher::AllRegexes(set) => link_set_all(0, *set, input),
            LinkLeafMatcher::AnyDomains(set) => link_set_any(1, *set, input),
            LinkLeafMatcher::AllDomains(set) => input.domain is Some && link_set_all(1, *set, input),
        }
    }

    fn leaf_is_match(&self, input: &LinkInput) -> (r: bool) {
        match self {
            LinkLeafMatcher::AnyRegexes(set) => {
                proof {
                    lemma_link_set(0, *set, *input, input.url@);
                }
                set_matches_any(set, input.url.as_str())
            },
            LinkLeafMatcher::AllRegexes(set) => {
                proof {
                    lemma_link_set(0, *set, *input, input.url@);
                }
                set_matches_all(set, input.url.as_str())
            },
            LinkLeafMatcher::AnyDomains(set) => match &input.domain {
                Some(d) => {
                    proof {
                        lemma_link_set(1, *set, *input, d@);
                    }
                    set_matches_any(set, d.as_str())
                },
                None => false,
            },
            LinkLeafMatcher::AllDomains(set) => match &input.domain {
                Some(d) => {
                    proof {
                        lemma_link_set(1, *set, *input, d@);
                    }
                    set_matches_all(set, d.as_str())
                },
                None => false,
            },
        }
    }
}

impl CompileLeaf<LinkLeafMatcher, LinkInput> for LinkPatternLeaf {
    open spec fn compiled_as(&self, m: LinkLeafMatcher) -> bool {
        match self {
            LinkPatternLeaf::Regex(p) => m matches LinkLeafMatcher::AnyRegexes(set) && regex_set_patterns(set) == seq![p@],
            LinkPatternLeaf::Domain(p) => m matches LinkLeafMatcher::AnyDomains(set) && regex_set_patterns(set) == seq![p@],
        }
    }

    open spec fn compiles(&self) -> bool {
        match self {
            LinkPatternLeaf::Regex(p) => regex_set_builds(seq![p@]),
            LinkPatternLeaf::Domain(p) => regex_set_builds(seq![p@]),
        }
    }

    open spec fn pattern_holds(&self, input: LinkInput) -> bool {
        match self {
            LinkPatternLeaf::Regex(p) => link_kind_holds(0, p@, input),
            LinkPatternLeaf::Domain(p) => link_kind_holds(1, p@, input),
        }
    }

    fn compile_leaf(self) -> (r: Result<LinkLeafMatcher, CompileError>) {
        let ghost me = self;
        let (kind, pattern) = match self {
            LinkPatternLeaf::Regex(p) => (0u8, p),
            LinkPatternLeaf::Domain(p) => (1u8, p),
        };
        let mut patterns: Vec<String> = Vec::new();
        patterns.push(pattern);
        proof {
            assert(string_views(patterns@) =~= seq![patterns@[0]@]);
        }
        match build_regex_set(&patterns) {
            Some(set) => {
                let m = Self::fused(kind, true, set);
                proof {
                    assert forall|input: LinkInput| #[trigger] m.leaf_holds(input) == me.pattern_holds(input) by {
                        let ps = regex_set_patterns(set);
                        assert(ps[0] == patterns@[0]@);
                        assert(ps.len() == 1);
                        assert(me.pattern_holds(input) == Self::kind_holds(kind, ps[0], input));
                        if m.leaf_holds(input) {
                            let i = choose|i: int| 0 <= i < ps.len() && #[trigger] Self::kind_holds(kind, ps[i], input);
                            assert(i == 0);
                        }
                    }
                }
                Ok(m)
            },
            None => Err(CompileError::InvalidRegex),
        }
    }
}

impl FuseLeaf<LinkLeafMatcher, LinkInput> for LinkPatternLeaf {
    open spec fn is_fused(m: LinkLeafMatcher, kind: u8, any: bool, patterns: Seq<Seq<char>>) -> bool {
        match m {
            LinkLeafMatcher::AnyRegexes(set) => kind == 0 && any && regex_set_patterns(set) == patterns,
            LinkLeafMatcher::AllRegexes(set) => kind == 0 && !any && regex_set_patterns(set) == patterns,
            LinkLeafMatcher::AnyDomains(set) => kind != 0 && any && regex_set_patterns(set) == patterns,
            LinkLeafMatcher::AllDomains(set) => kind != 0 && !any && regex_set_patterns(set) == patterns,
        }
    }

    open spec fn kind_holds(kind: u8, pattern: Seq<char>, input: LinkInput) -> bool {
        link_kind_holds(kind, pattern, input)
    }

    open spec fn regex_kind(&self) -> Option<u8> {
        match self {
            LinkPatternLeaf::Regex(_) => Some(0u8),
            LinkPatternLeaf::Domain(_) => Some(1u8),
        }
    }

    open spec fn regex_source(&self) -> Seq<char> {
        match self {
            LinkPatternLeaf::Regex(p) => p@,
            LinkPatternLeaf::Domain(p) => p@,
        }
    }

    proof fn lemma_regex_leaf(&self, input: LinkInput) {
    }

    fn kind(&self) -> (r: Option<u8>) {
        match self {
            LinkPatternLeaf::Regex(_) => Some(0u8),
            LinkPatternLeaf::Domain(_) => Some(1u8),
        }
    }

    fn into_regex(self) -> (r: String) {
        match self {
            LinkPatternLeaf::Regex(p) => p,
            LinkPatternLeaf::Domain(p) => p,
        }
    }

    fn fused(kind: u8, any: bool, set: regex::RegexSet) -> (r: LinkLeafMatcher) {
        let r = if kind == 0 {
            if any {
                LinkLeafMatcher::AnyRegexes(set)
            } else {
                LinkLeafMatcher::AllRegexes(set)
            }
        } else {
            if any {
                LinkLeafMatcher::AnyDomains(set)
            } else {
                LinkLeafMatcher::AllDomains(set)
            }
        };
        let ghost ps = regex_set_patterns(set);
        let ghost k: u8 = if kind == 0 { 0u8 } else { 1u8 };
        assert forall|input: LinkInput| any implies #[trigger] r.leaf_holds(input) == (exists|i: int| 0 <= i < ps.len() && #[trigger] Self::kind_holds(kind, ps[i], input)) by {
            assert(r.leaf_holds(input) == link_set_any(k, set, input));
            if link_set_any(k, set, input) {
                let i = choose|i: int| 0 <= i < ps.len() && #[trigger] link_kind_holds(k, ps[i], input);
                assert(Self::kind_holds(kind, ps[i], input));
            }
            if exists|i: int| 0 <= i < ps.len() && #[trigger] Self::kind_holds(kind, ps[i], input) {
                let i = choose|i: int| 0 <= i < ps.len() && #[trigger] Self::kind_holds(kind, ps[i], input);
                assert(link_kind_holds(k, ps[i], input));
            }
        }
        assert forall|input: LinkInput| !any implies #[trigger] r.leaf_holds(input) == (forall|i: int| 0 <= i < ps.len() ==> #[trigger] Self::kind_holds(kind, ps[i], input)) by {
            assert(r.leaf_holds(input) == (link_set_all(k, set, input) && (k == 1 ==> input.domain is Some)));
            if !link_set_all(k, set, input) {
                let i = choose|i: int| 0 <= i < ps.len() && !#[trigger] link_kind_holds(k, ps[i], input);
                assert(!Self::kind_holds(kind, ps[i], input));
            }
            if !(forall|i: int| 0 <= i < ps.len() ==> #[trigger] Self::kind_holds(kind, ps[i], input)) {
                let i = choose|i: int| 0 <= i < ps.len() && !#[trigger] Self::kind_holds(kind, ps[i], input);
                assert(!link_kind_holds(k, ps[i], input));
            }
            if k == 1 && input.domain is None {
                assert(!Self::kind_holds(kind, ps[0], input));
            }
        }
        assert(Self::is_fused(r, kind, any, regex_set_patterns(set)));
        r
    }
}

/// The regexes that the words, domains and regexes of a link pattern
/// desugar to.
pub open spec fn link_regexes(p: LinkPattern) -> Set<Seq<char>>
    decreases p,
{
    match p {
        LinkPattern::Word { word } => set![word_regex(word@)],
        LinkPattern::Regex { regex } => set![regex@],
        LinkPattern::Domain { domain } => set![domain_regex(domain@)],
        LinkPattern::Any { any } => link_regexes_list(any@),
        LinkPattern::All { all } => link_regexes_list(all@),
        LinkPattern::Not { not } => link_regexes(*not),
    }
}

pub open spec fn link_regexes_list(s: Seq<LinkPattern>) -> Set<Seq<char>>
    decreases s,
{
    if s.len() == 0 {
        Set::empty()
    } else {
        link_regexes_list(s.subrange(0, s.len() - 1)).union(link_regexes(s[s.len() - 1]))
    }
}

/// A link pattern that is an expression on every link, and whose regexes
/// build into a regex set however they are grouped.
pub open spec fn link_pattern_compiles(p: LinkPattern) -> bool {
    &&& forall|input: LinkInput| #[trigger] link_pattern_eval(p, input) is Some
    &&& every_set_builds(link_regexes(p))
}

/// Leaves whose regex is one of `regexes`.
pub open spec fn source_in(regexes: Set<Seq<char>>) -> spec_fn(LinkPatternLeaf) -> bool {
    |a: LinkPatternLeaf| regexes.contains(a.regex_source())
}

pub open spec fn link_leaf(input: LinkInput) -> spec_fn(LinkPatternLeaf) -> bool {
    pattern_leaf::<LinkPatternLeaf, LinkLeafMatcher, LinkInput>(input)
}

/// Lowers a link pattern to a tree of regexes over the whole URL or over its
/// domain.
pub fn lower_link_pattern(p: &LinkPattern) -> (r: PatternNode<LinkPatternLeaf>)
    ensures
        forall|input: LinkInput| #[trigger] eval(r, link_leaf(input)) == link_pattern_eval(*p, input),
        leaves_in(r, source_in(link_regexes(*p))),
    decreases p,
{
    let r = match p {
        LinkPattern::Word { word } => PatternNode::Leaf { leaf: LinkPatternLeaf::Regex(word_to_regex(word)) },
        LinkPattern::Regex { regex } => PatternNode::Leaf { leaf: LinkPatternLeaf::Regex(regex.clone()) },
        LinkPattern::Domain { domain } => PatternNode::Leaf { leaf: LinkPatternLeaf::Domain(domain_to_regex(domain)) },
        LinkPattern::Any { any } => PatternNode::Any { children: lower_link_patterns(any, true) },
        LinkPattern::All { all } => PatternNode::All { children: lower_link_patterns(all, false) },
        LinkPattern::Not { not } => PatternNode::Not { child: Box::new(lower_link_pattern(not)) },
    };
    proof {
        assert forall|input: LinkInput| #[trigger] eval(r, link_leaf(input)) == link_pattern_eval(*p, input) by {
            match r {
                PatternNode::Leaf { leaf } => {
                    assert(eval(r, link_leaf(input)) == Some(leaf.pattern_holds(input)));
                },
                PatternNode::Any { children } => {
                    assert(eval(r, link_leaf(input)) == eval_any(children@, link_leaf(input)));
                },
                PatternNode::All { children } => {
                    assert(eval(r, link_leaf(input)) == eval_all(children@, link_leaf(input)));
                },
                PatternNode::Not { child } => {
                    assert(eval(r, link_leaf(input)) == negate(eval(*child, link_leaf(input))));
                },
            }
        }
        if r is Leaf {
            assert(source_in(link_regexes(*p))(r->Leaf_leaf));
        }
    }
    r
}

fn lower_link_patterns(ps: &Vec<LinkPattern>, any: bool) -> (r: Vec<PatternNode<LinkPatternLeaf>>)
    ensures
        forall|input: LinkInput| any ==> #[trigger] eval_any(r@, link_leaf(input)) == link_patterns_any(ps@, input),
        forall|input: LinkInput| !any ==> #[trigger] eval_all(r@, link_leaf(input)) == link_patterns_all(ps@, input),
        all_leaves_in(r@, source_in(link_regexes_list(ps@))),
    decreases ps,
{
    let mut out: Vec<PatternNode<LinkPatternLeaf>> = Vec::new();
    let mut i: usize = 0;
    proof {
        assert(ps@.subrange(0, 0) =~= Seq::<LinkPattern>::empty());
    }
    while i < ps.len()
        invariant
            i <= ps@.len(),
            forall|input: LinkInput| any ==> #[trigger] eval_any(out@, link_leaf(input)) == link_patterns_any(ps@.subrange(0, i as int), input),
            forall|input: LinkInput| !any ==> #[trigger] eval_all(out@, link_leaf(input)) == link_patterns_all(ps@.subrange(0, i as int), input),
            all_leaves_in(out@, source_in(link_regexes_list(ps@.subrange(0, i as int)))),
        decreases ps@.len() - i,
    {
        let ghost prev = out@;
        proof {
            assert(decreases_to!(ps => ps[i as int]));
        }
        let node = lower_link_pattern(&ps[i]);
        out.push(node);
        proof {
            let take = ps@.subrange(0, i as int);
            assert(ps@.subrange(0, i + 1).subrange(0, i as int) =~= take);
            assert forall|input: LinkInput| any implies #[trigger] eval_any(out@, link_leaf(input)) == link_patterns_any(ps@.subrange(0, i + 1), input) by {
                lemma_eval_push(prev, node, link_leaf(input));
            }
            assert forall|input: LinkInput| !any implies #[trigger] eval_all(out@, link_leaf(input)) == link_patterns_all(ps@.subrange(0, i + 1), input) by {
                lemma_eval_push(prev, node, link_leaf(input));
            }
            let s0 = link_regexes_list(take);
            let s1 = link_regexes_list(ps@.subrange(0, i + 1));
            assert(s1 == s0.union(link_regexes(ps@[i as int])));
            lemma_all_leaves_in_weaken(prev, source_in(s0), source_in(s1));
            lemma_leaves_in_weaken(node, source_in(link_regexes(ps@[i as int])), source_in(s1));
            lemma_eval_push(prev, node, link_leaf(arbitrary()));
        }
        i = i + 1;
    }
    proof {
        assert(ps@.subrange(0, i as int) =~= ps@);
    }
    out
}

/// Compiled tree of a link pattern.
pub struct LinkMatcherInner(pub PatternNode<LinkLeafMatcher>);

impl LinkMatcherInner {
    /// Compiles an optimized tree: each list of regexes of one kind becomes
    /// one regex set.
    pub fn from(node: PatternNode<LinkPatternLeaf>) -> (r: Result<Self, CompileError>)
        requires
            no_empty(node),
        ensures
            r is Ok ==> no_empty(r->Ok_0.0),
            r is Ok ==> forall|input: LinkInput| #[trigger] tree_holds(r->Ok_0.0, input) == (eval(node, link_leaf(input)) == Some(true)),
            forall|regexes: Set<Seq<char>>|
                #[trigger] leaves_in(node, fuse_ready::<LinkLeafMatcher, LinkInput, LinkPatternLeaf>(regexes)) && every_set_builds(regexes) ==> r is Ok,
            forall|k: u8|
                r is Ok && node is Any && #[trigger] all_of_kind::<LinkLeafMatcher, LinkInput, LinkPatternLeaf>(node->Any_children@, k) ==> r->Ok_0.0 is Leaf
                    && LinkPatternLeaf::is_fused(r->Ok_0.0->Leaf_leaf, k, true, regex_sources::<LinkLeafMatcher, LinkInput, LinkPatternLeaf>(node->Any_children@)),
            forall|k: u8|
                r is Ok && node is All && #[trigger] all_of_kind::<LinkLeafMatcher, LinkInput, LinkPatternLeaf>(node->All_children@, k) ==> r->Ok_0.0 is Leaf
                    && LinkPatternLeaf::is_fused(r->Ok_0.0->Leaf_leaf, k, false, regex_sources::<LinkLeafMatcher, LinkInput, LinkPatternLeaf>(node->All_children@)),
            r is Ok && node is Any && !(exists|k: u8| all_of_kind::<LinkLeafMatcher, LinkInput, LinkPatternLeaf>(node->Any_children@, k)) ==> r->Ok_0.0 is Any
                && r->Ok_0.0->Any_children@.len() == node->Any_children@.len()
                && forall|j: int| 0 <= j < node->Any_children@.len() ==> #[trigger] compiled_from(node->Any_children@[j], r->Ok_0.0->Any_children@[j]),
            r is Ok && node is All && !(exists|k: u8| all_of_kind::<LinkLeafMatcher, LinkInput, LinkPatternLeaf>(node->All_children@, k)) ==> r->Ok_0.0 is All
                && r->Ok_0.0->All_children@.len() == node->All_children@.len()
                && forall|j: int| 0 <= j < node->All_children@.len() ==> #[trigger] compiled_from(node->All_children@[j], r->Ok_0.0->All_children@[j]),
    {
        match fuse_leaves::<LinkLeafMatcher, LinkInput, LinkPatternLeaf>(node) {
            Ok(tree) => Ok(LinkMatcherInner(tree)),
            Err(e) => Err(e),
        }
    }
}

/// Compiled link pattern.
pub struct LinkMatcher(LinkMatcherInner);

impl LinkMatcher {
    #[verifier::type_invariant]
    spec fn wf(self) -> bool {
        no_empty(self.0.0)
    }

    /// Whether the matcher accepts `input`.
    pub closed spec fn holds(self, input: LinkInput) -> bool {
        tree_holds(self.0.0, input)
    }

    /// Lowers, optimizes and compiles a link pattern. The matcher accepts
    /// exactly the links on which the pattern holds.
    pub fn compile(p: &LinkPattern) -> (r: Result<LinkMatcher, CompileError>)
        ensures
            r is Ok ==> forall|input: LinkInput| #[trigger] link_pattern_eval(*p, input) is Some,
            r is Ok ==> forall|input: LinkInput| #[trigger] r->Ok_0.holds(input) == (link_pattern_eval(*p, input) == Some(true)),
            (exists|input: LinkInput| #[trigger] link_pattern_eval(*p, input) is None) ==> r is Err,
            link_pattern_compiles(*p) ==> r is Ok,
    {
        let lowered = lower_link_pattern(p);
        let ghost lw = lowered;
        match optimize(lowered) {
            Ok(optimized) => {
                let ghost op = optimized;
                match LinkMatcherInner::from(optimized) {
                    Ok(inner) => {
                        let m = LinkMatcher(inner);
                        proof {
                            assert forall|input: LinkInput| #[trigger] link_pattern_eval(*p, input) is Some by {
                                assert(eval(op, link_leaf(input)) == eval(lw, link_leaf(input)));
                                lemma_no_empty_evaluates(op, link_leaf(input));
                            }
                            assert forall|input: LinkInput| #[trigger] m.holds(input) == (link_pattern_eval(*p, input) == Some(true)) by {
                                assert(eval(op, link_leaf(input)) == eval(lw, link_leaf(input)));
                            }
                        }
                        Ok(m)
                    },
                    Err(e) => {
                        proof {
                            if link_pattern_compiles(*p) {
                                let regexes = link_regexes(*p);
                                assert(leaves_in(lw, source_in(regexes)));
                                assert(leaves_in(op, source_in(regexes)));
                                assert forall|l: LinkPatternLeaf| #[trigger] source_in(regexes)(l) implies fuse_ready::<LinkLeafMatcher, LinkInput, LinkPatternLeaf>(regexes)(l) by {
                                    let ps = seq![l.regex_source()];
                                    assert(ps[0] == l.regex_source());
                                    assert(regex_set_builds(ps));
                                }
                                lemma_leaves_in_weaken(op, source_in(regexes), fuse_ready::<LinkLeafMatcher, LinkInput, LinkPatternLeaf>(regexes));
                            }
                        }
                        Err(e)
                    },
                }
            },
            Err(e) => {
                proof {
                    assert forall|input: LinkInput| #[trigger] link_pattern_eval(*p, input) is None by {
                        assert(eval(lw, link_leaf(input)) is None);
                    }
                    if link_pattern_compiles(*p) {
                        assert(link_pattern_eval(*p, arbitrary::<LinkInput>()) is Some);
                    }
                }
                Err(e)
            },
        }
    }

    /// Whether the matcher accepts `input`.
    pub fn is_match(&self, input: &LinkInput) -> (r: bool)
        ensures
            r == self.holds(*input),
    {
        proof {
            use_type_invariant(self);
        }
        tree_is_match(&self.0.0, input)
    }
}

} // verus!
