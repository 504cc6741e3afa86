use crate::pattern::compiler::{
    all_leaves_in, all_no_empty, eval, leaves_in, lemma_all_leaves_in_index, eval_all, join_and, join_or, negate, eval_any, lemma_all_no_empty_index, lemma_eval_quantified, lemma_no_empty_evaluates, lemma_no_empty_seq_evaluates,
    no_empty, CompileError, PatternNode,
};
use vstd::prelude::*;

verus! {

#[verifier::external_type_specification]
#[verifier::external_body]
pub struct ExRegexSet(regex::RegexSet);

/// Whether the regex `pattern` matches somewhere in `haystack`.
pub uninterp spec fn regex_matches(pattern: Seq<char>, haystack: Seq<char>) -> bool;

/// Whether `regex::RegexSet::new` builds a set from these patterns.
pub uninterp spec fn regex_set_builds(patterns: Seq<Seq<char>>) -> bool;

/// The patterns that a regex set holds, in the order it was built from.
pub uninterp spec fn regex_set_patterns(set: regex::RegexSet) -> Seq<Seq<char>>;

pub open spec fn string_views(v: Seq<String>) -> Seq<Seq<char>> {
    v.map_values(|s: String| s@)
}

/// Relies on `regex::RegexSet::new`: it fails exactly when the patterns do
/// not compile together, and the set it builds holds the patterns in the
/// order given (as `RegexSet::patterns` returns them).
#[verifier::external_body]
pub(crate) fn build_regex_set(patterns: &Vec<String>) -> (r: Option<regex::RegexSet>)
    ensures
        r is Some <==> regex_set_builds(string_views(patterns@)),
        r is Some ==> regex_set_patterns(r.unwrap()) == string_views(patterns@),
{
    regex::RegexSet::new(patterns).ok()
}

pub open spec fn some_pattern_matches(patterns: Seq<Seq<char>>, haystack: Seq<char>) -> bool {
    exists|i: int| 0 <= i < patterns.len() && #[trigger] regex_matches(patterns[i], haystack)
}

pub open spec fn every_pattern_matches(patterns: Seq<Seq<char>>, haystack: Seq<char>) -> bool {
    forall|i: int| 0 <= i < patterns.len() ==> #[trigger] regex_matches(patterns[i], haystack)
}

/// Relies on `regex::RegexSet::is_match`: true exactly when one of the
/// set's regexes matches somewhere in the haystack.
#[verifier::external_body]
pub(crate) fn set_matches_any(set: &regex::RegexSet, haystack: &str) -> (r: bool)
    ensures
        r == (exists|i: int| 0 <= i < regex_set_patterns(*set).len() && #[trigger] regex_matches(regex_set_patterns(*set)[i], haystack@)),
{
    set.is_match(haystack)
}

/// Relies on `regex::RegexSet::matches` and `SetMatches::matched_all`: true
/// exactly when every regex of the set matches somewhere in the haystack.
#[verifier::external_body]
pub(crate) fn set_matches_all(set: &regex::RegexSet, haystack: &str) -> (r: bool)
    ensures
        r == every_pattern_matches(regex_set_patterns(*set), haystack@),
{
    set.matches(haystack).matched_all()
}

/// The characters that have a meaning of their own in a regex.
pub open spec fn is_meta_character(c: char) -> bool {
    c == '\\' || c == '.' || c == '+' || c == '*' || c == '?' || c == '(' || c == ')' || c == '|'
        || c == '[' || c == ']' || c == '{' || c == '}' || c == '^' || c == '$' || c == '#'
        || c == '&' || c == '-' || c == '~'
}

/// `s` with a backslash before each meta character: a regex that matches `s`
/// literally.
pub open spec fn escaped(s: Seq<char>) -> Seq<char>
    decreases s.len(),
{
    if s.len() == 0 {
        Seq::empty()
    } else {
        let c = s[s.len() - 1];
        escaped(s.subrange(0, s.len() - 1)) + if is_meta_character(c) {
            seq!['\\', c]
        } else {
            seq![c]
        }
    }
}

/// Relies on `regex::escape`: a backslash before each meta character.
#[verifier::external_body]
fn escape(s: &str) -> (r: String)
    ensures
        r@ == escaped(s@),
{
    regex::escape(s)
}

/// The regex of a `word` leaf: the word, escaped, between word boundaries,
/// case-insensitive.
pub open spec fn word_regex(word: Seq<char>) -> Seq<char> {
    seq!['(', '?', 'i', ':', '\\', 'b'] + escaped(word) + seq!['\\', 'b', ')']
}

/// The regex of a `domain` leaf: the domain, escaped, from a word boundary
/// to the end, case-insensitive.
pub open spec fn domain_regex(domain: Seq<char>) -> Seq<char> {
    seq!['(', '?', 'i', ':', '\\', 'b'] + escaped(domain) + seq!['$', ')']
}

pub fn word_to_regex(word: &String) -> (r: String)
    ensures
        r@ == word_regex(word@),
{
    let prefix = "(?i:\\b";
    let suffix = "\\b)";
    proof {
        reveal_strlit("(?i:\\b");
        reveal_strlit("\\b)");
    }
    let mut r = String::from_str(prefix);
    let e = escape(word.as_str());
    r.append(e.as_str());
    r.append(suffix);
    r
}

pub fn domain_to_regex(domain: &String) -> (r: String)
    ensures
        r@ == domain_regex(domain@),
{
    let prefix = "(?i:\\b";
    let suffix = "$)";
    proof {
        reveal_strlit("(?i:\\b");
        reveal_strlit("$)");
    }
    let mut r = String::from_str(prefix);
    let e = escape(domain.as_str());
    r.append(e.as_str());
    r.append(suffix);
    r
}

/// Leaf valuation of regex leaves on a given text.
pub open spec fn regex_leaf(text: Seq<char>) -> spec_fn(String) -> bool {
    |p: String| regex_matches(p@, text)
}

/// Whether every node of the list is a leaf.
pub open spec fn all_leaves<L>(s: Seq<PatternNode<L>>) -> bool {
    forall|j: int| 0 <= j < s.len() ==> (#[trigger] s[j]) is Leaf
}

pub(crate) fn are_all_leaves<L>(children: &Vec<PatternNode<L>>) -> (r: bool)
    ensures
        r == all_leaves(children@),
{
    let mut i: usize = 0;
    while i < children.len()
        invariant
            i <= children@.len(),
            forall|j: int| 0 <= j < i ==> (#[trigger] children@[j]) is Leaf,
        decreases children@.len() - i,
    {
        match &children[i] {
            PatternNode::Leaf { .. } => {},
            _ => {
                return false;
            },
        }
        i = i + 1;
    }
    true
}

/// Takes the leaf values out of a list of leaves.
pub(crate) fn take_leaves<L>(children: Vec<PatternNode<L>>) -> (r: Vec<L>)
    requires
        all_leaves(children@),
    ensures
        r@.len() == children@.len(),
        forall|j: int| 0 <= j < r@.len() ==> #[trigger] children@[j] == (PatternNode::Leaf { leaf: r@[j] }),
{
    let ghost orig = children@;
    let mut rest = children;
    let mut out: Vec<L> = Vec::new();
    let n: usize = rest.len();
    let mut i: usize = 0;
    while i < n
        invariant
            n == orig.len(),
            i <= n,
            all_leaves(orig),
            rest@ == orig.subrange(i as int, n as int),
            out@.len() == i,
            forall|j: int| 0 <= j < i ==> #[trigger] orig[j] == (PatternNode::Leaf { leaf: out@[j] }),
        decreases n - i,
    {
        let child = rest.remove(0);
        assert(child == orig[i as int]);
        match child {
            PatternNode::Leaf { leaf } => {
                out.push(leaf);
            },
            _ => {
                assert(false);
            },
        }
        i = i + 1;
        proof {
            assert(rest@ =~= orig.subrange(i as int, n as int));
        }
    }
    out
}

/// The regexes of a list of leaves.
pub open spec fn leaf_patterns(s: Seq<PatternNode<String>>) -> Seq<Seq<char>> {
    s.map_values(
        |n: PatternNode<String>|
            match n {
                PatternNode::Leaf { leaf } => leaf@,
                _ => Seq::empty(),
            },
    )
}

/// Whether every regex set that compiling the tree builds can be built: a
/// leaf's set of one regex, the set of a list of leaves, and those of the
/// nodes below any other list or negation.
pub open spec fn regex_sets_build(n: PatternNode<String>) -> bool
    decreases n,
{
    match n {
        PatternNode::Leaf { leaf } => regex_set_builds(seq![leaf@]),
        PatternNode::Any { children } => if all_leaves(children@) {
            regex_set_builds(leaf_patterns(children@))
        } else {
            all_regex_sets_build(children@)
        },
        PatternNode::All { children } => if all_leaves(children@) {
            regex_set_builds(leaf_patterns(children@))
        } else {
            all_regex_sets_build(children@)
        },
        PatternNode::Not { child } => regex_sets_build(*child),
    }
}

pub open spec fn all_regex_sets_build(s: Seq<PatternNode<String>>) -> bool
    decreases s,
{
    if s.len() == 0 {
        true
    } else {
        all_regex_sets_build(s.subrange(0, s.len() - 1)) && regex_sets_build(s[s.len() - 1])
    }
}

proof fn lemma_all_regex_sets_build_index(s: Seq<PatternNode<String>>)
    ensures
        all_regex_sets_build(s) <==> forall|j: int| 0 <= j < s.len() ==> regex_sets_build(#[trigger] s[j]),
    decreases s.len(),
{
    if s.len() > 0 {
        let s0 = s.subrange(0, s.len() - 1);
        lemma_all_regex_sets_build_index(s0);
        assert forall|j: int| 0 <= j < s0.len() implies s0[j] == s[j] by {}
    }
}

/// Every non-empty sequence of regexes drawn from `regexes` builds into a
/// regex set.
pub open spec fn every_set_builds(regexes: Set<Seq<char>>) -> bool {
    forall|ps: Seq<Seq<char>>|
        ps.len() > 0 && (forall|k: int| 0 <= k < ps.len() ==> regexes.contains(#[trigger] ps[k])) ==> #[trigger] regex_set_builds(ps)
}

/// The regex of a leaf is one of `regexes`.
pub open spec fn regex_in(regexes: Set<Seq<char>>) -> spec_fn(String) -> bool {
    |p: String| regexes.contains(p@)
}

/// A tree whose regexes are all drawn from a set whose every sequence builds
/// compiles.
pub proof fn lemma_sets_build(n: PatternNode<String>, regexes: Set<Seq<char>>)
    requires
        no_empty(n),
        every_set_builds(regexes),
        leaves_in(n, regex_in(regexes)),
    ensures
        regex_sets_build(n),
    decreases n,
{
    match n {
        PatternNode::Leaf { leaf } => {
            let ps = seq![leaf@];
            assert(ps[0] == leaf@);
            assert(regex_set_builds(ps));
        },
        PatternNode::Any { children } => {
            lemma_sets_build_list(children@, regexes);
        },
        PatternNode::All { children } => {
            lemma_sets_build_list(children@, regexes);
        },
        PatternNode::Not { child } => {
            lemma_sets_build(*child, regexes);
        },
    }
}

proof fn lemma_sets_build_list(s: Seq<PatternNode<String>>, regexes: Set<Seq<char>>)
    requires
        s.len() > 0,
        all_no_empty(s),
        every_set_builds(regexes),
        all_leaves_in(s, regex_in(regexes)),
    ensures
        all_leaves(s) ==> regex_set_builds(leaf_patterns(s)),
        all_regex_sets_build(s),
    decreases s,
{
    lemma_all_no_empty_index(s);
    lemma_all_leaves_in_index(s, regex_in(regexes));
    lemma_all_regex_sets_build_index(s);
    assert forall|j: int| 0 <= j < s.len() implies regex_sets_build(#[trigger] s[j]) by {
        lemma_sets_build(s[j], regexes);
    }
    if all_leaves(s) {
        let ps = leaf_patterns(s);
        assert forall|k: int| 0 <= k < ps.len() implies regexes.contains(#[trigger] ps[k]) by {
            assert(leaves_in(s[k], regex_in(regexes)));
        }
        assert(regex_set_builds(ps));
    }
}

/// Compiled matcher over strings. Lists of regex leaves are fused into one
/// regex set.
pub enum RegexPatternMatcher {
    AnyRegexes(regex::RegexSet),
    AllRegexes(regex::RegexSet),
    Any(Vec<RegexPatternMatcher>),
    All(Vec<RegexPatternMatcher>),
    Not(Box<RegexPatternMatcher>),
}

impl RegexPatternMatcher {
    /// Whether the matcher accepts `text`.
    pub open spec fn holds(self, text: Seq<char>) -> bool
        decreases self,
    {
        match self {
            RegexPatternMatcher::AnyRegexes(set) => some_pattern_matches(regex_set_patterns(set), text),
            RegexPatternMatcher::AllRegexes(set) => every_pattern_matches(regex_set_patterns(set), text),
            RegexPatternMatcher::Any(children) => any_holds(children@, text),
            RegexPatternMatcher::All(children) => all_holds(children@, text),
            RegexPatternMatcher::Not(child) => !(*child).holds(text),
        }
    }

    /// Whether the matcher is one regex set of `n` patterns, under `Any`
    /// (`any`) or `All`.
    pub open spec fn is_fused_set(self, any: bool, n: nat) -> bool {
        if any {
            self matches RegexPatternMatcher::AnyRegexes(set) && regex_set_patterns(set).len() == n
        } else {
            self matches RegexPatternMatcher::AllRegexes(set) && regex_set_patterns(set).len() == n
        }
    }

    /// Compiles an optimized tree of regexes. A list whose children are all
    /// leaves becomes one regex set of the same size.
    pub fn from(node: PatternNode<String>) -> (r: Result<Self, CompileError>)
        requires
            no_empty(node),
        ensures
            r is Ok <==> regex_sets_build(node),
            r is Err ==> r == Err::<Self, CompileError>(CompileError::InvalidRegex),
            r matches Ok(m) ==> forall|text: Seq<char>| #[trigger] m.holds(text) == (eval(node, regex_leaf(text)) == Some(true)),
            node is Any && all_leaves(node->Any_children@) && r is Ok ==> r->Ok_0.is_fused_set(true, node->Any_children@.len()),
            node is All && all_leaves(node->All_children@) && r is Ok ==> r->Ok_0.is_fused_set(false, node->All_children@.len()),
        decreases node,
    {
        let ghost g = node;
        match node {
            PatternNode::Leaf { leaf } => {
                let mut patterns: Vec<String> = Vec::new();
                patterns.push(leaf);
                proof {
                    assert(string_views(patterns@) =~= seq![patterns@[0]@]);
                }
                match build_regex_set(&patterns) {
                    Some(set) => {
                        let m = RegexPatternMatcher::AnyRegexes(set);
                        assert forall|text: Seq<char>| #[trigger] m.holds(text) == (eval(g, regex_leaf(text)) == Some(true)) by {
                            assert(string_views(patterns@)[0] == patterns@[0]@);
                        }
                        Ok(m)
                    },
                    None => Err(CompileError::InvalidRegex),
                }
            },
            PatternNode::Any { children } => {
                let ghost cs = children@;
                if are_all_leaves(&children) {
                    let patterns = take_leaves(children);
                    proof {
                        assert forall|j: int| 0 <= j < cs.len() implies #[trigger] leaf_patterns(cs)[j] == string_views(patterns@)[j] by {
                            assert(cs[j] == (PatternNode::Leaf { leaf: patterns@[j] }));
                        }
                        assert(leaf_patterns(cs) =~= string_views(patterns@));
                    }
                    match build_regex_set(&patterns) {
                        Some(set) => {
                            let m = RegexPatternMatcher::AnyRegexes(set);
                            proof {
                                lemma_all_no_empty_index(cs);
                                let ps = string_views(patterns@);
                                assert forall|text: Seq<char>| #[trigger] m.holds(text) == (eval(g, regex_leaf(text)) == Some(true)) by {
                                    let f = regex_leaf(text);
                                    lemma_eval_quantified(cs, f);
                                    assert forall|j: int| 0 <= j < cs.len() implies #[trigger] eval(cs[j], f) == Some(regex_matches(ps[j], text)) by {
                                        assert(cs[j] == (PatternNode::Leaf { leaf: patterns@[j] }));
                                        assert(ps[j] == patterns@[j]@);
                                    }
                                    assert(eval(g, f) == eval_any(cs, f));
                                    assert(m.holds(text) == some_pattern_matches(ps, text));
                                    if m.holds(text) {
                                        let j = choose|j: int| 0 <= j < ps.len() && #[trigger] regex_matches(ps[j], text);
                                        assert(eval(cs[j], f) == Some(true));
                                    } else if eval(g, f) == Some(true) {
                                        let j = choose|j: int| 0 <= j < cs.len() && #[trigger] eval(cs[j], f) == Some(true);
                                        assert(regex_matches(ps[j], text));
                                    }
                                }
                            }
                            Ok(m)
                        },
                        None => Err(CompileError::InvalidRegex),
                    }
                } else {
                    match Self::from_children(children) {
                        Ok(ms) => {
                            let m = RegexPatternMatcher::Any(ms);
                            proof {
                                lemma_list_matcher(ms, g);
                            }
                            Ok(m)
                        },
                        Err(e) => Err(e),
                    }
                }
            },
            PatternNode::All { children } => {
                let ghost cs = children@;
                if are_all_leaves(&children) {
                    let patterns = take_leaves(children);
                    proof {
                        assert forall|j: int| 0 <= j < cs.len() implies #[trigger] leaf_patterns(cs)[j] == string_views(patterns@)[j] by {
                            assert(cs[j] == (PatternNode::Leaf { leaf: patterns@[j] }));
                        }
                        assert(leaf_patterns(cs) =~= string_views(patterns@));
                    }
                    match build_regex_set(&patterns) {
                        Some(set) => {
                            let m = RegexPatternMatcher::AllRegexes(set);
                            proof {
                                lemma_all_no_empty_index(cs);
                                let ps = string_views(patterns@);
                                assert forall|text: Seq<char>| #[trigger] m.holds(text) == (eval(g, regex_leaf(text)) == Some(true)) by {
                                    let f = regex_leaf(text);
                                    lemma_eval_quantified(cs, f);
                                    assert forall|j: int| 0 <= j < cs.len() implies #[trigger] eval(cs[j], f) == Some(regex_matches(ps[j], text)) by {
                                        assert(cs[j] == (PatternNode::Leaf { leaf: patterns@[j] }));
                                        assert(ps[j] == patterns@[j]@);
                                    }
                                    assert(eval(g, f) == eval_all(cs, f));
                                    assert(m.holds(text) == every_pattern_matches(ps, text));
                                    if m.holds(text) && eval(g, f) != Some(true) {
                                        let j = choose|j: int| 0 <= j < cs.len() && !(#[trigger] eval(cs[j], f) == Some(true));
                                        assert(regex_matches(ps[j], text));
                                    } else if !m.holds(text) {
                                        let j = choose|j: int| 0 <= j < ps.len() && !#[trigger] regex_matches(ps[j], text);
                                        assert(eval(cs[j], f) != Some(true));
                                    }
                                }
                            }
                            Ok(m)
                        },
                        None => Err(CompileError::InvalidRegex),
                    }
                } else {
                    match Self::from_children(children) {
                        Ok(ms) => {
                            let m = RegexPatternMatcher::All(ms);
                            proof {
                                lemma_list_matcher(ms, g);
                            }
                            Ok(m)
                        },
                        Err(e) => Err(e),
                    }
                }
            },
            PatternNode::Not { child } => {
                let ghost c = *child;
                match Self::from(*child) {
                    Ok(inner) => {
                        let m = RegexPatternMatcher::Not(Box::new(inner));
                        proof {
                            assert forall|text: Seq<char>| #[trigger] m.holds(text) == (eval(g, regex_leaf(text)) == Some(true)) by {
                                lemma_no_empty_evaluates(c, regex_leaf(text));
                                assert(m.holds(text) == !inner.holds(text));
                                assert(inner.holds(text) == (eval(c, regex_leaf(text)) == Some(true)));
                                assert(eval(g, regex_leaf(text)) == negate(eval(c, regex_leaf(text))));
                            }
                        }
                        Ok(m)
                    },
                    Err(e) => Err(e),
                }
            },
        }
    }

    fn from_children(children: Vec<PatternNode<String>>) -> (r: Result<Vec<Self>, CompileError>)
        requires
            all_no_empty(children@),
        ensures
            r is Ok <==> all_regex_sets_build(children@),
            r is Err ==> r == Err::<Vec<Self>, CompileError>(CompileError::InvalidRegex),
            r matches Ok(ms) ==> ms@.len() == children@.len() && forall|j: int, text: Seq<char>|
                0 <= j < ms@.len() ==> #[trigger] ms@[j].holds(text) == (eval(children@[j], regex_leaf(text)) == Some(true)),
        decreases children,
    {
        let ghost orig = children;
        let mut rest = children;
        let mut out: Vec<Self> = Vec::new();
        let n: usize = rest.len();
        let mut i: usize = 0;
        proof {
            lemma_all_no_empty_index(orig@);
            lemma_all_regex_sets_build_index(orig@);
        }
        while i < n
            invariant
                orig == children,
                n == orig@.len(),
                i <= n,
                rest@ == orig@.subrange(i as int, n as int),
                forall|j: int| 0 <= j < orig@.len() ==> no_empty(#[trigger] orig@[j]),
                out@.len() == i,
                forall|j: int, text: Seq<char>|
                    0 <= j < i ==> #[trigger] out@[j].holds(text) == (eval(orig@[j], regex_leaf(text)) == Some(true)),
                forall|j: int| 0 <= j < i ==> regex_sets_build(#[trigger] orig@[j]),
                all_regex_sets_build(orig@) <==> forall|j: int| 0 <= j < orig@.len() ==> regex_sets_build(#[trigger] orig@[j]),
            decreases n - i,
        {
            let child = rest.remove(0);
            assert(child == orig[i as int]);
            proof {
                assert(decreases_to!(orig => orig[i as int]));
            }
            match Self::from(child) {
                Ok(m) => {
                    out.push(m);
                },
                Err(e) => {
                    return Err(e);
                },
            }
            i = i + 1;
            proof {
                assert(rest@ =~= orig@.subrange(i as int, n as int));
            }
        }
        Ok(out)
    }

    /// Whether the matcher accepts `s`.
    #[verifier::loop_isolation(false)]
    pub fn is_match(&self, s: &str) -> (r: bool)
        ensures
            r == self.holds(s@),
        decreases self,
    {
        match self {
            RegexPatternMatcher::AnyRegexes(set) => set_matches_any(set, s),
            RegexPatternMatcher::AllRegexes(set) => set_matches_all(set, s),
            RegexPatternMatcher::Any(children) => {
                let mut i: usize = 0;
                while i < children.len()
                    invariant
                        i <= children@.len(),
                        !any_holds(children@.subrange(0, i as int), s@),
                    decreases children@.len() - i,
                {
                    let hit = children[i].is_match(s);
                    proof {
                        lemma_prefix_holds(children@, i as int, s@);
                    }
                    if hit {
                        proof {
                            lemma_prefix_monotone(children@, i + 1, s@);
                        }
                        return true;
                    }
                    i = i + 1;
                }
                proof {
                    assert(children@.subrange(0, i as int) =~= children@);
                }
                false
            },
            RegexPatternMatcher::All(children) => {
                let mut i: usize = 0;
                while i < children.len()
                    invariant
                        i <= children@.len(),
                        all_holds(children@.subrange(0, i as int), s@),
                    decreases children@.len() - i,
                {
                    let hit = children[i].is_match(s);
                    proof {
                        lemma_prefix_holds(children@, i as int, s@);
                    }
                    if !hit {
                        proof {
                            lemma_prefix_monotone(children@, i + 1, s@);
                        }
                        return false;
                    }
                    i = i + 1;
                }
                proof {
                    assert(children@.subrange(0, i as int) =~= children@);
                }
                true
            },
            RegexPatternMatcher::Not(child) => !child.is_match(s),
        }
    }
}

/// The matcher accepts a text exactly when the node holds on it.
pub open spec fn agrees(m: RegexPatternMatcher, n: PatternNode<String>, text: Seq<char>) -> bool {
    m.holds(text) == (eval(n, regex_leaf(text)) == Some(true))
}

/// Some matcher of the list accepts the text.
pub open spec fn any_holds(ms: Seq<RegexPatternMatcher>, text: Seq<char>) -> bool
    decreases ms,
{
    if ms.len() == 0 {
        false
    } else {
        any_holds(ms.subrange(0, ms.len() - 1), text) || ms[ms.len() - 1].holds(text)
    }
}

/// Every matcher of the list accepts the text.
pub open spec fn all_holds(ms: Seq<RegexPatternMatcher>, text: Seq<char>) -> bool
    decreases ms,
{
    if ms.len() == 0 {
        true
    } else {
        all_holds(ms.subrange(0, ms.len() - 1), text) && ms[ms.len() - 1].holds(text)
    }
}

proof fn lemma_prefix_holds(ms: Seq<RegexPatternMatcher>, i: int, text: Seq<char>)
    requires
        0 <= i < ms.len(),
    ensures
        any_holds(ms.subrange(0, i + 1), text) == (any_holds(ms.subrange(0, i), text) || ms[i].holds(text)),
        all_holds(ms.subrange(0, i + 1), text) == (all_holds(ms.subrange(0, i), text) && ms[i].holds(text)),
{
    assert(ms.subrange(0, i + 1).subrange(0, i) =~= ms.subrange(0, i));
}

proof fn lemma_prefix_monotone(ms: Seq<RegexPatternMatcher>, i: int, text: Seq<char>)
    requires
        0 <= i <= ms.len(),
    ensures
        any_holds(ms.subrange(0, i), text) ==> any_holds(ms, text),
        !all_holds(ms.subrange(0, i), text) ==> !all_holds(ms, text),
    decreases ms.len(),
{
    if i < ms.len() {
        let ms0 = ms.subrange(0, ms.len() - 1);
        assert(ms0.subrange(0, i) =~= ms.subrange(0, i));
        lemma_prefix_monotone(ms0, i, text);
    } else {
        assert(ms.subrange(0, i) =~= ms);
    }
}

proof fn lemma_list_holds(ms: Seq<RegexPatternMatcher>, cs: Seq<PatternNode<String>>, text: Seq<char>)
    requires
        ms.len() == cs.len(),
        all_no_empty(cs),
        forall|j: int| 0 <= j < ms.len() ==> #[trigger] agrees(ms[j], cs[j], text),
    ensures
        cs.len() > 0 ==> any_holds(ms, text) == (eval_any(cs, regex_leaf(text)) == Some(true)),
        cs.len() > 0 ==> all_holds(ms, text) == (eval_all(cs, regex_leaf(text)) == Some(true)),
    decreases ms.len(),
{
    if ms.len() > 0 {
        let k = ms.len() - 1;
        let f = regex_leaf(text);
        let ms0 = ms.subrange(0, k);
        let cs0 = cs.subrange(0, k);
        lemma_all_no_empty_index(cs);
        lemma_all_no_empty_index(cs0);
        assert forall|j: int| 0 <= j < ms0.len() implies #[trigger] agrees(ms0[j], cs0[j], text) by {
            assert(agrees(ms[j], cs[j], text));
        }
        lemma_list_holds(ms0, cs0, text);
        assert(agrees(ms[k], cs[k], text));
        lemma_no_empty_evaluates(cs[k], f);
        if k > 0 {
            lemma_no_empty_seq_evaluates(cs0, f);
        } else {
            assert(eval_any(cs0, f) is None);
            assert(eval_all(cs0, f) is None);
            assert(!any_holds(ms0, text));
            assert(all_holds(ms0, text));
        }
        assert(any_holds(ms, text) == (any_holds(ms0, text) || ms[k].holds(text)));
        assert(all_holds(ms, text) == (all_holds(ms0, text) && ms[k].holds(text)));
        assert(eval_any(cs, f) == join_or(eval_any(cs0, f), eval(cs[k], f)));
        assert(eval_all(cs, f) == join_and(eval_all(cs0, f), eval(cs[k], f)));
    }
}

proof fn lemma_list_matcher(ms: Vec<RegexPatternMatcher>, g: PatternNode<String>)
    requires
        no_empty(g),
        g is Any || g is All,
        g matches PatternNode::Any { children } ==> ms@.len() == children@.len() && forall|j: int, text: Seq<char>|
            0 <= j < ms@.len() ==> #[trigger] ms@[j].holds(text) == (eval(children@[j], regex_leaf(text)) == Some(true)),
        g matches PatternNode::All { children } ==> ms@.len() == children@.len() && forall|j: int, text: Seq<char>|
            0 <= j < ms@.len() ==> #[trigger] ms@[j].holds(text) == (eval(children@[j], regex_leaf(text)) == Some(true)),
    ensures
        g is Any ==> forall|text: Seq<char>| #[trigger] RegexPatternMatcher::Any(ms).holds(text) == (eval(g, regex_leaf(text)) == Some(true)),
        g is All ==> forall|text: Seq<char>| #[trigger] RegexPatternMatcher::All(ms).holds(text) == (eval(g, regex_leaf(text)) == Some(true)),
{
    let cs = match g {
        PatternNode::Any { children } => children@,
        PatternNode::All { children } => children@,
        _ => Seq::empty(),
    };
    lemma_all_no_empty_index(cs);
    if g is Any {
        assert forall|text: Seq<char>| #[trigger] RegexPatternMatcher::Any(ms).holds(text) == (eval(g, regex_leaf(text)) == Some(true)) by {
            assert forall|j: int| 0 <= j < ms@.len() implies #[trigger] agrees(ms@[j], cs[j], text) by {}
            lemma_list_holds(ms@, cs, text);
        }
    } else {
        assert forall|text: Seq<char>| #[trigger] RegexPatternMatcher::All(ms).holds(text) == (eval(g, regex_leaf(text)) == Some(true)) by {
            assert forall|j: int| 0 <= j < ms@.len() implies #[trigger] agrees(ms@[j], cs[j], text) by {}
            lemma_list_holds(ms@, cs, text);
        }
    }
}

} // verus!
