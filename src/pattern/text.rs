use crate::config::{LinkPattern, StringPattern, TextPattern, UserPattern};
use crate::pattern::compiler::{
    eval, eval_all, eval_any, join_and, join_or, lemma_eval_push, lemma_no_empty_evaluates, negate, no_empty,
    optimize, CompileError, PatternNode,
};
use crate::pattern::link::{link_pattern_eval, LinkInput, LinkMatcher};
use crate::pattern::regex_matcher::{
    build_regex_set, every_set_builds, regex_matches, regex_set_builds, regex_set_patterns, set_matches_all,
    set_matches_any, string_views, word_regex, word_to_regex,
};
use crate::pattern::compiler::{all_leaves_in, leaves_in, lemma_all_leaves_in_weaken, lemma_leaves_in_weaken};
use crate::pattern::link::link_pattern_compiles;
use crate::pattern::string::string_pattern_compiles;
use crate::pattern::user::user_pattern_compiles;
use crate::pattern::string::{string_pattern_eval, StringMatcher};
use crate::pattern::tree::{
    all_of_kind, compiled_from, fuse_leaves, fuse_ready, regex_sources, matcher_leaf, pattern_leaf, tree_holds, tree_is_match, CompileLeaf, FuseLeaf,
    LeafMatcher,
};
use crate::pattern::user::{user_pattern_eval, UserMatcher, UserMatcherInput};
use vstd::prelude::*;

verus! {

broadcast use vstd::seq::axiom_seq_subrange_decreases, vstd::std_specs::vec::axiom_vec_decreases_to_view,
    vstd::std_specs::vec::axiom_vec_index_decreases;

/// Text with its facets: the visible text, the links, the mentioned users
/// and the hashtags.
#[derive(Clone, Debug, PartialEq)]
pub struct TextMatcherInput {
    pub text: String,
    pub links: Vec<LinkInput>,
    pub mentions: Vec<UserMatcherInput>,
    pub hashtags: Vec<String>,
}

/// Some link of the input satisfies the link pattern.
pub open spec fn some_link(p: LinkPattern, input: TextMatcherInput) -> bool {
    exists|i: int| 0 <= i < input.links@.len() && #[trigger] link_pattern_eval(p, input.links@[i]) == Some(true)
}

/// Some mentioned user satisfies the user pattern.
pub open spec fn some_mention(p: UserPattern, input: TextMatcherInput) -> bool {
    exists|i: int| 0 <= i < input.mentions@.len() && #[trigger] user_pattern_eval(p, input.mentions@[i]) == Some(true)
}

/// Some hashtag satisfies the string pattern.
pub open spec fn some_hashtag(p: StringPattern, input: TextMatcherInput) -> bool {
    exists|i: int| 0 <= i < input.hashtags@.len() && #[trigger] string_pattern_eval(p, input.hashtags@[i]@) == Some(true)
}

/// Truth value of a text pattern on a text; `None` where the pattern holds
/// only empty lists.
pub open spec fn text_pattern_eval(p: TextPattern, input: TextMatcherInput) -> Option<bool>
    decreases p,
{
    match p {
        TextPattern::Word { word } => Some(regex_matches(word_regex(word@), input.text@)),
        TextPattern::Regex { regex } => Some(regex_matches(regex@, input.text@)),
        TextPattern::Link { link } => Some(some_link(link, input)),
        TextPattern::Mention { mention } => Some(some_mention(mention, input)),
        TextPattern::Hashtag { hashtag } => Some(some_hashtag(hashtag, input)),
        TextPattern::Any { any } => text_patterns_any(any@, input),
        TextPattern::All { all } => text_patterns_all(all@, input),
        TextPattern::Not { not } => negate(text_pattern_eval(*not, input)),
    }
}

pub open spec fn text_patterns_any(s: Seq<TextPattern>, input: TextMatcherInput) -> Option<bool>
    decreases s,
{
    if s.len() == 0 {
        None
    } else {
        join_or(text_patterns_any(s.subrange(0, s.len() - 1), input), text_pattern_eval(s[s.len() - 1], input))
    }
}

pub open spec fn text_patterns_all(s: Seq<TextPattern>, input: TextMatcherInput) -> Option<bool>
    decreases s,
{
    if s.len() == 0 {
        None
    } else {
        join_and(text_patterns_all(s.subrange(0, s.len() - 1), input), text_pattern_eval(s[s.len() - 1], input))
    }
}

/// A leaf of a text pattern, before compiling.
pub enum TextPatternLeaf<'a> {
    Regex(String),
    Link(&'a LinkPattern),
    Mention(&'a UserPattern),
    Hashtag(&'a StringPattern),
}

/// A compiled leaf of a text pattern.
pub enum TextLeafMatcher {
    AnyRegexes(regex::RegexSet),
    AllRegexes(regex::RegexSet),
    Link(LinkMatcher),
    Mention(UserMatcher),
    Hashtag(StringMatcher),
}

pub open spec fn link_hit(m: LinkMatcher, links: Seq<LinkInput>) -> bool {
    exists|i: int| 0 <= i < links.len() && #[trigger] m.holds(links[i])
}

pub open spec fn mention_hit(m: UserMatcher, mentions: Seq<UserMatcherInput>) -> bool {
    exists|i: int| 0 <= i < mentions.len() && #[trigger] m.holds(mentions[i])
}

pub open spec fn hashtag_hit(m: StringMatcher, hashtags: Seq<String>) -> bool {
    exists|i: int| 0 <= i < hashtags.len() && #[trigger] m.holds(hashtags[i]@)
}

pub open spec fn text_set_any(set: regex::RegexSet, input: TextMatcherInput) -> bool {
    exists|i: int| 0 <= i < regex_set_patterns(set).len() && #[trigger] regex_matches(regex_set_patterns(set)[i], input.text@)
}

pub open spec fn text_set_all(set: regex::RegexSet, input: TextMatcherInput) -> bool {
    forall|i: int| 0 <= i < regex_set_patterns(set).len() ==> #[trigger] regex_matches(regex_set_patterns(set)[i], input.text@)
}

impl LeafMatcher<TextMatcherInput> for TextLeafMatcher {
    open spec fn leaf_holds(&self, input: TextMatcherInput) -> bool {
        match self {
            TextLeafMatcher::AnyRegexes(set) => text_set_any(*set, input),
            TextLeafMatcher::AllRegexes(set) => text_set_all(*set, input),
            TextLeafMatcher::Link(m) => link_hit(*m, input.links@),
            TextLeafMatcher::Mention(m) => mention_hit(*m, input.mentions@),
            TextLeafMatcher::Hashtag(m) => hashtag_hit(*m, input.hashtags@),
        }
    }

    #[verifier::loop_isolation(false)]
    fn leaf_is_match(&self, input: &TextMatcherInput) -> (r: bool) {
        match self {
            TextLeafMatcher::AnyRegexes(set) => set_matches_any(set, input.text.as_str()),
            TextLeafMatcher::AllRegexes(set) => set_matches_all(set, input.text.as_str()),
            TextLeafMatcher::Link(m) => {
                let mut i: usize = 0;
                while i < input.links.len()
                    invariant
                        i <= input.links@.len(),
                        forall|j: int| 0 <= j < i ==> !#[trigger] m.holds(input.links@[j]),
                    decreases input.links@.len() - i,
                {
                    if m.is_match(&input.links[i]) {
                        return true;
                    }
                    i = i + 1;
                }
                false
            },
            TextLeafMatcher::Mention(m) => {
                let mut i: usize = 0;
                while i < input.mentions.len()
                    invariant
                        i <= input.mentions@.len(),
                        forall|j: int| 0 <= j < i ==> !#[trigger] m.holds(input.mentions@[j]),
                    decreases input.mentions@.len() - i,
                {
                    if m.is_match(&input.mentions[i]) {
                        return true;
                    }
                    i = i + 1;
                }
                false
            },
            TextLeafMatcher::Hashtag(m) => {
                let mut i: usize = 0;
                while i < input.hashtags.len()
                    invariant
                        i <= input.hashtags@.len(),
                        forall|j: int| 0 <= j < i ==> !#[trigger] m.holds(input.hashtags@[j]@),
                    decreases input.hashtags@.len() - i,
                {
                    if m.is_match(input.hashtags[i].as_str()) {
                        return true;
                    }
                    i = i + 1;
                }
                false
            },
        }
    }
}

impl<'a> CompileLeaf<TextLeafMatcher, TextMatcherInput> for TextPatternLeaf<'a> {
    open spec fn compiled_as(&self, m: TextLeafMatcher) -> bool {
        match self {
            TextPatternLeaf::Regex(p) => m matches TextLeafMatcher::AnyRegexes(set) && regex_set_patterns(set) == seq![p@],
            TextPatternLeaf::Link(_) => m is Link,
            TextPatternLeaf::Mention(_) => m is Mention,
            TextPatternLeaf::Hashtag(_) => m is Hashtag,
        }
    }

    open spec fn compiles(&self) -> bool {
        match self {
            TextPatternLeaf::Regex(p) => regex_set_builds(seq![p@]),
            TextPatternLeaf::Link(p) => link_pattern_compiles(**p),
            TextPatternLeaf::Mention(p) => user_pattern_compiles(**p),
            TextPatternLeaf::Hashtag(p) => string_pattern_compiles(**p),
        }
    }

    open spec fn pattern_holds(&self, input: TextMatcherInput) -> bool {
        match self {
            TextPatternLeaf::Regex(p) => regex_matches(p@, input.text@),
            TextPatternLeaf::Link(p) => some_link(**p, input),
            TextPatternLeaf::Mention(p) => some_mention(**p, input),
            TextPatternLeaf::Hashtag(p) => some_hashtag(**p, input),
        }
    }

    fn compile_leaf(self) -> (r: Result<TextLeafMatcher, CompileError>) {
        let ghost me = self;
        match self {
            TextPatternLeaf::Regex(pattern) => {
                let mut patterns: Vec<String> = Vec::new();
                patterns.push(pattern);
                proof {
                    assert(string_views(patterns@) =~= seq![patterns@[0]@]);
                }
                match build_regex_set(&patterns) {
                    Some(set) => {
                        let m = TextLeafMatcher::AnyRegexes(set);
                        proof {
                            assert forall|input: TextMatcherInput| #[trigger] m.leaf_holds(input) == me.pattern_holds(input) by {
                                let ps = regex_set_patterns(set);
                                assert(ps[0] == patterns@[0]@);
                                if m.leaf_holds(input) {
                                    let i = choose|i: int| 0 <= i < ps.len() && #[trigger] regex_matches(ps[i], input.text@);
                                    assert(i == 0);
                                }
                            }
                        }
                        Ok(m)
                    },
                    None => Err(CompileError::InvalidRegex),
                }
            },
            TextPatternLeaf::Link(p) => match LinkMatcher::compile(p) {
                Ok(lm) => {
                    let m = TextLeafMatcher::Link(lm);
                    proof {
                        assert forall|input: TextMatcherInput| #[trigger] m.leaf_holds(input) == me.pattern_holds(input) by {
                            assert(m.leaf_holds(input) == link_hit(lm, input.links@));
                            assert(me.pattern_holds(input) == some_link(*p, input));
                            if m.leaf_holds(input) {
                                let i = choose|i: int| 0 <= i < input.links@.len() && #[trigger] lm.holds(input.links@[i]);
                                assert(link_pattern_eval(*p, input.links@[i]) == Some(true));
                            }
                            if me.pattern_holds(input) {
                                let i = choose|i: int| 0 <= i < input.links@.len() && #[trigger] link_pattern_eval(*p, input.links@[i]) == Some(true);
                                assert(lm.holds(input.links@[i]));
                            }
                        }
                    }
                    Ok(m)
                },
                Err(e) => Err(e),
            },
            TextPatternLeaf::Mention(p) => match UserMatcher::compile(p) {
                Ok(um) => {
                    let m = TextLeafMatcher::Mention(um);
                    proof {
                        assert forall|input: TextMatcherInput| #[trigger] m.leaf_holds(input) == me.pattern_holds(input) by {
                            if m.leaf_holds(input) {
                                let i = choose|i: int| 0 <= i < input.mentions@.len() && #[trigger] um.holds(input.mentions@[i]);
                                assert(user_pattern_eval(*p, input.mentions@[i]) == Some(true));
                            }
                            if me.pattern_holds(input) {
                                let i = choose|i: int| 0 <= i < input.mentions@.len() && #[trigger] user_pattern_eval(*p, input.mentions@[i]) == Some(true);
                                assert(um.holds(input.mentions@[i]));
                            }
                        }
                    }
                    Ok(m)
                },
                Err(e) => Err(e),
            },
            TextPatternLeaf::Hashtag(p) => match StringMatcher::compile(p) {
                Ok(sm) => {
                    let m = TextLeafMatcher::Hashtag(sm);
                    proof {
                        assert forall|input: TextMatcherInput| #[trigger] m.leaf_holds(input) == me.pattern_holds(input) by {
                            if m.leaf_holds(input) {
                                let i = choose|i: int| 0 <= i < input.hashtags@.len() && #[trigger] sm.holds(input.hashtags@[i]@);
                                assert(string_pattern_eval(*p, input.hashtags@[i]@) == Some(true));
                            }
                            if me.pattern_holds(input) {
                                let i = choose|i: int| 0 <= i < input.hashtags@.len() && #[trigger] string_pattern_eval(*p, input.hashtags@[i]@) == Some(true);
                                assert(sm.holds(input.hashtags@[i]@));
                            }
                        }
                    }
                    Ok(m)
                },
                Err(e) => Err(e),
            },
        }
    }
}

impl<'a> FuseLeaf<TextLeafMatcher, TextMatcherInput> for TextPatternLeaf<'a> {
    open spec fn is_fused(m: TextLeafMatcher, kind: u8, any: bool, patterns: Seq<Seq<char>>) -> bool {
        match m {
            TextLeafMatcher::AnyRegexes(set) => any && regex_set_patterns(set) == patterns,
            TextLeafMatcher::AllRegexes(set) => !any && regex_set_patterns(set) == patterns,
            _ => false,
        }
    }

    open spec fn kind_holds(kind: u8, pattern: Seq<char>, input: TextMatcherInput) -> bool {
        regex_matches(pattern, input.text@)
    }

    open spec fn regex_kind(&self) -> Option<u8> {
        match self {
            TextPatternLeaf::Regex(_) => Some(0u8),
            _ => None,
        }
    }

    open spec fn regex_source(&self) -> Seq<char> {
        match self {
            TextPatternLeaf::Regex(p) => p@,
            _ => Seq::empty(),
        }
    }

    proof fn lemma_regex_leaf(&self, input: TextMatcherInput) {
    }

    fn kind(&self) -> (r: Option<u8>) {
        match self {
            TextPatternLeaf::Regex(_) => Some(0u8),
            _ => None,
        }
    }

    fn into_regex(self) -> (r: String) {
        match self {
            TextPatternLeaf::Regex(p) => p,
            _ => String::new(),
        }
    }

    fn fused(kind: u8, any: bool, set: regex::RegexSet) -> (r: TextLeafMatcher) {
        let r = if any {
            TextLeafMatcher::AnyRegexes(set)
        } else {
            TextLeafMatcher::AllRegexes(set)
        };
        let ghost ps = regex_set_patterns(set);
        assert forall|input: TextMatcherInput| any implies #[trigger] r.leaf_holds(input) == (exists|i: int| 0 <= i < ps.len() && #[trigger] Self::kind_holds(kind, ps[i], input)) by {
            if r.leaf_holds(input) {
                let i = choose|i: int| 0 <= i < ps.len() && #[trigger] regex_matches(ps[i], input.text@);
                assert(Self::kind_holds(kind, ps[i], input));
            }
            if exists|i: int| 0 <= i < ps.len() && #[trigger] Self::kind_holds(kind, ps[i], input) {
                let i = choose|i: int| 0 <= i < ps.len() && #[trigger] Self::kind_holds(kind, ps[i], input);
                assert(regex_matches(ps[i], input.text@));
            }
        }
        assert forall|input: TextMatcherInput| !any implies #[trigger] r.leaf_holds(input) == (forall|i: int| 0 <= i < ps.len() ==> #[trigger] Self::kind_holds(kind, ps[i], input)) by {
            if !r.leaf_holds(input) {
                let i = choose|i: int| 0 <= i < ps.len() && !#[trigger] regex_matches(ps[i], input.text@);
                assert(!Self::kind_holds(kind, ps[i], input));
            }
            if !(forall|i: int| 0 <= i < ps.len() ==> #[trigger] Self::kind_holds(kind, ps[i], input)) {
                let i = choose|i: int| 0 <= i < ps.len() && !#[trigger] Self::kind_holds(kind, ps[i], input);
                assert(!regex_matches(ps[i], input.text@));
            }
        }
        r
    }
}

/// The regexes that the words and regexes of a text pattern desugar to
/// (not those of its link, mention and hashtag patterns).
pub open spec fn text_regexes(p: TextPattern) -> Set<Seq<char>>
    decreases p,
{
    match p {
        TextPattern::Word { word } => set![word_regex(word@)],
        TextPattern::Regex { regex } => set![regex@],
        TextPattern::Any { any } => text_regexes_list(any@),
        TextPattern::All { all } => text_regexes_list(all@),
        TextPattern::Not { not } => text_regexes(*not),
        _ => Set::empty(),
    }
}

pub open spec fn text_regexes_list(s: Seq<TextPattern>) -> Set<Seq<char>>
    decreases s,
{
    if s.len() == 0 {
        Set::empty()
    } else {
        text_regexes_list(s.subrange(0, s.len() - 1)).union(text_regexes(s[s.len() - 1]))
    }
}

/// Whether every link, mention and hashtag pattern of a text pattern
/// compiles.
pub open spec fn text_parts_compile(p: TextPattern) -> bool
    decreases p,
{
    match p {
        TextPattern::Link { link } => link_pattern_compiles(link),
        TextPattern::Mention { mention } => user_pattern_compiles(mention),
        TextPattern::Hashtag { hashtag } => string_pattern_compiles(hashtag),
        TextPattern::Any { any } => text_parts_compile_list(any@),
        TextPattern::All { all } => text_parts_compile_list(all@),
        TextPattern::Not { not } => text_parts_compile(*not),
        _ => true,
    }
}

pub open spec fn text_parts_compile_list(s: Seq<TextPattern>) -> bool
    decreases s,
{
    if s.len() == 0 {
        true
    } else {
        text_parts_compile_list(s.subrange(0, s.len() - 1)) && text_parts_compile(s[s.len() - 1])
    }
}

/// A text pattern that is an expression on every input, whose regexes build
/// into a regex set however they are grouped, and whose link, mention and
/// hashtag patterns compile.
pub open spec fn text_pattern_compiles(p: TextPattern) -> bool {
    &&& forall|input: TextMatcherInput| #[trigger] text_pattern_eval(p, input) is Some
    &&& every_set_builds(text_regexes(p))
    &&& text_parts_compile(p)
}

/// Regex leaves drawn from `regexes`, and other leaves that compile.
pub open spec fn text_leaf_ok<'a>(regexes: Set<Seq<char>>) -> spec_fn(TextPatternLeaf<'a>) -> bool {
    |a: TextPatternLeaf<'a>|
        match a {
            TextPatternLeaf::Regex(q) => regexes.contains(q@),
            _ => a.compiles(),
        }
}

pub open spec fn text_leaf<'a>(input: TextMatcherInput) -> spec_fn(TextPatternLeaf<'a>) -> bool {
    pattern_leaf::<TextPatternLeaf<'a>, TextLeafMatcher, TextMatcherInput>(input)
}

/// Lowers a text pattern to a tree of regexes over the text, and of leaves
/// that refer to link, mention and hashtag patterns.
pub fn lower_text_pattern<'a>(p: &'a TextPattern) -> (r: PatternNode<TextPatternLeaf<'a>>)
    ensures
        forall|input: TextMatcherInput| #[trigger] eval(r, text_leaf(input)) == text_pattern_eval(*p, input),
        text_parts_compile(*p) ==> leaves_in(r, text_leaf_ok(text_regexes(*p))),
    decreases p,
{
    let r = match p {
        TextPattern::Word { word } => PatternNode::Leaf { leaf: TextPatternLeaf::Regex(word_to_regex(word)) },
        TextPattern::Regex { regex } => PatternNode::Leaf { leaf: TextPatternLeaf::Regex(regex.clone()) },
        TextPattern::Link { link } => PatternNode::Leaf { leaf: TextPatternLeaf::Link(link) },
        TextPattern::Mention { mention } => PatternNode::Leaf { leaf: TextPatternLeaf::Mention(mention) },
        TextPattern::Hashtag { hashtag } => PatternNode::Leaf { leaf: TextPatternLeaf::Hashtag(hashtag) },
        TextPattern::Any { any } => PatternNode::Any { children: lower_text_patterns(any, true) },
        TextPattern::All { all } => PatternNode::All { children: lower_text_patterns(all, false) },
        TextPattern::Not { not } => PatternNode::Not { child: Box::new(lower_text_pattern(not)) },
    };
    proof {
        assert forall|input: TextMatcherInput| #[trigger] eval(r, text_leaf(input)) == text_pattern_eval(*p, input) by {
            match r {
                PatternNode::Leaf { leaf } => {
                    assert(eval(r, text_leaf(input)) == Some(leaf.pattern_holds(input)));
                },
                PatternNode::Any { children } => {
                    assert(eval(r, text_leaf(input)) == eval_any(children@, text_leaf(input)));
                },
                PatternNode::All { children } => {
                    assert(eval(r, text_leaf(input)) == eval_all(children@, text_leaf(input)));
                },
                PatternNode::Not { child } => {
                    assert(eval(r, text_leaf(input)) == negate(eval(*child, text_leaf(input))));
                },
            }
        }
        if text_parts_compile(*p) {
            if r is Leaf {
                assert(text_leaf_ok(text_regexes(*p))(r->Leaf_leaf));
            }
        }
    }
    r
}

fn lower_text_patterns<'a>(ps: &'a Vec<TextPattern>, any: bool) -> (r: Vec<PatternNode<TextPatternLeaf<'a>>>)
    ensures
        forall|input: TextMatcherInput| any ==> #[trigger] eval_any(r@, text_leaf(input)) == text_patterns_any(ps@, input),
        forall|input: TextMatcherInput| !any ==> #[trigger] eval_all(r@, text_leaf(input)) == text_patterns_all(ps@, input),
        text_parts_compile_list(ps@) ==> all_leaves_in(r@, text_leaf_ok(text_regexes_list(ps@))),
    decreases ps,
{
    let mut out: Vec<PatternNode<TextPatternLeaf<'a>>> = Vec::new();
    let mut i: usize = 0;
    proof {
        assert(ps@.subrange(0, 0) =~= Seq::<TextPattern>::empty());
    }
    while i < ps.len()
        invariant
            i <= ps@.len(),
            forall|input: TextMatcherInput| any ==> #[trigger] eval_any(out@, text_leaf(input)) == text_patterns_any(ps@.subrange(0, i as int), input),
            forall|input: TextMatcherInput| !any ==> #[trigger] eval_all(out@, text_leaf(input)) == text_patterns_all(ps@.subrange(0, i as int), input),
            text_parts_compile_list(ps@.subrange(0, i as int)) ==> all_leaves_in(out@, text_leaf_ok(text_regexes_list(ps@.subrange(0, i as int)))),
        decreases ps@.len() - i,
    {
        let ghost prev = out@;
        proof {
            assert(decreases_to!(ps => ps[i as int]));
        }
        let node = lower_text_pattern(&ps[i]);
        out.push(node);
        proof {
            let take = ps@.subrange(0, i as int);
            assert(ps@.subrange(0, i + 1).subrange(0, i as int) =~= take);
            assert forall|input: TextMatcherInput| any implies #[trigger] eval_any(out@, text_leaf(input)) == text_patterns_any(ps@.subrange(0, i + 1), input) by {
                lemma_eval_push(prev, node, text_leaf(input));
            }
            assert forall|input: TextMatcherInput| !any implies #[trigger] eval_all(out@, text_leaf(input)) == text_patterns_all(ps@.subrange(0, i + 1), input) by {
                lemma_eval_push(prev, node, text_leaf(input));
            }
            let s0 = text_regexes_list(take);
            let s1 = text_regexes_list(ps@.subrange(0, i + 1));
            assert(s1 == s0.union(text_regexes(ps@[i as int])));
            assert(text_parts_compile_list(ps@.subrange(0, i + 1)) == (text_parts_compile_list(take) && text_parts_compile(ps@[i as int])));
            if text_parts_compile_list(ps@.subrange(0, i + 1)) {
                lemma_all_leaves_in_weaken(prev, text_leaf_ok(s0), text_leaf_ok(s1));
                lemma_leaves_in_weaken(node, text_leaf_ok(text_regexes(ps@[i as int])), text_leaf_ok(s1));
                lemma_eval_push(prev, node, text_leaf(arbitrary()));
            }
        }
        i = i + 1;
    }
    proof {
        assert(ps@.subrange(0, i as int) =~= ps@);
    }
    out
}

/// Compiled tree of a text pattern.
pub struct TextMatcherInner(pub PatternNode<TextLeafMatcher>);

impl TextMatcherInner {
    /// Compiles an optimized tree: each list of regexes becomes one regex set.
    pub fn from(node: PatternNode<TextPatternLeaf>) -> (r: Result<Self, CompileError>)
        requires
            no_empty(node),
        ensures
            r is Ok ==> no_empty(r->Ok_0.0),
            r is Ok ==> forall|input: TextMatcherInput| #[trigger] tree_holds(r->Ok_0.0, input) == (eval(node, text_leaf(input)) == Some(true)),
            forall|regexes: Set<Seq<char>>|
                #[trigger] leaves_in(node, fuse_ready::<TextLeafMatcher, TextMatcherInput, TextPatternLeaf<'_>>(regexes)) && every_set_builds(regexes) ==> r is Ok,
            forall|k: u8|
                r is Ok && node is Any && #[trigger] all_of_kind::<TextLeafMatcher, TextMatcherInput, TextPatternLeaf<'_>>(node->Any_children@, k) ==> r->Ok_0.0 is Leaf
                    && TextPatternLeaf::is_fused(r->Ok_0.0->Leaf_leaf, k, true, regex_sources::<TextLeafMatcher, TextMatcherInput, TextPatternLeaf<'_>>(node->Any_children@)),
            forall|k: u8|
                r is Ok && node is All && #[trigger] all_of_kind::<TextLeafMatcher, TextMatcherInput, TextPatternLeaf<'_>>(node->All_children@, k) ==> r->Ok_0.0 is Leaf
                    && TextPatternLeaf::is_fused(r->Ok_0.0->Leaf_leaf, k, false, regex_sources::<TextLeafMatcher, TextMatcherInput, TextPatternLeaf<'_>>(node->All_children@)),
            r is Ok && node is Any && !(exists|k: u8| all_of_kind::<TextLeafMatcher, TextMatcherInput, TextPatternLeaf<'_>>(node->Any_children@, k)) ==> r->Ok_0.0 is Any
                && r->Ok_0.0->Any_children@.len() == node->Any_children@.len()
                && forall|j: int| 0 <= j < node->Any_children@.len() ==> #[trigger] compiled_from(node->Any_children@[j], r->Ok_0.0->Any_children@[j]),
            r is Ok && node is All && !(exists|k: u8| all_of_kind::<TextLeafMatcher, TextMatcherInput, TextPatternLeaf<'_>>(node->All_children@, k)) ==> r->Ok_0.0 is All
                && r->Ok_0.0->All_children@.len() == node->All_children@.len()
                && forall|j: int| 0 <= j < node->All_children@.len() ==> #[trigger] compiled_from(node->All_children@[j], r->Ok_0.0->All_children@[j]),
    {
        match fuse_leaves::<TextLeafMatcher, TextMatcherInput, TextPatternLeaf>(node) {
            Ok(tree) => Ok(TextMatcherInner(tree)),
            Err(e) => Err(e),
        }
    }
}

/// Compiled link pattern.
pub struct TextMatcher(TextMatcherInner);

impl TextMatcher {
    #[verifier::type_invariant]
    spec fn wf(self) -> bool {
        no_empty(self.0.0)
    }

    /// Whether the matcher accepts `input`.
    pub closed spec fn holds(self, input: TextMatcherInput) -> bool {
        tree_holds(self.0.0, input)
    }

    /// Lowers, optimizes and compiles a text pattern. The matcher accepts
    /// exactly the texts on which the pattern holds.
    pub fn compile(p: &TextPattern) -> (r: Result<TextMatcher, CompileError>)
        ensures
            r is Ok ==> forall|input: TextMatcherInput| #[trigger] text_pattern_eval(*p, input) is Some,
            r is Ok ==> forall|input: TextMatcherInput| #[trigger] r->Ok_0.holds(input) == (text_pattern_eval(*p, input) == Some(true)),
            (exists|input: TextMatcherInput| #[trigger] text_pattern_eval(*p, input) is None) ==> r is Err,
            text_pattern_compiles(*p) ==> r is Ok,
    {
        let lowered = lower_text_pattern(p);
        let ghost lw = lowered;
        match optimize(lowered) {
            Ok(optimized) => {
                let ghost op = optimized;
                match TextMatcherInner::from(optimized) {
                    Ok(inner) => {
                        let m = TextMatcher(inner);
                        proof {
                            assert forall|input: TextMatcherInput| #[trigger] text_pattern_eval(*p, input) is Some by {
                                assert(eval(op, text_leaf(input)) == eval(lw, text_leaf(input)));
                                lemma_no_empty_evaluates(op, text_leaf(input));
                            }
                            assert forall|input: TextMatcherInput| #[trigger] m.holds(input) == (text_pattern_eval(*p, input) == Some(true)) by {
                                assert(eval(op, text_leaf(input)) == eval(lw, text_leaf(input)));
                            }
                        }
                        Ok(m)
                    },
                    Err(e) => {
                        proof {
                            if text_pattern_compiles(*p) {
                                let regexes = text_regexes(*p);
                                assert(leaves_in(lw, text_leaf_ok(regexes)));
                                assert(leaves_in(op, text_leaf_ok(regexes)));
                                assert forall|l: TextPatternLeaf| #[trigger] text_leaf_ok(regexes)(l) implies fuse_ready::<TextLeafMatcher, TextMatcherInput, TextPatternLeaf>(regexes)(l) by {
                                    if let TextPatternLeaf::Regex(q) = l {
                                        let ps = seq![q@];
                                        assert(ps[0] == q@);
                                        assert(regex_set_builds(ps));
                                    }
                                }
                                lemma_leaves_in_weaken(op, text_leaf_ok(regexes), fuse_ready::<TextLeafMatcher, TextMatcherInput, TextPatternLeaf>(regexes));
                            }
                        }
                        Err(e)
                    },
                }
            },
            Err(e) => {
                proof {
                    if text_pattern_compiles(*p) {
                        let input = arbitrary::<TextMatcherInput>();
                        assert(eval(lw, text_leaf(input)) is None);
                        assert(text_pattern_eval(*p, input) is Some);
                    }
                }
                Err(e)
            },
        }
    }

    /// Whether the matcher accepts `input`.
    pub fn is_match(&self, input: &TextMatcherInput) -> (r: bool)
        ensures
            r == self.holds(*input),
    {
        proof {
            use_type_invariant(self);
        }
        tree_is_match(&self.0.0, input)
    }
}

} // verus!
