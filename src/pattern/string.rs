use crate::config::StringPattern;
use crate::pattern::compiler::{
    all_leaves_in, eval, eval_all, eval_any, join_and, join_or, leaves_in, lemma_all_leaves_in_weaken, lemma_eval_push,
    lemma_leaves_in_weaken, negate, optimize, CompileError,
    PatternNode,
};
use crate::pattern::regex_matcher::{
    every_set_builds, lemma_sets_build, regex_in, regex_leaf, regex_matches, word_regex, word_to_regex,
    RegexPatternMatcher,
};
use vstd::prelude::*;

verus! {

broadcast use vstd::seq::axiom_seq_subrange_decreases, vstd::std_specs::vec::axiom_vec_decreases_to_view,
    vstd::std_specs::vec::axiom_vec_index_decreases;

/// Truth value of a string pattern on `text`; `None` where the pattern holds
/// only empty lists.
pub open spec fn string_pattern_eval(p: StringPattern, text: Seq<char>) -> Option<bool>
    decreases p,
{
    match p {
        StringPattern::Word { word } => Some(regex_matches(word_regex(word@), text)),
        StringPattern::Regex { regex } => Some(regex_matches(regex@, text)),
        StringPattern::Any { any } => string_patterns_any(any@, text),
        StringPattern::All { all } => string_patterns_all(all@, text),
        StringPattern::Not { not } => negate(string_pattern_eval(*not, text)),
    }
}

pub open spec fn string_patterns_any(s: Seq<StringPattern>, text: Seq<char>) -> Option<bool>
    decreases s,
{
    if s.len() == 0 {
        None
    } else {
        join_or(string_patterns_any(s.subrange(0, s.len() - 1), text), string_pattern_eval(s[s.len() - 1], text))
    }
}

pub open spec fn string_patterns_all(s: Seq<StringPattern>, text: Seq<char>) -> Option<bool>
    decreases s,
{
    if s.len() == 0 {
        None
    } else {
        join_and(string_patterns_all(s.subrange(0, s.len() - 1), text), string_pattern_eval(s[s.len() - 1], text))
    }
}

/// The regexes that the words and regexes of a string pattern desugar to.
pub open spec fn string_regexes(p: StringPattern) -> Set<Seq<char>>
    decreases p,
{
    match p {
        StringPattern::Word { word } => set![word_regex(word@)],
        StringPattern::Regex { regex } => set![regex@],
        StringPattern::Any { any } => string_regexes_list(any@),
        StringPattern::All { all } => string_regexes_list(all@),
        StringPattern::Not { not } => string_regexes(*not),
    }
}

pub open spec fn string_regexes_list(s: Seq<StringPattern>) -> Set<Seq<char>>
    decreases s,
{
    if s.len() == 0 {
        Set::empty()
    } else {
        string_regexes_list(s.subrange(0, s.len() - 1)).union(string_regexes(s[s.len() - 1]))
    }
}

/// A string pattern that is an expression on every text, and whose regexes
/// build into a regex set however they are grouped.
pub open spec fn string_pattern_compiles(p: StringPattern) -> bool {
    &&& forall|text: Seq<char>| #[trigger] string_pattern_eval(p, text) is Some
    &&& every_set_builds(string_regexes(p))
}

/// Lowers a string pattern to a tree of regexes: a word becomes a
/// case-insensitive regex between word boundaries.
pub fn lower_string_pattern(p: &StringPattern) -> (r: PatternNode<String>)
    ensures
        forall|text: Seq<char>| #[trigger] eval(r, regex_leaf(text)) == string_pattern_eval(*p, text),
        leaves_in(r, regex_in(string_regexes(*p))),
    decreases p,
{
    match p {
        StringPattern::Word { word } => {
            let leaf = word_to_regex(word);
            let r = PatternNode::Leaf { leaf };
            assert forall|text: Seq<char>| #[trigger] eval(r, regex_leaf(text)) == string_pattern_eval(*p, text) by {
                assert(eval(r, regex_leaf(text)) == Some(regex_matches(leaf@, text)));
            }
            assert(string_regexes(*p).contains(leaf@));
            r
        },
        StringPattern::Regex { regex } => {
            let leaf = regex.clone();
            let r = PatternNode::Leaf { leaf };
            assert forall|text: Seq<char>| #[trigger] eval(r, regex_leaf(text)) == string_pattern_eval(*p, text) by {
                assert(eval(r, regex_leaf(text)) == Some(regex_matches(leaf@, text)));
            }
            assert(string_regexes(*p).contains(leaf@));
            r
        },
        StringPattern::Any { any } => {
            let children = lower_string_patterns(any, true);
            let r = PatternNode::Any { children };
            assert forall|text: Seq<char>| #[trigger] eval(r, regex_leaf(text)) == string_pattern_eval(*p, text) by {
                assert(eval(r, regex_leaf(text)) == eval_any(children@, regex_leaf(text)));
            }
            r
        },
        StringPattern::All { all } => {
            let children = lower_string_patterns(all, false);
            let r = PatternNode::All { children };
            assert forall|text: Seq<char>| #[trigger] eval(r, regex_leaf(text)) == string_pattern_eval(*p, text) by {
                assert(eval(r, regex_leaf(text)) == eval_all(children@, regex_leaf(text)));
            }
            r
        },
        StringPattern::Not { not } => {
            let child = lower_string_pattern(not);
            let r = PatternNode::Not { child: Box::new(child) };
            assert forall|text: Seq<char>| #[trigger] eval(r, regex_leaf(text)) == string_pattern_eval(*p, text) by {
                assert(eval(r, regex_leaf(text)) == negate(eval(child, regex_leaf(text))));
            }
            r
        },
    }
}

fn lower_string_patterns(ps: &Vec<StringPattern>, any: bool) -> (r: Vec<PatternNode<String>>)
    ensures
        forall|text: Seq<char>| any ==> #[trigger] eval_any(r@, regex_leaf(text)) == string_patterns_any(ps@, text),
        forall|text: Seq<char>| !any ==> #[trigger] eval_all(r@, regex_leaf(text)) == string_patterns_all(ps@, text),
        all_leaves_in(r@, regex_in(string_regexes_list(ps@))),
    decreases ps,
{
    let mut out: Vec<PatternNode<String>> = Vec::new();
    let mut i: usize = 0;
    proof {
        assert(ps@.subrange(0, 0) =~= Seq::<StringPattern>::empty());
    }
    while i < ps.len()
        invariant
            i <= ps@.len(),
            forall|text: Seq<char>| any ==> #[trigger] eval_any(out@, regex_leaf(text)) == string_patterns_any(ps@.subrange(0, i as int), text),
            forall|text: Seq<char>| !any ==> #[trigger] eval_all(out@, regex_leaf(text)) == string_patterns_all(ps@.subrange(0, i as int), text),
            all_leaves_in(out@, regex_in(string_regexes_list(ps@.subrange(0, i as int)))),
        decreases ps@.len() - i,
    {
        let ghost prev = out@;
        proof {
            assert(decreases_to!(ps => ps[i as int]));
        }
        let node = lower_string_pattern(&ps[i]);
        out.push(node);
        proof {
            let take = ps@.subrange(0, i as int);
            assert(ps@.subrange(0, i + 1).subrange(0, i as int) =~= take);
            assert forall|text: Seq<char>| any implies #[trigger] eval_any(out@, regex_leaf(text)) == string_patterns_any(ps@.subrange(0, i + 1), text) by {
                lemma_eval_push(prev, node, regex_leaf(text));
            }
            assert forall|text: Seq<char>| !any implies #[trigger] eval_all(out@, regex_leaf(text)) == string_patterns_all(ps@.subrange(0, i + 1), text) by {
                lemma_eval_push(prev, node, regex_leaf(text));
            }
            let s0 = string_regexes_list(take);
            let s1 = string_regexes_list(ps@.subrange(0, i + 1));
            assert(s1 == s0.union(string_regexes(ps@[i as int])));
            lemma_all_leaves_in_weaken(prev, regex_in(s0), regex_in(s1));
            lemma_leaves_in_weaken(node, regex_in(string_regexes(ps@[i as int])), regex_in(s1));
            lemma_eval_push(prev, node, regex_leaf(Seq::empty()));
        }
        i = i + 1;
    }
    proof {
        assert(ps@.subrange(0, i as int) =~= ps@);
    }
    out
}

/// Compiled string pattern.
pub struct StringMatcher(pub RegexPatternMatcher);

impl StringMatcher {
    /// Whether the matcher accepts `text`.
    pub open spec fn holds(self, text: Seq<char>) -> bool {
        self.0.holds(text)
    }

    /// Lowers, optimizes and compiles a string pattern. The matcher accepts
    /// exactly the texts on which the pattern holds; a pattern that is no
    /// expression on some text is refused.
    pub fn compile(p: &StringPattern) -> (r: Result<StringMatcher, CompileError>)
        ensures
            r is Ok ==> forall|text: Seq<char>| #[trigger] string_pattern_eval(*p, text) is Some,
            r is Ok ==> forall|text: Seq<char>| #[trigger] r->Ok_0.holds(text) == (string_pattern_eval(*p, text) == Some(true)),
            (exists|text: Seq<char>| #[trigger] string_pattern_eval(*p, text) is None) ==> r is Err,
            string_pattern_compiles(*p) ==> r is Ok,
            r == Err::<StringMatcher, CompileError>(CompileError::ReducedToNothingness) ==> forall|text: Seq<char>| #[trigger] string_pattern_eval(*p, text) is None,
    {
        let lowered = lower_string_pattern(p);
        let ghost lw = lowered;
        match optimize(lowered) {
            Ok(optimized) => {
                match RegexPatternMatcher::from(optimized) {
                    Ok(m) => {
                        proof {
                            assert forall|text: Seq<char>| #[trigger] string_pattern_eval(*p, text) is Some by {
                                assert(eval(optimized, regex_leaf(text)) == eval(lw, regex_leaf(text)));
                                crate::pattern::compiler::lemma_no_empty_evaluates(optimized, regex_leaf(text));
                            }
                            assert forall|text: Seq<char>| #[trigger] m.holds(text) == (string_pattern_eval(*p, text) == Some(true)) by {
                                assert(eval(optimized, regex_leaf(text)) == eval(lw, regex_leaf(text)));
                            }
                        }
                        Ok(StringMatcher(m))
                    },
                    Err(e) => {
                        proof {
                            if string_pattern_compiles(*p) {
                                assert(leaves_in(lw, regex_in(string_regexes(*p))));
                                assert(leaves_in(optimized, regex_in(string_regexes(*p))));
                                lemma_sets_build(optimized, string_regexes(*p));
                            }
                        }
                        Err(e)
                    },
                }
            },
            Err(e) => {
                proof {
                    assert forall|text: Seq<char>| #[trigger] string_pattern_eval(*p, text) is None by {
                        assert(eval(lw, regex_leaf(text)) is None);
                    }
                    if string_pattern_compiles(*p) {
                        assert(string_pattern_eval(*p, Seq::<char>::empty()) is Some);
                    }
                }
                Err(e)
            },
        }
    }

    /// Whether the matcher accepts `s`.
    pub fn is_match(&self, s: &str) -> (r: bool)
        ensures
            r == self.holds(s@),
    {
        self.0.is_match(s)
    }
}

} // verus!
