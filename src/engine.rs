use crate::config::{Config, Report, Restrict, Rule};
use crate::pattern::compiler::CompileError;
use crate::pattern::rule::{rule_pattern_compiles, rule_pattern_eval, RuleMatcher, RuleMatcherInput};
use vstd::prelude::*;

verus! {

/// The order of restrictions, from the mildest.
pub open spec fn restrict_rank(r: Restrict) -> nat {
    match r {
        Restrict::Sensitive => 0,
        Restrict::Disable => 1,
        Restrict::Silence => 2,
        Restrict::Suspend => 3,
    }
}

pub fn rank(r: Restrict) -> (n: u8)
    ensures
        n as nat == restrict_rank(r),
{
    match r {
        Restrict::Sensitive => 0,
        Restrict::Disable => 1,
        Restrict::Silence => 2,
        Restrict::Suspend => 3,
    }
}

/// The harsher of an optional restriction and a new one.
pub open spec fn harsher(current: Option<Restrict>, new: Restrict) -> Option<Restrict> {
    match current {
        Some(c) => if restrict_rank(new) > restrict_rank(c) {
            Some(new)
        } else {
            Some(c)
        },
        None => Some(new),
    }
}

pub open spec fn views(v: Seq<String>) -> Seq<Seq<char>> {
    v.map_values(|s: String| s@)
}

/// A copy of a report spec, string by string.
pub fn copy_report(report: &Report) -> (r: Report)
    ensures
        r.spam == report.spam,
        r.forward == report.forward,
        views(r.rule_ids@) == views(report.rule_ids@),
{
    let mut rule_ids: Vec<String> = Vec::new();
    let mut i: usize = 0;
    while i < report.rule_ids.len()
        invariant
            i <= report.rule_ids@.len(),
            rule_ids@.len() == i,
            forall|k: int| 0 <= k < i ==> #[trigger] rule_ids@[k]@ == report.rule_ids@[k]@,
        decreases report.rule_ids@.len() - i,
    {
        rule_ids.push(report.rule_ids[i].clone());
        i = i + 1;
    }
    proof {
        assert(views(rule_ids@) =~= views(report.rule_ids@));
    }
    Report { rule_ids, spam: report.spam, forward: report.forward }
}

/// A rule with its patterns compiled to matchers.
pub struct CompiledRule {
    pub name: String,
    pub report: Option<Report>,
    pub restrict: Option<Restrict>,
    pub matchers: Vec<RuleMatcher>,
}

impl CompiledRule {
    /// Whether the rule fires on a post: some of its patterns matches.
    pub open spec fn fires(self, input: RuleMatcherInput) -> bool {
        exists|j: int| 0 <= j < self.matchers@.len() && #[trigger] self.matchers@[j].holds(input)
    }

    /// The rule compiled from `rule`: same name, report and restriction, and
    /// one matcher for each pattern, accepting what the pattern holds on.
    pub open spec fn compiled_from(self, rule: Rule) -> bool {
        &&& self.name@ == rule.name@
        &&& self.restrict == rule.restrict
        &&& (self.report is Some <==> rule.report is Some)
        &&& (self.report is Some ==> {
            &&& self.report->0.spam == rule.report->0.spam
            &&& self.report->0.forward == rule.report->0.forward
            &&& views(self.report->0.rule_ids@) == views(rule.report->0.rule_ids@)
        })
        &&& self.matchers@.len() == rule.patterns@.len()
        &&& forall|j: int, input: RuleMatcherInput|
            0 <= j < self.matchers@.len() ==> #[trigger] self.matchers@[j].holds(input) == (rule_pattern_eval(rule.patterns@[j], input) == Some(true))
    }

    /// Compiles every pattern of a rule; the first pattern that does not
    /// compile fails the rule.
    pub fn try_from(rule: &Rule) -> (r: Result<CompiledRule, CompileError>)
        ensures
            r is Ok ==> r->Ok_0.compiled_from(*rule),
            rule_compiles(*rule) ==> r is Ok,
    {
        let mut matchers: Vec<RuleMatcher> = Vec::new();
        let mut i: usize = 0;
        while i < rule.patterns.len()
            invariant
                i <= rule.patterns@.len(),
                matchers@.len() == i,
                forall|j: int, input: RuleMatcherInput|
                    0 <= j < i ==> #[trigger] matchers@[j].holds(input) == (rule_pattern_eval(rule.patterns@[j], input) == Some(true)),
            decreases rule.patterns@.len() - i,
        {
            match RuleMatcher::compile(&rule.patterns[i]) {
                Ok(m) => {
                    matchers.push(m);
                },
                Err(e) => {
                    proof {
                        if rule_compiles(*rule) {
                            assert(rule_pattern_compiles(rule.patterns@[i as int]));
                        }
                    }
                    return Err(e);
                },
            }
            i = i + 1;
        }
        let report = match &rule.report {
            Some(report) => Some(copy_report(report)),
            None => None,
        };
        Ok(CompiledRule { name: rule.name.clone(), report, restrict: rule.restrict, matchers })
    }

    /// Whether the rule fires on a post.
    pub fn is_match(&self, input: &RuleMatcherInput) -> (r: bool)
        ensures
            r == self.fires(*input),
    {
        let mut i: usize = 0;
        while i < self.matchers.len()
            invariant
                i <= self.matchers@.len(),
                forall|j: int| 0 <= j < i ==> !#[trigger] self.matchers@[j].holds(*input),
            decreases self.matchers@.len() - i,
        {
            if self.matchers[i].is_match(input) {
                return true;
            }
            i = i + 1;
        }
        false
    }
}

/// Every pattern of the rule compiles.
pub open spec fn rule_compiles(rule: Rule) -> bool {
    forall|j: int| 0 <= j < rule.patterns@.len() ==> rule_pattern_compiles(#[trigger] rule.patterns@[j])
}

/// Every pattern of every rule compiles.
pub open spec fn config_compiles(config: Config) -> bool {
    forall|j: int| 0 <= j < config.rules@.len() ==> rule_compiles(#[trigger] config.rules@[j])
}

/// A configuration with its rules compiled.
pub struct CompiledConfig {
    pub domain: String,
    pub username: String,
    pub rules: Vec<CompiledRule>,
}

impl CompiledConfig {
    /// Compiles every rule of a configuration; the first rule that does not
    /// compile fails the configuration.
    pub fn try_from(config: &Config) -> (r: Result<CompiledConfig, CompileError>)
        ensures
            r is Ok ==> r->Ok_0.domain@ == config.domain@ && r->Ok_0.username@ == config.username@,
            r is Ok ==> r->Ok_0.rules@.len() == config.rules@.len(),
            r is Ok ==> forall|j: int| 0 <= j < config.rules@.len() ==> #[trigger] r->Ok_0.rules@[j].compiled_from(config.rules@[j]),
            config_compiles(*config) ==> r is Ok,
    {
        let mut rules: Vec<CompiledRule> = Vec::new();
        let mut i: usize = 0;
        while i < config.rules.len()
            invariant
                i <= config.rules@.len(),
                rules@.len() == i,
                forall|j: int| 0 <= j < i ==> #[trigger] rules@[j].compiled_from(config.rules@[j]),
            decreases config.rules@.len() - i,
        {
            match CompiledRule::try_from(&config.rules[i]) {
                Ok(rule) => {
                    rules.push(rule);
                },
                Err(e) => {
                    proof {
                        if config_compiles(*config) {
                            assert(rule_compiles(config.rules@[i as int]));
                        }
                    }
                    return Err(e);
                },
            }
            i = i + 1;
        }
        Ok(CompiledConfig { domain: config.domain.clone(), username: config.username.clone(), rules })
    }
}

/// Whether the strings of `v` are pairwise different.
pub open spec fn unique(v: Seq<String>) -> bool {
    views(v).no_duplicates()
}

/// Adds `s` to a list of distinct strings unless it is there.
fn insert_unique(v: &mut Vec<String>, s: &String)
    requires
        unique(old(v)@),
    ensures
        unique(final(v)@),
        views(final(v)@).to_set() == views(old(v)@).to_set().insert(s@),
{
    let mut i: usize = 0;
    while i < v.len()
        invariant
            i <= v@.len(),
            v@ == old(v)@,
            unique(v@),
            forall|k: int| 0 <= k < i ==> #[trigger] v@[k]@ != s@,
        decreases v@.len() - i,
    {
        if v[i].eq(s) {
            proof {
                assert(views(v@)[i as int] == s@);
                assert(views(v@).to_set().insert(s@) =~= views(v@).to_set());
            }
            return;
        }
        i = i + 1;
    }
    let ghost before = v@;
    v.push(s.clone());
    proof {
        assert(views(v@) =~= views(before).push(s@));
        assert(!views(before).contains(s@)) by {
            if views(before).contains(s@) {
                let k = choose|k: int| 0 <= k < views(before).len() && views(before)[k] == s@;
                assert(before[k]@ != s@);
            }
        }
        views(before).lemma_push_to_set_commute(s@);
    }
}

/// What a report about a post accumulates: the names of the rules that it
/// broke, the server rule ids they cite, and whether any of them asks for
/// the spam category or for forwarding.
pub struct ReportBuilder {
    pub rule_names: Vec<String>,
    pub rule_ids: Vec<String>,
    pub spam: bool,
    pub forward: bool,
}

/// Category of a filed report.
#[derive(Clone, Copy, Debug, PartialEq, Eq, Structural)]
pub enum ReportCategory {
    Violation,
    Spam,
    Other,
}

impl ReportBuilder {
    pub open spec fn wf(self) -> bool {
        unique(self.rule_names@) && unique(self.rule_ids@)
    }

    pub open spec fn names(self) -> Set<Seq<char>> {
        views(self.rule_names@).to_set()
    }

    pub open spec fn ids(self) -> Set<Seq<char>> {
        views(self.rule_ids@).to_set()
    }

    pub fn new() -> (r: ReportBuilder)
        ensures
            r.wf(),
            r.names() == Set::<Seq<char>>::empty(),
            r.ids() == Set::<Seq<char>>::empty(),
            !r.spam,
            !r.forward,
    {
        let r = ReportBuilder { rule_names: Vec::new(), rule_ids: Vec::new(), spam: false, forward: false };
        proof {
            assert(views(r.rule_names@) =~= Seq::<Seq<char>>::empty());
            assert(views(r.rule_ids@) =~= Seq::<Seq<char>>::empty());
            assert(r.names() =~= Set::<Seq<char>>::empty());
            assert(r.ids() =~= Set::<Seq<char>>::empty());
        }
        r
    }

    /// Records that the post broke rule `rule_name`, whose report spec is
    /// `report`.
    pub fn rule_violation(&mut self, rule_name: &String, report: &Report)
        requires
            old(self).wf(),
        ensures
            final(self).wf(),
            final(self).names() == old(self).names().insert(rule_name@),
            final(self).ids() == old(self).ids() + views(report.rule_ids@).to_set(),
            final(self).spam == (old(self).spam || report.spam),
            final(self).forward == (old(self).forward || report.forward),
    {
        insert_unique(&mut self.rule_names, rule_name);
        let mut i: usize = 0;
        while i < report.rule_ids.len()
            invariant
                i <= report.rule_ids@.len(),
                self.wf(),
                self.names() == old(self).names().insert(rule_name@),
                self.ids() == old(self).ids() + views(report.rule_ids@.subrange(0, i as int)).to_set(),
                self.spam == old(self).spam,
                self.forward == old(self).forward,
            decreases report.rule_ids@.len() - i,
        {
            insert_unique(&mut self.rule_ids, &report.rule_ids[i]);
            proof {
                assert(views(report.rule_ids@.subrange(0, i + 1)) =~= views(report.rule_ids@.subrange(0, i as int)).push(report.rule_ids@[i as int]@));
                views(report.rule_ids@.subrange(0, i as int)).lemma_push_to_set_commute(report.rule_ids@[i as int]@);
                assert(self.ids() =~= old(self).ids() + views(report.rule_ids@.subrange(0, i + 1)).to_set());
            }
            i = i + 1;
        }
        proof {
            assert(report.rule_ids@.subrange(0, i as int) =~= report.rule_ids@);
        }
        self.spam = self.spam || report.spam;
        self.forward = self.forward || report.forward;
    }

    /// The category of the report: a violation of the cited server rules if
    /// there are any, else spam if some rule asks for it, else other.
    pub fn category(&self) -> (r: ReportCategory)
        ensures
            !self.ids().is_empty() ==> r == ReportCategory::Violation,
            self.ids().is_empty() && self.spam ==> r == ReportCategory::Spam,
            self.ids().is_empty() && !self.spam ==> r == ReportCategory::Other,
    {
        if self.rule_ids.len() > 0 {
            proof {
                assert(self.ids().contains(views(self.rule_ids@)[0]));
            }
            ReportCategory::Violation
        } else {
            proof {
                assert(views(self.rule_ids@) =~= Seq::<Seq<char>>::empty());
                assert(self.ids() =~= Set::<Seq<char>>::empty());
            }
            if self.spam {
                ReportCategory::Spam
            } else {
                ReportCategory::Other
            }
        }
    }
}

/// The rule at `j` fires on the input and files a report.
pub open spec fn reports(rules: Seq<CompiledRule>, j: int, input: RuleMatcherInput) -> bool {
    rules[j].fires(input) && rules[j].report is Some
}

/// The rule at `j` fires on the input and restricts the account.
pub open spec fn restricts(rules: Seq<CompiledRule>, j: int, input: RuleMatcherInput) -> bool {
    rules[j].fires(input) && rules[j].restrict is Some
}

/// Names of the first `n` rules that fire and file a report.
pub open spec fn reported_names(rules: Seq<CompiledRule>, input: RuleMatcherInput, n: int) -> Set<Seq<char>> {
    Set::new(|name: Seq<char>| exists|j: int| 0 <= j < n && #[trigger] reports(rules, j, input) && rules[j].name@ == name)
}

/// Server rule ids that the first `n` rules that fire and file a report cite.
pub open spec fn reported_ids(rules: Seq<CompiledRule>, input: RuleMatcherInput, n: int) -> Set<Seq<char>> {
    Set::new(|id: Seq<char>| exists|j: int| 0 <= j < n && #[trigger] reports(rules, j, input) && views(rules[j].report->0.rule_ids@).contains(id))
}

/// Whether the restriction is the harshest of those of the first `n` rules
/// that fire, `None` if none of them restricts.
pub open spec fn is_harshest(r: Option<Restrict>, rules: Seq<CompiledRule>, input: RuleMatcherInput, n: int) -> bool {
    &&& (r is None <==> !exists|j: int| 0 <= j < n && #[trigger] restricts(rules, j, input))
    &&& (r is Some ==> exists|j: int| 0 <= j < n && #[trigger] restricts(rules, j, input) && rules[j].restrict == r)
    &&& forall|j: int| 0 <= j < n && #[trigger] restricts(rules, j, input) ==> restrict_rank(rules[j].restrict->0) <= restrict_rank(r->0)
}

/// The report that the first `n` rules call for on the input: present when
/// one of them fires and has a report spec, with their names, the ids they
/// cite, and the spam and forward requests of any of them.
pub open spec fn is_accumulated(b: Option<ReportBuilder>, rules: Seq<CompiledRule>, input: RuleMatcherInput, n: int) -> bool {
    &&& (b is Some <==> exists|j: int| 0 <= j < n && #[trigger] reports(rules, j, input))
    &&& (b is Some ==> {
        &&& b->0.wf()
        &&& b->0.names() == reported_names(rules, input, n)
        &&& b->0.ids() == reported_ids(rules, input, n)
        &&& b->0.spam == exists|j: int| 0 <= j < n && #[trigger] reports(rules, j, input) && rules[j].report->0.spam
        &&& b->0.forward == exists|j: int| 0 <= j < n && #[trigger] reports(rules, j, input) && rules[j].report->0.forward
    })
}

/// Runs every rule on a post: accumulates the report that the rules which
/// fire call for, and the harshest restriction among them.
pub fn evaluate_rules(rules: &Vec<CompiledRule>, input: &RuleMatcherInput) -> (r: (Option<ReportBuilder>, Option<Restrict>))
    ensures
        is_accumulated(r.0, rules@, *input, rules@.len() as int),
        is_harshest(r.1, rules@, *input, rules@.len() as int),
{
    let mut builder: Option<ReportBuilder> = None;
    let mut highest: Option<Restrict> = None;
    let mut i: usize = 0;
    proof {
        assert(reported_names(rules@, *input, 0) =~= Set::<Seq<char>>::empty());
        assert(reported_ids(rules@, *input, 0) =~= Set::<Seq<char>>::empty());
    }
    while i < rules.len()
        invariant
            i <= rules@.len(),
            is_accumulated(builder, rules@, *input, i as int),
            is_harshest(highest, rules@, *input, i as int),
        decreases rules@.len() - i,
    {
        let rule = &rules[i];
        let fires = rule.is_match(input);
        let ghost rs = rules@;
        let ghost k = i as int;
        if fires {
            match &rule.report {
                Some(report) => {
                    let ghost was = builder;
                    let mut b = match builder {
                        Some(b) => b,
                        None => ReportBuilder::new(),
                    };
                    let ghost before = b;
                    proof {
                        assert(reports(rs, k, *input));
                        if was is None {
                            assert(reported_names(rs, *input, k) =~= Set::<Seq<char>>::empty());
                            assert(reported_ids(rs, *input, k) =~= Set::<Seq<char>>::empty());
                        }
                        assert(before.names() == reported_names(rs, *input, k));
                        assert(before.ids() == reported_ids(rs, *input, k));
                    }
                    b.rule_violation(&rule.name, report);
                    proof {
                        assert(b.names() =~= reported_names(rs, *input, k + 1)) by {
                            assert forall|name: Seq<char>| #[trigger] b.names().contains(name) <==> reported_names(rs, *input, k + 1).contains(name) by {
                                if b.names().contains(name) && name != rs[k].name@ {
                                    assert(reported_names(rs, *input, k).contains(name));
                                }
                                if reported_names(rs, *input, k + 1).contains(name) {
                                    let j = choose|j: int| 0 <= j < k + 1 && #[trigger] reports(rs, j, *input) && rs[j].name@ == name;
                                    if j < k {
                                        assert(reported_names(rs, *input, k).contains(name));
                                    }
                                }
                            }
                        }
                        assert(b.ids() =~= reported_ids(rs, *input, k + 1)) by {
                            assert forall|id: Seq<char>| #[trigger] b.ids().contains(id) <==> reported_ids(rs, *input, k + 1).contains(id) by {
                                if b.ids().contains(id) && !views(rs[k].report->0.rule_ids@).contains(id) {
                                    assert(reported_ids(rs, *input, k).contains(id));
                                }
                                if b.ids().contains(id) && views(rs[k].report->0.rule_ids@).contains(id) {
                                    assert(reports(rs, k, *input));
                                }
                                if reported_ids(rs, *input, k + 1).contains(id) {
                                    let j = choose|j: int| 0 <= j < k + 1 && #[trigger] reports(rs, j, *input) && views(rs[j].report->0.rule_ids@).contains(id);
                                    if j < k {
                                        assert(reported_ids(rs, *input, k).contains(id));
                                    }
                                }
                            }
                        }
                        assert(reports(rs, k, *input));
                        if b.spam && !rs[k].report->0.spam {
                            assert(before.spam);
                        }
                        if b.forward && !rs[k].report->0.forward {
                            assert(before.forward);
                        }
                    }
                    builder = Some(b);
                },
                None => {
                    proof {
                        assert(reported_names(rs, *input, k + 1) =~= reported_names(rs, *input, k));
                        assert(reported_ids(rs, *input, k + 1) =~= reported_ids(rs, *input, k));
                    }
                },
            }
            match rule.restrict {
                Some(restrict) => {
                    let replace = match highest {
                        Some(existing) => rank(restrict) > rank(existing),
                        None => true,
                    };
                    if replace {
                        highest = Some(restrict);
                    }
                    proof {
                        assert(restricts(rs, k, *input));
                    }
                },
                None => {},
            }
        } else {
            proof {
                assert(reported_names(rs, *input, k + 1) =~= reported_names(rs, *input, k));
                assert(reported_ids(rs, *input, k + 1) =~= reported_ids(rs, *input, k));
            }
        }
        i = i + 1;
    }
    (builder, highest)
}

/// Restriction monotonicity: for a post that several rules match, the
/// restriction applied is the harshest of theirs, so each matching rule's
/// restriction is at most it.
pub proof fn lemma_restriction_monotone(rules: Seq<CompiledRule>, input: RuleMatcherInput, r: Option<Restrict>, j: int)
    requires
        is_harshest(r, rules, input, rules.len() as int),
        0 <= j < rules.len(),
        rules[j].fires(input),
        rules[j].restrict is Some,
    ensures
        r is Some,
        restrict_rank(rules[j].restrict->0) <= restrict_rank(r->0),
{
    assert(restricts(rules, j, input));
}

/// Lexicographic order of strings by code point, the order of `String`'s
/// `Ord`.
pub open spec fn chars_le(a: Seq<char>, b: Seq<char>) -> bool
    decreases a.len(),
{
    if a.len() == 0 {
        true
    } else if b.len() == 0 {
        false
    } else if a[0] != b[0] {
        (a[0] as u32) < (b[0] as u32)
    } else {
        chars_le(a.subrange(1, a.len() as int), b.subrange(1, b.len() as int))
    }
}

pub open spec fn sorted(s: Seq<Seq<char>>) -> bool {
    forall|i: int, j: int| 0 <= i < j < s.len() ==> chars_le(#[trigger] s[i], #[trigger] s[j])
}

/// Relies on `slice::sort` on `String`s: the same strings, in ascending
/// order of `String`'s `Ord`, which compares code points.
#[verifier::external_body]
fn sort_strings(v: Vec<String>) -> (r: Vec<String>)
    ensures
        views(r@).to_multiset() == views(v@).to_multiset(),
        sorted(views(r@)),
{
    let mut v = v;
    v.sort();
    v
}

/// The lines that list rule names: `- name`, one per line.
pub open spec fn name_lines(names: Seq<Seq<char>>) -> Seq<char>
    decreases names.len(),
{
    if names.len() == 0 {
        Seq::empty()
    } else if names.len() == 1 {
        seq!['-', ' '] + names[0]
    } else {
        name_lines(names.subrange(0, names.len() - 1)) + seq!['\n', '-', ' '] + names[names.len() - 1]
    }
}

/// The comment of a report that lists the broken rules in this order.
pub open spec fn report_comment(names: Seq<Seq<char>>) -> Seq<char> {
    seq!['A', 'u', 't', 'o', 'm', 'o', 'd', ' ', 'r', 'u', 'l', 'e', 's', ' ', 'b', 'r', 'o', 'k', 'e', 'n', ':', '\n']
        + name_lines(names)
}

/// The comment of a report that lists the broken rules in the order given.
pub fn report_comment_text(names: &Vec<String>) -> (r: String)
    ensures
        r@ == report_comment(views(names@)),
{
    let header = "Automod rules broken:\n";
    let dash = "- ";
    let newline_dash = "\n- ";
    proof {
        reveal_strlit("Automod rules broken:\n");
        reveal_strlit("- ");
        reveal_strlit("\n- ");
        assert(dash@ =~= seq!['-', ' ']);
        assert(newline_dash@ =~= seq!['\n', '-', ' ']);
    }
    let mut r = String::from_str(header);
    let mut i: usize = 0;
    proof {
        assert(views(names@).subrange(0, 0) =~= Seq::<Seq<char>>::empty());
        assert(r@ =~= report_comment(views(names@).subrange(0, 0)));
    }
    while i < names.len()
        invariant
            i <= names@.len(),
            r@ == report_comment(views(names@).subrange(0, i as int)),
            dash@ == seq!['-', ' '],
            newline_dash@ == seq!['\n', '-', ' '],
        decreases names@.len() - i,
    {
        let ghost prev = r@;
        if i == 0 {
            r.append(dash);
        } else {
            r.append(newline_dash);
        }
        let ghost mid = r@;
        let name = names[i].as_str();
        r.append(name);
        assert(r@ == mid + names@[i as int]@);
        proof {
            let vs = views(names@);
            assert(vs.subrange(0, i + 1).subrange(0, i as int) =~= vs.subrange(0, i as int));
            assert(vs[i as int] == names@[i as int]@);
            let s1 = vs.subrange(0, i + 1);
            assert(s1[i as int] == vs[i as int]);
            if i == 0 {
                assert(vs.subrange(0, 0) =~= Seq::<Seq<char>>::empty());
                assert(name_lines(s1) == seq!['-', ' '] + s1[0]);
                assert(mid == prev + seq!['-', ' ']);
                assert(report_comment(s1) =~= prev + seq!['-', ' '] + s1[0]);
                assert(r@ =~= report_comment(s1));
            } else {
                assert(name_lines(s1) == name_lines(vs.subrange(0, i as int)) + seq!['\n', '-', ' '] + s1[i as int]);
                assert(r@ =~= report_comment(s1));
            }
        }
        i = i + 1;
    }
    proof {
        assert(views(names@).subrange(0, i as int) =~= views(names@));
    }
    r
}

impl ReportBuilder {
    /// The comment of the report: the broken rules' names, sorted.
    pub fn comment(&self) -> (r: String)
        ensures
            exists|names: Seq<Seq<char>>| #[trigger] sorted(names) && names.to_multiset() == views(self.rule_names@).to_multiset() && r@ == report_comment(names),
    {
        let mut names: Vec<String> = Vec::new();
        let mut i: usize = 0;
        while i < self.rule_names.len()
            invariant
                i <= self.rule_names@.len(),
                names@.len() == i,
                forall|k: int| 0 <= k < i ==> #[trigger] names@[k]@ == self.rule_names@[k]@,
            decreases self.rule_names@.len() - i,
        {
            names.push(self.rule_names[i].clone());
            i = i + 1;
        }
        proof {
            assert(views(names@) =~= views(self.rule_names@));
        }
        let sorted_names = sort_strings(names);
        let r = report_comment_text(&sorted_names);
        proof {
            assert(sorted(views(sorted_names@)));
        }
        r
    }
}

/// The account action that carries out a restriction.
#[derive(Clone, Copy, Debug, PartialEq, Eq, Structural)]
pub enum AccountAction {
    Sensitive,
    Disable,
    Silence,
    Suspend,
}

/// The account action that carries out a restriction.
pub open spec fn restrict_action(restrict: Restrict) -> AccountAction {
    match restrict {
        Restrict::Sensitive => AccountAction::Sensitive,
        Restrict::Disable => AccountAction::Disable,
        Restrict::Silence => AccountAction::Silence,
        Restrict::Suspend => AccountAction::Suspend,
    }
}

pub fn account_action(restrict: Restrict) -> (r: AccountAction)
    ensures
        r == restrict_action(restrict),
{
    match restrict {
        Restrict::Sensitive => AccountAction::Sensitive,
        Restrict::Disable => AccountAction::Disable,
        Restrict::Silence => AccountAction::Silence,
        Restrict::Suspend => AccountAction::Suspend,
    }
}

/// An account action to submit, citing a report when there is one.
pub struct RestrictionRequest {
    pub action: AccountAction,
    pub report_id: Option<String>,
}

/// The step after filing the report: the harshest restriction of the rules
/// that fired, if any, citing the report's id when the report was filed
/// (`filed_report`), and no report when filing failed or none was due.
pub fn restriction_request(highest: Option<Restrict>, filed_report: Option<String>) -> (r: Option<RestrictionRequest>)
    ensures
        r is Some <==> highest is Some,
        r is Some ==> r->0.action == restrict_action(highest->0) && r->0.report_id == filed_report,
{
    match highest {
        Some(restrict) => Some(RestrictionRequest { action: account_action(restrict), report_id: filed_report }),
        None => None,
    }
}

/// What to teach the spam filter from a report.
#[derive(Clone, Copy, Debug, PartialEq, Eq, Structural)]
pub enum LearnDecision {
    /// The report teaches nothing.
    Ignore,
    /// Teach each post of the report as spam.
    LearnSpam,
    /// Teach each post of the report as ham.
    LearnHam,
}

/// For a closed spam report, with a spam filter configured, the target
/// account's current moderation status is taken as the truth about its
/// posts: a silenced, suspended or disabled account's posts are spam, the
/// others' ham. Other reports teach nothing.
pub fn learn_decision(action_taken: bool, spam_category: bool, filter_configured: bool, silenced: bool, suspended: bool, disabled: bool) -> (r: LearnDecision)
    ensures
        !(action_taken && spam_category && filter_configured) ==> r == LearnDecision::Ignore,
        action_taken && spam_category && filter_configured && (silenced || suspended || disabled) ==> r == LearnDecision::LearnSpam,
        action_taken && spam_category && filter_configured && !(silenced || suspended || disabled) ==> r == LearnDecision::LearnHam,
{
    if !action_taken || !spam_category || !filter_configured {
        LearnDecision::Ignore
    } else if silenced || suspended || disabled {
        LearnDecision::LearnSpam
    } else {
        LearnDecision::LearnHam
    }
}

} // verus!
