use automod::config::{Config, LinkPattern, PostPattern, Report, Restrict, Rule, RulePattern, TextPattern};
use automod::engine::{
    account_action, evaluate_rules, learn_decision, report_comment_text, restriction_request, AccountAction, CompiledConfig,
    LearnDecision,
    ReportBuilder, ReportCategory,
};
use automod::interop::{json_after_banner, rspamc_invocation, sender_address, RspamcCommand};
use automod::pattern::extract::{Account, Post};
use automod::pattern::rule::RuleMatcherInput;

fn post(content: &str) -> Post {
    Post {
        content: content.to_string(),
        spoiler_text: "".to_string(),
        media_descriptions: vec![],
        poll_options: vec![],
        mentions: vec![],
        tags: vec![],
        account: Account {
            username: "someone".to_string(),
            acct: "someone@far.test".to_string(),
            display_name: "".to_string(),
            note: "".to_string(),
            fields: vec![],
        },
    }
}

fn word_rule(name: &str, word: &str, report: Option<Report>, restrict: Option<Restrict>) -> Rule {
    Rule {
        name: name.to_string(),
        report,
        restrict,
        patterns: vec![RulePattern::Post { post: PostPattern::Text { text: TextPattern::Word { word: word.to_string() } } }],
    }
}

fn empty_report() -> Report {
    Report { rule_ids: vec![], spam: false, forward: false }
}

fn compile(rules: Vec<Rule>) -> CompiledConfig {
    CompiledConfig::try_from(&Config { domain: "mod.test".to_string(), username: "bot".to_string(), rules })
        .expect("Couldn't compile")
}

#[test]
fn link_domain_rule_files_other_report() {
    let rule = Rule {
        name: "hn".to_string(),
        report: Some(empty_report()),
        restrict: None,
        patterns: vec![RulePattern::Post {
            post: PostPattern::Text {
                text: TextPattern::Link { link: LinkPattern::Domain { domain: "news.ycombinator.com".to_string() } },
            },
        }],
    };
    let config = compile(vec![rule]);
    let input = RuleMatcherInput::from_post(&post(r#"<p><a href="https://news.ycombinator.com/item?id=1">link</a></p>"#));
    let (report, restrict) = evaluate_rules(&config.rules, &input);
    let report = report.expect("a report");
    assert_eq!(report.category(), ReportCategory::Other);
    assert_eq!(report.comment(), "Automod rules broken:\n- hn");
    assert_eq!(restrict, None);
}

#[test]
fn harshest_restriction_wins() {
    let config = compile(vec![
        word_rule("mild", "spam", Some(empty_report()), Some(Restrict::Sensitive)),
        word_rule("harsh", "scam", None, Some(Restrict::Suspend)),
        word_rule("other", "unrelated", None, Some(Restrict::Silence)),
    ]);
    let input = RuleMatcherInput::from_post(&post("<p>spam and scam</p>"));
    let (report, restrict) = evaluate_rules(&config.rules, &input);
    assert_eq!(restrict, Some(Restrict::Suspend));
    assert_eq!(account_action(restrict.unwrap()), AccountAction::Suspend);
    assert!(report.is_some());
}

#[test]
fn no_match_no_action() {
    let config = compile(vec![word_rule("mild", "spam", Some(empty_report()), Some(Restrict::Disable))]);
    let input = RuleMatcherInput::from_post(&post("<p>fine</p>"));
    let (report, restrict) = evaluate_rules(&config.rules, &input);
    assert!(report.is_none());
    assert_eq!(restrict, None);
}

#[test]
fn category_precedence() {
    let mut b = ReportBuilder::new();
    assert_eq!(b.category(), ReportCategory::Other);
    b.rule_violation(&"a".to_string(), &Report { rule_ids: vec![], spam: true, forward: false });
    assert_eq!(b.category(), ReportCategory::Spam);
    b.rule_violation(&"b".to_string(), &Report { rule_ids: vec!["3".to_string()], spam: false, forward: true });
    assert_eq!(b.category(), ReportCategory::Violation);
    assert!(b.spam);
    assert!(b.forward);
    b.rule_violation(&"a".to_string(), &Report { rule_ids: vec!["3".to_string()], spam: false, forward: false });
    assert_eq!(b.rule_names.len(), 2);
    assert_eq!(b.rule_ids, vec!["3".to_string()]);
}

#[test]
fn comment_lists_sorted_names() {
    let mut b = ReportBuilder::new();
    b.rule_violation(&"zeta".to_string(), &Report { rule_ids: vec![], spam: false, forward: false });
    b.rule_violation(&"alpha".to_string(), &Report { rule_ids: vec![], spam: false, forward: false });
    assert_eq!(b.comment(), "Automod rules broken:\n- alpha\n- zeta");
    assert_eq!(report_comment_text(&vec![]), "Automod rules broken:\n");
}

#[test]
fn spam_filter_verdict_rule() {
    let rule = Rule {
        name: "rejected".to_string(),
        report: None,
        restrict: Some(Restrict::Silence),
        patterns: vec![RulePattern::Rspamd { action: "reject".to_string() }],
    };
    let config = compile(vec![rule]);
    let mut input = RuleMatcherInput::from_post(&post("<p>buy now</p>"));
    let (_, restrict) = evaluate_rules(&config.rules, &input);
    assert_eq!(restrict, None);
    let stdout = b"Results for file: stdin\n{\"action\":\"reject\"}".to_vec();
    let json = json_after_banner(&stdout).expect("json after the banner");
    assert_eq!(json, b"{\"action\":\"reject\"}".to_vec());
    input.rspamd("reject".to_string());
    let (_, restrict) = evaluate_rules(&config.rules, &input);
    assert_eq!(restrict, Some(Restrict::Silence));
}

#[test]
fn banner_without_body_is_refused() {
    assert_eq!(json_after_banner(&b"banner only\n".to_vec()), None);
    assert_eq!(json_after_banner(&b"no newline".to_vec()), None);
}

#[test]
fn invocation_appends_json_and_subcommand() {
    let command = vec!["ssh".to_string(), "host".to_string(), "rspamc".to_string()];
    let inv = rspamc_invocation(&command, RspamcCommand::LearnSpam).expect("an invocation");
    assert_eq!(inv.program, "ssh");
    assert_eq!(inv.args, vec!["host", "rspamc", "--json", "learn_spam"]);
    assert!(rspamc_invocation(&vec![], RspamcCommand::Symbols).is_none());
}

#[test]
fn learning_follows_account_status() {
    assert_eq!(learn_decision(true, true, true, true, false, false), LearnDecision::LearnSpam);
    assert_eq!(learn_decision(true, true, true, false, false, false), LearnDecision::LearnHam);
    assert_eq!(learn_decision(false, true, true, true, false, false), LearnDecision::Ignore);
    assert_eq!(learn_decision(true, false, true, true, false, false), LearnDecision::Ignore);
    assert_eq!(learn_decision(true, true, false, true, false, false), LearnDecision::Ignore);
}

#[test]
fn sender_address_uses_local_domain() {
    assert_eq!(sender_address("alice", "alice", "mod.test"), "alice@mod.test");
    assert_eq!(sender_address("bob@far.test", "bob", "mod.test"), "bob@far.test");
}

#[test]
fn rule_with_bad_regex_fails_config() {
    let rule = Rule {
        name: "bad".to_string(),
        report: None,
        restrict: None,
        patterns: vec![RulePattern::Post { post: PostPattern::Text { text: TextPattern::Regex { regex: "[".to_string() } } }],
    };
    let result = CompiledConfig::try_from(&Config { domain: "d".to_string(), username: "u".to_string(), rules: vec![rule] });
    assert!(result.is_err());
}

#[test]
fn restriction_cites_filed_report() {
    let request = restriction_request(Some(Restrict::Silence), Some("17".to_string())).expect("a request");
    assert_eq!(request.action, AccountAction::Silence);
    assert_eq!(request.report_id, Some("17".to_string()));
    let without_report = restriction_request(Some(Restrict::Disable), None).expect("a request");
    assert_eq!(without_report.action, AccountAction::Disable);
    assert_eq!(without_report.report_id, None);
    assert!(restriction_request(None, Some("17".to_string())).is_none());
}
