use automod::config::{
    AccountPattern, InstancePattern, LinkPattern, PostPattern, RulePattern, StringPattern, TextPattern, UserPattern,
};
use automod::pattern::compiler::{optimize, CompileError, PatternNode};
use automod::pattern::extract::{Account, Mention, Post, ProfileField};
use automod::pattern::link::{LinkInput, LinkMatcher};
use automod::pattern::regex_matcher::RegexPatternMatcher;
use automod::pattern::rule::RuleMatcherInput;
use automod::pattern::string::StringMatcher;
use automod::pattern::text::TextMatcherInput;
use automod::pattern::user::UserMatcherInput;
use automod::pattern::{CompileMatcher, Matcher};

fn word(w: &str) -> StringPattern {
    StringPattern::Word { word: w.to_string() }
}

fn account(note: &str) -> Account {
    Account {
        username: "".to_string(),
        acct: "".to_string(),
        display_name: "".to_string(),
        note: note.to_string(),
        fields: vec![],
    }
}

fn post(content: &str) -> Post {
    Post {
        content: content.to_string(),
        spoiler_text: "".to_string(),
        media_descriptions: vec![],
        poll_options: vec![],
        mentions: vec![],
        tags: vec![],
        account: account(""),
    }
}

#[test]
fn test_several_compiler_rules() {
    let pattern = StringPattern::Not {
        not: Box::new(StringPattern::All {
            all: vec![
                StringPattern::Not { not: Box::new(word("foo")) },
                StringPattern::Not { not: Box::new(word("bar")) },
            ],
        }),
    };

    let matcher: StringMatcher = pattern.compile().expect("Couldn't compile");
    match &matcher.0 {
        RegexPatternMatcher::AnyRegexes(regexes) => {
            assert_eq!(2, regexes.len())
        }
        _ => assert!(false, "Unexpected variant for compiled pattern matcher"),
    }
    assert!(matcher.is_match("foo"));
    assert!(matcher.is_match("BAR"));
}

#[test]
fn test_multiple_types_of_matcher() {
    let pattern = LinkPattern::Any {
        any: vec![
            LinkPattern::Word { word: "casino".to_string() },
            LinkPattern::Domain { domain: "spam.test".to_string() },
        ],
    };

    let matcher: LinkMatcher = pattern.compile().expect("Couldn't compile");
    assert!(matcher.is_match(&LinkInput::parse("https://link.to/casino").unwrap()));
    assert!(matcher.is_match(&LinkInput::parse("https://spam.test/gamble").unwrap()));
    assert!(!matcher.is_match(&LinkInput::parse("https://example.test/legit").unwrap()));
}

#[test]
fn test_username_match() {
    let pattern = UserPattern::Username { username: word("thegx") };
    let mention = Mention { username: "thegx".to_string(), acct: "thegx@instance.test".to_string() };
    let input = UserMatcherInput::from_acct(&mention.username, &mention.acct);
    let matcher = pattern.compile().expect("Couldn't compile");
    assert!(Matcher::is_match(&matcher, &input));
}

#[test]
fn test_extract_account_hashtags() {
    let account = account(
        r#"<p>Been working on webhooks for the moderation API...</p><p><a href="https://github.com/mastodon/mastodon/pull/18510" target="_blank" rel="nofollow noopener noreferrer"><span class="invisible">https://</span><span class="ellipsis">github.com/mastodon/mastodon/p</span><span class="invisible">ull/18510</span></a> <a href="https://mastodon.social/tags/mastodev" class="mention hashtag" rel="tag">#<span>mastodev</span></a></p>"#,
    );
    let input = TextMatcherInput::from_account(&account);
    assert_eq!(input.hashtags, vec!["mastodev".to_string()]);
}

#[test]
fn test_example_rule() {
    let pattern = RulePattern::Post {
        post: PostPattern::Text {
            text: TextPattern::Link { link: LinkPattern::Domain { domain: "news.ycombinator.com".to_string() } },
        },
    };
    let matcher = pattern.compile().expect("Couldn't compile");
    let input = RuleMatcherInput::from_post(&post(
        r#"<p>Guidelines for Brutalist Web Design<br />L: <a href="https://brutalist-web.design/" target="_blank" rel="nofollow noopener noreferrer"><span class="invisible">https://</span><span class="">brutalist-web.design/</span><span class="invisible"></span></a><br />C: <a href="https://news.ycombinator.com/item?id=35783189" target="_blank" rel="nofollow noopener noreferrer"><span class="invisible">https://</span><span class="ellipsis">news.ycombinator.com/item?id=3</span><span class="invisible">5783189</span></a></p>"#,
    ));
    assert!(matcher.is_match(&input));
}

#[test]
fn de_morgan_and_fusion_reject_other_words() {
    let pattern = StringPattern::Not {
        not: Box::new(StringPattern::All {
            all: vec![
                StringPattern::Not { not: Box::new(word("foo")) },
                StringPattern::Not { not: Box::new(word("bar")) },
            ],
        }),
    };
    let matcher = StringMatcher::compile(&pattern).expect("Couldn't compile");
    assert!(matcher.is_match("BAR"));
    assert!(!matcher.is_match("baz"));
}

#[test]
fn any_of_negations_holds_unless_both_hold() {
    let pattern = StringPattern::Any {
        any: vec![StringPattern::Not { not: Box::new(word("foo")) }, StringPattern::Not { not: Box::new(word("bar")) }],
    };
    let matcher = StringMatcher::compile(&pattern).expect("Couldn't compile");
    assert!(!matcher.is_match("foo bar"));
    assert!(matcher.is_match("foo"));
    assert!(matcher.is_match("nothing"));
}

#[test]
fn word_leaf_respects_word_boundaries() {
    let pattern = RulePattern::Post { post: PostPattern::Text { text: TextPattern::Word { word: "cat".to_string() } } };
    let matcher = pattern.compile().expect("Couldn't compile");
    assert!(!matcher.is_match(&RuleMatcherInput::from_post(&post("<p>caterpillar</p>"))));
    assert!(matcher.is_match(&RuleMatcherInput::from_post(&post("<p>a Cat.</p>"))));
}

#[test]
fn word_leaf_escapes_regex_characters() {
    let matcher = StringMatcher::compile(&word("c.t")).expect("Couldn't compile");
    assert!(matcher.is_match("a c.t here"));
    assert!(!matcher.is_match("a cat here"));
}

#[test]
fn fusion_builds_one_set_of_all_regexes() {
    let pattern = StringPattern::Any {
        any: vec![word("a"), word("b"), StringPattern::Regex { regex: "^c".to_string() }],
    };
    let matcher = StringMatcher::compile(&pattern).expect("Couldn't compile");
    match &matcher.0 {
        RegexPatternMatcher::AnyRegexes(regexes) => assert_eq!(3, regexes.len()),
        _ => panic!("expected one fused set"),
    }
    assert!(matcher.is_match("cow"));
    assert!(!matcher.is_match("dog"));
}

#[test]
fn all_of_regexes_needs_every_hit() {
    let pattern = StringPattern::All { all: vec![word("red"), word("blue")] };
    let matcher = StringMatcher::compile(&pattern).expect("Couldn't compile");
    match &matcher.0 {
        RegexPatternMatcher::AllRegexes(regexes) => assert_eq!(2, regexes.len()),
        _ => panic!("expected one fused set"),
    }
    assert!(matcher.is_match("red and blue"));
    assert!(!matcher.is_match("red only"));
}

#[test]
fn empty_pattern_is_reduced_to_nothingness() {
    let pattern = StringPattern::Any { any: vec![StringPattern::All { all: vec![] }] };
    assert_eq!(StringMatcher::compile(&pattern).err(), Some(CompileError::ReducedToNothingness));
}

#[test]
fn invalid_regex_is_refused() {
    let pattern = StringPattern::Regex { regex: "(".to_string() };
    assert_eq!(StringMatcher::compile(&pattern).err(), Some(CompileError::InvalidRegex));
}

#[test]
fn empty_lists_inside_are_dropped() {
    let pattern = StringPattern::All { all: vec![StringPattern::Any { any: vec![] }, word("x")] };
    let matcher = StringMatcher::compile(&pattern).expect("Couldn't compile");
    assert!(matcher.is_match("x"));
    assert!(!matcher.is_match("y"));
}

#[test]
fn optimizer_collapses_and_pulls_up() {
    let node = PatternNode::Not {
        child: Box::new(PatternNode::Not {
            child: Box::new(PatternNode::Any { children: vec![PatternNode::Leaf { leaf: 7u8 }] }),
        }),
    };
    match optimize(node) {
        Ok(PatternNode::Leaf { leaf }) => assert_eq!(leaf, 7),
        _ => panic!("expected a single leaf"),
    }
}

#[test]
fn optimizer_pulls_negations_out() {
    let node = PatternNode::Any {
        children: vec![
            PatternNode::Not { child: Box::new(PatternNode::Leaf { leaf: 1u8 }) },
            PatternNode::Not { child: Box::new(PatternNode::Leaf { leaf: 2u8 }) },
        ],
    };
    match optimize(node) {
        Ok(PatternNode::Not { child }) => match *child {
            PatternNode::All { children } => assert_eq!(children.len(), 2),
            _ => panic!("expected All under Not"),
        },
        _ => panic!("expected Not"),
    }
}

#[test]
fn optimizer_flattens_nested_lists() {
    let node = PatternNode::Any {
        children: vec![
            PatternNode::Leaf { leaf: 1u8 },
            PatternNode::Any { children: vec![PatternNode::Leaf { leaf: 2u8 }, PatternNode::Leaf { leaf: 3u8 }] },
        ],
    };
    match optimize(node) {
        Ok(PatternNode::Any { children }) => assert_eq!(children.len(), 3),
        _ => panic!("expected a flat Any"),
    }
}

#[test]
fn optimizer_refuses_only_empty_lists() {
    let node: PatternNode<u8> = PatternNode::Not { child: Box::new(PatternNode::All { children: vec![] }) };
    assert_eq!(optimize(node).err(), Some(CompileError::ReducedToNothingness));
}

#[test]
fn user_local_and_instance() {
    let local = UserMatcherInput::from_acct("alice", "alice");
    let remote = UserMatcherInput::from_acct("bob", "bob@remote.test");
    assert_eq!(local.domain, None);
    assert_eq!(remote.domain, Some("remote.test".to_string()));
    let is_local = UserPattern::Local { local: true }.compile().expect("Couldn't compile");
    assert!(Matcher::is_match(&is_local, &local));
    assert!(!Matcher::is_match(&is_local, &remote));
    let instance = UserPattern::Instance { instance: InstancePattern::Domain { domain: "remote.test".to_string() } }
        .compile()
        .expect("Couldn't compile");
    assert!(Matcher::is_match(&instance, &remote));
    assert!(!Matcher::is_match(&instance, &local));
}

#[test]
fn link_domain_needs_a_host() {
    let matcher = LinkMatcher::compile(&LinkPattern::Domain { domain: "example.test".to_string() }).expect("Couldn't compile");
    assert!(matcher.is_match(&LinkInput::parse("https://www.example.test/x").unwrap()));
    assert!(!matcher.is_match(&LinkInput::parse("mailto:someone").unwrap()));
    assert!(LinkInput::parse("not a url").is_none());
}

#[test]
fn post_text_gathers_warnings_descriptions_and_polls() {
    let mut p = post("<p>Hello   <b>world</b></p>");
    p.spoiler_text = "cw".to_string();
    p.media_descriptions = vec![Some("a picture".to_string()), None];
    p.poll_options = vec!["yes".to_string(), "no".to_string()];
    p.mentions = vec![Mention { username: "eve".to_string(), acct: "eve@other.test".to_string() }];
    p.tags = vec!["news".to_string()];
    let input = TextMatcherInput::from_post(&p);
    assert_eq!(input.text, "Hello world cw a picture yes no");
    assert_eq!(input.mentions.len(), 1);
    assert_eq!(input.mentions[0].domain, Some("other.test".to_string()));
    assert_eq!(input.hashtags, vec!["news".to_string()]);
}

#[test]
fn account_text_gathers_fields() {
    let mut a = account("<p>bio</p>");
    a.display_name = "Name".to_string();
    a.fields = vec![ProfileField { name: "site".to_string(), value: "<a href=\"https://site.test/\">site.test</a>".to_string() }];
    let input = TextMatcherInput::from_account(&a);
    assert_eq!(input.text, "bio Name site site.test");
    assert_eq!(input.links.len(), 1);
    assert_eq!(input.links[0].domain, Some("site.test".to_string()));
}

#[test]
fn account_and_mention_patterns() {
    let pattern = RulePattern::Account {
        account: AccountPattern::User { user: UserPattern::Username { username: word("spammer") } },
    };
    let matcher = pattern.compile().expect("Couldn't compile");
    let mut p = post("<p>hi</p>");
    p.account.username = "spammer".to_string();
    p.account.acct = "spammer@bad.test".to_string();
    assert!(matcher.is_match(&RuleMatcherInput::from_post(&p)));
    let mention = TextPattern::Mention { mention: UserPattern::Username { username: word("eve") } }
        .compile()
        .expect("Couldn't compile");
    let mut q = post("<p>hi</p>");
    q.mentions = vec![Mention { username: "eve".to_string(), acct: "eve".to_string() }];
    assert!(mention.is_match(&TextMatcherInput::from_post(&q)));
    let hashtag = TextPattern::Hashtag { hashtag: word("news") }.compile().expect("Couldn't compile");
    q.tags = vec!["News".to_string()];
    assert!(hashtag.is_match(&TextMatcherInput::from_post(&q)));
}

#[test]
fn optimizer_reaches_normal_form() {
    let node = PatternNode::All {
        children: vec![PatternNode::All {
            children: vec![PatternNode::Not {
                child: Box::new(PatternNode::Not { child: Box::new(PatternNode::Leaf { leaf: 5u8 }) }),
            }],
        }],
    };
    match optimize(node) {
        Ok(PatternNode::Leaf { leaf }) => assert_eq!(leaf, 5),
        _ => panic!("expected a single leaf"),
    }
}

#[test]
fn unicode_white_space_collapses() {
    let input = TextMatcherInput::from_html("<p>a\u{00A0}\u{3000} b\n\tc</p>");
    assert_eq!(input.text, "a b c");
}
