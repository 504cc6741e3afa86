use vstd::prelude::*;

verus! {

/// Global settings of the engine.
#[derive(Clone, Debug, PartialEq)]
pub struct Settings {
    /// Addresses and ports to listen on.
    pub listen: Vec<String>,
    /// Spam filter command: a path or executable name, or an ssh, docker, etc.
    /// command in several parts.
    pub rspamc_command: Option<Vec<String>>,
}

/// A webhook secret for a given domain.
#[derive(Clone, Debug, PartialEq)]
pub struct Webhook {
    pub domain: String,
    pub secret: String,
}

/// Access token for a given user and domain.
#[derive(Clone, Debug, PartialEq)]
pub struct Credentials {
    pub domain: String,
    pub username: String,
    pub access_token: String,
}

/// Moderation rules for a given user and domain.
#[derive(Debug, PartialEq)]
pub struct Config {
    pub domain: String,
    pub username: String,
    pub rules: Vec<Rule>,
}

#[derive(Debug, PartialEq)]
pub struct Rule {
    pub name: String,
    pub report: Option<Report>,
    pub restrict: Option<Restrict>,
    pub patterns: Vec<RulePattern>,
}

/// If this is present, the rule files a report with this metadata.
#[derive(Clone, Debug, PartialEq)]
pub struct Report {
    pub rule_ids: Vec<String>,
    pub spam: bool,
    pub forward: bool,
}

/// If this is present, the rule restricts the account. Ordered from the
/// mildest to the harshest.
#[derive(Clone, Copy, Debug, PartialEq, Eq, PartialOrd, Ord, Hash, Structural)]
pub enum Restrict {
    Sensitive,
    Disable,
    Silence,
    Suspend,
}

/// Top level pattern of a rule: matches against a post or the account that
/// created it.
#[derive(Debug, PartialEq)]
pub enum RulePattern {
    Account { account: AccountPattern },
    Post { post: PostPattern },
    Rspamd { action: String },
    Any { any: Vec<RulePattern> },
    All { all: Vec<RulePattern> },
    Not { not: Box<RulePattern> },
}

/// Patterns that match against an account's username and domain, or its bio.
#[derive(Debug, PartialEq)]
pub enum AccountPattern {
    User { user: UserPattern },
    Text { text: TextPattern },
    Any { any: Vec<AccountPattern> },
    All { all: Vec<AccountPattern> },
    Not { not: Box<AccountPattern> },
}

/// Patterns that match against the content of a post.
#[derive(Debug, PartialEq)]
pub enum PostPattern {
    Text { text: TextPattern },
    Any { any: Vec<PostPattern> },
    All { all: Vec<PostPattern> },
    Not { not: Box<PostPattern> },
}

/// Patterns over text with its links, mentions and hashtags.
#[derive(Debug, PartialEq)]
pub enum TextPattern {
    Word { word: String },
    Regex { regex: String },
    Link { link: LinkPattern },
    Mention { mention: UserPattern },
    Hashtag { hashtag: StringPattern },
    Any { any: Vec<TextPattern> },
    All { all: Vec<TextPattern> },
    Not { not: Box<TextPattern> },
}

/// Patterns over the username or domain of an account or mention.
#[derive(Debug, PartialEq)]
pub enum UserPattern {
    Username { username: StringPattern },
    Instance { instance: InstancePattern },
    Local { local: bool },
    Any { any: Vec<UserPattern> },
    All { all: Vec<UserPattern> },
    Not { not: Box<UserPattern> },
}

/// Patterns over any string.
#[derive(Debug, PartialEq)]
pub enum StringPattern {
    Word { word: String },
    Regex { regex: String },
    Any { any: Vec<StringPattern> },
    All { all: Vec<StringPattern> },
    Not { not: Box<StringPattern> },
}

/// Patterns over the URL of a link.
#[derive(Debug, PartialEq)]
pub enum LinkPattern {
    Word { word: String },
    Regex { regex: String },
    Domain { domain: String },
    Any { any: Vec<LinkPattern> },
    All { all: Vec<LinkPattern> },
    Not { not: Box<LinkPattern> },
}

/// Patterns over an instance's domain.
#[derive(Debug, PartialEq)]
pub enum InstancePattern {
    Word { word: String },
    Regex { regex: String },
    Domain { domain: String },
    Any { any: Vec<InstancePattern> },
    All { all: Vec<InstancePattern> },
    Not { not: Box<InstancePattern> },
}

} // verus!
