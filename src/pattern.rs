pub mod account;
pub mod compiler;
pub mod extract;
pub mod instance;
pub mod link;
pub mod post;
pub mod regex_matcher;
pub mod rule;
pub mod string;
pub mod text;
pub mod tree;
pub mod user;

use crate::config::{
    AccountPattern, InstancePattern, LinkPattern, PostPattern, RulePattern, StringPattern, TextPattern, UserPattern,
};
use crate::pattern::account::{AccountMatcher, AccountMatcherInput};
use crate::pattern::compiler::CompileError;
use crate::pattern::instance::InstanceMatcher;
use crate::pattern::link::{LinkInput, LinkMatcher};
use crate::pattern::post::{PostMatcher, PostMatcherInput};
use crate::pattern::rule::{RuleMatcher, RuleMatcherInput};
use crate::pattern::string::StringMatcher;
use crate::pattern::text::{TextMatcher, TextMatcherInput};
use crate::pattern::user::{UserMatcher, UserMatcherInput};
use vstd::prelude::*;

verus! {

/// A compiled matcher over inputs of type `T`. Each matcher's inherent
/// `is_match` states what it accepts.
pub trait Matcher<T> {
    fn is_match(&self, t: T) -> bool;
}

/// A pattern that compiles to a matcher of type `M`. Each matcher's inherent
/// `compile` states what the compiled matcher accepts.
pub trait CompileMatcher<M> {
    fn compile(&self) -> Result<M, CompileError>;
}

impl<'a> Matcher<&'a str> for StringMatcher {
    fn is_match(&self, t: &'a str) -> bool {
        StringMatcher::is_match(self, t)
    }
}

impl CompileMatcher<StringMatcher> for StringPattern {
    fn compile(&self) -> Result<StringMatcher, CompileError> {
        StringMatcher::compile(self)
    }
}

impl<'a> Matcher<&'a str> for InstanceMatcher {
    fn is_match(&self, t: &'a str) -> bool {
        InstanceMatcher::is_match(self, t)
    }
}

impl CompileMatcher<InstanceMatcher> for InstancePattern {
    fn compile(&self) -> Result<InstanceMatcher, CompileError> {
        InstanceMatcher::compile(self)
    }
}

impl<'a> Matcher<&'a LinkInput> for LinkMatcher {
    fn is_match(&self, t: &'a LinkInput) -> bool {
        LinkMatcher::is_match(self, t)
    }
}

impl CompileMatcher<LinkMatcher> for LinkPattern {
    fn compile(&self) -> Result<LinkMatcher, CompileError> {
        LinkMatcher::compile(self)
    }
}

impl<'a> Matcher<&'a UserMatcherInput> for UserMatcher {
    fn is_match(&self, t: &'a UserMatcherInput) -> bool {
        UserMatcher::is_match(self, t)
    }
}

impl CompileMatcher<UserMatcher> for UserPattern {
    fn compile(&self) -> Result<UserMatcher, CompileError> {
        UserMatcher::compile(self)
    }
}

impl<'a> Matcher<&'a TextMatcherInput> for TextMatcher {
    fn is_match(&self, t: &'a TextMatcherInput) -> bool {
        TextMatcher::is_match(self, t)
    }
}

impl CompileMatcher<TextMatcher> for TextPattern {
    fn compile(&self) -> Result<TextMatcher, CompileError> {
        TextMatcher::compile(self)
    }
}

impl<'a> Matcher<&'a AccountMatcherInput> for AccountMatcher {
    fn is_match(&self, t: &'a AccountMatcherInput) -> bool {
        AccountMatcher::is_match(self, t)
    }
}

impl CompileMatcher<AccountMatcher> for AccountPattern {
    fn compile(&self) -> Result<AccountMatcher, CompileError> {
        AccountMatcher::compile(self)
    }
}

impl<'a> Matcher<&'a PostMatcherInput> for PostMatcher {
    fn is_match(&self, t: &'a PostMatcherInput) -> bool {
        PostMatcher::is_match(self, t)
    }
}

impl CompileMatcher<PostMatcher> for PostPattern {
    fn compile(&self) -> Result<PostMatcher, CompileError> {
        PostMatcher::compile(self)
    }
}

impl<'a> Matcher<&'a RuleMatcherInput> for RuleMatcher {
    fn is_match(&self, t: &'a RuleMatcherInput) -> bool {
        RuleMatcher::is_match(self, t)
    }
}

impl CompileMatcher<RuleMatcher> for RulePattern {
    fn compile(&self) -> Result<RuleMatcher, CompileError> {
        RuleMatcher::compile(self)
    }
}

} // verus!
