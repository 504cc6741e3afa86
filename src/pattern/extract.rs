use crate::pattern::account::AccountMatcherInput;
use crate::pattern::link::LinkInput;
use crate::pattern::post::PostMatcherInput;
use crate::pattern::rule::RuleMatcherInput;
use crate::pattern::text::TextMatcherInput;
use crate::pattern::user::{acct_domain, UserMatcherInput};
use twitter_text::extractor::Extract;
use vstd::prelude::*;

verus! {

/// The text of an HTML fragment: its text nodes, in document order.
pub uninterp spec fn fragment_text_of(html: Seq<char>) -> Seq<char>;

/// The `href` of every `<a>` of an HTML fragment that has one, in document
/// order.
pub uninterp spec fn fragment_hrefs_of(html: Seq<char>) -> Seq<Seq<char>>;

/// The serialization and host domain of the URL that a string parses to,
/// `None` if it does not parse.
pub uninterp spec fn url_parsed(s: Seq<char>) -> Option<(Seq<char>, Option<Seq<char>>)>;

/// The hashtags of a text, without their `#`.
pub uninterp spec fn hashtags_of(text: Seq<char>) -> Seq<Seq<char>>;

/// Relies on `scraper::Html::parse_fragment` and the tree's text nodes.
#[verifier::external_body]
fn fragment_text(html: &str) -> (r: String)
    ensures
        r@ == fragment_text_of(html@),
{
    let doc = scraper::Html::parse_fragment(html);
    doc.root_element().descendants().filter_map(|node| node.value().as_text().map(|t| t.to_string())).collect::<Vec<String>>().concat()
}

/// Characters with the Unicode White_Space property.
pub open spec fn is_white_space(c: char) -> bool {
    let n = c as u32;
    (0x9 <= n && n <= 0xd) || n == 0x20 || n == 0x85 || n == 0xa0 || n == 0x1680 || (0x2000 <= n && n <= 0x200a)
        || n == 0x2028 || n == 0x2029 || n == 0x202f || n == 0x205f || n == 0x3000
}

/// Relies on `char::is_whitespace`: the White_Space property.
#[verifier::external_body]
fn is_whitespace(c: char) -> (r: bool)
    ensures
        r == is_white_space(c),
{
    c.is_whitespace()
}

/// The words of a text: its maximal runs of characters that are not white
/// space.
pub open spec fn words(s: Seq<char>) -> Seq<Seq<char>>
    decreases s.len(),
{
    if s.len() == 0 {
        Seq::empty()
    } else {
        let w = words(s.subrange(0, s.len() - 1));
        let c = s[s.len() - 1];
        if is_white_space(c) {
            w
        } else if s.len() > 1 && !is_white_space(s[s.len() - 2]) {
            w.update(w.len() - 1, w[w.len() - 1].push(c))
        } else {
            w.push(seq![c])
        }
    }
}

/// Words joined by single spaces.
pub open spec fn joined(w: Seq<Seq<char>>) -> Seq<char>
    decreases w.len(),
{
    if w.len() == 0 {
        Seq::empty()
    } else if w.len() == 1 {
        w[0]
    } else {
        joined(w.subrange(0, w.len() - 1)) + seq![' '] + w[w.len() - 1]
    }
}

/// A text with its white space collapsed: its words joined by single
/// spaces.
pub open spec fn collapsed(s: Seq<char>) -> Seq<char> {
    joined(words(s))
}

proof fn lemma_words_end(s: Seq<char>)
    requires
        s.len() > 0,
        !is_white_space(s[s.len() - 1]),
    ensures
        words(s).len() > 0,
    decreases s.len(),
{
    let w = words(s.subrange(0, s.len() - 1));
    if s.len() > 1 && !is_white_space(s[s.len() - 2]) {
        let s0 = s.subrange(0, s.len() - 1);
        assert(s0[s0.len() - 1] == s[s.len() - 2]);
        lemma_words_end(s0);
    }
}

proof fn lemma_joined_extend(w: Seq<Seq<char>>, c: char)
    requires
        w.len() > 0,
    ensures
        joined(w.update(w.len() - 1, w[w.len() - 1].push(c))) == joined(w).push(c),
{
    let u = w.update(w.len() - 1, w[w.len() - 1].push(c));
    if w.len() > 1 {
        assert(u.subrange(0, u.len() - 1) =~= w.subrange(0, w.len() - 1));
        assert(joined(u) =~= joined(w).push(c));
    }
}

/// Collapses the white space of a text: its words, joined by single spaces.
fn collapse_whitespace(text: &str) -> (r: String)
    ensures
        r@ == collapsed(text@),
{
    let n = text.unicode_len();
    let space = " ";
    proof {
        reveal_strlit(" ");
        assert(space@ =~= seq![' ']);
    }
    let mut out = String::new();
    let mut has_word = false;
    let mut i: usize = 0;
    proof {
        assert(text@.subrange(0, 0) =~= Seq::<char>::empty());
    }
    while i < n
        invariant
            n == text@.len(),
            i <= n,
            space@ == seq![' '],
            out@ == joined(words(text@.subrange(0, i as int))),
            has_word == (words(text@.subrange(0, i as int)).len() > 0),
        decreases n - i,
    {
        let c = text.get_char(i);
        let piece = text.substring_char(i, i + 1);
        let ghost prefix = text@.subrange(0, i as int);
        let ghost next = text@.subrange(0, i + 1);
        proof {
            assert(next.subrange(0, i as int) =~= prefix);
            assert(next[i as int] == c);
            assert(piece@ =~= seq![c]);
        }
        if !is_whitespace(c) {
            let in_word = i > 0 && !is_whitespace(text.get_char(i - 1));
            if in_word {
                proof {
                    assert(prefix[prefix.len() - 1] == text@[i - 1]);
                    lemma_words_end(prefix);
                    assert(next[next.len() - 2] == text@[i - 1]);
                    lemma_joined_extend(words(prefix), c);
                }
                out.append(piece);
            } else {
                if has_word {
                    out.append(space);
                }
                out.append(piece);
                proof {
                    let w = words(prefix);
                    let w2 = w.push(seq![c]);
                    if i > 0 {
                        assert(next[next.len() - 2] == text@[i - 1]);
                    }
                    assert(words(next) == w2);
                    if w.len() > 0 {
                        assert(w2.subrange(0, w2.len() - 1) =~= w);
                        assert(out@ =~= joined(w2));
                    } else {
                        assert(out@ =~= joined(w2));
                    }
                }
                has_word = true;
            }
        }
        i = i + 1;
    }
    proof {
        assert(text@.subrange(0, n as int) =~= text@);
    }
    out
}

/// Relies on `scraper::Html::select` with the selector `a[href]`.
#[verifier::external_body]
fn fragment_hrefs(html: &str) -> (r: Vec<String>)
    ensures
        r@.map_values(|h: String| h@) == fragment_hrefs_of(html@),
{
    let doc = scraper::Html::parse_fragment(html);
    let selector = match scraper::Selector::parse("a[href]") {
        Ok(selector) => selector,
        Err(_) => {
            return Vec::new();
        },
    };
    doc.select(&selector).filter_map(|a| a.value().attr("href").map(|h| h.to_string())).collect()
}

/// Relies on `url::Url::parse`, `Url::as_str` and `Url::domain`.
#[verifier::external_body]
fn parse_link(href: &str) -> (r: Option<LinkInput>)
    ensures
        r is Some <==> url_parsed(href@) is Some,
        r is Some ==> link_view(r->0) == url_parsed(href@)->0,
{
    match url::Url::parse(href) {
        Ok(url) => Some(LinkInput { url: url.as_str().to_string(), domain: url.domain().map(|d| d.to_string()) }),
        Err(_) => None,
    }
}

/// Relies on `twitter_text`'s `Extractor::extract_hashtags`.
#[verifier::external_body]
fn extract_hashtags(text: &str) -> (r: Vec<String>)
    ensures
        r@.map_values(|h: String| h@) == hashtags_of(text@),
{
    twitter_text::extractor::Extractor::new().extract_hashtags(text).iter().map(|tag| tag.value.to_string()).collect()
}

pub open spec fn domain_view(d: Option<String>) -> Option<Seq<char>> {
    match d {
        Some(s) => Some(s@),
        None => None,
    }
}

pub open spec fn link_view(l: LinkInput) -> (Seq<char>, Option<Seq<char>>) {
    (l.url@, domain_view(l.domain))
}

/// The links that the hrefs parse to, leaving out those that do not parse.
pub open spec fn parsed_links(hrefs: Seq<Seq<char>>) -> Seq<(Seq<char>, Option<Seq<char>>)>
    decreases hrefs.len(),
{
    if hrefs.len() == 0 {
        Seq::empty()
    } else {
        let rest = parsed_links(hrefs.subrange(0, hrefs.len() - 1));
        match url_parsed(hrefs[hrefs.len() - 1]) {
            Some(link) => rest.push(link),
            None => rest,
        }
    }
}

/// Each part preceded by a space.
pub open spec fn spaced(parts: Seq<Seq<char>>) -> Seq<char>
    decreases parts.len(),
{
    if parts.len() == 0 {
        Seq::empty()
    } else {
        spaced(parts.subrange(0, parts.len() - 1)) + seq![' '] + parts[parts.len() - 1]
    }
}

pub open spec fn string_views(v: Seq<String>) -> Seq<Seq<char>> {
    v.map_values(|s: String| s@)
}

/// The descriptions that are present.
pub open spec fn present(v: Seq<Option<String>>) -> Seq<Seq<char>>
    decreases v.len(),
{
    if v.len() == 0 {
        Seq::empty()
    } else {
        let rest = present(v.subrange(0, v.len() - 1));
        match v[v.len() - 1] {
            Some(s) => rest.push(s@),
            None => rest,
        }
    }
}

/// The visible text of an HTML fragment, white space collapsed.
pub open spec fn html_text(html: Seq<char>) -> Seq<char> {
    collapsed(fragment_text_of(html))
}

/// Each profile field's name and visible value text, each after a space.
pub open spec fn fields_text(fields: Seq<ProfileField>) -> Seq<char>
    decreases fields.len(),
{
    if fields.len() == 0 {
        Seq::empty()
    } else {
        let f = fields[fields.len() - 1];
        fields_text(fields.subrange(0, fields.len() - 1)) + seq![' '] + f.name@ + seq![' '] + html_text(f.value@)
    }
}

/// The links of each profile field's value, in order.
pub open spec fn fields_links(fields: Seq<ProfileField>) -> Seq<(Seq<char>, Option<Seq<char>>)>
    decreases fields.len(),
{
    if fields.len() == 0 {
        Seq::empty()
    } else {
        fields_links(fields.subrange(0, fields.len() - 1)) + parsed_links(fragment_hrefs_of(fields[fields.len() - 1].value@))
    }
}

pub open spec fn link_views(links: Seq<LinkInput>) -> Seq<(Seq<char>, Option<Seq<char>>)> {
    links.map_values(|l: LinkInput| link_view(l))
}

/// The text of an account: its bio's visible text, then its display name
/// and its profile fields, each after a space.
pub open spec fn account_text(a: Account) -> Seq<char> {
    html_text(a.note@) + seq![' '] + a.display_name@ + fields_text(a.fields@)
}

/// A user mentioned in a post.
#[derive(Clone, Debug, PartialEq)]
pub struct Mention {
    pub username: String,
    /// `user` for a local account, `user@domain` otherwise.
    pub acct: String,
}

/// A name and value (HTML) of a profile field.
#[derive(Clone, Debug, PartialEq)]
pub struct ProfileField {
    pub name: String,
    pub value: String,
}

/// The parts of an account that the rules read.
#[derive(Clone, Debug, PartialEq)]
pub struct Account {
    pub username: String,
    pub acct: String,
    pub display_name: String,
    /// The bio, as HTML.
    pub note: String,
    pub fields: Vec<ProfileField>,
}

/// The parts of a post that the rules read.
#[derive(Clone, Debug, PartialEq)]
pub struct Post {
    /// The content, as HTML.
    pub content: String,
    pub spoiler_text: String,
    pub media_descriptions: Vec<Option<String>>,
    pub poll_options: Vec<String>,
    pub mentions: Vec<Mention>,
    pub tags: Vec<String>,
    pub account: Account,
}

impl LinkInput {
    /// The link that a URL string parses to, if it parses.
    pub fn parse(href: &str) -> (r: Option<LinkInput>)
        ensures
            r is Some <==> url_parsed(href@) is Some,
            r is Some ==> link_view(r->0) == url_parsed(href@)->0,
    {
        parse_link(href)
    }
}

impl TextMatcherInput {
    /// The visible text and the links of an HTML fragment.
    pub fn from_html(html: &str) -> (r: TextMatcherInput)
        ensures
            r.text@ == html_text(html@),
            r.links@.map_values(|l: LinkInput| link_view(l)) == parsed_links(fragment_hrefs_of(html@)),
            r.mentions@.len() == 0,
            r.hashtags@.len() == 0,
    {
        let raw = fragment_text(html);
        let text = collapse_whitespace(raw.as_str());
        let hrefs = fragment_hrefs(html);
        let ghost hv = hrefs@.map_values(|h: String| h@);
        let mut links: Vec<LinkInput> = Vec::new();
        let mut i: usize = 0;
        proof {
            assert(hv.subrange(0, 0) =~= Seq::<Seq<char>>::empty());
            assert(links@.map_values(|l: LinkInput| link_view(l)) =~= parsed_links(hv.subrange(0, 0)));
        }
        while i < hrefs.len()
            invariant
                i <= hrefs@.len(),
                hv == hrefs@.map_values(|h: String| h@),
                links@.map_values(|l: LinkInput| link_view(l)) == parsed_links(hv.subrange(0, i as int)),
            decreases hrefs@.len() - i,
        {
            let ghost prev = links@;
            let parsed = parse_link(hrefs[i].as_str());
            proof {
                assert(hv.subrange(0, i + 1).subrange(0, i as int) =~= hv.subrange(0, i as int));
                assert(hv.subrange(0, i + 1)[i as int] == hrefs@[i as int]@);
            }
            match parsed {
                Some(link) => {
                    links.push(link);
                    proof {
                        assert(links@.map_values(|l: LinkInput| link_view(l)) =~= prev.map_values(|l: LinkInput| link_view(l)).push(link_view(link)));
                    }
                },
                None => {},
            }
            i = i + 1;
        }
        proof {
            assert(hv.subrange(0, i as int) =~= hv);
        }
        TextMatcherInput { text, links, mentions: Vec::new(), hashtags: Vec::new() }
    }

    /// Appends a space and `s` to the text.
    pub fn extend_text(&mut self, s: &str)
        ensures
            final(self).text@ == old(self).text@ + seq![' '] + s@,
            final(self).links == old(self).links,
            final(self).mentions == old(self).mentions,
            final(self).hashtags == old(self).hashtags,
    {
        let space = " ";
        proof {
            reveal_strlit(" ");
            assert(space@ =~= seq![' ']);
        }
        self.text.append(space);
        self.text.append(s);
    }

    /// Appends another input: its text after a space, and its facets.
    pub fn merge(&mut self, other: TextMatcherInput)
        ensures
            final(self).text@ == old(self).text@ + seq![' '] + other.text@,
            final(self).links@ == old(self).links@ + other.links@,
            final(self).mentions@ == old(self).mentions@ + other.mentions@,
            final(self).hashtags@ == old(self).hashtags@ + other.hashtags@,
    {
        let mut other = other;
        self.extend_text(other.text.as_str());
        self.links.append(&mut other.links);
        self.mentions.append(&mut other.mentions);
        self.hashtags.append(&mut other.hashtags);
    }

    /// The text of a post: its content's visible text, then its content
    /// warning, the media descriptions and the poll options, each after a
    /// space; with its links, mentions and hashtags.
    pub fn from_post(post: &Post) -> (r: TextMatcherInput)
        ensures
            r.text@ == html_text(post.content@) + seq![' '] + post.spoiler_text@ + spaced(present(post.media_descriptions@))
                + spaced(string_views(post.poll_options@)),
            r.links@.map_values(|l: LinkInput| link_view(l)) == parsed_links(fragment_hrefs_of(post.content@)),
            r.mentions@.len() == post.mentions@.len(),
            forall|j: int| 0 <= j < r.mentions@.len() ==> (#[trigger] r.mentions@[j]).username@ == post.mentions@[j].username@
                && domain_view(r.mentions@[j].domain) == acct_domain(post.mentions@[j].acct@),
            string_views(r.hashtags@) == string_views(post.tags@),
    {
        let mut input = TextMatcherInput::from_html(post.content.as_str());
        input.extend_text(post.spoiler_text.as_str());
        let ghost base = input.text@;
        let mut i: usize = 0;
        proof {
            assert(post.media_descriptions@.subrange(0, 0) =~= Seq::<Option<String>>::empty());
            assert(input.text@ =~= base + spaced(present(post.media_descriptions@.subrange(0, 0))));
        }
        while i < post.media_descriptions.len()
            invariant
                i <= post.media_descriptions@.len(),
                input.text@ == base + spaced(present(post.media_descriptions@.subrange(0, i as int))),
                input.mentions@.len() == 0,
                input.hashtags@.len() == 0,
                input.links@.map_values(|l: LinkInput| link_view(l)) == parsed_links(fragment_hrefs_of(post.content@)),
            decreases post.media_descriptions@.len() - i,
        {
            let ghost ds = post.media_descriptions@;
            proof {
                assert(ds.subrange(0, i + 1).subrange(0, i as int) =~= ds.subrange(0, i as int));
            }
            match &post.media_descriptions[i] {
                Some(description) => {
                    input.extend_text(description.as_str());
                    proof {
                        assert(present(ds.subrange(0, i + 1)) == present(ds.subrange(0, i as int)).push(description@));
                        let p = present(ds.subrange(0, i as int)).push(description@);
                        assert(p.subrange(0, p.len() - 1) =~= present(ds.subrange(0, i as int)));
                        assert(input.text@ =~= base + spaced(present(ds.subrange(0, i + 1))));
                    }
                },
                None => {
                    proof {
                        assert(present(ds.subrange(0, i + 1)) == present(ds.subrange(0, i as int)));
                    }
                },
            }
            i = i + 1;
        }
        proof {
            assert(post.media_descriptions@.subrange(0, i as int) =~= post.media_descriptions@);
        }
        let ghost base2 = input.text@;
        let mut i: usize = 0;
        proof {
            assert(string_views(post.poll_options@).subrange(0, 0) =~= Seq::<Seq<char>>::empty());
            assert(input.text@ =~= base2 + spaced(string_views(post.poll_options@).subrange(0, 0)));
        }
        while i < post.poll_options.len()
            invariant
                i <= post.poll_options@.len(),
                input.text@ == base2 + spaced(string_views(post.poll_options@).subrange(0, i as int)),
                input.mentions@.len() == 0,
                input.hashtags@.len() == 0,
                input.links@.map_values(|l: LinkInput| link_view(l)) == parsed_links(fragment_hrefs_of(post.content@)),
            decreases post.poll_options@.len() - i,
        {
            input.extend_text(post.poll_options[i].as_str());
            proof {
                let os = string_views(post.poll_options@);
                let s1 = os.subrange(0, i + 1);
                assert(s1.subrange(0, i as int) =~= os.subrange(0, i as int));
                assert(s1[i as int] == post.poll_options@[i as int]@);
                assert(input.text@ =~= base2 + spaced(s1));
            }
            i = i + 1;
        }
        proof {
            assert(string_views(post.poll_options@).subrange(0, i as int) =~= string_views(post.poll_options@));
        }
        let ghost text_done = input.text@;
        let ghost links_done = input.links@;
        proof {
            assert(text_done =~= html_text(post.content@) + seq![' '] + post.spoiler_text@ + spaced(present(post.media_descriptions@))
                + spaced(string_views(post.poll_options@)));
        }
        let mut i: usize = 0;
        while i < post.mentions.len()
            invariant
                i <= post.mentions@.len(),
                input.text@ == text_done,
                input.links@ == links_done,
                input.mentions@.len() == i,
                input.hashtags@.len() == 0,
                forall|j: int| 0 <= j < i ==> (#[trigger] input.mentions@[j]).username@ == post.mentions@[j].username@
                    && domain_view(input.mentions@[j].domain) == acct_domain(post.mentions@[j].acct@),
            decreases post.mentions@.len() - i,
        {
            let m = &post.mentions[i];
            let user = UserMatcherInput::from_acct(m.username.as_str(), m.acct.as_str());
            input.mentions.push(user);
            i = i + 1;
        }
        let mut i: usize = 0;
        while i < post.tags.len()
            invariant
                i <= post.tags@.len(),
                input.text@ == text_done,
                input.links@ == links_done,
                input.mentions@.len() == post.mentions@.len(),
                forall|j: int| 0 <= j < input.mentions@.len() ==> (#[trigger] input.mentions@[j]).username@ == post.mentions@[j].username@
                    && domain_view(input.mentions@[j].domain) == acct_domain(post.mentions@[j].acct@),
                input.hashtags@.len() == i,
                forall|j: int| 0 <= j < i ==> #[trigger] input.hashtags@[j]@ == post.tags@[j]@,
            decreases post.tags@.len() - i,
        {
            input.hashtags.push(post.tags[i].clone());
            i = i + 1;
        }
        proof {
            assert(string_views(input.hashtags@) =~= string_views(post.tags@));
        }
        input
    }

    /// The text of an account: its bio's visible text, then its display name
    /// and each profile field's name and value, each after a space; with the
    /// links of the bio and of the field values, and the hashtags of the
    /// bio's text.
    pub fn from_account(account: &Account) -> (r: TextMatcherInput)
        ensures
            string_views(r.hashtags@) == hashtags_of(html_text(account.note@)),
            r.text@ == account_text(*account),
            r.mentions@.len() == 0,
            link_views(r.links@) == parsed_links(fragment_hrefs_of(account.note@)) + fields_links(account.fields@),
    {
        let mut input = TextMatcherInput::from_html(account.note.as_str());
        let tags = extract_hashtags(input.text.as_str());
        let ghost bio = input.text@;
        let ghost bio_links = input.links@;
        let mut i: usize = 0;
        while i < tags.len()
            invariant
                i <= tags@.len(),
                input.text@ == bio,
                input.links@ == bio_links,
                input.mentions@.len() == 0,
                input.hashtags@.len() == i,
                forall|j: int| 0 <= j < i ==> #[trigger] input.hashtags@[j]@ == tags@[j]@,
            decreases tags@.len() - i,
        {
            input.hashtags.push(tags[i].clone());
            i = i + 1;
        }
        proof {
            assert(string_views(input.hashtags@) =~= tags@.map_values(|h: String| h@));
        }
        let ghost tag_views = string_views(input.hashtags@);
        input.extend_text(account.display_name.as_str());
        let ghost head = input.text@;
        let mut i: usize = 0;
        proof {
            assert(account.fields@.subrange(0, 0) =~= Seq::<ProfileField>::empty());
            assert(input.text@ =~= head + fields_text(account.fields@.subrange(0, 0)));
            assert(link_views(input.links@) =~= parsed_links(fragment_hrefs_of(account.note@)) + fields_links(account.fields@.subrange(0, 0)));
        }
        while i < account.fields.len()
            invariant
                i <= account.fields@.len(),
                string_views(input.hashtags@) == tag_views,
                input.mentions@.len() == 0,
                input.text@ == head + fields_text(account.fields@.subrange(0, i as int)),
                link_views(input.links@) == parsed_links(fragment_hrefs_of(account.note@)) + fields_links(account.fields@.subrange(0, i as int)),
            decreases account.fields@.len() - i,
        {
            let field = &account.fields[i];
            input.extend_text(field.name.as_str());
            let value = TextMatcherInput::from_html(field.value.as_str());
            let ghost tags_before = input.hashtags@;
            let ghost links_before = input.links@;
            let ghost value_links = value.links@;
            input.merge(value);
            proof {
                assert(link_views(input.links@) =~= link_views(links_before) + link_views(value_links));
                assert(input.hashtags@ =~= tags_before);
                let fs = account.fields@.subrange(0, i + 1);
                assert(fs.subrange(0, i as int) =~= account.fields@.subrange(0, i as int));
                assert(fs[i as int] == *field);
                assert(input.text@ =~= head + fields_text(fs));
                assert(fields_links(fs) == fields_links(account.fields@.subrange(0, i as int)) + parsed_links(fragment_hrefs_of(field.value@)));
                assert(link_views(input.links@) =~= parsed_links(fragment_hrefs_of(account.note@)) + fields_links(fs));
            }
            i = i + 1;
        }
        proof {
            assert(account.fields@.subrange(0, i as int) =~= account.fields@);
            assert(input.text@ =~= account_text(*account));
        }
        input
    }
}

impl AccountMatcherInput {
    /// The user facets and the text of an account.
    pub fn from_account(account: &Account) -> (r: AccountMatcherInput)
        ensures
            r.user.username@ == account.username@,
            domain_view(r.user.domain) == acct_domain(account.acct@),
            r.text.text@ == account_text(*account),
            string_views(r.text.hashtags@) == hashtags_of(html_text(account.note@)),
    {
        AccountMatcherInput {
            user: UserMatcherInput::from_acct(account.username.as_str(), account.acct.as_str()),
            text: TextMatcherInput::from_account(account),
        }
    }
}

impl PostMatcherInput {
    pub fn from_post(post: &Post) -> (r: PostMatcherInput)
        ensures
            r.text.text@ == html_text(post.content@) + seq![' '] + post.spoiler_text@ + spaced(present(post.media_descriptions@))
                + spaced(string_views(post.poll_options@)),
            r.text.links@.map_values(|l: LinkInput| link_view(l)) == parsed_links(fragment_hrefs_of(post.content@)),
    {
        PostMatcherInput { text: TextMatcherInput::from_post(post) }
    }
}

impl RuleMatcherInput {
    /// The input of the rules for a post: its author, the post, and no spam
    /// filter verdict yet.
    pub fn from_post(post: &Post) -> (r: RuleMatcherInput)
        ensures
            r.rspamd is None,
            r.account.user.username@ == post.account.username@,
            domain_view(r.account.user.domain) == acct_domain(post.account.acct@),
            r.account.text.text@ == account_text(post.account),
            r.post.text.text@ == html_text(post.content@) + seq![' '] + post.spoiler_text@ + spaced(present(post.media_descriptions@))
                + spaced(string_views(post.poll_options@)),
    {
        RuleMatcherInput::new(AccountMatcherInput::from_account(&post.account), PostMatcherInput::from_post(post))
    }
}

} // verus!
