//! The parts of a parsed feed that the library reads, as plain values.

use vstd::prelude::*;

verus! {

/// The view of an optional string.
pub open spec fn opt_view(o: Option<String>) -> Option<Seq<char>> {
    match o {
        Some(s) => Some(s@),
        None => None,
    }
}

/// A copy of an optional string.
pub fn clone_opt_string(o: &Option<String>) -> (r: Option<String>)
    ensures
        r == *o,
{
    match o {
        Some(s) => Some(s.clone()),
        None => None,
    }
}

/// An author or contributor of a feed or an entry.
#[derive(Debug, PartialEq, Eq, Hash)]
pub struct Person {
    /// The person's name
    pub name: String,
    /// A web page of the person
    pub uri: Option<String>,
    /// The person's e-mail address
    pub email: Option<String>,
}

impl View for Person {
    type V = (Seq<char>, Option<Seq<char>>, Option<Seq<char>>);

    open spec fn view(&self) -> (Seq<char>, Option<Seq<char>>, Option<Seq<char>>) {
        (self.name@, opt_view(self.uri), opt_view(self.email))
    }
}

impl Clone for Person {
    fn clone(&self) -> (r: Self)
        ensures
            r == *self,
    {
        Person { name: self.name.clone(), uri: clone_opt_string(&self.uri), email: clone_opt_string(&self.email) }
    }
}

/// A link of a feed or an entry.
#[derive(Debug, PartialEq, Eq, Hash)]
pub struct Link {
    /// Where the link points
    pub href: String,
    /// The relation of the target to the feed, e.g. "self" or "alternate"
    pub rel: Option<String>,
    /// A human-readable title of the link
    pub title: Option<String>,
}

impl Clone for Link {
    fn clone(&self) -> (r: Self)
        ensures
            r == *self,
    {
        Link { href: self.href.clone(), rel: clone_opt_string(&self.rel), title: clone_opt_string(&self.title) }
    }
}

/// A MIME type: `type/subtype+suffix; name=value; ...`.
#[derive(Debug, PartialEq, Eq, Hash)]
pub struct MimeType {
    /// The top-level type, e.g. "text"
    pub type_: String,
    /// The subtype without its suffix, e.g. "atom" in "application/atom+xml"
    pub subtype: String,
    /// The structured syntax suffix, e.g. "xml" in "application/atom+xml"
    pub suffix: Option<String>,
    /// The parameters, in order, e.g. ("charset", "utf-8")
    pub params: Vec<(String, String)>,
}

/// The view of a list of name-value pairs.
pub open spec fn pairs_view(ps: Seq<(String, String)>) -> Seq<(Seq<char>, Seq<char>)> {
    ps.map_values(|p: (String, String)| (p.0@, p.1@))
}

impl View for MimeType {
    type V = (Seq<char>, Seq<char>, Option<Seq<char>>, Seq<(Seq<char>, Seq<char>)>);

    open spec fn view(&self) -> (Seq<char>, Seq<char>, Option<Seq<char>>, Seq<(Seq<char>, Seq<char>)>) {
        (self.type_@, self.subtype@, opt_view(self.suffix), pairs_view(self.params@))
    }
}

/// A copy of a list of name-value pairs.
pub fn clone_pairs(ps: &Vec<(String, String)>) -> (r: Vec<(String, String)>)
    ensures
        r@ == ps@,
{
    let mut r: Vec<(String, String)> = Vec::new();
    let mut i: usize = 0;
    while i < ps.len()
        invariant
            i <= ps.len(),
            r@ =~= ps@.take(i as int),
        decreases ps.len() - i,
    {
        let p = (ps[i].0.clone(), ps[i].1.clone());
        r.push(p);
        i = i + 1;
    }
    proof {
        assert(ps@.take(ps.len() as int) =~= ps@);
    }
    r
}

impl Clone for MimeType {
    fn clone(&self) -> (r: Self)
        ensures
            r@ == self@,
    {
        let params = clone_pairs(&self.params);
        proof {
            assert(params@ =~= self.params@);
        }
        MimeType {
            type_: self.type_.clone(),
            subtype: self.subtype.clone(),
            suffix: clone_opt_string(&self.suffix),
            params,
        }
    }
}

/// An instant: whole seconds since the Unix epoch and the nanoseconds after
/// them (1_000_000_000 and more only within a leap second).
#[derive(Debug, Clone, Copy, PartialEq, Eq, Structural, Hash)]
pub struct Timestamp {
    /// Seconds since 1970-01-01T00:00:00Z
    pub secs: i64,
    /// Nanoseconds after `secs`
    pub nanos: u32,
}

/// A piece of text and its content type, like a title or a summary.
#[derive(Debug, PartialEq, Eq, Hash)]
pub struct Text {
    /// The type of `content`
    pub content_type: MimeType,
    /// The text itself
    pub content: String,
}

/// The content of an entry: inline, or by reference.
#[derive(Debug, PartialEq, Eq, Hash)]
pub struct Content {
    /// The content itself, if inline
    pub body: Option<String>,
    /// The type of the content
    pub content_type: MimeType,
    /// Where the content can be found, if not inline
    pub src: Option<Link>,
}

/// An item of a feed.
#[derive(Debug, PartialEq, Eq, Hash)]
pub struct Entry {
    /// The entry's unique identifier
    pub id: String,
    /// The entry's title
    pub title: Option<Text>,
    /// When the entry was last updated
    pub updated: Option<Timestamp>,
    /// The entry's authors
    pub authors: Vec<Person>,
    /// The entry's content
    pub content: Option<Content>,
    /// The entry's links
    pub links: Vec<Link>,
    /// A short summary of the entry
    pub summary: Option<Text>,
    /// When the entry was first published
    pub published: Option<Timestamp>,
}

/// A feed and its entries.
#[derive(Debug, PartialEq, Eq, Hash)]
pub struct Feed {
    /// The feed's unique identifier
    pub id: String,
    /// The feed's title
    pub title: Option<Text>,
    /// When the feed was last updated
    pub updated: Option<Timestamp>,
    /// The feed's authors
    pub authors: Vec<Person>,
    /// A description of the feed
    pub description: Option<Text>,
    /// The feed's links
    pub links: Vec<Link>,
    /// When the feed was first published
    pub published: Option<Timestamp>,
    /// The feed's items
    pub entries: Vec<Entry>,
}

} // verus!
