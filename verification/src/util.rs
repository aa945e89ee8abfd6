//! Various utility functions.

use vstd::prelude::*;
use vstd::string::StringExecFns;
use crate::model::{Entry, Feed, Person};
use crate::text::eq_ignore_ascii_case;

verus! {

/// The name of the Message-ID header, matched without regard to ASCII case
pub const MESSAGE_ID_HEADER: &'static str = "Message-ID";

/// The `rel=`s of the links not to include in the status attachment,
/// matched without regard to ASCII case
pub const LINK_REL_FILTER: [&'static str; 1] = ["self"];

/// Calls `unicase::eq_ascii`, which compares two strings as
/// `str::eq_ignore_ascii_case` does: equal lengths, and equal characters once
/// ASCII capitals are mapped to lower case (bytes of other characters compare
/// as they are).
#[verifier::external_body]
fn unicase_eq_ascii(left: &str, right: &str) -> (res: bool)
    ensures
        res == eq_ignore_ascii_case(left@, right@),
{
    unicase::eq_ascii(left, right)
}

/// Whether a header named `name` is the Message-ID header.
pub fn is_message_id_header(name: &str) -> (res: bool)
    ensures
        res == eq_ignore_ascii_case(name@, MESSAGE_ID_HEADER@),
{
    unicase_eq_ascii(name, MESSAGE_ID_HEADER)
}

/// A link with the relation `rel` is left out of the status attachment.
pub open spec fn rel_filtered(rel: Seq<char>) -> bool {
    exists|i: int| 0 <= i < LINK_REL_FILTER@.len() && eq_ignore_ascii_case(rel, #[trigger] LINK_REL_FILTER@[i]@)
}

/// Whether a link with the relation `rel` is left out of the status attachment.
pub fn is_filtered_link_rel(rel: &str) -> (res: bool)
    ensures
        res == rel_filtered(rel@),
{
    let filters = LINK_REL_FILTER;
    let mut i: usize = 0;
    while i < filters.len()
        invariant
            filters@ == LINK_REL_FILTER@,
            i <= filters@.len(),
            forall|j: int| 0 <= j < i ==> !eq_ignore_ascii_case(rel@, #[trigger] LINK_REL_FILTER@[j]@),
        decreases filters@.len() - i,
    {
        if unicase_eq_ascii(rel, filters[i]) {
            return true;
        }
        i = i + 1;
    }
    false
}

/// Underlying cause of a failure to parse a feed
#[derive(Debug, PartialEq, Eq)]
pub enum ParseErrorKind {
    /// Could not find the expected root element (e.g. "channel" for RSS 2, a JSON node etc)
    NoFeedRoot,
    /// The content type is unsupported and cannot be parsed into a known representation
    UnknownMimeType(String),
    /// Required content within the source was not found
    MissingContent(String),
}

/// An error returned when parsing a feed from a source fails; the errors
/// of the reader and of the JSON and XML parsers are held as their messages.
#[derive(Debug, PartialEq, Eq)]
pub enum ParseFeedError {
    /// The feed could not be parsed
    ParseError(ParseErrorKind),
    /// The feed could not be read
    IoError(String),
    /// The JSON of the feed is malformed
    JsonSerde(String),
    /// The XML of the feed is malformed
    XmlReader(String),
}

/// `e` as the name of its variant (of `ParseErrorKind` for a `ParseError`)
/// and the text that it holds (empty for `NoFeedRoot`).
pub open spec fn parse_feed_error_view(e: ParseFeedError) -> (Seq<char>, Seq<char>) {
    match e {
        ParseFeedError::ParseError(ParseErrorKind::NoFeedRoot) => ("NoFeedRoot"@, Seq::empty()),
        ParseFeedError::ParseError(ParseErrorKind::UnknownMimeType(mime)) => ("UnknownMimeType"@, mime@),
        ParseFeedError::ParseError(ParseErrorKind::MissingContent(elem)) => ("MissingContent"@, elem@),
        ParseFeedError::IoError(ie) => ("IoError"@, ie@),
        ParseFeedError::JsonSerde(je) => ("JsonSerde"@, je@),
        ParseFeedError::XmlReader(xe) => ("XmlReader"@, xe@),
    }
}

/// The message describing `e`.
pub open spec fn parse_feed_error_text(e: ParseFeedError) -> Seq<char> {
    match e {
        ParseFeedError::ParseError(ParseErrorKind::NoFeedRoot) => "couldn't parse feed: no root element"@,
        ParseFeedError::ParseError(ParseErrorKind::UnknownMimeType(mime)) =>
            "couldn't parse feed: unsupported content type "@ + mime@,
        ParseFeedError::ParseError(ParseErrorKind::MissingContent(elem)) =>
            "couldn't parse feed: missing content element "@ + elem@,
        ParseFeedError::IoError(ie) => "couldn't read feed: "@ + ie@,
        ParseFeedError::JsonSerde(je) => "couldn't parse JSON: "@ + je@,
        ParseFeedError::XmlReader(xe) => "couldn't parse XML: "@ + xe@,
    }
}

/// The message of a `ParseFeedError`
#[derive(Debug)]
pub struct DisplayParseFeedError(pub ParseFeedError);

impl DisplayParseFeedError {
    /// The message describing the error.
    pub fn to_string(&self) -> (s: String)
        ensures
            s@ == parse_feed_error_text(self.0),
    {
        let (prefix, detail): (&str, &str) = match &self.0 {
            ParseFeedError::ParseError(ParseErrorKind::NoFeedRoot) => ("couldn't parse feed: no root element", ""),
            ParseFeedError::ParseError(ParseErrorKind::UnknownMimeType(mime)) => (
                "couldn't parse feed: unsupported content type ",
                mime.as_str(),
            ),
            ParseFeedError::ParseError(ParseErrorKind::MissingContent(elem)) => (
                "couldn't parse feed: missing content element ",
                elem.as_str(),
            ),
            ParseFeedError::IoError(ie) => ("couldn't read feed: ", ie.as_str()),
            ParseFeedError::JsonSerde(je) => ("couldn't parse JSON: ", je.as_str()),
            ParseFeedError::XmlReader(xe) => ("couldn't parse XML: ", xe.as_str()),
        };
        let mut s = String::new();
        s.append(prefix);
        s.append(detail);
        proof {
            reveal_strlit("");
            assert(parse_feed_error_text(self.0) =~= s@);
        }
        s
    }
}

/// `name <email> (uri)`, each of the last two only where it is given.
pub open spec fn person_text(p: (Seq<char>, Option<Seq<char>>, Option<Seq<char>>)) -> Seq<char> {
    p.0 + match p.2 {
        Some(email) => " <"@ + email + ">"@,
        None => Seq::empty(),
    } + match p.1 {
        Some(uri) => " ("@ + uri + ")"@,
        None => Seq::empty(),
    }
}

/// Appends `person_text` of `p` to `out`.
pub fn push_person(out: &mut String, p: &Person)
    ensures
        final(out)@ == old(out)@ + person_text(p@),
{
    let ghost start = out@;
    out.append(p.name.as_str());
    if let Some(email) = &p.email {
        out.append(" <");
        out.append(email.as_str());
        out.append(">");
    }
    if let Some(uri) = &p.uri {
        out.append(" (");
        out.append(uri.as_str());
        out.append(")");
    }
    proof {
        assert(out@ =~= start + person_text(p@));
    }
}

/// A `Person` shown as `name <email> (uri)`
#[derive(Debug, PartialEq, Eq, Hash)]
pub struct DisplayFeedPerson<'p>(pub &'p Person);

impl<'p> DisplayFeedPerson<'p> {
    /// The person as `name <email> (uri)`.
    pub fn to_string(&self) -> (s: String)
        ensures
            s@ == person_text(self.0@),
    {
        let mut s = String::new();
        push_person(&mut s, self.0);
        s
    }
}

/// The Message-ID of an entry of a feed: `entry_id@feed_id`.
pub open spec fn message_id(feed_id: Seq<char>, entry_id: Seq<char>) -> Seq<char> {
    entry_id + "@"@ + feed_id
}

/// Get the Message-ID corresponding to the specified entry in the specified feed
///
/// This amounts to `"entry.id@feed.id"`
pub fn message_id_for_feed_entry(feed: &Feed, entry: &Entry) -> (id: String)
    ensures
        id@ == message_id(feed.id@, entry.id@),
{
    let mut id = String::new();
    id.append(entry.id.as_str());
    id.append("@");
    id.append(feed.id.as_str());
    proof {
        assert(id@ =~= message_id(feed.id@, entry.id@));
    }
    id
}

/// Distinct entries of one feed get distinct Message-IDs.
pub proof fn message_id_injective(feed_id: Seq<char>, entry_id1: Seq<char>, entry_id2: Seq<char>)
    requires
        entry_id1 != entry_id2,
    ensures
        message_id(feed_id, entry_id1) != message_id(feed_id, entry_id2),
{
    let tail = "@"@ + feed_id;
    assert(message_id(feed_id, entry_id1) =~= entry_id1 + tail);
    assert(message_id(feed_id, entry_id2) =~= entry_id2 + tail);
    if message_id(feed_id, entry_id1) == message_id(feed_id, entry_id2) {
        let m = message_id(feed_id, entry_id1);
        let n1 = entry_id1.len();
        let n2 = entry_id2.len();
        assert(m.len() == n1 + tail.len());
        assert(m.len() == n2 + tail.len());
        assert(entry_id1 =~= m.subrange(0, n1 as int));
        assert(entry_id2 =~= m.subrange(0, n2 as int));
    }
}

} // verus!
