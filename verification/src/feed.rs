//! Parsing a feed: `feed_rs` reads the bytes, and the parts of the feed that
//! the library reads are handed over as its plain values.

use vstd::prelude::*;
use vstd::string::StringSliceAdditionalSpecFns;
use feed_rs::model::{Content as RawContent, Entry as RawEntry, Feed as RawFeed, Link as RawLink, Person as RawPerson, Text as RawText};
use feed_rs::parser::parse as feed_rs_parse_bytes;
use feed_rs::parser::ParseErrorKind::{MissingContent, NoFeedRoot, UnknownMimeType};
use feed_rs::parser::ParseFeedError::{IoError, JsonSerde, ParseError, XmlReader};
use crate::model::{clone_opt_string, Content, Entry, Feed, Link, MimeType, Person, Text, Timestamp};
use crate::util::{parse_feed_error_view, ParseErrorKind, ParseFeedError};

verus! {

#[verifier::external_type_specification]
#[verifier::external_body]
pub struct ExRawFeed(RawFeed);

#[verifier::external_type_specification]
#[verifier::external_body]
pub struct ExRawEntry(RawEntry);

#[verifier::external_type_specification]
pub struct ExRawText(RawText);

#[verifier::external_type_specification]
pub struct ExRawContent(RawContent);

#[verifier::external_type_specification]
pub struct ExRawPerson(RawPerson);

#[verifier::external_type_specification]
pub struct ExRawLink(RawLink);

#[verifier::external_type_specification]
#[verifier::external_body]
pub struct ExMime(mime::Mime);

/// The namespace of Media RSS, whose elements `feed_rs` reads play times from.
pub const MEDIA_RSS_NAMESPACE: &'static str = "http://search.yahoo.com/mrss/";

/// The namespace of the iTunes podcast elements, whose durations `feed_rs`
/// reads as play times.
pub const ITUNES_NAMESPACE: &'static str = "http://www.itunes.com/dtds/podcast-1.0.dtd";

/// The start of an XML character reference.
pub const CHARACTER_REFERENCE: &'static str = "&#";

/// The longest run of digits that a play time may hold: hours of up to this
/// many digits, times 3600, still fit in a `u64`.
pub const LONGEST_DIGIT_RUN: usize = 15;

/// `pat` occurs in `data` at `i`.
pub open spec fn occurs_at(data: Seq<u8>, pat: Seq<u8>, i: int) -> bool {
    0 <= i && i + pat.len() <= data.len() && data.subrange(i, i + pat.len()) == pat
}

/// `pat` occurs somewhere in `data`.
pub open spec fn occurs(data: Seq<u8>, pat: Seq<u8>) -> bool {
    exists|i: int| #[trigger] occurs_at(data, pat, i)
}

/// `b` is one of the ASCII digits `0` to `9`.
pub open spec fn is_ascii_digit(b: u8) -> bool {
    0x30 <= b <= 0x39
}

/// The `n` bytes of `data` from `i` on are ASCII digits.
pub open spec fn digit_run_at(data: Seq<u8>, i: int, n: int) -> bool {
    0 <= i && i + n <= data.len() && forall|k: int| i <= k < i + n ==> is_ascii_digit(#[trigger] data[k])
}

/// The bytes of a feed on which `feed_rs` is known to return.
///
/// `feed_rs` panics on a play time of a Media RSS or iTunes element whose
/// digits overflow a `u64` (or whose hours, times 3600, do), or that holds a
/// decimal digit outside ASCII.  Such an element is only read where one of
/// the two namespaces is declared.  With no NUL and no ESC byte in the input,
/// no text encoding that an XML declaration can name makes a namespace out
/// of bytes that do not spell it, so bytes without either namespace are
/// safe.  Bytes with one are safe when they are all ASCII (every encoding
/// that can still read the namespace then reads each byte as itself), hold
/// no character reference and no run of more than `LONGEST_DIGIT_RUN`
/// digits.
pub open spec fn safe_for_parser(data: Seq<u8>) -> bool {
    &&& forall|i: int| 0 <= i < data.len() ==> #[trigger] data[i] != 0 && data[i] != 0x1b
    &&& (occurs(data, MEDIA_RSS_NAMESPACE.spec_bytes()) || occurs(data, ITUNES_NAMESPACE.spec_bytes())) ==> {
        &&& forall|i: int| 0 <= i < data.len() ==> #[trigger] data[i] < 0x80
        &&& !occurs(data, CHARACTER_REFERENCE.spec_bytes())
        &&& !exists|i: int| #[trigger] digit_run_at(data, i, LONGEST_DIGIT_RUN + 1)
    }
}

/// Whether `pat` occurs in `data` at `i`.
fn bytes_occur_at(data: &[u8], pat: &[u8], i: usize) -> (r: bool)
    requires
        i <= data@.len(),
    ensures
        r == occurs_at(data@, pat@, i as int),
{
    let len: usize = data.len();
    if pat.len() > len - i {
        return false;
    }
    let mut k: usize = 0;
    while k < pat.len()
        invariant
            len == data@.len(),
            k <= pat@.len(),
            i + pat@.len() <= data@.len(),
            forall|j: int| 0 <= j < k ==> data@[i + j] == pat@[j],
        decreases pat@.len() - k,
    {
        if data[i + k] != pat[k] {
            proof {
                assert(data@.subrange(i as int, i + pat@.len())[k as int] != pat@[k as int]);
            }
            return false;
        }
        k = k + 1;
    }
    proof {
        assert(data@.subrange(i as int, i + pat@.len()) =~= pat@);
    }
    true
}

/// Whether `pat` occurs anywhere in `data`.
fn bytes_occur(data: &[u8], pat: &[u8]) -> (r: bool)
    ensures
        r == occurs(data@, pat@),
{
    let mut i: usize = 0;
    loop
        invariant
            i <= data@.len(),
            forall|j: int| 0 <= j < i ==> !occurs_at(data@, pat@, j),
        decreases data@.len() - i,
    {
        if bytes_occur_at(data, pat, i) {
            return true;
        }
        if i == data.len() {
            proof {
                assert forall|j: int| !occurs_at(data@, pat@, j) by {
                    if 0 <= j && j < i {
                    } else if j != i {
                    }
                }
            }
            return false;
        }
        i = i + 1;
    }
}

/// Whether more than `LONGEST_DIGIT_RUN` ASCII digits follow one another
/// somewhere in `data`.
fn has_long_digit_run(data: &[u8]) -> (r: bool)
    ensures
        r == exists|i: int| #[trigger] digit_run_at(data@, i, LONGEST_DIGIT_RUN + 1),
{
    let n: usize = LONGEST_DIGIT_RUN + 1;
    let mut run: usize = 0;
    let mut i: usize = 0;
    while i < data.len()
        invariant
            n == LONGEST_DIGIT_RUN + 1,
            i <= data@.len(),
            run <= i,
            run < n,
            digit_run_at(data@, i - run, run as int),
            run < i ==> !is_ascii_digit(data@[i - run - 1]),
            forall|j: int| j + n <= i ==> !#[trigger] digit_run_at(data@, j, n as int),
        decreases data@.len() - i,
    {
        if 0x30 <= data[i] && data[i] <= 0x39 {
            run = run + 1;
            if run == n {
                proof {
                    assert(digit_run_at(data@, i + 1 - n, n as int));
                }
                return true;
            }
        } else {
            run = 0;
        }
        i = i + 1;
        proof {
            assert forall|j: int| j + n <= i implies !#[trigger] digit_run_at(data@, j, n as int) by {
                if j + n == i && digit_run_at(data@, j, n as int) {
                    let last = i - 1;
                    assert(is_ascii_digit(data@[last]));
                    if run < i {
                        assert(!is_ascii_digit(data@[i - run - 1]));
                        assert(j <= i - run - 1);
                    }
                }
            }
        }
    }
    proof {
        assert forall|j: int| !#[trigger] digit_run_at(data@, j, n as int) by {
            if j + n <= i {
            }
        }
    }
    false
}

/// Whether `feed_rs` may be handed `data`: `r == safe_for_parser(data@)`.
pub fn is_safe_for_parser(data: &[u8]) -> (r: bool)
    ensures
        r == safe_for_parser(data@),
{
    let mut ascii = true;
    let mut i: usize = 0;
    while i < data.len()
        invariant
            i <= data@.len(),
            forall|j: int| 0 <= j < i ==> #[trigger] data@[j] != 0 && data@[j] != 0x1b,
            ascii == forall|j: int| 0 <= j < i ==> #[trigger] data@[j] < 0x80,
        decreases data@.len() - i,
    {
        if data[i] == 0 || data[i] == 0x1b {
            return false;
        }
        if data[i] >= 0x80 {
            ascii = false;
        }
        i = i + 1;
    }
    if !bytes_occur(data, MEDIA_RSS_NAMESPACE.as_bytes()) && !bytes_occur(data, ITUNES_NAMESPACE.as_bytes()) {
        return true;
    }
    ascii && !bytes_occur(data, CHARACTER_REFERENCE.as_bytes()) && !has_long_digit_run(data)
}

/// What `feed_rs::parser::parse` makes of the bytes of a feed: on success
/// the identifier of the feed and those of its entries, in order, as the
/// feed itself gives them (empty where it gives none); on failure the view
/// of its error.
pub uninterp spec fn feed_rs_parse_result(data: Seq<u8>) -> Result<(Seq<char>, Seq<Seq<char>>), (Seq<char>, Seq<char>)>;

/// Calls `feed_rs::parser::parse` on the bytes of a feed.  On success the
/// feed's identifier and its entries, each with its identifier, are handed
/// out beside the rest of the feed; a failure is handed out as the library's
/// error, with the messages (`Display`) of the reader's, the JSON parser's and
/// the XML parser's errors.
///
/// What comes out is `feed_rs_parse_result` of the bytes, but for the
/// identifiers that the feed does not give: `feed_rs` gives a feed or entry
/// without one an identifier made from its first link, or else a random
/// UUID, so every identifier is non-empty, and which one is made is left
/// open.  Where the system's random source fails, `uuid` panics; that
/// depends on the machine and is not excluded here.
#[verifier::external_body]
fn feed_rs_parse(data: &[u8]) -> (r: Result<(String, RawFeed, Vec<(String, RawEntry)>), ParseFeedError>)
    requires
        safe_for_parser(data@),
    ensures
        r matches Err(e) ==> (feed_rs_parse_result(data@) matches Err(view) && view == parse_feed_error_view(e)),
        r matches Ok((id, _, entries)) ==> feed_rs_parse_result(data@) matches Ok((feed_id, entry_ids)) && {
            &&& id@.len() > 0
            &&& feed_id.len() > 0 ==> id@ == feed_id
            &&& entries@.len() == entry_ids.len()
            &&& forall|i: int| 0 <= i < entries@.len() ==> (#[trigger] entries@[i]).0@.len() > 0
                && (entry_ids[i].len() > 0 ==> entries@[i].0@ == entry_ids[i])
        },
{
    let kind = match feed_rs_parse_bytes(data) {
        Ok(mut f) => {
            let entries = f.entries.drain(..).map(|e| (e.id.clone(), e)).collect();
            return Ok((f.id.clone(), f, entries));
        },
        Err(ParseError(kind)) => kind,
        Err(IoError(e)) => return Err(ParseFeedError::IoError(e.to_string())),
        Err(JsonSerde(e)) => return Err(ParseFeedError::JsonSerde(e.to_string())),
        Err(XmlReader(e)) => return Err(ParseFeedError::XmlReader(e.to_string())),
    };
    Err(ParseFeedError::ParseError(match kind {
        NoFeedRoot => ParseErrorKind::NoFeedRoot,
        UnknownMimeType(m) => ParseErrorKind::UnknownMimeType(m),
        MissingContent(c) => ParseErrorKind::MissingContent(c.to_string()),
    }))
}

/// Hands out the title, update, authors, description, links and publication
/// of a parsed feed; the dates as `DateTime::timestamp` and
/// `DateTime::timestamp_subsec_nanos` give them.
#[verifier::external_body]
fn feed_parts<'a>(f: &'a RawFeed) -> (r: (Option<&'a RawText>, Option<Timestamp>, &'a Vec<RawPerson>, Option<&'a RawText>, &'a Vec<RawLink>, Option<Timestamp>)) {
    let time = |d: &chrono::DateTime<chrono::Utc>| Timestamp { secs: d.timestamp(), nanos: d.timestamp_subsec_nanos() };
    (f.title.as_ref(), f.updated.as_ref().map(time), &f.authors, f.description.as_ref(), &f.links, f.published.as_ref().map(time))
}

/// Hands out the title, update, authors, content, links, summary and
/// publication of a parsed entry; the dates as `DateTime::timestamp` and
/// `DateTime::timestamp_subsec_nanos` give them.
#[verifier::external_body]
fn entry_parts<'a>(e: &'a RawEntry) -> (r: (Option<&'a RawText>, Option<Timestamp>, &'a Vec<RawPerson>, Option<&'a RawContent>, &'a Vec<RawLink>, Option<&'a RawText>, Option<Timestamp>)) {
    let time = |d: &chrono::DateTime<chrono::Utc>| Timestamp { secs: d.timestamp(), nanos: d.timestamp_subsec_nanos() };
    (e.title.as_ref(), e.updated.as_ref().map(time), &e.authors, e.content.as_ref(), &e.links, e.summary.as_ref(), e.published.as_ref().map(time))
}

/// The content type and the text of a parsed text.
fn text_parts<'a>(t: &'a RawText) -> (r: (&'a mime::Mime, String))
    ensures
        *r.0 == t.content_type,
        r.1 == t.content,
{
    (&t.content_type, t.content.clone())
}

/// The inline body, the content type and the source link of a parsed content.
fn content_parts<'a>(c: &'a RawContent) -> (r: (Option<String>, &'a mime::Mime, Option<&'a RawLink>))
    ensures
        r.0 == c.body,
        *r.1 == c.content_type,
        match (r.2, c.src) {
            (Some(l), Some(k)) => *l == k,
            (None, None) => true,
            _ => false,
        },
{
    let src = match &c.src {
        Some(l) => Some(l),
        None => None,
    };
    (clone_opt_string(&c.body), &c.content_type, src)
}

/// `p` is the parsed person `q`: the same name, URI and e-mail address.
pub open spec fn person_agrees(p: Person, q: RawPerson) -> bool {
    p.name == q.name && p.uri == q.uri && p.email == q.email
}

/// `ps` are the parsed people `qs`, one for one and in the same order.
pub open spec fn people_agree(ps: Seq<Person>, qs: Seq<RawPerson>) -> bool {
    ps.len() == qs.len() && forall|i: int| 0 <= i < ps.len() ==> person_agrees(#[trigger] ps[i], qs[i])
}

/// `l` is the parsed link `q`: the same target, relation and title.
pub open spec fn link_agrees(l: Link, q: RawLink) -> bool {
    l.href == q.href && l.rel == q.rel && l.title == q.title
}

/// `ls` are the parsed links `qs`, one for one and in the same order.
pub open spec fn links_agree(ls: Seq<Link>, qs: Seq<RawLink>) -> bool {
    ls.len() == qs.len() && forall|i: int| 0 <= i < ls.len() ==> link_agrees(#[trigger] ls[i], qs[i])
}

/// `t` is there exactly where the parsed text `q` is, with its text.
pub open spec fn text_agrees(t: Option<Text>, q: Option<&RawText>) -> bool {
    match (t, q) {
        (Some(t), Some(q)) => t.content == q.content,
        (None, None) => true,
        _ => false,
    }
}

/// `c` is there exactly where the parsed content `q` is, with its inline
/// body and its source link.
pub open spec fn content_agrees(c: Option<Content>, q: Option<&RawContent>) -> bool {
    match (c, q) {
        (Some(c), Some(q)) => c.body == q.body && match (c.src, q.src) {
            (Some(l), Some(k)) => link_agrees(l, k),
            (None, None) => true,
            _ => false,
        },
        (None, None) => true,
        _ => false,
    }
}

/// A parsed person, with its name, URI and e-mail address.
fn person_of(p: &RawPerson) -> (r: Person)
    ensures
        person_agrees(r, *p),
{
    Person { name: p.name.clone(), uri: clone_opt_string(&p.uri), email: clone_opt_string(&p.email) }
}

/// A parsed link, with its target, relation and title.
fn link_of(l: &RawLink) -> (r: Link)
    ensures
        link_agrees(r, *l),
{
    Link { href: l.href.clone(), rel: clone_opt_string(&l.rel), title: clone_opt_string(&l.title) }
}

/// Hands out a MIME type as `Mime::type_`, `Mime::subtype`, `Mime::suffix`
/// and `Mime::params` give its parts.
#[verifier::external_body]
fn mime_of(m: &mime::Mime) -> (r: MimeType) {
    MimeType {
        type_: m.type_().as_str().to_string(),
        subtype: m.subtype().as_str().to_string(),
        suffix: m.suffix().map(|x| x.as_str().to_string()),
        params: m.params().map(|(n, v)| (n.as_str().to_string(), v.as_str().to_string())).collect(),
    }
}

fn text_of(t: &RawText) -> (r: Text)
    ensures
        r.content == t.content,
{
    let (content_type, content) = text_parts(t);
    Text { content_type: mime_of(content_type), content }
}

fn opt_text_of(t: Option<&RawText>) -> (r: Option<Text>)
    ensures
        text_agrees(r, t),
{
    match t {
        Some(t) => Some(text_of(t)),
        None => None,
    }
}

/// The parsed people `ps`, in their order.
fn people_of(ps: &Vec<RawPerson>) -> (r: Vec<Person>)
    ensures
        people_agree(r@, ps@),
{
    let mut r: Vec<Person> = Vec::new();
    let mut i: usize = 0;
    while i < ps.len()
        invariant
            i <= ps@.len(),
            r@.len() == i,
            forall|j: int| 0 <= j < i ==> person_agrees(#[trigger] r@[j], ps@[j]),
        decreases ps@.len() - i,
    {
        r.push(person_of(&ps[i]));
        i = i + 1;
    }
    r
}

/// The parsed links `ls`, in their order.
fn links_of(ls: &Vec<RawLink>) -> (r: Vec<Link>)
    ensures
        links_agree(r@, ls@),
{
    let mut r: Vec<Link> = Vec::new();
    let mut i: usize = 0;
    while i < ls.len()
        invariant
            i <= ls@.len(),
            r@.len() == i,
            forall|j: int| 0 <= j < i ==> link_agrees(#[trigger] r@[j], ls@[j]),
        decreases ls@.len() - i,
    {
        r.push(link_of(&ls[i]));
        i = i + 1;
    }
    r
}

fn content_of(c: &RawContent) -> (r: Content)
    ensures
        content_agrees(Some(r), Some(c)),
{
    let (body, content_type, src) = content_parts(c);
    let src = match src {
        Some(l) => Some(link_of(l)),
        None => None,
    };
    Content { body, content_type: mime_of(content_type), src }
}

/// The parts of a parsed entry that the library reads, as `entry_parts`
/// hands them out: title, update, authors, content, links, summary and
/// publication.
pub type RawEntryParts<'a> = (Option<&'a RawText>, Option<Timestamp>, &'a Vec<RawPerson>, Option<&'a RawContent>, &'a Vec<RawLink>, Option<&'a RawText>, Option<Timestamp>);

/// The entry `id` with the parsed `parts`: its update and publication are
/// those parsed, its authors and links are the parsed ones in their order,
/// and its title, content and summary are there where parsed, with their
/// texts.
pub fn entry_from_parts(id: String, parts: RawEntryParts) -> (r: Entry)
    ensures
        r.id == id,
        r.updated == parts.1,
        r.published == parts.6,
        people_agree(r.authors@, parts.2@),
        links_agree(r.links@, parts.4@),
        text_agrees(r.title, parts.0),
        text_agrees(r.summary, parts.5),
        content_agrees(r.content, parts.3),
{
    let (title, updated, authors, content, links, summary, published) = parts;
    let content = match content {
        Some(c) => Some(content_of(c)),
        None => None,
    };
    Entry {
        id,
        title: opt_text_of(title),
        updated,
        authors: people_of(authors),
        content,
        links: links_of(links),
        summary: opt_text_of(summary),
        published,
    }
}

fn entry_of(id: String, e: &RawEntry) -> (r: Entry)
    ensures
        r.id == id,
{
    entry_from_parts(id, entry_parts(e))
}

/// The parts of a parsed feed that the library reads, as `feed_parts` hands
/// them out: title, update, authors, description, links and publication.
pub type RawFeedParts<'a> = (Option<&'a RawText>, Option<Timestamp>, &'a Vec<RawPerson>, Option<&'a RawText>, &'a Vec<RawLink>, Option<Timestamp>);

/// The feed `id` with the parsed `parts` and the `entries`: its update and
/// publication are those parsed, its authors and links are the parsed ones in
/// their order, and its title and description are there where parsed, with
/// their texts.
pub fn feed_from_parts(id: String, parts: RawFeedParts, entries: Vec<Entry>) -> (r: Feed)
    ensures
        r.id == id,
        r.updated == parts.1,
        r.published == parts.5,
        people_agree(r.authors@, parts.2@),
        links_agree(r.links@, parts.4@),
        text_agrees(r.title, parts.0),
        text_agrees(r.description, parts.3),
        r.entries == entries,
{
    let (title, updated, authors, description, links, published) = parts;
    Feed {
        id,
        title: opt_text_of(title),
        updated,
        authors: people_of(authors),
        description: opt_text_of(description),
        links: links_of(links),
        published,
        entries,
    }
}

/// `r` agrees with `read`, what `feed_rs` makes of the bytes of a feed: it
/// fails exactly where `read` does, with the same error; on success the feed
/// has as many entries as `read` names, the identifiers that `read` gives
/// are kept, and each missing one is filled with a non-empty one.
pub open spec fn parse_agrees(read: Result<(Seq<char>, Seq<Seq<char>>), (Seq<char>, Seq<char>)>, r: Result<Feed, ParseFeedError>) -> bool {
    match (read, r) {
        (Err(v), Err(e)) => v == parse_feed_error_view(e),
        (Ok((feed_id, entry_ids)), Ok(f)) => {
            &&& f.id@.len() > 0
            &&& feed_id.len() > 0 ==> f.id@ == feed_id
            &&& f.entries@.len() == entry_ids.len()
            &&& forall|i: int| 0 <= i < entry_ids.len() ==> (#[trigger] f.entries@[i]).id@.len() > 0
                && (entry_ids[i].len() > 0 ==> f.entries@[i].id@ == entry_ids[i])
        },
        _ => false,
    }
}

/// Builds the library's feed out of what `feed_rs` parsed: an error is
/// passed on as it is; a parsed feed keeps its identifier, and its entries
/// keep their order and identifiers.
pub fn parse_feed_from(parsed: Result<(String, RawFeed, Vec<(String, RawEntry)>), ParseFeedError>) -> (r: Result<Feed, ParseFeedError>)
    ensures
        match (parsed, r) {
            (Err(e), Err(e2)) => e2 == e,
            (Ok((id, _, given)), Ok(f)) => {
                &&& f.id == id
                &&& f.entries@.len() == given@.len()
                &&& forall|i: int| 0 <= i < given@.len() ==> (#[trigger] f.entries@[i]).id == given@[i].0
            },
            _ => false,
        },
{
    match parsed {
        Err(e) => Err(e),
        Ok((id, raw, raw_entries)) => {
            let parts = feed_parts(&raw);
            let ghost given = raw_entries@;
            let mut entries: Vec<Entry> = Vec::new();
            let mut i: usize = 0;
            while i < raw_entries.len()
                invariant
                    i <= raw_entries@.len(),
                    raw_entries@ == given,
                    entries@.len() == i,
                    forall|j: int| 0 <= j < i ==> (#[trigger] entries@[j]).id == given[j].0,
                decreases raw_entries@.len() - i,
            {
                let entry = entry_of(raw_entries[i].0.clone(), &raw_entries[i].1);
                entries.push(entry);
                i = i + 1;
            }
            Ok(feed_from_parts(id, parts, entries))
        },
    }
}

/// Parses the bytes of an (RSS/Atom/JSON) feed with `feed_rs`.  It fails
/// exactly where `feed_rs` does, with its error; a parsed feed keeps the
/// identifiers that the feed gives and has one entry for each of the feed's.
pub fn parse_feed(data: &[u8]) -> (r: Result<Feed, ParseFeedError>)
    requires
        safe_for_parser(data@),
    ensures
        parse_agrees(feed_rs_parse_result(data@), r),
{
    let parsed = feed_rs_parse(data);
    let r = parse_feed_from(parsed);
    r
}

/// Parses the bytes of a feed as `parse_feed` does where `feed_rs` may be
/// handed them (`safe_for_parser`), and gives `None` elsewhere.
pub fn parse_feed_checked(data: &[u8]) -> (r: Option<Result<Feed, ParseFeedError>>)
    ensures
        r is None <==> !safe_for_parser(data@),
        r matches Some(res) ==> parse_agrees(feed_rs_parse_result(data@), res),
{
    if is_safe_for_parser(data) {
        Some(parse_feed(data))
    } else {
        None
    }
}

} // verus!
