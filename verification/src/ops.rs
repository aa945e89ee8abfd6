//! What goes into the mail for one entry of a feed.

use vstd::prelude::*;
use vstd::string::StrSliceExecFns;
use vstd::string::StringExecFns;
use crate::authors::{collect_authors, entry_authors};
use crate::model::{Entry, Feed, Link, MimeType, Person, Text, Timestamp, clone_pairs, opt_view, pairs_view};
use crate::text::{join, lemma_join_push};
use crate::util::{LINK_REL_FILTER, is_filtered_link_rel, person_text, push_person, rel_filtered};
use crate::text::eq_ignore_ascii_case;

verus! {

/// `title <href>` if the link has a title, else `href`.
pub open spec fn link_text(l: Link) -> Seq<char> {
    match l.title {
        Some(t) => t@ + " <"@ + l.href@ + ">"@,
        None => l.href@,
    }
}

/// Appends `link_text` of `l` to `out`.
pub fn push_link(out: &mut String, l: &Link)
    ensures
        final(out)@ == old(out)@ + link_text(*l),
{
    let ghost start = out@;
    match &l.title {
        Some(t) => {
            out.append(t.as_str());
            out.append(" <");
            out.append(l.href.as_str());
            out.append(">");
            proof {
                assert(out@ =~= start + link_text(*l));
            }
        },
        None => {
            out.append(l.href.as_str());
        },
    }
}

/// The link is shown: it has no relation, or one not filtered out.
pub open spec fn link_shown(l: Link) -> bool {
    match l.rel {
        Some(r) => !rel_filtered(r@),
        None => true,
    }
}

/// The links of `s` that are shown, in order.
pub open spec fn shown_links(s: Seq<Link>) -> Seq<Link>
    decreases s.len(),
{
    if s.len() == 0 {
        s
    } else if link_shown(s.last()) {
        shown_links(s.drop_last()).push(s.last())
    } else {
        shown_links(s.drop_last())
    }
}

/// `h` without one path separator at its end.
pub open spec fn strip_trailing_slash(h: Seq<char>) -> Seq<char> {
    if h.len() > 0 && h.last() == '/' {
        h.drop_last()
    } else {
        h
    }
}

/// What two neighbouring links are compared by: the target, without its
/// trailing separator where `strip` is set.
pub open spec fn link_key(l: Link, strip: bool) -> Seq<char> {
    if strip {
        strip_trailing_slash(l.href@)
    } else {
        l.href@
    }
}

/// `s` without each link whose key equals that of the last link kept before it.
pub open spec fn dedup_links(s: Seq<Link>, strip: bool) -> Seq<Link>
    decreases s.len(),
{
    if s.len() == 0 {
        s
    } else {
        let d = dedup_links(s.drop_last(), strip);
        if d.len() > 0 && link_key(d.last(), strip) == link_key(s.last(), strip) {
            d
        } else {
            d.push(s.last())
        }
    }
}

/// The links shown for `entry` of `feed`: the entry's then the feed's, without
/// filtered relations, and without neighbours that point to the same place,
/// first exactly, then up to a trailing separator.
pub open spec fn status_links(feed: Feed, entry: Entry) -> Seq<Link> {
    dedup_links(dedup_links(shown_links(entry.links@ + feed.links@), false), true)
}

proof fn lemma_shown_links(s: Seq<Link>)
    ensures
        forall|i: int| 0 <= i < shown_links(s).len() ==> link_shown(#[trigger] shown_links(s)[i]) && s.contains(
            shown_links(s)[i],
        ),
    decreases s.len(),
{
    if s.len() > 0 {
        let t = s.drop_last();
        lemma_shown_links(t);
        let r = shown_links(s);
        assert forall|i: int| 0 <= i < r.len() implies link_shown(#[trigger] r[i]) && s.contains(r[i]) by {
            if i < shown_links(t).len() {
                assert(r[i] == shown_links(t)[i]);
                let k = choose|k: int| 0 <= k < t.len() && t[k] == r[i];
                assert(s[k] == r[i]);
            } else {
                assert(s[s.len() - 1] == r[i]);
            }
        }
    }
}

proof fn lemma_dedup_links(s: Seq<Link>, strip: bool)
    ensures
        forall|i: int| 0 <= i < dedup_links(s, strip).len() ==> s.contains(#[trigger] dedup_links(s, strip)[i]),
        forall|i: int|
            0 <= i < dedup_links(s, strip).len() - 1 ==> link_key(#[trigger] dedup_links(s, strip)[i], strip)
                != link_key(dedup_links(s, strip)[i + 1], strip),
    decreases s.len(),
{
    if s.len() > 0 {
        let t = s.drop_last();
        lemma_dedup_links(t, strip);
        let d = dedup_links(t, strip);
        let r = dedup_links(s, strip);
        assert forall|i: int| 0 <= i < r.len() implies s.contains(#[trigger] r[i]) by {
            if i < d.len() {
                assert(r[i] == d[i]);
                let k = choose|k: int| 0 <= k < t.len() && t[k] == r[i];
                assert(s[k] == r[i]);
            } else {
                assert(s[s.len() - 1] == r[i]);
            }
        }
        assert forall|i: int| 0 <= i < r.len() - 1 implies link_key(#[trigger] r[i], strip) != link_key(
            r[i + 1],
            strip,
        ) by {
            if i + 1 < d.len() {
                assert(r[i] == d[i] && r[i + 1] == d[i + 1]);
            }
        }
    }
}

/// Every link shown is a link of the entry or of the feed, with no relation
/// that is filtered out, and no two neighbours point to the same place, not
/// even when one of them ends with a separator and the other does not.
pub proof fn status_links_law(feed: Feed, entry: Entry)
    ensures
        forall|i: int| 0 <= i < status_links(feed, entry).len() ==> link_shown(#[trigger] status_links(feed, entry)[i])
            && (entry.links@ + feed.links@).contains(status_links(feed, entry)[i]),
        forall|i: int|
            0 <= i < status_links(feed, entry).len() - 1 ==> strip_trailing_slash(
                (#[trigger] status_links(feed, entry)[i]).href@,
            ) != strip_trailing_slash(status_links(feed, entry)[i + 1].href@),
{
    let all = entry.links@ + feed.links@;
    let shown = shown_links(all);
    let once = dedup_links(shown, false);
    let r = status_links(feed, entry);
    lemma_shown_links(all);
    lemma_dedup_links(shown, false);
    lemma_dedup_links(once, true);
    assert forall|i: int| 0 <= i < r.len() implies link_shown(#[trigger] r[i]) && all.contains(r[i]) by {
        assert(once.contains(r[i]));
        let k = choose|k: int| 0 <= k < once.len() && once[k] == r[i];
        assert(shown.contains(once[k]));
        let m = choose|m: int| 0 <= m < shown.len() && shown[m] == r[i];
        assert(link_shown(shown[m]) && all.contains(shown[m]));
    }
    assert forall|i: int| 0 <= i < r.len() - 1 implies strip_trailing_slash((#[trigger] r[i]).href@)
        != strip_trailing_slash(r[i + 1].href@) by {
        assert(link_key(r[i], true) != link_key(r[i + 1], true));
    }
}

/// A link is shown exactly when it has no relation, or one other than
/// "self" (in any ASCII case).
pub proof fn link_shown_law(l: Link)
    ensures
        link_shown(l) <==> match l.rel {
            Some(r) => !eq_ignore_ascii_case(r@, "self"@),
            None => true,
        },
{
    assert(LINK_REL_FILTER@.len() == 1);
    assert(LINK_REL_FILTER@[0]@ == "self"@);
    if let Some(r) = l.rel {
        if eq_ignore_ascii_case(r@, "self"@) {
            assert(rel_filtered(r@));
        }
    }
}

proof fn lemma_shown_links_keep(s: Seq<Link>, l: Link)
    requires
        s.contains(l),
        link_shown(l),
    ensures
        shown_links(s).contains(l),
    decreases s.len(),
{
    let t = s.drop_last();
    if s.last() == l {
        assert(shown_links(s).last() == l);
    } else {
        let k = choose|k: int| 0 <= k < s.len() && s[k] == l;
        assert(t[k] == l);
        lemma_shown_links_keep(t, l);
        let m = choose|m: int| 0 <= m < shown_links(t).len() && shown_links(t)[m] == l;
        assert(shown_links(s)[m] == l);
    }
}

proof fn lemma_dedup_links_keep(s: Seq<Link>, strip: bool, l: Link)
    requires
        s.contains(l),
    ensures
        exists|j: int| 0 <= j < dedup_links(s, strip).len() && link_key(#[trigger] dedup_links(s, strip)[j], strip) == link_key(l, strip),
    decreases s.len(),
{
    let t = s.drop_last();
    let d = dedup_links(t, strip);
    let r = dedup_links(s, strip);
    if s.last() == l {
        if d.len() > 0 && link_key(d.last(), strip) == link_key(l, strip) {
            assert(r[d.len() - 1] == d.last());
        } else {
            assert(r[d.len() as int] == l);
        }
    } else {
        let k = choose|k: int| 0 <= k < s.len() && s[k] == l;
        assert(t[k] == l);
        lemma_dedup_links_keep(t, strip, l);
        let j = choose|j: int| 0 <= j < d.len() && link_key(#[trigger] d[j], strip) == link_key(l, strip);
        assert(r[j] == d[j]);
    }
}

/// Every link of the entry or the feed whose relation is not "self" (in any
/// ASCII case) is shown, unless a shown neighbour points to the same place
/// up to a trailing separator: some shown link then has that target.
pub proof fn status_links_complete(feed: Feed, entry: Entry, l: Link)
    requires
        (entry.links@ + feed.links@).contains(l),
        match l.rel {
            Some(r) => !eq_ignore_ascii_case(r@, "self"@),
            None => true,
        },
    ensures
        exists|j: int| 0 <= j < status_links(feed, entry).len()
            && strip_trailing_slash((#[trigger] status_links(feed, entry)[j]).href@) == strip_trailing_slash(l.href@),
{
    let all = entry.links@ + feed.links@;
    let shown = shown_links(all);
    let once = dedup_links(shown, false);
    let r = status_links(feed, entry);
    link_shown_law(l);
    lemma_shown_links_keep(all, l);
    lemma_dedup_links_keep(shown, false, l);
    let a = choose|j: int| 0 <= j < once.len() && link_key(#[trigger] once[j], false) == link_key(l, false);
    lemma_dedup_links_keep(once, true, once[a]);
    let b = choose|j: int| 0 <= j < r.len() && link_key(#[trigger] r[j], true) == link_key(once[a], true);
    assert(strip_trailing_slash(r[b].href@) == strip_trailing_slash(l.href@));
}

fn is_shown(l: &Link) -> (res: bool)
    ensures
        res == link_shown(*l),
{
    match &l.rel {
        Some(r) => !is_filtered_link_rel(r.as_str()),
        None => true,
    }
}

fn key_len(h: &str, strip: bool) -> (n: usize)
    ensures
        n as nat <= h@.len(),
        h@.subrange(0, n as int) == if strip {
            strip_trailing_slash(h@)
        } else {
            h@
        },
{
    let n = h.unicode_len();
    if strip && n > 0 && h.get_char(n - 1) == '/' {
        proof {
            assert(h@.subrange(0, n - 1) =~= h@.drop_last());
        }
        n - 1
    } else {
        proof {
            assert(h@.subrange(0, n as int) =~= h@);
        }
        n
    }
}

fn same_key(a: &Link, b: &Link, strip: bool) -> (res: bool)
    ensures
        res == (link_key(*a, strip) == link_key(*b, strip)),
{
    let na = key_len(a.href.as_str(), strip);
    let nb = key_len(b.href.as_str(), strip);
    let ghost ka = link_key(*a, strip);
    let ghost kb = link_key(*b, strip);
    assert(ka == a.href@.subrange(0, na as int));
    assert(kb == b.href@.subrange(0, nb as int));
    if na != nb {
        assert(ka.len() != kb.len());
        return false;
    }
    let mut i: usize = 0;
    while i < na
        invariant
            na == nb,
            na as nat <= a.href@.len(),
            nb as nat <= b.href@.len(),
            ka == a.href@.subrange(0, na as int),
            kb == b.href@.subrange(0, nb as int),
            ka == link_key(*a, strip),
            kb == link_key(*b, strip),
            i <= na,
            forall|j: int| 0 <= j < i ==> ka[j] == kb[j],
        decreases na - i,
    {
        if a.href.as_str().get_char(i) != b.href.as_str().get_char(i) {
            assert(ka[i as int] != kb[i as int]);
            return false;
        }
        i = i + 1;
    }
    assert(ka =~= kb);
    true
}

fn dedup_links_exec(links: &Vec<Link>, strip: bool) -> (r: Vec<Link>)
    ensures
        r@ == dedup_links(links@, strip),
{
    let mut r: Vec<Link> = Vec::new();
    let mut i: usize = 0;
    while i < links.len()
        invariant
            i <= links.len(),
            r@ == dedup_links(links@.take(i as int), strip),
        decreases links.len() - i,
    {
        proof {
            assert(links@.take(i + 1).drop_last() =~= links@.take(i as int));
        }
        let n = r.len();
        if n > 0 && same_key(&r[n - 1], &links[i], strip) {
        } else {
            r.push(links[i].clone());
        }
        i = i + 1;
    }
    proof {
        assert(links@.take(links.len() as int) =~= links@);
    }
    r
}

/// The links shown for `entry` of `feed`.
pub fn select_links(feed: &Feed, entry: &Entry) -> (links: Vec<Link>)
    ensures
        links@ == status_links(*feed, *entry),
{
    let ghost all = entry.links@ + feed.links@;
    let mut kept: Vec<Link> = Vec::new();
    let mut i: usize = 0;
    while i < entry.links.len()
        invariant
            i <= entry.links.len(),
            all == entry.links@ + feed.links@,
            kept@ == shown_links(all.take(i as int)),
        decreases entry.links.len() - i,
    {
        proof {
            assert(all.take(i + 1).drop_last() =~= all.take(i as int));
            assert(all.take(i + 1).last() == entry.links@[i as int]);
        }
        if is_shown(&entry.links[i]) {
            kept.push(entry.links[i].clone());
        }
        i = i + 1;
    }
    let n = entry.links.len();
    let mut j: usize = 0;
    while j < feed.links.len()
        invariant
            j <= feed.links.len(),
            n == entry.links.len(),
            all == entry.links@ + feed.links@,
            kept@ == shown_links(all.take(n + j)),
        decreases feed.links.len() - j,
    {
        proof {
            assert(all.take(n + j + 1).drop_last() =~= all.take(n + j));
            assert(all.take(n + j + 1).last() == feed.links@[j as int]);
        }
        if is_shown(&feed.links[j]) {
            kept.push(feed.links[j].clone());
        }
        j = j + 1;
    }
    proof {
        assert(all.take(n + feed.links.len()) =~= all);
    }
    let once = dedup_links_exec(&kept, false);
    dedup_links_exec(&once, true)
}

/// `lead`, the items separated by ", ", and a line break; nothing if there
/// are no items.
pub open spec fn list_line(items: Seq<Seq<char>>, lead: Seq<char>) -> Seq<char> {
    if items.len() == 0 {
        Seq::empty()
    } else {
        lead + join(items, ", "@) + "\n"@
    }
}

proof fn lemma_list_step(items: Seq<Seq<char>>, i: int)
    requires
        1 <= i < items.len(),
    ensures
        join(items.take(i + 1), ", "@) == join(items.take(i), ", "@) + ", "@ + items[i],
{
    assert(items.take(i + 1) =~= items.take(i).push(items[i]));
    lemma_join_push(items.take(i), ", "@, items[i]);
}

/// The texts of some people.
pub open spec fn people_texts(ps: Seq<(Seq<char>, Option<Seq<char>>, Option<Seq<char>>)>) -> Seq<Seq<char>> {
    ps.map_values(|p: (Seq<char>, Option<Seq<char>>, Option<Seq<char>>)| person_text(p))
}

/// The texts of some links.
pub open spec fn links_texts(ls: Seq<Link>) -> Seq<Seq<char>> {
    ls.map_values(|l: Link| link_text(l))
}

fn push_authors_line(out: &mut String, authors: &Vec<Person>)
    ensures
        final(out)@ == old(out)@ + list_line(people_texts(authors@.map_values(|p: Person| p@)), "By "@),
{
    let ghost texts = people_texts(authors@.map_values(|p: Person| p@));
    let ghost start = out@;
    let mut i: usize = 0;
    while i < authors.len()
        invariant
            i <= authors.len(),
            texts == people_texts(authors@.map_values(|p: Person| p@)),
            texts.len() == authors.len(),
            i == 0 ==> out@ == start,
            i > 0 ==> out@ == start + "By "@ + join(texts.take(i as int), ", "@),
        decreases authors.len() - i,
    {
        if i == 0 {
            out.append("By ");
        } else {
            out.append(", ");
        }
        push_person(out, &authors[i]);
        proof {
            assert(texts[i as int] == person_text(authors@[i as int]@));
            if i == 0 {
                assert(texts.take(1) =~= seq![texts[0]]);
                assert(out@ =~= start + "By "@ + join(texts.take(1), ", "@));
            } else {
                lemma_list_step(texts, i as int);
                assert(out@ =~= start + "By "@ + join(texts.take(i + 1), ", "@));
            }
        }
        i = i + 1;
    }
    if authors.len() > 0 {
        out.append("\n");
        proof {
            assert(texts.take(authors.len() as int) =~= texts);
        }
    }
    proof {
        assert(out@ =~= start + list_line(texts, "By "@));
    }
}

fn push_links_line(out: &mut String, links: &Vec<Link>)
    ensures
        final(out)@ == old(out)@ + list_line(links_texts(links@), "Links to "@),
{
    let ghost texts = links_texts(links@);
    let ghost start = out@;
    let mut i: usize = 0;
    while i < links.len()
        invariant
            i <= links.len(),
            texts == links_texts(links@),
            texts.len() == links.len(),
            i == 0 ==> out@ == start,
            i > 0 ==> out@ == start + "Links to "@ + join(texts.take(i as int), ", "@),
        decreases links.len() - i,
    {
        if i == 0 {
            out.append("Links to ");
        } else {
            out.append(", ");
        }
        push_link(out, &links[i]);
        proof {
            assert(texts[i as int] == link_text(links@[i as int]));
            if i == 0 {
                assert(texts.take(1) =~= seq![texts[0]]);
                assert(out@ =~= start + "Links to "@ + join(texts.take(1), ", "@));
            } else {
                lemma_list_step(texts, i as int);
                assert(out@ =~= start + "Links to "@ + join(texts.take(i + 1), ", "@));
            }
        }
        i = i + 1;
    }
    if links.len() > 0 {
        out.append("\n");
        proof {
            assert(texts.take(links.len() as int) =~= texts);
        }
    }
    proof {
        assert(out@ =~= start + list_line(texts, "Links to "@));
    }
}

/// What `chrono` writes for the instant `secs`.`nanos` after the Unix epoch in
/// the RFC 2822 format, in UTC (e.g. `Tue, 1 Jul 2003 10:52:37 +0000`).
pub uninterp spec fn rfc2822_text(secs: i64, nanos: u32) -> Seq<char>;

/// The instant can be written in the RFC 2822 format: it lies in the years 0
/// to 9999, and its nanoseconds reach past a second only within a leap second.
pub open spec fn rfc2822_representable(t: Timestamp) -> bool {
    &&& -62167219200 <= t.secs <= 253402300799
    &&& t.nanos < 2_000_000_000
    &&& (t.nanos >= 1_000_000_000 ==> t.secs % 60 == 59)
}

/// Calls `chrono::DateTime::<Utc>::from_timestamp` and `DateTime::to_rfc2822`,
/// which writes the instant in the RFC 2822 format; both succeed on the
/// instants that `requires` admits.  The text itself is left to
/// `rfc2822_text`.
#[verifier::external_body]
fn format_rfc2822(t: Timestamp) -> (s: String)
    requires
        rfc2822_representable(t),
    ensures
        s@ == rfc2822_text(t.secs, t.nanos),
{
    chrono::DateTime::from_timestamp(t.secs, t.nanos).unwrap().to_rfc2822()
}

/// The dates told of an entry published at `published` and updated at
/// `updated`: the publication, or else the update, and then the update if it
/// differs from the publication.
pub open spec fn shown_dates_spec(published: Option<Timestamp>, updated: Option<Timestamp>) -> (Option<Timestamp>, Option<Timestamp>) {
    match (published, updated) {
        (None, None) => (None, None),
        (Some(p), None) => (Some(p), None),
        (None, Some(u)) => (Some(u), None),
        (Some(p), Some(u)) => if p == u {
            (Some(p), None)
        } else {
            (Some(p), Some(u))
        },
    }
}

/// The line telling the dates written as `first` and `second`.
pub open spec fn dates_line_of(first: Option<Seq<char>>, second: Option<Seq<char>>) -> Seq<char> {
    match first {
        None => "No publication date\n"@,
        Some(f) => "Published on "@ + f + match second {
            Some(s) => ", updated on "@ + s,
            None => Seq::empty(),
        } + "\n"@,
    }
}

/// The RFC 2822 text of an optional instant.
pub open spec fn opt_rfc2822_text(t: Option<Timestamp>) -> Option<Seq<char>> {
    match t {
        Some(d) => Some(rfc2822_text(d.secs, d.nanos)),
        None => None,
    }
}

/// The line on the publication dates of an entry published at `published`
/// and updated at `updated`; equal dates are told once.
pub open spec fn dates_line(published: Option<Timestamp>, updated: Option<Timestamp>) -> Seq<char> {
    let (first, second) = shown_dates_spec(published, updated);
    dates_line_of(opt_rfc2822_text(first), opt_rfc2822_text(second))
}

/// The dates told of an entry published at `published` and updated at `updated`.
pub fn shown_dates(published: Option<Timestamp>, updated: Option<Timestamp>) -> (r: (Option<Timestamp>, Option<Timestamp>))
    ensures
        r == shown_dates_spec(published, updated),
{
    match (published, updated) {
        (None, None) => (None, None),
        (Some(p), None) => (Some(p), None),
        (None, Some(u)) => (Some(u), None),
        (Some(p), Some(u)) => if p == u {
            (Some(p), None)
        } else {
            (Some(p), Some(u))
        },
    }
}

/// The line telling the dates written as `first` and `second`.
pub fn dates_line_from(first: Option<String>, second: Option<String>) -> (line: String)
    ensures
        line@ == dates_line_of(opt_view(first), opt_view(second)),
{
    let mut line = String::new();
    match &first {
        None => {
            line.append("No publication date\n");
        },
        Some(f) => {
            line.append("Published on ");
            line.append(f.as_str());
            match &second {
                None => {},
                Some(s) => {
                    line.append(", updated on ");
                    line.append(s.as_str());
                },
            }
            line.append("\n");
        },
    }
    proof {
        assert(line@ =~= dates_line_of(opt_view(first), opt_view(second)));
    }
    line
}

fn format_opt_rfc2822(t: Option<Timestamp>) -> (s: Option<String>)
    requires
        t matches Some(d) ==> rfc2822_representable(d),
    ensures
        opt_view(s) == opt_rfc2822_text(t),
{
    match t {
        Some(d) => Some(format_rfc2822(d)),
        None => None,
    }
}

/// The dates of `entry` can be written in the RFC 2822 format.
pub open spec fn entry_dates_representable(entry: Entry) -> bool {
    &&& (entry.published matches Some(p) ==> rfc2822_representable(p))
    &&& (entry.updated matches Some(u) ==> rfc2822_representable(u))
}

/// Whether the instant `t` can be written in the RFC 2822 format.
pub fn is_rfc2822_representable(t: Timestamp) -> (res: bool)
    ensures
        res == rfc2822_representable(t),
{
    let r = t.secs % 60;
    let second = if r < 0 {
        r + 60
    } else {
        r
    };
    -62167219200 <= t.secs && t.secs <= 253402300799 && t.nanos < 2_000_000_000 && (t.nanos < 1_000_000_000
        || second == 59)
}

/// Whether the dates of `entry` can be written in the RFC 2822 format, as
/// `assemble_mail` needs.
pub fn entry_dates_writable(entry: &Entry) -> (res: bool)
    ensures
        res == entry_dates_representable(*entry),
{
    let published_ok = match entry.published {
        Some(p) => is_rfc2822_representable(p),
        None => true,
    };
    let updated_ok = match entry.updated {
        Some(u) => is_rfc2822_representable(u),
        None => true,
    };
    published_ok && updated_ok
}

fn push_dates_line(out: &mut String, published: Option<Timestamp>, updated: Option<Timestamp>)
    requires
        published matches Some(p) ==> rfc2822_representable(p),
        updated matches Some(u) ==> rfc2822_representable(u),
    ensures
        final(out)@ == old(out)@ + dates_line(published, updated),
{
    let (first, second) = shown_dates(published, updated);
    let line = dates_line_from(format_opt_rfc2822(first), format_opt_rfc2822(second));
    out.append(line.as_str());
}

/// The first part of the mail: who wrote the entry, when, and where it links to.
pub open spec fn context_text(feed: Feed, entry: Entry) -> Seq<char> {
    list_line(people_texts(entry_authors(feed, entry)), "By "@) + dates_line(entry.published, entry.updated)
        + list_line(links_texts(status_links(feed, entry)), "Links to "@)
}

/// A part of a mail: its body and its media type.
#[derive(Debug)]
pub struct MailPart {
    /// The content of the part
    pub body: String,
    /// The top-level media type
    pub type_: String,
    /// The media subtype, with its structured syntax suffix after a `+`
    pub subtype: String,
    /// The media type parameters, in order
    pub params: Vec<(String, String)>,
}

impl View for MailPart {
    type V = (Seq<char>, Seq<char>, Seq<char>, Seq<(Seq<char>, Seq<char>)>);

    open spec fn view(&self) -> (Seq<char>, Seq<char>, Seq<char>, Seq<(Seq<char>, Seq<char>)>) {
        (self.body@, self.type_@, self.subtype@, pairs_view(self.params@))
    }
}

/// The media subtype of `m` as a mail writes it: `subtype+suffix`, or `subtype`.
pub open spec fn media_subtype(m: MimeType) -> Seq<char> {
    match m.suffix {
        Some(s) => m.subtype@ + "+"@ + s@,
        None => m.subtype@,
    }
}

/// The part holding `body` of the type `m`.
pub open spec fn part_of(body: Seq<char>, m: MimeType) -> (Seq<char>, Seq<char>, Seq<char>, Seq<(Seq<char>, Seq<char>)>) {
    (body, m.type_@, media_subtype(m), pairs_view(m.params@))
}

/// The parts that follow the first one: the summary, if any, then the content,
/// if it is given inline or by a link.
pub open spec fn related_parts(entry: Entry) -> Seq<(Seq<char>, Seq<char>, Seq<char>, Seq<(Seq<char>, Seq<char>)>)> {
    let summary = match entry.summary {
        Some(t) => seq![part_of(t.content@, t.content_type)],
        None => Seq::empty(),
    };
    let content = match entry.content {
        Some(c) => match c.body {
            Some(b) => seq![part_of(b@, c.content_type)],
            None => match c.src {
                Some(l) => seq![part_of("Links: "@ + link_text(l), c.content_type)],
                None => Seq::empty(),
            },
        },
        None => Seq::empty(),
    };
    summary + content
}

/// The media subtype of `m` as a mail writes it.
pub fn media_subtype_text(m: &MimeType) -> (subtype: String)
    ensures
        subtype@ == media_subtype(*m),
{
    let mut subtype = String::new();
    subtype.append(m.subtype.as_str());
    match &m.suffix {
        Some(s) => {
            subtype.append("+");
            subtype.append(s.as_str());
        },
        None => {},
    }
    proof {
        assert(subtype@ =~= media_subtype(*m));
    }
    subtype
}

/// The part holding `body` of the type `m`.
pub fn make_part(body: String, m: &MimeType) -> (p: MailPart)
    ensures
        p@ == part_of(body@, *m),
{
    let subtype = media_subtype_text(m);
    let params = clone_pairs(&m.params);
    MailPart { body, type_: m.type_.clone(), subtype, params }
}

fn collect_parts(entry: &Entry) -> (parts: Vec<MailPart>)
    ensures
        parts@.map_values(|p: MailPart| p@) == related_parts(*entry),
{
    let mut parts: Vec<MailPart> = Vec::new();
    match &entry.summary {
        Some(t) => {
            parts.push(make_part(t.content.clone(), &t.content_type));
        },
        None => {},
    }
    match &entry.content {
        Some(c) => match &c.body {
            Some(b) => {
                parts.push(make_part(b.clone(), &c.content_type));
            },
            None => match &c.src {
                Some(l) => {
                    let mut body = String::new();
                    body.append("Links: ");
                    push_link(&mut body, l);
                    parts.push(make_part(body, &c.content_type));
                },
                None => {},
            },
        },
        None => {},
    }
    proof {
        assert(parts@.map_values(|p: MailPart| p@) =~= related_parts(*entry));
    }
    parts
}

/// The subject of the mail: the entry's title, or else its identifier.
pub open spec fn mail_subject(entry: Entry) -> Seq<char> {
    match entry.title {
        Some(t) => t.content@,
        None => entry.id@,
    }
}

/// The date of the mail: the first given of the entry's update and publication
/// and the feed's update and publication.
pub open spec fn mail_date(feed: Feed, entry: Entry) -> Option<Timestamp> {
    match entry.updated {
        Some(d) => Some(d),
        None => match entry.published {
            Some(d) => Some(d),
            None => match feed.updated {
                Some(d) => Some(d),
                None => feed.published,
            },
        },
    }
}

/// The sender of the mail: the authors separated by ", "; without authors,
/// the feed's title or description followed by ` <>`, or else its identifier.
pub open spec fn mail_from(feed: Feed, entry: Entry) -> Seq<char> {
    let authors = entry_authors(feed, entry);
    if authors.len() == 0 {
        match feed.title {
            Some(t) => t.content@ + " <>"@,
            None => match feed.description {
                Some(d) => d.content@ + " <>"@,
                None => feed.id@,
            },
        }
    } else {
        join(people_texts(authors), ", "@)
    }
}

fn from_text(feed: &Feed, authors: &Vec<Person>) -> (from: String)
    ensures
        authors@.len() == 0 ==> from@ == match feed.title {
            Some(t) => t.content@ + " <>"@,
            None => match feed.description {
                Some(d) => d.content@ + " <>"@,
                None => feed.id@,
            },
        },
        authors@.len() > 0 ==> from@ == join(people_texts(authors@.map_values(|p: Person| p@)), ", "@),
{
    let mut from = String::new();
    if authors.len() == 0 {
        let title: Option<&Text> = match &feed.title {
            Some(t) => Some(t),
            None => match &feed.description {
                Some(d) => Some(d),
                None => None,
            },
        };
        match title {
            Some(t) => {
                from.append(t.content.as_str());
                from.append(" <>");
            },
            None => {
                from.append(feed.id.as_str());
            },
        }
        proof {
            if feed.title is Some || feed.description is Some {
                assert(from@ =~= title.unwrap().content@ + " <>"@);
            }
        }
        return from;
    }
    let ghost texts = people_texts(authors@.map_values(|p: Person| p@));
    let mut i: usize = 0;
    while i < authors.len()
        invariant
            i <= authors.len(),
            texts == people_texts(authors@.map_values(|p: Person| p@)),
            texts.len() == authors.len(),
            i == 0 ==> from@ == Seq::<char>::empty(),
            i > 0 ==> from@ == join(texts.take(i as int), ", "@),
        decreases authors.len() - i,
    {
        if i != 0 {
            from.append(", ");
        }
        push_person(&mut from, &authors[i]);
        proof {
            assert(texts[i as int] == person_text(authors@[i as int]@));
            if i == 0 {
                assert(texts.take(1) =~= seq![texts[0]]);
                assert(from@ =~= join(texts.take(1), ", "@));
            } else {
                lemma_list_step(texts, i as int);
            }
        }
        i = i + 1;
    }
    proof {
        assert(texts.take(authors.len() as int) =~= texts);
    }
    from
}

/// Everything that makes up the mail for an entry: the parts of its body and
/// the values of its headers.
#[derive(Debug)]
pub struct AssembledMail {
    /// The first part: authors, dates and links of the entry
    pub context: String,
    /// The parts that follow the first, wrapped with it as `multipart/related`
    pub related: Vec<MailPart>,
    /// The Message-ID header
    pub message_id: String,
    /// The Subject header
    pub subject: String,
    /// The Date header, if any date is known
    pub date: Option<Timestamp>,
    /// The From header, written as it is
    pub from: String,
}

/// The contents of the mail for `entry` of `feed`, with the Message-ID
/// `message_id`.
pub fn assemble_mail(feed: &Feed, entry: &Entry, message_id: String) -> (mail: AssembledMail)
    requires
        entry_dates_representable(*entry),
    ensures
        mail.context@ == context_text(*feed, *entry),
        mail.related@.map_values(|p: MailPart| p@) == related_parts(*entry),
        mail.message_id@ == message_id@,
        mail.subject@ == mail_subject(*entry),
        mail.date == mail_date(*feed, *entry),
        mail.from@ == mail_from(*feed, *entry),
{
    let authors = collect_authors(feed, entry);
    let mut context = String::new();
    push_authors_line(&mut context, &authors);
    push_dates_line(&mut context, entry.published, entry.updated);
    let links = select_links(feed, entry);
    push_links_line(&mut context, &links);
    let related = collect_parts(entry);
    let subject = match &entry.title {
        Some(t) => t.content.clone(),
        None => entry.id.clone(),
    };
    let date = match entry.updated {
        Some(d) => Some(d),
        None => match entry.published {
            Some(d) => Some(d),
            None => match feed.updated {
                Some(d) => Some(d),
                None => feed.published,
            },
        },
    };
    let from = from_text(feed, &authors);
    proof {
        assert(context@ =~= context_text(*feed, *entry));
    }
    AssembledMail { context, related, message_id, subject, date, from }
}

} // verus!
