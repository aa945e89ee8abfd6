//! Delivery to a maildir: which entries still lack a mail there, the names
//! of new mails, and the Message-IDs that the mails already there carry.

use vstd::prelude::*;
use vstd::string::StrSliceExecFns;
use vstd::string::StringExecFns;
use crate::model::Feed;
use crate::text::{decimal, push_decimal, lex_lt, lex_less, lemma_lex_total, lemma_lex_transitive, lemma_decimal_value};
use crate::util::{MESSAGE_ID_HEADER, is_message_id_header, message_id, message_id_for_feed_entry};

verus! {

/// What `mailparse::parse_header` finds at the start of `data`: the header's
/// name and value as `MailHeader::get_key` and `MailHeader::get_value` give
/// them, and where the next header starts; nothing if no header parses there.
pub uninterp spec fn mail_header_at(data: Seq<u8>) -> Option<(Seq<char>, Seq<char>, nat)>;

/// Calls `mailparse::parse_header` on `data` from `start` on, and hands out the
/// header's name (`MailHeader::get_key`) and value (`MailHeader::get_value`).
/// The parser consumes at least one byte and no more than it is given.
#[verifier::external_body]
fn next_mail_header(data: &[u8], start: usize) -> (r: Option<(String, String, usize)>)
    requires
        start <= data@.len(),
    ensures
        match r {
            Some((k, v, n)) => mail_header_at(data@.skip(start as int)) == Some((k@, v@, n as nat)),
            None => mail_header_at(data@.skip(start as int)) is None,
        },
        r matches Some((k, v, n)) ==> 1 <= n <= data@.len() - start,
{
    match mailparse::parse_header(&data[start..]) {
        Ok((header, next)) => Some((header.get_key(), header.get_value(), next)),
        Err(_) => None,
    }
}

/// What `mailparse::msgidparse` finds in a header value: the Message-IDs
/// without their angle brackets, or nothing if the value is no such list.
pub uninterp spec fn message_id_list(value: Seq<char>) -> Option<Seq<Seq<char>>>;

/// Calls `mailparse::msgidparse`, which reads a list of `<id>`s.
#[verifier::external_body]
fn parse_message_ids(value: &str) -> (r: Option<Vec<String>>)
    ensures
        match r {
            Some(ids) => message_id_list(value@) == Some(ids.deep_view()),
            None => message_id_list(value@) is None,
        },
{
    match mailparse::msgidparse(value) {
        Ok(ids) => Some(ids.iter().cloned().collect()),
        Err(_) => None,
    }
}

/// The lists of Message-IDs in `data`: one for each header that parses,
/// is named Message-ID and holds a list of IDs; reading stops at the first
/// place where no header parses.
pub open spec fn message_id_lists(data: Seq<u8>) -> Seq<Seq<Seq<char>>>
    decreases data.len(),
{
    match mail_header_at(data) {
        Some((key, value, next)) => if 1 <= next <= data.len() {
            let rest = message_id_lists(data.skip(next as int));
            if crate::text::eq_ignore_ascii_case(key, MESSAGE_ID_HEADER@) {
                match message_id_list(value) {
                    Some(ids) => seq![ids] + rest,
                    None => rest,
                }
            } else {
                rest
            }
        } else {
            Seq::empty()
        },
        None => Seq::empty(),
    }
}

/// The lists of Message-IDs that the mail `data` carries in its headers.
pub fn message_id_lists_in_mail(data: &[u8]) -> (lists: Vec<Vec<String>>)
    ensures
        lists.deep_view() == message_id_lists(data@),
{
    let mut lists: Vec<Vec<String>> = Vec::new();
    let mut pos: usize = 0;
    proof {
        assert(data@.skip(0) =~= data@);
    }
    let len = data.len();
    loop
        invariant
            len == data@.len(),
            pos <= data@.len(),
            message_id_lists(data@) =~= lists.deep_view() + message_id_lists(data@.skip(pos as int)),
        ensures
            lists.deep_view() == message_id_lists(data@),
        decreases data@.len() - pos,
    {
        let ghost here = data@.skip(pos as int);
        match next_mail_header(data, pos) {
            None => {
                proof {
                    assert(message_id_lists(here) =~= Seq::<Seq<Seq<char>>>::empty());
                }
                break ;
            },
            Some((key, value, next)) => {
                proof {
                    assert(here.skip(next as int) =~= data@.skip(pos + next));
                }
                if is_message_id_header(key.as_str()) {
                    match parse_message_ids(value.as_str()) {
                        Some(ids) => {
                            let ghost before = lists.deep_view();
                            let ghost ids_view = ids.deep_view();
                            lists.push(ids);
                            proof {
                                assert(lists.deep_view() =~= before.push(ids_view));
                                assert(message_id_lists(here) =~= seq![ids_view] + message_id_lists(
                                    data@.skip(pos + next),
                                ));
                            }
                        },
                        None => {},
                    }
                }
                pos = pos + next;
            },
        }
    }
    lists
}

/// The text `s` with each occurrence of the character `c` replaced by `with`.
pub open spec fn replace_char(s: Seq<char>, c: char, with: Seq<char>) -> Seq<char>
    decreases s.len(),
{
    if s.len() == 0 {
        s
    } else {
        replace_char(s.drop_last(), c, with) + if s.last() == c {
            with
        } else {
            seq![s.last()]
        }
    }
}

fn replace_char_exec(s: &str, c: char, with: &str) -> (r: String)
    ensures
        r@ == replace_char(s@, c, with@),
{
    let n = s.unicode_len();
    let mut r = String::new();
    let mut i: usize = 0;
    while i < n
        invariant
            n == s@.len(),
            i <= n,
            r@ == replace_char(s@.take(i as int), c, with@),
        decreases n - i,
    {
        proof {
            assert(s@.take(i + 1).drop_last() =~= s@.take(i as int));
        }
        if s.get_char(i) == c {
            r.append(with);
        } else {
            r.append(s.substring_char(i, i + 1));
            proof {
                assert(s@.subrange(i as int, i + 1) =~= seq![s@[i as int]]);
            }
        }
        i = i + 1;
    }
    proof {
        assert(s@.take(n as int) =~= s@);
    }
    r
}

/// The host name as it may stand in the name of a mail: with `/` written as
/// `\057` and `:` as `\072`.
pub open spec fn escaped_hostname(h: Seq<char>) -> Seq<char> {
    replace_char(replace_char(h, '/', "\\057"@), ':', "\\072"@)
}

/// The host name `h` as it may stand in the name of a mail.
pub fn escape_hostname(h: &str) -> (e: String)
    ensures
        e@ == escaped_hostname(h@),
{
    let once = replace_char_exec(h, '/', "\\057");
    replace_char_exec(once.as_str(), ':', "\\072")
}

proof fn lemma_replace_char(s: Seq<char>, c: char, with: Seq<char>, d: char)
    requires
        !with.contains(d),
        d != c ==> !s.contains(d),
    ensures
        !replace_char(s, c, with).contains(d),
    decreases s.len(),
{
    if s.len() > 0 {
        if d != c {
            assert forall|k: int| 0 <= k < s.drop_last().len() implies s.drop_last()[k] != d by {
                assert(s[k] == s.drop_last()[k]);
            }
            assert(s[s.len() - 1] != d);
        }
        lemma_replace_char(s.drop_last(), c, with, d);
        let prev = replace_char(s.drop_last(), c, with);
        let tail = if s.last() == c {
            with
        } else {
            seq![s.last()]
        };
        assert(!tail.contains(d));
        assert forall|k: int| 0 <= k < (prev + tail).len() implies (prev + tail)[k] != d by {
            if k < prev.len() {
                assert((prev + tail)[k] == prev[k]);
            } else {
                assert((prev + tail)[k] == tail[k - prev.len()]);
            }
        }
    }
}

/// An escaped host name holds neither `/` nor `:`, so that it can stand in a
/// file name and does not split the fields of a maildir name.
pub proof fn escaped_hostname_has_no_separators(h: Seq<char>)
    ensures
        !escaped_hostname(h).contains('/'),
        !escaped_hostname(h).contains(':'),
{
    reveal_strlit("\\057");
    reveal_strlit("\\072");
    let once = replace_char(h, '/', "\\057"@);
    lemma_replace_char(h, '/', "\\057"@, '/');
    lemma_replace_char(once, ':', "\\072"@, '/');
    lemma_replace_char(once, ':', "\\072"@, ':');
}

/// The name of a new mail: `secs.MmicrosPpidQseq.host`.
pub open spec fn mail_file_name_spec(secs: nat, micros: nat, pid: nat, seq: nat, host: Seq<char>) -> Seq<char> {
    decimal(secs) + ".M"@ + decimal(micros) + "P"@ + decimal(pid) + "Q"@ + decimal(seq) + "."@ + host
}

/// The name of the `seq`th new mail delivered by the process `pid` on the host
/// `hostname` at `secs` seconds and `micros` microseconds after the epoch.
pub fn maildir_file_name(secs: u64, micros: u32, pid: u32, seq: usize, hostname: &str) -> (name: String)
    ensures
        name@ == mail_file_name_spec(secs as nat, micros as nat, pid as nat, seq as nat, hostname@),
{
    let mut name = String::new();
    push_decimal(&mut name, secs);
    name.append(".M");
    push_decimal(&mut name, micros as u64);
    name.append("P");
    push_decimal(&mut name, pid as u64);
    name.append("Q");
    push_decimal(&mut name, seq as u64);
    name.append(".");
    name.append(hostname);
    proof {
        assert(name@ =~= mail_file_name_spec(secs as nat, micros as nat, pid as nat, seq as nat, hostname@));
    }
    name
}

/// Mails delivered at the same time by the same process on the same host get
/// distinct names as long as their sequence numbers differ.
pub proof fn mail_file_names_distinct(secs: nat, micros: nat, pid: nat, q1: nat, q2: nat, host: Seq<char>)
    requires
        q1 != q2,
    ensures
        mail_file_name_spec(secs, micros, pid, q1, host) != mail_file_name_spec(secs, micros, pid, q2, host),
{
    reveal_strlit(".");
    let a = decimal(secs) + ".M"@ + decimal(micros) + "P"@ + decimal(pid) + "Q"@;
    let x = decimal(q1);
    let y = decimal(q2);
    let t = "."@ + host;
    lemma_decimal_value(q1);
    lemma_decimal_value(q2);
    assert(mail_file_name_spec(secs, micros, pid, q1, host) =~= a + x + t);
    assert(mail_file_name_spec(secs, micros, pid, q2, host) =~= a + y + t);
    if a + x + t == a + y + t {
        let m = a + x + t;
        if x.len() == y.len() {
            assert(x =~= m.subrange(a.len() as int, (a.len() + x.len()) as int));
            assert(y =~= m.subrange(a.len() as int, (a.len() + y.len()) as int));
        } else if x.len() < y.len() {
            assert(m[(a.len() + x.len()) as int] == t[0]);
            assert(m[(a.len() + x.len()) as int] == y[x.len() as int]);
        } else {
            assert(m[(a.len() + y.len()) as int] == t[0]);
            assert(m[(a.len() + y.len()) as int] == x[y.len() as int]);
        }
    }
}

/// The domain given to the mail context: `Ppid.host`.
pub open spec fn context_domain_spec(pid: nat, host: Seq<char>) -> Seq<char> {
    "P"@ + decimal(pid) + "."@ + host
}

/// The domain of the Content-IDs that the process `pid` on `hostname` makes.
pub fn context_domain(pid: u32, hostname: &str) -> (d: String)
    ensures
        d@ == context_domain_spec(pid as nat, hostname@),
{
    let mut d = String::new();
    d.append("P");
    push_decimal(&mut d, pid as u64);
    d.append(".");
    d.append(hostname);
    proof {
        assert(d@ =~= context_domain_spec(pid as nat, hostname@));
    }
    d
}

/// The Message-IDs of the first `n` entries of `feed`, each with the index of
/// the last of those entries that has it.
pub open spec fn message_id_table_upto(feed: Feed, n: nat) -> Map<Seq<char>, nat>
    decreases n,
{
    if n == 0 {
        Map::empty()
    } else {
        message_id_table_upto(feed, (n - 1) as nat).insert(
            message_id(feed.id@, feed.entries@[n - 1].id@),
            (n - 1) as nat,
        )
    }
}

/// The Message-IDs of the entries of `feed`, each with the index of the last
/// entry that has it.
pub open spec fn message_id_table(feed: Feed) -> Map<Seq<char>, nat> {
    message_id_table_upto(feed, feed.entries@.len())
}

/// The table holds the Message-ID of every entry, nothing else, and maps it
/// to the last entry that has it.
pub proof fn message_id_table_entries(feed: Feed, n: nat, k: Seq<char>)
    requires
        n <= feed.entries@.len(),
    ensures
        message_id_table_upto(feed, n).contains_key(k) <==> exists|i: int|
            0 <= i < n && #[trigger] message_id(feed.id@, feed.entries@[i].id@) == k,
        message_id_table_upto(feed, n).contains_key(k) ==> {
            let i = message_id_table_upto(feed, n)[k] as int;
            &&& 0 <= i < n
            &&& message_id(feed.id@, feed.entries@[i].id@) == k
            &&& forall|j: int| i < j < n ==> #[trigger] message_id(feed.id@, feed.entries@[j].id@) != k
        },
    decreases n,
{
    if n > 0 {
        message_id_table_entries(feed, (n - 1) as nat, k);
        let last = message_id(feed.id@, feed.entries@[n - 1].id@);
        if last != k {
            if exists|i: int| 0 <= i < n && #[trigger] message_id(feed.id@, feed.entries@[i].id@) == k {
                let i = choose|i: int| 0 <= i < n && #[trigger] message_id(feed.id@, feed.entries@[i].id@) == k;
                assert(i < n - 1);
            }
        }
    }
}

/// `m` without the keys in `found`, removed one after another.
pub open spec fn remove_all(m: Map<Seq<char>, nat>, found: Seq<Seq<char>>) -> Map<Seq<char>, nat>
    decreases found.len(),
{
    if found.len() == 0 {
        m
    } else {
        remove_all(m, found.drop_last()).remove(found.last())
    }
}

/// Once the Message-IDs found in the maildir have been removed one after
/// another, an entry's Message-ID is still pending exactly when some entry has
/// it and it was not found, and it still belongs to the last entry that has it:
/// no entry with a mail in the maildir is delivered again.
pub proof fn pending_after_scan_law(feed: Feed, found: Seq<Seq<char>>, k: Seq<char>)
    ensures
        remove_all(message_id_table(feed), found).contains_key(k) <==> (exists|i: int|
            0 <= i < feed.entries@.len() && #[trigger] message_id(feed.id@, feed.entries@[i].id@) == k)
            && !found.contains(k),
        remove_all(message_id_table(feed), found).contains_key(k) ==> remove_all(message_id_table(feed), found)[k]
            == message_id_table(feed)[k],
    decreases found.len(),
{
    message_id_table_entries(feed, feed.entries@.len(), k);
    if found.len() > 0 {
        pending_after_scan_law(feed, found.drop_last(), k);
        if found.drop_last().contains(k) {
            let j = choose|j: int| 0 <= j < found.drop_last().len() && found.drop_last()[j] == k;
            assert(found[j] == k);
        }
        if found.contains(k) && found.last() != k {
            let j = choose|j: int| 0 <= j < found.len() && found[j] == k;
            assert(found.drop_last()[j] == k);
        }
    }
}

/// The entries of a feed that still have to be delivered, by Message-ID, in
/// the order of their Message-IDs (character by character, which is the order
/// of their UTF-8 bytes).
pub struct PendingDeliveries {
    ids: Vec<String>,
    entries: Vec<usize>,
    table: Ghost<Map<Seq<char>, nat>>,
}

impl View for PendingDeliveries {
    type V = Map<Seq<char>, nat>;

    closed spec fn view(&self) -> Map<Seq<char>, nat> {
        self.table@
    }
}

impl PendingDeliveries {
    /// The Message-IDs are held in increasing order, each with the index of
    /// its entry, and they are exactly the keys of the view.
    pub closed spec fn wf(&self) -> bool {
        &&& self.ids@.len() == self.entries@.len()
        &&& forall|i: int, j: int| 0 <= i < j < self.ids@.len() ==> lex_lt(#[trigger] self.ids@[i]@, #[trigger] self.ids@[j]@)
        &&& forall|i: int| #![trigger self.ids@[i]] 0 <= i < self.ids@.len() ==> self.table@.contains_key(self.ids@[i]@)
            && self.table@[self.ids@[i]@] == self.entries@[i] as nat
        &&& forall|k: Seq<char>| #[trigger] self.table@.contains_key(k) ==> exists|i: int|
            0 <= i < self.ids@.len() && #[trigger] self.ids@[i]@ == k
    }

    fn empty() -> (p: Self)
        ensures
            p.wf(),
            p@ == Map::<Seq<char>, nat>::empty(),
    {
        PendingDeliveries { ids: Vec::new(), entries: Vec::new(), table: Ghost(Map::empty()) }
    }

    fn insert(&mut self, id: String, entry: usize)
        requires
            old(self).wf(),
        ensures
            final(self).wf(),
            final(self)@ == old(self)@.insert(id@, entry as nat),
    {
        let n = self.ids.len();
        let mut i: usize = 0;
        while i < n && lex_less(self.ids[i].as_str(), id.as_str())
            invariant
                n == self.ids@.len(),
                i <= n,
                self.wf(),
                forall|j: int| 0 <= j < i ==> lex_lt(#[trigger] self.ids@[j]@, id@),
            decreases n - i,
        {
            i = i + 1;
        }
        let ghost old_ids = self.ids@;
        let ghost old_table = self.table@;
        let ghost old_entries = self.entries@;
        assert(forall|j: int| 0 <= j < old_ids.len() ==> #[trigger] old_table.contains_key(old_ids[j]@) && old_table[old_ids[j]@] == old_entries[j] as nat);
        assert(forall|k: Seq<char>| #[trigger] old_table.contains_key(k) ==> exists|m: int| 0 <= m < old_ids.len() && #[trigger] old_ids[m]@ == k);
        if i < n && self.ids[i] == id {
            self.entries.set(i, entry);
            proof {
                self.table@ = old_table.insert(id@, entry as nat);
                assert forall|j: int| 0 <= j < self.ids@.len() implies #[trigger] self.table@.contains_key(
                    self.ids@[j]@,
                ) && self.table@[self.ids@[j]@] == self.entries@[j] as nat by {
                    assert(self.ids@[j] == old_ids[j]);
                    assert(old_table.contains_key(old_ids[j]@) && old_table[old_ids[j]@] == old_entries[j] as nat);
                    if j != i {
                        assert(self.entries@[j] == old_entries[j]);
                        lemma_lex_total(self.ids@[j]@, self.ids@[i as int]@);
                        if j < i {
                            assert(lex_lt(self.ids@[j]@, self.ids@[i as int]@));
                        } else {
                            assert(lex_lt(self.ids@[i as int]@, self.ids@[j]@));
                        }
                    }
                }
                assert forall|k: Seq<char>| #[trigger] self.table@.contains_key(k) implies exists|j: int|
                    0 <= j < self.ids@.len() && #[trigger] self.ids@[j]@ == k by {
                    if k == id@ {
                        assert(self.ids@[i as int]@ == k);
                    } else {
                        assert(old_table.contains_key(k));
                        let m = choose|m: int| 0 <= m < old_ids.len() && #[trigger] old_ids[m]@ == k;
                        assert(self.ids@[m]@ == k);
                    }
                }
            }
        } else {
            proof {
                if i < n {
                    lemma_lex_total(self.ids@[i as int]@, id@);
                }
            }
            let ghost id_view = id@;
            self.ids.insert(i, id);
            self.entries.insert(i, entry);
            proof {
                self.table@ = old_table.insert(id_view, entry as nat);
                assert forall|a: int, b: int| 0 <= a < b < self.ids@.len() implies lex_lt(
                    #[trigger] self.ids@[a]@,
                    #[trigger] self.ids@[b]@,
                ) by {
                    if b < i {
                        assert(self.ids@[a] == old_ids[a]);
                        assert(self.ids@[b] == old_ids[b]);
                    } else if b == i {
                        assert(self.ids@[a] == old_ids[a]);
                    } else if a == i {
                        assert(self.ids@[b] == old_ids[b - 1]);
                        if b - 1 > i {
                            lemma_lex_transitive(id_view, old_ids[i as int]@, old_ids[b - 1]@);
                        }
                    } else if a < i {
                        assert(self.ids@[a] == old_ids[a]);
                        assert(self.ids@[b] == old_ids[b - 1]);
                    } else {
                        assert(self.ids@[a] == old_ids[a - 1]);
                        assert(self.ids@[b] == old_ids[b - 1]);
                    }
                }
                assert forall|j: int| 0 <= j < self.ids@.len() implies #[trigger] self.table@.contains_key(
                    self.ids@[j]@,
                ) && self.table@[self.ids@[j]@] == self.entries@[j] as nat by {
                    if j < i {
                        assert(self.ids@[j] == old_ids[j]);
                        lemma_lex_total(old_ids[j]@, id_view);
                    } else if j > i {
                        assert(self.ids@[j] == old_ids[j - 1]);
                        lemma_lex_total(old_ids[j - 1]@, id_view);
                        if j - 1 > i {
                            lemma_lex_transitive(id_view, old_ids[i as int]@, old_ids[j - 1]@);
                        }
                    }
                }
                assert forall|k: Seq<char>| #[trigger] self.table@.contains_key(k) implies exists|j: int|
                    0 <= j < self.ids@.len() && #[trigger] self.ids@[j]@ == k by {
                    if k == id_view {
                        assert(self.ids@[i as int]@ == k);
                    } else {
                        assert(old_table.contains_key(k));
                        let m = choose|m: int| 0 <= m < old_ids.len() && #[trigger] old_ids[m]@ == k;
                        if m < i {
                            assert(self.ids@[m]@ == k);
                        } else {
                            assert(self.ids@[m + 1]@ == k);
                        }
                    }
                }
            }
        }
    }

    /// The entries of `feed` by their Message-IDs; where entries share one,
    /// the last of them.
    pub fn new(feed: &Feed) -> (p: Self)
        ensures
            p.wf(),
            p@ == message_id_table(*feed),
    {
        let mut p = Self::empty();
        let mut i: usize = 0;
        while i < feed.entries.len()
            invariant
                i <= feed.entries@.len(),
                p.wf(),
                p@ == message_id_table_upto(*feed, i as nat),
            decreases feed.entries.len() - i,
        {
            let id = message_id_for_feed_entry(feed, &feed.entries[i]);
            p.insert(id, i);
            i = i + 1;
        }
        p
    }

    /// Forgets the entry with the Message-ID `id`, and tells whether there was
    /// one.
    pub fn remove(&mut self, id: &str) -> (removed: bool)
        requires
            old(self).wf(),
        ensures
            final(self).wf(),
            final(self)@ == old(self)@.remove(id@),
            removed == old(self)@.contains_key(id@),
    {
        let key = id.to_owned();
        let n = self.ids.len();
        let mut i: usize = 0;
        while i < n
            invariant
                n == self.ids@.len(),
                i <= n,
                key@ == id@,
                self.wf(),
                *self == *old(self),
                forall|j: int| 0 <= j < i ==> #[trigger] self.ids@[j]@ != id@,
            decreases n - i,
        {
            if self.ids[i] == key {
                let ghost old_ids = self.ids@;
                let ghost old_table = self.table@;
                let ghost old_entries = self.entries@;
                assert(forall|j: int| 0 <= j < old_ids.len() ==> #[trigger] old_table.contains_key(old_ids[j]@) && old_table[old_ids[j]@] == old_entries[j] as nat);
                assert(forall|k: Seq<char>| #[trigger] old_table.contains_key(k) ==> exists|m: int| 0 <= m < old_ids.len() && #[trigger] old_ids[m]@ == k);
                self.ids.remove(i);
                self.entries.remove(i);
                proof {
                    self.table@ = old_table.remove(id@);
                    assert forall|a: int, b: int| 0 <= a < b < self.ids@.len() implies lex_lt(
                        #[trigger] self.ids@[a]@,
                        #[trigger] self.ids@[b]@,
                    ) by {
                        if b < i {
                            assert(self.ids@[a] == old_ids[a]);
                            assert(self.ids@[b] == old_ids[b]);
                        } else if a < i {
                            assert(self.ids@[a] == old_ids[a]);
                            assert(self.ids@[b] == old_ids[b + 1]);
                        } else {
                            assert(self.ids@[a] == old_ids[a + 1]);
                            assert(self.ids@[b] == old_ids[b + 1]);
                        }
                    }
                    assert forall|j: int| 0 <= j < self.ids@.len() implies #[trigger] self.table@.contains_key(
                        self.ids@[j]@,
                    ) && self.table@[self.ids@[j]@] == self.entries@[j] as nat by {
                        if j < i {
                            assert(self.ids@[j] == old_ids[j]);
                            assert(self.entries@[j] == old_entries[j]);
                            assert(lex_lt(old_ids[j]@, old_ids[i as int]@));
                            lemma_lex_total(old_ids[j]@, old_ids[i as int]@);
                            assert(old_table.contains_key(old_ids[j]@) && old_table[old_ids[j]@] == old_entries[j] as nat);
                        } else {
                            assert(self.ids@[j] == old_ids[j + 1]);
                            assert(self.entries@[j] == old_entries[j + 1]);
                            assert(lex_lt(old_ids[i as int]@, old_ids[j + 1]@));
                            lemma_lex_total(old_ids[j + 1]@, old_ids[i as int]@);
                            assert(old_table.contains_key(old_ids[j + 1]@) && old_table[old_ids[j + 1]@] == old_entries[j + 1] as nat);
                        }
                    }
                    assert forall|k: Seq<char>| #[trigger] self.table@.contains_key(k) implies exists|j: int|
                        0 <= j < self.ids@.len() && #[trigger] self.ids@[j]@ == k by {
                        assert(old_table.contains_key(k));
                        let m = choose|m: int| 0 <= m < old_ids.len() && #[trigger] old_ids[m]@ == k;
                        if m < i {
                            assert(self.ids@[m]@ == k);
                        } else {
                            assert(m != i);
                            assert(self.ids@[m - 1]@ == k);
                        }
                    }
                }
                return true;
            }
            i = i + 1;
        }
        proof {
            if self.table@.contains_key(id@) {
                let m = choose|m: int| 0 <= m < self.ids@.len() && #[trigger] self.ids@[m]@ == id@;
                assert(self.ids@[m]@ != id@);
            }
            assert(self.table@.remove(id@) =~= self.table@);
        }
        false
    }

    /// The Message-IDs still pending, in increasing order, each with the index
    /// of its entry.
    pub fn deliveries(&self) -> (d: Vec<(String, usize)>)
        requires
            self.wf(),
        ensures
            d@.len() == self@.len(),
            forall|i: int, j: int| 0 <= i < j < d@.len() ==> lex_lt(#[trigger] d@[i].0@, #[trigger] d@[j].0@),
            forall|i: int| 0 <= i < d@.len() ==> #[trigger] self@.contains_key(d@[i].0@) && self@[d@[i].0@]
                == d@[i].1 as nat,
            forall|k: Seq<char>| #[trigger] self@.contains_key(k) ==> exists|i: int|
                0 <= i < d@.len() && #[trigger] d@[i].0@ == k,
    {
        let mut d: Vec<(String, usize)> = Vec::new();
        let mut i: usize = 0;
        while i < self.ids.len()
            invariant
                self.wf(),
                i <= self.ids@.len(),
                d@.len() == i,
                forall|j: int| 0 <= j < i ==> #[trigger] d@[j].0@ == self.ids@[j]@ && d@[j].1 == self.entries@[j],
            decreases self.ids@.len() - i,
        {
            d.push((self.ids[i].clone(), self.entries[i]));
            i = i + 1;
        }
        proof {
            assert forall|a: int, b: int| 0 <= a < b < d@.len() implies lex_lt(#[trigger] d@[a].0@, #[trigger] d@[b].0@) by {
                assert(lex_lt(self.ids@[a]@, self.ids@[b]@));
            }
            assert forall|k: Seq<char>| #[trigger] self@.contains_key(k) implies exists|j: int|
                0 <= j < d@.len() && #[trigger] d@[j].0@ == k by {
                let m = choose|m: int| 0 <= m < self.ids@.len() && #[trigger] self.ids@[m]@ == k;
                assert(d@[m].0@ == k);
            }
            let mapped = self.ids@.map_values(|s: String| s@);
            let keys = mapped.to_set();
            assert(self@.dom() =~= keys) by {
                assert forall|k: Seq<char>| keys.contains(k) implies self@.dom().contains(k) by {
                    let m = choose|m: int| 0 <= m < mapped.len() && #[trigger] mapped[m] == k;
                    assert(self.ids@[m]@ == k);
                }
                assert forall|k: Seq<char>| self@.dom().contains(k) implies keys.contains(k) by {
                    let m = choose|m: int| 0 <= m < self.ids@.len() && #[trigger] self.ids@[m]@ == k;
                    assert(mapped[m] == k);
                }
            }
            assert(mapped.no_duplicates()) by {
                assert forall|a: int, b: int| 0 <= a < mapped.len() && 0 <= b < mapped.len() && a != b implies #[trigger] mapped[a] != #[trigger] mapped[b] by {
                    if a < b {
                        assert(lex_lt(self.ids@[a]@, self.ids@[b]@));
                        lemma_lex_total(self.ids@[a]@, self.ids@[b]@);
                    } else {
                        assert(lex_lt(self.ids@[b]@, self.ids@[a]@));
                        lemma_lex_total(self.ids@[b]@, self.ids@[a]@);
                    }
                }
            }
            mapped.unique_seq_to_set();
        }
        d
    }
}

} // verus!
