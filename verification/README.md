# feembox

What if a feed, but it's a mailbox?

`feembox` represents an (RSS/Atom/JSON) feed as a mailbox in the
[maildir](https://cr.yp.to/proto/maildir.html) format: every entry of the feed
that has no mail in the maildir yet is delivered as a new mail.

## Layout

* `src/` is the library, verified with Verus:
  * `model.rs`: the parts of a feed that the library reads, as plain values;
  * `text.rs`: strings as character sequences (joining, splitting, decimal
    numbers, ASCII case folding, lexicographic order);
  * `util.rs`: Message-IDs of entries, header and link-relation matching, the
    texts of people and of feed parse errors;
  * `feed.rs`: parsing the bytes of a feed with `feed_rs`, after checking
    that they hold none of the play times that `feed_rs` cannot read;
  * `authors.rs`: the authors of an entry, each once, in an insertion-ordered set;
  * `ops.rs`: everything that goes into the mail for an entry;
  * `transform.rs`: the content type forced by `-f` and the alternatives
    that the transformations of `-t` add;
  * `options.rs`: verbosity, `FROM:TO:HOW` transformations, MIME type overrides;
  * `maildir.rs`: Message-IDs already in the maildir, pending deliveries and
    the names of new mails.
* `app/` is the program: command line, reading the feed's bytes, running the
  transformations' commands, scanning and writing the maildir, and putting
  each mail together with `mail_core`.
* `tests/` exercises the library.
