//! The configuration of the application.

use vstd::prelude::*;
use vstd::string::StrSliceExecFns;
use vstd::string::StringExecFns;
use crate::model::MimeType;
use crate::text::split_on;
use crate::text::split_on_char;

verus! {

/// Verbosity level to print to stdout
#[derive(Debug, Copy, Clone, Hash, PartialEq, Eq, Structural, PartialOrd, Ord)]
pub enum Verbosity {
    /// Print nothing
    Quiet,
    /// Print data for human consumption
    Human,
    /// Print values useful for debugging
    Debug,
}

/// The verbosity selected by `n` occurrences of `-v`.
pub open spec fn verbosity_for_count(n: u64) -> Verbosity {
    if n == 0 {
        Verbosity::Quiet
    } else if n == 1 {
        Verbosity::Human
    } else {
        Verbosity::Debug
    }
}

impl From<u64> for Verbosity {
    fn from(n: u64) -> (v: Verbosity) {
        match n {
            0 => Verbosity::Quiet,
            1 => Verbosity::Human,
            _ => Verbosity::Debug,
        }
    }
}

impl vstd::std_specs::convert::FromSpecImpl<u64> for Verbosity {
    open spec fn obeys_from_spec() -> bool {
        true
    }

    open spec fn from_spec(n: u64) -> Verbosity {
        verbosity_for_count(n)
    }
}

/// A larger count of `-v` never selects a lower verbosity.
pub proof fn verbosity_monotonic(n: u64, m: u64)
    requires
        n <= m,
    ensures
        verbosity_rank(verbosity_for_count(n)) <= verbosity_rank(verbosity_for_count(m)),
{
}

/// The position of `v` in the order Quiet < Human < Debug.
pub open spec fn verbosity_rank(v: Verbosity) -> int {
    match v {
        Verbosity::Quiet => 0,
        Verbosity::Human => 1,
        Verbosity::Debug => 2,
    }
}

/// The separator between FROM, TO and HOW of a transformation: the
/// platform's path list separator
pub const PATH_LIST_SEPARATOR: char = ':';

/// What `s.parse::<mime::Mime>()` gives for `s`: the parts of the MIME type, or
/// the message of the error.
pub uninterp spec fn mime_parse_result(s: Seq<char>) -> Result<
    (Seq<char>, Seq<char>, Option<Seq<char>>, Seq<(Seq<char>, Seq<char>)>),
    Seq<char>,
>;

/// Calls `<mime::Mime as FromStr>::from_str`; the parsed type is handed out as its
/// type, subtype, suffix and parameters, an error as its message.  What the
/// parser accepts and how it normalises is left to `mime_parse_result`.
#[verifier::external_body]
fn parse_mime(s: &str) -> (r: Result<MimeType, String>)
    ensures
        match r {
            Ok(m) => mime_parse_result(s@) == Ok::<_, Seq<char>>(m@),
            Err(e) => mime_parse_result(s@) == Err::<(Seq<char>, Seq<char>, Option<Seq<char>>, Seq<(Seq<char>, Seq<char>)>), _>(e@),
        },
{
    match s.parse::<mime::Mime>() {
        Ok(m) => Ok(MimeType {
            type_: m.type_().as_str().to_string(),
            subtype: m.subtype().as_str().to_string(),
            suffix: m.suffix().map(|x| x.as_str().to_string()),
            params: m.params().map(|(n, v)| (n.as_str().to_string(), v.as_str().to_string())).collect(),
        }),
        Err(e) => Err(e.to_string()),
    }
}

/// `Transformation triple "s"` followed by `rest`.
pub open spec fn triple_message(s: Seq<char>, rest: Seq<char>) -> Seq<char> {
    "Transformation triple \""@ + s + rest
}

/// The FROM, TO and HOW of the transformation `s`, or the message saying why
/// `s` has not three components.
pub open spec fn transformation_pieces(s: Seq<char>) -> Result<(Seq<char>, Seq<char>, Seq<char>), Seq<char>> {
    let pieces = split_on(s, PATH_LIST_SEPARATOR);
    if pieces.len() == 3 {
        Ok((pieces[0], pieces[1], pieces[2]))
    } else if pieces.len() >= 4 {
        Err(triple_message(s, "\" has four components"@))
    } else if pieces.len() == 2 {
        Err(triple_message(s, "\" has two components"@))
    } else if pieces.len() == 1 {
        Err(triple_message(s, "\" has one component"@))
    } else {
        Err(triple_message(s, "\" has no components"@))
    }
}

fn triple_error(s: &str, rest: &str) -> (e: String)
    ensures
        e@ == triple_message(s@, rest@),
{
    let mut e = String::new();
    e.append("Transformation triple \"");
    e.append(s);
    e.append(rest);
    proof {
        assert(e@ =~= triple_message(s@, rest@));
    }
    e
}

/// Splits the transformation `s` into its FROM, TO and HOW at the path list
/// separator; any other number of components is an error.
pub fn split_transformation(s: &str) -> (r: Result<(String, String, String), String>)
    ensures
        match r {
            Ok((from, to, how)) => transformation_pieces(s@) == Ok::<_, Seq<char>>((from@, to@, how@)),
            Err(e) => transformation_pieces(s@) == Err::<(Seq<char>, Seq<char>, Seq<char>), _>(e@),
        },
{
    let mut pieces = split_on_char(s, PATH_LIST_SEPARATOR);
    proof {
        crate::text::lemma_split_on(s@, PATH_LIST_SEPARATOR);
    }
    let n = pieces.len();
    if n == 3 {
        let how = pieces.pop().unwrap();
        let to = pieces.pop().unwrap();
        let from = pieces.pop().unwrap();
        Ok((from, to, how))
    } else if n >= 4 {
        Err(triple_error(s, "\" has four components"))
    } else if n == 2 {
        Err(triple_error(s, "\" has two components"))
    } else if n == 1 {
        Err(triple_error(s, "\" has one component"))
    } else {
        Err(triple_error(s, "\" has no components"))
    }
}

/// The transformation `s` once its FROM and TO have been parsed into `from`
/// and `to`: the triple, or the message naming the first that is no MIME type.
pub open spec fn transformation_from_parsed_spec(
    s: Seq<char>,
    from: Result<(Seq<char>, Seq<char>, Option<Seq<char>>, Seq<(Seq<char>, Seq<char>)>), Seq<char>>,
    to: Result<(Seq<char>, Seq<char>, Option<Seq<char>>, Seq<(Seq<char>, Seq<char>)>), Seq<char>>,
    how: Seq<char>,
) -> Result<
    (
        (Seq<char>, Seq<char>, Option<Seq<char>>, Seq<(Seq<char>, Seq<char>)>),
        (Seq<char>, Seq<char>, Option<Seq<char>>, Seq<(Seq<char>, Seq<char>)>),
        Seq<char>,
    ),
    Seq<char>,
> {
    match from {
        Err(e) => Err(triple_message(s, "\"'s FROM not a mime-type: "@ + e)),
        Ok(f) => match to {
            Err(e) => Err(triple_message(s, "\"'s to not a mime-type: "@ + e)),
            Ok(t) => Ok((f, t, how)),
        },
    }
}

/// What `parse_alternatives_transformations` gives for `s`.
pub open spec fn transformation_result(s: Seq<char>) -> Result<
    (
        (Seq<char>, Seq<char>, Option<Seq<char>>, Seq<(Seq<char>, Seq<char>)>),
        (Seq<char>, Seq<char>, Option<Seq<char>>, Seq<(Seq<char>, Seq<char>)>),
        Seq<char>,
    ),
    Seq<char>,
> {
    match transformation_pieces(s) {
        Err(e) => Err(e),
        Ok((from, to, how)) => transformation_from_parsed_spec(
            s,
            mime_parse_result(from),
            mime_parse_result(to),
            how,
        ),
    }
}

/// The view of a parsed MIME type, or of the message of its error.
pub open spec fn parsed_view(r: Result<MimeType, String>) -> Result<
    (Seq<char>, Seq<char>, Option<Seq<char>>, Seq<(Seq<char>, Seq<char>)>),
    Seq<char>,
> {
    match r {
        Ok(m) => Ok(m@),
        Err(e) => Err(e@),
    }
}

/// The view of a parsed transformation, or of its error message.
pub open spec fn transformation_view(r: Result<(MimeType, MimeType, String), String>) -> Result<
    (
        (Seq<char>, Seq<char>, Option<Seq<char>>, Seq<(Seq<char>, Seq<char>)>),
        (Seq<char>, Seq<char>, Option<Seq<char>>, Seq<(Seq<char>, Seq<char>)>),
        Seq<char>,
    ),
    Seq<char>,
> {
    match r {
        Ok((f, t, h)) => Ok((f@, t@, h@)),
        Err(e) => Err(e@),
    }
}

/// Completes the transformation `s` from the results of parsing its FROM and TO
/// as MIME types.
pub fn transformation_from_parsed(
    s: &str,
    from: Result<MimeType, String>,
    to: Result<MimeType, String>,
    how: String,
) -> (r: Result<(MimeType, MimeType, String), String>)
    ensures
        transformation_view(r) == transformation_from_parsed_spec(s@, parsed_view(from), parsed_view(to), how@),
{
    match from {
        Err(e) => Err(triple_error_with(s, "\"'s FROM not a mime-type: ", e.as_str())),
        Ok(f) => match to {
            Err(e) => Err(triple_error_with(s, "\"'s to not a mime-type: ", e.as_str())),
            Ok(t) => Ok((f, t, how)),
        },
    }
}

fn triple_error_with(s: &str, rest: &str, detail: &str) -> (e: String)
    ensures
        e@ == triple_message(s@, rest@ + detail@),
{
    let mut e = triple_error(s, rest);
    e.append(detail);
    proof {
        assert(e@ =~= triple_message(s@, rest@ + detail@));
    }
    e
}

/// Parses a `FROM:TO:HOW` transformation: two MIME types and a command.
pub fn parse_alternatives_transformations(s: &str) -> (r: Result<(MimeType, MimeType, String), String>)
    ensures
        transformation_view(r) == transformation_result(s@),
{
    match split_transformation(s) {
        Err(e) => Err(e),
        Ok((from, to, how)) => {
            let f = parse_mime(from.as_str());
            match f {
                Err(e) => transformation_from_parsed(s, Err(e), Err(String::new()), how),
                Ok(fm) => {
                    let t = parse_mime(to.as_str());
                    transformation_from_parsed(s, Ok(fm), t, how)
                },
            }
        },
    }
}

/// The MIME type forced onto the content, or the message saying that `s` is none.
pub open spec fn mime_override_from_parsed_spec(
    s: Seq<char>,
    parsed: Result<(Seq<char>, Seq<char>, Option<Seq<char>>, Seq<(Seq<char>, Seq<char>)>), Seq<char>>,
) -> Result<(Seq<char>, Seq<char>, Option<Seq<char>>, Seq<(Seq<char>, Seq<char>)>), Seq<char>> {
    match parsed {
        Ok(m) => Ok(m),
        Err(e) => Err("Type override \""@ + s + "\" not a mime-type: "@ + e),
    }
}

/// A type override that parses is the parsed MIME type itself, parameters
/// included; one that does not is refused with a message that names it and
/// carries the parser's message.
pub proof fn mime_override_law(
    s: Seq<char>,
    parsed: Result<(Seq<char>, Seq<char>, Option<Seq<char>>, Seq<(Seq<char>, Seq<char>)>), Seq<char>>,
)
    ensures
        parsed matches Ok(m) ==> mime_override_from_parsed_spec(s, parsed) == Ok::<_, Seq<char>>(m),
        parsed matches Err(e) ==> (mime_override_from_parsed_spec(s, parsed) matches Err(msg) && msg
            == "Type override \""@ + s + "\" not a mime-type: "@ + e),
{
}

/// Completes the type override `s` from the result of parsing it as a MIME type.
pub fn mime_override_from_parsed(s: &str, parsed: Result<MimeType, String>) -> (r: Result<MimeType, String>)
    ensures
        r is Ok <==> parsed is Ok,
        parsed matches Ok(m) ==> (r matches Ok(m2) && m2@ == m@),
        parsed_view(r) == mime_override_from_parsed_spec(s@, parsed_view(parsed)),
{
    match parsed {
        Ok(m) => Ok(m),
        Err(e) => {
            let mut msg = String::new();
            msg.append("Type override \"");
            msg.append(s);
            msg.append("\" not a mime-type: ");
            msg.append(e.as_str());
            proof {
                assert(msg@ =~= "Type override \""@ + s@ + "\" not a mime-type: "@ + e@);
            }
            Err(msg)
        },
    }
}

/// Parses the MIME type to force the content to.
pub fn parse_mime_override(s: &str) -> (r: Result<MimeType, String>)
    ensures
        r is Ok <==> mime_parse_result(s@) is Ok,
        r matches Ok(m) ==> mime_parse_result(s@) == Ok::<_, Seq<char>>(m@),
        parsed_view(r) == mime_override_from_parsed_spec(s@, mime_parse_result(s@)),
{
    let parsed = parse_mime(s);
    mime_override_from_parsed(s, parsed)
}

/// The maildir as it is shown in messages: ending with a path separator.
pub open spec fn maildir_display_spec(s: Seq<char>) -> Seq<char> {
    if s.len() > 0 && s.last() == '/' {
        s
    } else {
        s + "/"@
    }
}

/// The name of the maildir `s` as it is shown in messages, with a path
/// separator appended where it has none at its end.
pub fn maildir_display_name(s: &str) -> (d: String)
    ensures
        d@ == maildir_display_spec(s@),
{
    let mut d = String::new();
    d.append(s);
    let n = s.unicode_len();
    if n > 0 && s.get_char(n - 1) == '/' {
        d
    } else {
        d.append("/");
        d
    }
}

/// Showing a maildir name twice changes nothing, and the name always ends
/// with a path separator.
pub proof fn maildir_display_idempotent(s: Seq<char>)
    ensures
        maildir_display_spec(maildir_display_spec(s)) == maildir_display_spec(s),
        maildir_display_spec(s).len() > 0,
        maildir_display_spec(s).last() == '/',
{
    reveal_strlit("/");
}

/// The feed is read from the standard input when its path is `-`.
pub fn feed_path_is_stdin(s: &str) -> (r: bool)
    ensures
        r == (s@ == "-"@),
{
    proof {
        reveal_strlit("-");
    }
    let r = s.unicode_len() == 1 && s.get_char(0) == '-';
    proof {
        if r {
            assert(s@ =~= "-"@);
        }
    }
    r
}

/// `prefix`, then `s` in double quotes, then `suffix`.
pub open spec fn quoted_message(prefix: Seq<char>, s: Seq<char>, suffix: Seq<char>) -> Seq<char> {
    prefix + "\""@ + s + "\""@ + suffix
}

fn quoted(prefix: &str, s: &str, suffix: &str) -> (m: String)
    ensures
        m@ == quoted_message(prefix@, s@, suffix@),
{
    let mut m = String::new();
    m.append(prefix);
    m.append("\"");
    m.append(s);
    m.append("\"");
    m.append(suffix);
    proof {
        assert(m@ =~= quoted_message(prefix@, s@, suffix@));
    }
    m
}

/// The message for a maildir path `s` with no components.
pub fn maildir_path_empty_message(s: &str) -> (m: String)
    ensures
        m@ == quoted_message("Path to maildir "@, s@, " empty"@),
{
    quoted("Path to maildir ", s, " empty")
}

/// The message for a maildir path `s` whose parent does not exist.
pub fn maildir_parent_missing_message(s: &str) -> (m: String)
    ensures
        m@ == quoted_message("Parent to maildir "@, s@, " doesn't exist"@),
{
    quoted("Parent to maildir ", s, " doesn't exist")
}

/// The message for a feed path `s` that does not exist.
pub fn feed_missing_message(s: &str) -> (m: String)
    ensures
        m@ == quoted_message("Feed file "@, s@, " doesn't exist"@),
{
    quoted("Feed file ", s, " doesn't exist")
}

/// The message for a feed path `s`, resolved to `resolved`, that is no file.
pub fn feed_not_a_file_message(s: &str, resolved: &str) -> (m: String)
    ensures
        m@ == quoted_message("Feed file "@, s@, " ("@ + resolved@ + ") not a file"@),
{
    let mut suffix = String::new();
    suffix.append(" (");
    suffix.append(resolved);
    suffix.append(") not a file");
    proof {
        assert(suffix@ =~= " ("@ + resolved@ + ") not a file"@);
    }
    quoted("Feed file ", s, suffix.as_str())
}

} // verus!
