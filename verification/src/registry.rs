//! Reading a package registry's reply to "does this version exist?".
use crate::text::{chars_of, join2, join3, slice, string_of, trim, trim_chars, words, words_exec};
use crate::parse::{json_document, parse_json};
use crate::tree::{entry, Value};
use vstd::prelude::*;
use vstd::string::StringExecFns;

verus! {

/// A registry's reply to a version query.
#[derive(Debug)]
pub struct RegistryReply {
    /// The URL that was queried.
    pub url: String,
    /// The HTTP status code.
    pub status: u16,
    /// How the status displays, such as `404 Not Found`.
    pub status_text: String,
    /// The body, empty when it could not be read.
    pub body: String,
    /// The `Retry-After` header, when present.
    pub retry_after: Option<String>,
    /// The body read as JSON, or the parser's error message.
    pub json: Result<Value, String>,
}

impl RegistryReply {
    /// The reply made of a response's parts, its body read as JSON.
    pub fn from_response(url: String, status: u16, status_text: String, body: String, retry_after: Option<String>) -> (r:
        RegistryReply)
        ensures
            r.url == url,
            r.status == status,
            r.status_text == status_text,
            r.body == body,
            r.retry_after == retry_after,
            match json_document(body@) {
                Ok(v) => r.json matches Ok(x) && x == v,
                Err(e) => r.json matches Err(m) && m@ == e,
            },
    {
        let json = parse_json(body.as_str());
        RegistryReply { url, status, status_text, body, retry_after, json }
    }
}

/// The words joined by single spaces.
pub open spec fn join_words(ws: Seq<Seq<char>>) -> Seq<char>
    decreases ws.len(),
{
    if ws.len() == 0 {
        seq![]
    } else if ws.len() == 1 {
        ws[0]
    } else {
        join_words(ws.drop_last()) + seq![' '] + ws.last()
    }
}

/// At most the first `n` characters of `s`.
pub open spec fn prefix_of(s: Seq<char>, n: int) -> Seq<char> {
    if s.len() > n {
        s.take(n)
    } else {
        s
    }
}

/// The start of the trimmed body, `n` characters at most, with its
/// whitespace runs written as single spaces.
pub open spec fn body_snippet(body: Seq<char>, n: int) -> Seq<char> {
    join_words(words(prefix_of(trim(body), n)))
}

/// ` body="…"` with the snippet, or nothing when the snippet is empty.
pub open spec fn body_part(body: Seq<char>, n: int) -> Seq<char> {
    let s = body_snippet(body, n);
    if s.len() == 0 {
        seq![]
    } else {
        " body=\""@ + s + "\""@
    }
}

/// ` Retry-After: …` when the header was sent.
pub open spec fn retry_part(retry_after: Option<String>) -> Seq<char> {
    match retry_after {
        Some(v) => " Retry-After: "@ + v@,
        None => seq![],
    }
}

/// Whether the table `v` has an entry named `key`.
pub open spec fn has_key(v: Option<Value>, key: Seq<char>) -> bool {
    match v {
        Some(Value::Table(entries)) => entry(entries@, key) is Some,
        _ => false,
    }
}

fn take_chars(v: &Vec<char>, n: usize) -> (r: Vec<char>)
    ensures
        r@ == prefix_of(v@, n as int),
{
    if v.len() > n {
        let r = slice(v, 0, n);
        assert(r@ =~= v@.take(n as int));
        r
    } else {
        crate::text::copy_chars(v)
    }
}

fn join_words_exec(ws: &Vec<Vec<char>>) -> (r: String)
    ensures
        r@ == join_words(crate::text::views(ws@)),
{
    let mut out = String::new();
    let mut i: usize = 0;
    let ghost w = crate::text::views(ws@);
    while i < ws.len()
        invariant
            i <= ws.len(),
            w == crate::text::views(ws@),
            out@ == join_words(w.take(i as int)),
        decreases ws.len() - i,
    {
        assert(w.take(i + 1).drop_last() =~= w.take(i as int));
        assert(w.take(i + 1).last() == ws@[i as int]@);
        let piece = string_of(&ws[i]);
        if i == 0 {
            assert(w.take(1) =~= seq![w[0]]);
            out = piece;
        } else {
            out.append(" ");
            out.append(piece.as_str());
            proof {
                reveal_strlit(" ");
            }
        }
        i += 1;
    }
    assert(w.take(ws.len() as int) =~= w);
    out
}

/// ` body="…"` with up to `n` characters of the body, or nothing.
pub fn format_body_part(body: &str, n: usize) -> (r: String)
    ensures
        r@ == body_part(body@, n as int),
{
    let t = trim_chars(&chars_of(body));
    let head = take_chars(&t, n);
    let ws = words_exec(&head);
    let s = join_words_exec(&ws);
    if chars_of(s.as_str()).len() == 0 {
        String::new()
    } else {
        join3(" body=\"", s.as_str(), "\"")
    }
}

fn retry_text(retry_after: &Option<String>) -> (r: String)
    ensures
        r@ == retry_part(*retry_after),
{
    match retry_after {
        Some(v) => join2(" Retry-After: ", v.as_str()),
        None => String::new(),
    }
}

/// `'name@version'`.
pub open spec fn release_ref(name: Seq<char>, version: Seq<char>) -> Seq<char> {
    "'"@ + name + "@"@ + version + "'"@
}

fn release_ref_exec(name: &str, version: &str) -> (r: String)
    ensures
        r@ == release_ref(name@, version@),
{
    let mut r = join3("'", name, "@");
    r.append(version);
    r.append("'");
    r
}

/// The common reading of a reply by the registries that report 429 and
/// other failures in the same words: `label` names the registry, `auth`
/// says whether 401 and 403 get their own message.
pub open spec fn common_reply(
    label: Seq<char>,
    auth: bool,
    name: Seq<char>,
    version: Seq<char>,
    reply: RegistryReply,
) -> Result<bool, Seq<char>> {
    if reply.status == 404 {
        Ok(false)
    } else if reply.status == 429 {
        Err(label + " returned 429 Too Many Requests for "@ + release_ref(name, version) + "."@
            + retry_part(reply.retry_after))
    } else if auth && (reply.status == 401 || reply.status == 403) {
        Err(label + " returned "@ + reply.status_text@ + " for "@ + release_ref(name, version)
            + "; authentication may be required"@)
    } else {
        Err(label + " returned "@ + reply.status_text@ + " for "@ + release_ref(name, version)
            + body_part(reply.body@, 300))
    }
}

/// The common reading of a reply other than 200 (see [`common_reply`]).
pub fn common_outcome(label: &str, auth: bool, name: &str, version: &str, reply: &RegistryReply) -> (r:
    Result<bool, String>)
    requires
        reply.status != 200,
    ensures
        match common_reply(label@, auth, name@, version@, *reply) {
            Ok(b) => r == Ok::<bool, String>(b),
            Err(m) => r matches Err(e) && e@ == m,
        },
{
    if reply.status == 404 {
        return Ok(false);
    }
    let rr = release_ref_exec(name, version);
    if reply.status == 429 {
        let mut m = join3(label, " returned 429 Too Many Requests for ", rr.as_str());
        m.append(".");
        let retry = retry_text(&reply.retry_after);
        m.append(retry.as_str());
        return Err(m);
    }
    if auth && (reply.status == 401 || reply.status == 403) {
        let mut m = join3(label, " returned ", reply.status_text.as_str());
        m.append(" for ");
        m.append(rr.as_str());
        m.append("; authentication may be required");
        return Err(m);
    }
    let mut m = join3(label, " returned ", reply.status_text.as_str());
    m.append(" for ");
    m.append(rr.as_str());
    let bp = format_body_part(reply.body.as_str(), 300);
    m.append(bp.as_str());
    Err(m)
}

} // verus!
