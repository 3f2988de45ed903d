//! The client's side of the host's REST API: addresses, requests and the
//! editor window launcher's names.
use vstd::prelude::*;
use url::{Url, ParseError};
use crate::text::{
    opt_view, lemma_trim_end_char_last, lemma_trim_end_char_prefix, lemma_trim_shape, is_space,
    trim_start_spec, trim_end_spec,
    trim, trim_spec, trim_end_char, trim_end_char_spec, starts_with, has_prefix, to_owned_string,
    chars_of, push_char,
};
use crate::api::{urlencode, urlencode_spec};
use crate::discovery::DiscoveredServer;
use crate::config::DEFAULT_PORT;

verus! {

/// What the host's health endpoint answers.
pub struct Health {
    pub ok: bool,
    pub name: String,
    pub version: String,
    pub cool_url: String,
}

/// A document offered by the host.
pub struct SharedDocument {
    pub id: String,
    pub name: String,
    pub extension: String,
    /// text | spreadsheet | presentation | drawing | other
    pub kind: String,
    pub size: u64,
    /// Unix seconds.
    pub modified: i64,
}

/// What the user typed, trimmed, without trailing slashes, and with
/// `http://` added when it names no scheme.
pub open spec fn normalise_spec(input: Seq<char>) -> Seq<char> {
    let t = trim_end_char_spec(trim_spec(input), '/');
    if has_prefix(t, "http://"@) || has_prefix(t, "https://"@) {
        t
    } else {
        "http://"@ + t
    }
}

/// Normalises whatever the user typed: adds the scheme, drops a trailing slash.
pub fn normalise_base_url(input: &str) -> (r: String)
    ensures
        r@ == normalise_spec(input@),
{
    let trimmed = trim(input);
    let t = trim_end_char(trimmed.as_str(), '/');
    if starts_with(t.as_str(), "http://") || starts_with(t.as_str(), "https://") {
        t
    } else {
        let mut r = to_owned_string("http://");
        r.append(t.as_str());
        r
    }
}

/// A normalised address always names a scheme.
pub proof fn lemma_normalised_has_scheme(input: Seq<char>)
    ensures
        has_prefix(normalise_spec(input), "http://"@) || has_prefix(normalise_spec(input), "https://"@),
{
    let t = trim_end_char_spec(trim_spec(input), '/');
    if !(has_prefix(t, "http://"@) || has_prefix(t, "https://"@)) {
        assert(("http://"@ + t).subrange(0, "http://"@.len() as int) =~= "http://"@);
    }
}

/// A normalised address never ends with a slash, so paths can be appended
/// to it, unless nothing but slashes and whitespace was typed.
pub proof fn lemma_normalised_no_trailing_slash(input: Seq<char>)
    requires
        trim_end_char_spec(trim_spec(input), '/').len() > 0,
    ensures
        normalise_spec(input).last() != '/',
{
    let t = trim_end_char_spec(trim_spec(input), '/');
    lemma_trim_end_char_last(trim_spec(input), '/');
    if !(has_prefix(t, "http://"@) || has_prefix(t, "https://"@)) {
        assert(("http://"@ + t).last() == t.last());
    }
}

/// Normalising an address again changes nothing, unless dropping the
/// trailing slashes left the address empty or ending in whitespace (as in
/// `"a /"`, which gives `"http://a "` and then `"http://a"`).
pub proof fn lemma_normalise_idempotent(input: Seq<char>)
    requires
        trim_end_char_spec(trim_spec(input), '/').len() > 0,
        !is_space(trim_end_char_spec(trim_spec(input), '/').last()),
    ensures
        normalise_spec(normalise_spec(input)) == normalise_spec(input),
{
    reveal_strlit("http://");
    reveal_strlit("https://");
    let s = trim_spec(input);
    let t = trim_end_char_spec(s, '/');
    let n = normalise_spec(input);
    lemma_trim_shape(input);
    lemma_trim_end_char_prefix(s, '/');
    lemma_trim_end_char_last(s, '/');
    assert(t[0] == s[0]);
    if !(has_prefix(t, "http://"@) || has_prefix(t, "https://"@)) {
        assert(n.subrange(0, 7) =~= "http://"@);
        assert(n.last() == t.last());
    }
    assert(!is_space(n[0]));
    assert(!is_space(n.last()) && n.last() != '/');
    assert(trim_start_spec(n) == n);
    assert(trim_end_spec(n) == n);
    assert(trim_spec(n) == n);
    assert(trim_end_char_spec(n, '/') == n);
}

/// `<base>/api/health`.
pub fn health_url(base_url: &str) -> (r: String)
    ensures
        r@ == normalise_spec(base_url@) + "/api/health"@,
{
    let mut r = normalise_base_url(base_url);
    r.append("/api/health");
    r
}

/// `<base>/api/documents`.
pub fn documents_url(base_url: &str) -> (r: String)
    ensures
        r@ == normalise_spec(base_url@) + "/api/documents"@,
{
    let mut r = normalise_base_url(base_url);
    r.append("/api/documents");
    r
}

/// The address that asks the host to mint a session for a document.
pub open spec fn session_request_spec(
    base_url: Seq<char>,
    doc_id: Seq<char>,
    locale: Seq<char>,
    user: Seq<char>,
) -> Seq<char> {
    normalise_spec(base_url) + "/api/session/"@ + urlencode_spec(doc_id) + "?lang="@
        + urlencode_spec(locale) + "&user="@ + urlencode_spec(user)
}

pub fn session_request_url(base_url: &str, doc_id: &str, locale: &str, user: &str) -> (r: String)
    ensures
        r@ == session_request_spec(base_url@, doc_id@, locale@, user@),
{
    let mut r = normalise_base_url(base_url);
    r.append("/api/session/");
    r.append(urlencode(doc_id).as_str());
    r.append("?lang=");
    r.append(urlencode(locale).as_str());
    r.append("&user=");
    r.append(urlencode(user).as_str());
    r
}

/// An ASCII letter or digit.
pub open spec fn is_ascii_alnum(c: char) -> bool {
    ('0' <= c <= '9') || ('A' <= c <= 'Z') || ('a' <= c <= 'z')
}

/// The label of a document's editor window: `editor_` and the id with
/// everything but ASCII letters and digits turned into `_`.
pub open spec fn window_label_spec(doc_id: Seq<char>) -> Seq<char> {
    "editor_"@ + doc_id.map_values(|c: char| if is_ascii_alnum(c) { c } else { '_' })
}

/// Window labels may only contain alphanumerics, `-`, `/`, `:` and `_`.
pub fn window_label(doc_id: &str) -> (r: String)
    ensures
        r@ == window_label_spec(doc_id@),
{
    let v = chars_of(doc_id);
    let mut r = to_owned_string("editor_");
    let ghost start = r@;
    let mut i: usize = 0;
    while i < v.len()
        invariant
            v@ == doc_id@,
            start == "editor_"@,
            0 <= i <= v@.len(),
            r@ == start + doc_id@.map_values(|c: char| if is_ascii_alnum(c) { c } else { '_' }).take(i as int),
        decreases v.len() - i,
    {
        let c = v[i];
        let safe = ('0' <= c && c <= '9') || ('A' <= c && c <= 'Z') || ('a' <= c && c <= 'z');
        push_char(&mut r, if safe { c } else { '_' });
        proof {
            assert(r@ =~= start + doc_id@.map_values(|c: char| if is_ascii_alnum(c) { c } else { '_' }).take(i + 1));
        }
        i += 1;
    }
    proof {
        assert(doc_id@.map_values(|c: char| if is_ascii_alnum(c) { c } else { '_' }).take(v@.len() as int)
            =~= doc_id@.map_values(|c: char| if is_ascii_alnum(c) { c } else { '_' }));
    }
    r
}

/// Window labels hold only ASCII letters, digits and `_`.
pub proof fn lemma_window_label_charset(doc_id: Seq<char>)
    ensures
        forall|i: int|
            0 <= i < window_label_spec(doc_id).len() ==> is_ascii_alnum(#[trigger] window_label_spec(doc_id)[i])
                || window_label_spec(doc_id)[i] == '_',
{
    reveal_strlit("editor_");
    let l = window_label_spec(doc_id);
    assert forall|i: int| 0 <= i < l.len() implies is_ascii_alnum(#[trigger] l[i]) || l[i] == '_' by {
        if i >= 7 {
            assert(l[i] == doc_id.map_values(|c: char| if is_ascii_alnum(c) { c } else { '_' })[i - 7]);
        }
    }
}

/// Window labels keep every ASCII letter and digit of the id in place and
/// turn everything else into `_`; so ids made of letters and digits (every
/// document id is) get labels of their own.
pub proof fn lemma_window_label_keeps_id(doc_id: Seq<char>, other: Seq<char>)
    ensures
        window_label_spec(doc_id).len() == 7 + doc_id.len(),
        forall|i: int|
            0 <= i < doc_id.len() ==> #[trigger] window_label_spec(doc_id)[7 + i] == if ('0' <= doc_id[i]
                <= '9') || ('A' <= doc_id[i] <= 'Z') || ('a' <= doc_id[i] <= 'z') {
                doc_id[i]
            } else {
                '_'
            },
        (forall|i: int| 0 <= i < doc_id.len() ==> ('0' <= #[trigger] doc_id[i] <= '9') || ('a' <= doc_id[i]
            <= 'z') || ('A' <= doc_id[i] <= 'Z')) && (forall|i: int| 0 <= i < other.len() ==> ('0'
            <= #[trigger] other[i] <= '9') || ('a' <= other[i] <= 'z') || ('A' <= other[i] <= 'Z'))
            && window_label_spec(doc_id) == window_label_spec(other) ==> doc_id == other,
{
    reveal_strlit("editor_");
    let l = window_label_spec(doc_id);
    assert forall|i: int| 0 <= i < doc_id.len() implies #[trigger] l[7 + i] == if ('0' <= doc_id[i] <= '9')
        || ('A' <= doc_id[i] <= 'Z') || ('a' <= doc_id[i] <= 'z') {
        doc_id[i]
    } else {
        '_'
    } by {
        assert(l[7 + i] == doc_id.map_values(|c: char| if is_ascii_alnum(c) { c } else { '_' })[i]);
    }
    let m = window_label_spec(other);
    if (forall|i: int| 0 <= i < doc_id.len() ==> ('0' <= #[trigger] doc_id[i] <= '9') || ('a' <= doc_id[i]
        <= 'z') || ('A' <= doc_id[i] <= 'Z')) && (forall|i: int| 0 <= i < other.len() ==> ('0'
        <= #[trigger] other[i] <= '9') || ('a' <= other[i] <= 'z') || ('A' <= other[i] <= 'Z'))
        && l == m {
        assert(l.len() == 7 + doc_id.len());
        assert(m.len() == 7 + other.len());
        assert(doc_id.len() == other.len());
        assert forall|i: int| 0 <= i < doc_id.len() implies doc_id[i] == other[i] by {
            assert(l[7 + i] == doc_id.map_values(|c: char| if is_ascii_alnum(c) { c } else { '_' })[i]);
            assert(m[7 + i] == other.map_values(|c: char| if is_ascii_alnum(c) { c } else { '_' })[i]);
        }
        assert(doc_id =~= other);
    }
}

/// The title of a document's editor window.
pub fn editor_title(doc_name: &str) -> (r: String)
    ensures
        r@ == doc_name@ + " — LibreOffice Collab"@,
{
    let mut r = to_owned_string(doc_name);
    r.append(" — LibreOffice Collab");
    r
}

/// Whether the url crate parses a text as an absolute URL.
pub uninterp spec fn url_parses(s: Seq<char>) -> bool;

/// The host of a text as the url crate parses it (`Url::host_str`).
pub uninterp spec fn url_host_of(s: Seq<char>) -> Option<Seq<char>>;

/// The explicit port of a text as the url crate parses it (`Url::port`),
/// `None` when it has none or it is the scheme's default.
pub uninterp spec fn url_port_of(s: Seq<char>) -> Option<u16>;

/// What is read of a parsed address: its host and its explicit port.
pub struct UrlParts {
    pub host: Option<String>,
    pub port: Option<u16>,
}

/// `Url::parse`, then `host_str` and `port` of the parsed URL.
#[verifier::external_body]
fn parse_url(s: &str) -> (r: Result<UrlParts, ParseError>)
    ensures
        r is Ok <==> url_parses(s@),
        r matches Ok(p) ==> opt_view(p.host) == url_host_of(s@) && p.port == url_port_of(s@),
{
    match Url::parse(s) {
        Ok(u) => Ok(UrlParts { host: u.host_str().map(str::to_owned), port: u.port() }),
        Err(e) => Err(e),
    }
}

/// The server a hand-typed (normalised) address stands for, from the host's
/// health answer and the parts of the address: named after the host's own
/// name, else after the address; on the address's port, else the default one.
pub fn server_from_parts(base: String, health: Health, parts: UrlParts) -> (r: DiscoveredServer)
    ensures
        r.id@ == "manual"@,
        r.name@ == (if health.name@.len() == 0 {
            base@
        } else {
            health.name@
        }),
        r.host@ == (match opt_view(parts.host) {
            Some(h) => h,
            None => Seq::<char>::empty(),
        }),
        r.port == parts.port.unwrap_or(DEFAULT_PORT),
        r.base_url@ == base@,
        r.cool_url@ == health.cool_url@,
        r.version@ == health.version@,
        r.manual,
{
    let host = match parts.host {
        Some(h) => h,
        None => String::new(),
    };
    let port = match parts.port {
        Some(p) => p,
        None => DEFAULT_PORT,
    };
    let name = if health.name.as_str().is_empty() {
        base.clone()
    } else {
        health.name
    };
    DiscoveredServer {
        id: to_owned_string("manual"),
        name,
        host,
        port,
        base_url: base,
        cool_url: health.cool_url,
        version: health.version,
        manual: true,
    }
}

/// The server a hand-typed (normalised) address stands for, once its health
/// answer is known. Fails when the address is not a URL.
pub fn manual_server(base: String, health: Health) -> (r: Result<DiscoveredServer, ParseError>)
    ensures
        r is Ok <==> url_parses(base@),
        r matches Ok(s) ==> {
            &&& s.id@ == "manual"@
            &&& s.name@ == (if health.name@.len() == 0 {
                base@
            } else {
                health.name@
            })
            &&& s.host@ == (match url_host_of(base@) {
                Some(h) => h,
                None => Seq::<char>::empty(),
            })
            &&& s.port == url_port_of(base@).unwrap_or(DEFAULT_PORT)
            &&& s.base_url@ == base@
            &&& s.cool_url@ == health.cool_url@
            &&& s.version@ == health.version@
            &&& s.manual
        },
{
    match parse_url(base.as_str()) {
        Ok(parts) => Ok(server_from_parts(base, health, parts)),
        Err(e) => Err(e),
    }
}

/// The editor window of a document: its label, its title and the
/// Collabora address it shows.
pub struct EditorWindow {
    pub label: String,
    pub title: String,
    pub url: String,
}

/// The editor window for a document once the host has answered with the
/// editor address; fails when that address is not a URL.
pub fn editor_window(doc_id: &str, doc_name: &str, editor_url: String) -> (r: Result<EditorWindow, ParseError>)
    ensures
        r is Ok <==> url_parses(editor_url@),
        r matches Ok(w) ==> {
            &&& w.label@ == window_label_spec(doc_id@)
            &&& w.title@ == doc_name@ + " — LibreOffice Collab"@
            &&& w.url@ == editor_url@
        },
{
    match parse_url(editor_url.as_str()) {
        Ok(_) => Ok(EditorWindow { label: window_label(doc_id), title: editor_title(doc_name), url: editor_url }),
        Err(e) => Err(e),
    }
}

} // verus!

verus! {

#[verifier::external_type_specification]
#[verifier::external_body]
pub struct ExParseError(ParseError);

} // verus!
