//! REST API consumed by the desktop client.
//!
//! Three endpoints, all unauthenticated because the server is meant to live on
//! a trusted office LAN behind the mDNS advert: health, the document list, and
//! the session endpoint whose logic lives here.
use vstd::prelude::*;
use vstd::utf8::*;
use crate::text::{opt_view, push_char, hex_upper, hex_upper_spec, trim, trim_spec, to_owned_string};
use crate::config::{Config, base_url_spec};
use crate::docs::{decodable_id, resolve_candidate, resolve_found, candidate_present, resolve_name_spec, is_hex_lower_char, lemma_hex_encode_shape, encode_id_spec};
use crate::sessions::{Sessions, SessionView, created, is_token_shape};

verus! {

broadcast use vstd::utf8::group_utf8_lib;

/// Query of the session endpoint.
pub struct SessionQuery {
    /// BCP-47 tag that localises the Collabora toolbars, e.g. "pt-PT".
    pub lang: Option<String>,
    /// Display name shown on the collaborator's cursor.
    pub user: Option<String>,
}

/// Whether a byte belongs to the RFC 3986 unreserved set.
pub open spec fn is_unreserved(b: u8) -> bool {
    (0x41 <= b <= 0x5a) || (0x61 <= b <= 0x7a) || (0x30 <= b <= 0x39) || b == 0x2d || b == 0x5f
        || b == 0x2e || b == 0x7e
}

/// How one byte appears in a query value: itself when unreserved, else `%XX`.
pub open spec fn encode_byte(b: u8) -> Seq<char> {
    if is_unreserved(b) {
        seq![b as char]
    } else {
        seq!['%', hex_upper_spec((b / 16) as int), hex_upper_spec((b % 16) as int)]
    }
}

/// Percent-encoding of a byte string.
pub open spec fn percent_encode(b: Seq<u8>) -> Seq<char>
    decreases b.len(),
{
    if b.len() == 0 {
        seq![]
    } else {
        percent_encode(b.drop_last()) + encode_byte(b.last())
    }
}

proof fn lemma_hex_upper_digits(v: int)
    requires
        0 <= v < 16,
    ensures
        hex_upper_spec(v) == "0123456789ABCDEF"@[v],
{
    reveal_strlit("0123456789ABCDEF");
    if v == 0 {} else if v == 1 {} else if v == 2 {} else if v == 3 {} else if v == 4 {}
    else if v == 5 {} else if v == 6 {} else if v == 7 {} else if v == 8 {} else if v == 9 {}
    else if v == 10 {} else if v == 11 {} else if v == 12 {} else if v == 13 {} else if v == 14 {}
    else {}
}

/// Percent-encoding works byte by byte: the ASCII letters (0x41-0x5a,
/// 0x61-0x7a), digits (0x30-0x39) and `-_.~` (0x2d, 0x5f, 0x2e, 0x7e) stay
/// as they are, every other byte becomes `%` and two upper-case hexadecimal
/// digits, and the encoding of two byte strings put together is the two
/// encodings put together.
pub proof fn lemma_percent_encode_bytes(x: Seq<u8>, y: Seq<u8>, b: u8)
    ensures
        percent_encode(x + y) == percent_encode(x) + percent_encode(y),
        (0x41 <= b <= 0x5a || 0x61 <= b <= 0x7a || 0x30 <= b <= 0x39 || b == 0x2d || b == 0x5f
            || b == 0x2e || b == 0x7e)
            ==> percent_encode(seq![b]) == seq![b as char],
        !(0x41 <= b <= 0x5a || 0x61 <= b <= 0x7a || 0x30 <= b <= 0x39 || b == 0x2d || b == 0x5f
            || b == 0x2e || b == 0x7e)
            ==> percent_encode(seq![b]) == seq![
            '%',
            "0123456789ABCDEF"@[(b / 16) as int],
            "0123456789ABCDEF"@[(b % 16) as int],
        ],
    decreases y.len(),
{
    if y.len() > 0 {
        lemma_percent_encode_bytes(x, y.drop_last(), b);
        assert((x + y).drop_last() =~= x + y.drop_last());
        assert((x + y).last() == y.last());
    } else {
        assert(x + y =~= x);
    }
    assert(seq![b].drop_last() =~= Seq::<u8>::empty());
    assert(percent_encode(seq![b]) == percent_encode(Seq::<u8>::empty()) + encode_byte(b));
    assert(percent_encode(seq![b]) =~= encode_byte(b));
    lemma_hex_upper_digits((b / 16) as int);
    lemma_hex_upper_digits((b % 16) as int);
}

/// Percent-encoding of the UTF-8 bytes of a text.
pub open spec fn urlencode_spec(s: Seq<char>) -> Seq<char> {
    percent_encode(encode_utf8(s))
}

/// Percent-encodes a query-string value (RFC 3986 unreserved set).
pub fn urlencode(value: &str) -> (r: String)
    ensures
        r@ == urlencode_spec(value@),
{
    let b = value.as_bytes();
    let n = b.len();
    let mut out = String::new();
    let mut i: usize = 0;
    while i < n
        invariant
            n == b@.len(),
            b@ == encode_utf8(value@),
            0 <= i <= n,
            out@ == percent_encode(b@.take(i as int)),
        decreases n - i,
    {
        let byte = b[i];
        let ghost prev = out@;
        if (0x41 <= byte && byte <= 0x5a) || (0x61 <= byte && byte <= 0x7a) || (0x30 <= byte && byte
            <= 0x39) || byte == 0x2d || byte == 0x5f || byte == 0x2e || byte == 0x7e {
            push_char(&mut out, byte as char);
        } else {
            push_char(&mut out, '%');
            push_char(&mut out, hex_upper(byte / 16));
            push_char(&mut out, hex_upper(byte % 16));
        }
        proof {
            assert(b@.take(i + 1).drop_last() =~= b@.take(i as int));
            assert(b@.take(i + 1).last() == byte);
            assert(out@ =~= prev + encode_byte(byte));
        }
        i += 1;
    }
    proof {
        assert(b@.take(n as int) =~= b@);
    }
    out
}

proof fn lemma_percent_encode_unreserved(b: Seq<u8>)
    requires
        forall|i: int| 0 <= i < b.len() ==> is_unreserved(#[trigger] b[i]),
    ensures
        percent_encode(b) == Seq::new(b.len(), |i: int| b[i] as char),
    decreases b.len(),
{
    if b.len() > 0 {
        lemma_percent_encode_unreserved(b.drop_last());
        assert(percent_encode(b) =~= Seq::new(b.len(), |i: int| b[i] as char));
    } else {
        assert(percent_encode(b) =~= Seq::new(b.len(), |i: int| b[i] as char));
    }
}

/// Document ids are URL-safe: percent-encoding leaves them unchanged.
pub proof fn lemma_urlencode_keeps_ids(name: Seq<char>)
    ensures
        urlencode_spec(encode_id_spec(name)) == encode_id_spec(name),
{
    let e = encode_id_spec(name);
    lemma_hex_encode_shape(encode_utf8(name));
    is_ascii_chars_encode_utf8(e);
    let b = encode_utf8(e);
    assert forall|i: int| 0 <= i < b.len() implies is_unreserved(#[trigger] b[i]) by {
        assert(is_hex_lower_char(e[i]));
        assert(b[i] == e[i] as u8);
    }
    lemma_percent_encode_unreserved(b);
    assert forall|i: int| 0 <= i < e.len() implies (b[i] as char) == #[trigger] e[i] by {
        assert(b[i] == e[i] as u8);
        assert(is_hex_lower_char(e[i]));
    }
    assert(percent_encode(b) =~= e);
}

/// The collaborator name: the one asked for unless it is blank, else "Utilizador".
pub open spec fn session_user_spec(user: Option<Seq<char>>) -> Seq<char> {
    match user {
        Some(u) => if trim_spec(u).len() > 0 {
            u
        } else {
            "Utilizador"@
        },
        None => "Utilizador"@,
    }
}

/// The editor language: the one asked for, else "pt-PT".
pub open spec fn session_lang_spec(lang: Option<Seq<char>>) -> Seq<char> {
    match lang {
        Some(l) => l,
        None => "pt-PT"@,
    }
}

/// A collaborator with no name, or only whitespace, is shown as
/// "Utilizador"; any other name is kept as given. With no language asked
/// for, the editor opens in European Portuguese.
pub proof fn lemma_session_defaults(user: Seq<char>, lang: Seq<char>)
    ensures
        session_user_spec(None) == "Utilizador"@,
        trim_spec(user).len() == 0 ==> session_user_spec(Some(user)) == "Utilizador"@,
        trim_spec(user).len() > 0 ==> session_user_spec(Some(user)) == user,
        session_lang_spec(None) == "pt-PT"@,
        session_lang_spec(Some(lang)) == lang,
{
}

pub fn session_user(user: Option<String>) -> (r: String)
    ensures
        r@ == session_user_spec(opt_view(user)),
{
    match user {
        Some(u) => {
            let t = trim(u.as_str());
            if !t.as_str().is_empty() {
                u
            } else {
                to_owned_string("Utilizador")
            }
        },
        None => to_owned_string("Utilizador"),
    }
}

pub fn session_lang(lang: Option<String>) -> (r: String)
    ensures
        r@ == session_lang_spec(opt_view(lang)),
{
    match lang {
        Some(l) => l,
        None => to_owned_string("pt-PT"),
    }
}

/// The WOPISrc address Collabora uses for a document.
pub open spec fn wopi_src_spec(base_url: Seq<char>, id: Seq<char>) -> Seq<char> {
    base_url + "/wopi/files/"@ + id
}

/// The Collabora editor URL for a document, token and language.
pub open spec fn editor_url_spec(
    cool_url: Seq<char>,
    wopi_src: Seq<char>,
    token: Seq<char>,
    lang: Seq<char>,
) -> Seq<char> {
    cool_url + "/browser/dist/cool.html?WOPISrc="@ + urlencode_spec(wopi_src) + "&access_token="@
        + urlencode_spec(token) + "&lang="@ + urlencode_spec(lang)
}

/// What the session endpoint answers.
pub struct SessionLinks {
    pub editor_url: String,
    pub wopi_src: String,
}

/// The links handed to the client for one document session.
pub fn session_links(config: &Config, id: &str, token: &str, lang: &str) -> (r: SessionLinks)
    ensures
        r.wopi_src@ == wopi_src_spec(base_url_spec(config.public_ip, config.port), id@),
        r.editor_url@ == editor_url_spec(config.cool_url@, r.wopi_src@, token@, lang@),
{
    let mut wopi_src = config.base_url();
    wopi_src.append("/wopi/files/");
    wopi_src.append(id);
    let mut editor_url = config.cool_url.clone();
    editor_url.append("/browser/dist/cool.html?WOPISrc=");
    editor_url.append(urlencode(wopi_src.as_str()).as_str());
    editor_url.append("&access_token=");
    editor_url.append(urlencode(token).as_str());
    editor_url.append("&lang=");
    editor_url.append(urlencode(lang).as_str());
    SessionLinks { editor_url, wopi_src }
}

/// Shared state of the host: its configuration and the live sessions.
pub struct AppState {
    pub config: Config,
    pub sessions: Sessions,
}

/// Why the session endpoint refused.
pub enum ApiError {
    /// The document is gone (404).
    NotFound,
}

/// What minting a session for `id` gives, from the host's configuration and
/// the sessions before and after: the WOPISrc of the document, and an editor
/// URL carrying a fresh token that is recorded for the document and the
/// collaborator asked for (or "Utilizador"), in the language asked for (or
/// "pt-PT").
pub open spec fn minted(
    config: Config,
    before: Map<Seq<char>, SessionView>,
    after: Map<Seq<char>, SessionView>,
    id: Seq<char>,
    query: SessionQuery,
    links: SessionLinks,
) -> bool {
    &&& links.wopi_src@ == wopi_src_spec(base_url_spec(config.public_ip, config.port), id)
    &&& exists|token: Seq<char>|
        {
            &&& is_token_shape(token)
            &&& links.editor_url@ == editor_url_spec(
                config.cool_url@,
                links.wopi_src@,
                token,
                session_lang_spec(opt_view(query.lang)),
            )
            &&& exists|now: i64|
                after == created(before, token, id, session_user_spec(opt_view(query.user)), now)
        }
}

/// What the session endpoint answers when the file system says
/// `file_present` of the document's candidate path: a session when the id
/// names a safe file that is there, else `NotFound` with no token minted.
pub open spec fn session_opened(
    config: Config,
    before: Map<Seq<char>, SessionView>,
    after: Map<Seq<char>, SessionView>,
    id: Seq<char>,
    query: SessionQuery,
    file_present: bool,
    r: Result<SessionLinks, ApiError>,
) -> bool {
    &&& (r is Ok <==> (resolve_name_spec(id) is Some && file_present))
    &&& (r is Err ==> after == before)
    &&& (r matches Ok(links) ==> minted(config, before, after, id, query, links))
}

/// Mints a WOPI token for a document known to be in the shared folder and
/// returns the links of its session. This always succeeds.
pub fn mint_session(state: &mut AppState, id: &str, query: SessionQuery) -> (links: SessionLinks)
    ensures
        final(state).config == old(state).config,
        minted(old(state).config, old(state).sessions@, final(state).sessions@, id@, query, links),
{
    let ghost q = query;
    let user = session_user(query.user);
    let lang = session_lang(query.lang);
    let token = state.sessions.create(id, user.as_str());
    let links = session_links(&state.config, id, token.as_str(), lang.as_str());
    proof {
        assert(minted(old(state).config, old(state).sessions@, state.sessions@, id@, q, links));
    }
    links
}

/// The session endpoint once the file system has said whether the
/// document's candidate path is a regular file.
pub fn open_session_found(state: &mut AppState, id: &str, query: SessionQuery, file_present: bool) -> (r: Result<
    SessionLinks,
    ApiError,
>)
    requires
        decodable_id(id@),
    ensures
        final(state).config == old(state).config,
        session_opened(
            old(state).config,
            old(state).sessions@,
            final(state).sessions@,
            id@,
            query,
            file_present,
            r,
        ),
{
    if resolve_found(state.config.docs_dir.as_str(), id, file_present).is_none() {
        return Err(ApiError::NotFound);
    }
    Ok(mint_session(state, id, query))
}

/// Mints a WOPI token for a document and returns the editor URL.
///
/// Fails with `NotFound` when the id does not name a document of the shared
/// folder, so a document that vanished between listing and opening is
/// reported at once. The file system is asked about the candidate path; the
/// answer is as `open_session_found` gives it for what it said.
pub fn open_session(state: &mut AppState, id: &str, query: SessionQuery) -> (r: Result<
    SessionLinks,
    ApiError,
>)
    requires
        decodable_id(id@),
    ensures
        final(state).config == old(state).config,
        exists|file_present: bool|
            session_opened(
                old(state).config,
                old(state).sessions@,
                final(state).sessions@,
                id@,
                query,
                file_present,
                r,
            ),
{
    let candidate = resolve_candidate(state.config.docs_dir.as_str(), id);
    let present = candidate_present(&candidate);
    open_session_found(state, id, query, present)
}

} // verus!
