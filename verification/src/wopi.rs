//! Minimal WOPI host.
//!
//! Collabora Online is the single writer: it fetches the document from us,
//! keeps every participant's changes in one in-memory model, and pushes the
//! merged result back with PutFile. Locks are accepted and ignored on purpose,
//! as there is exactly one writer by construction.
use vstd::prelude::*;
use chrono::DateTime;
use crate::text::{dec_spec, push_decimal, to_owned_string, lemma_dec_spec_digits, lemma_dec_spec_injective};
use crate::api::AppState;
use crate::docs::{decodable_id, resolve_candidate, resolve_found, resolved_with, candidate_present};
use crate::sessions::{validated, now_seconds, SessionView};

verus! {

/// Query carried by every WOPI call.
pub struct TokenQuery {
    pub access_token: String,
}

/// Why a WOPI call was refused.
pub enum WopiError {
    /// The token is unknown, expired or minted for another document (401).
    Unauthorized,
    /// The document is gone (404).
    NotFound,
    /// An empty upload, refused so a document is never truncated (400).
    BadRequest,
}

/// What authorising a WOPI call at time `now` answers when the file system
/// says `file_present` of the document's candidate path. A token that is
/// unknown, expired or minted for another document is refused first. With a
/// valid token, the answer is the folder joined with the name, the name and
/// the session's user when the id names a safe file that is there, and
/// `NotFound` otherwise.
pub open spec fn authorise_outcome(
    m: Map<Seq<char>, SessionView>,
    dir: Seq<char>,
    id: Seq<char>,
    token: Seq<char>,
    now: i64,
    file_present: bool,
    r: Result<(String, String, String), WopiError>,
) -> bool {
    match validated(m, token, id, now) {
        None => r matches Err(WopiError::Unauthorized),
        Some(s) => match resolved_with(dir, id, file_present) {
            Some(found) => r matches Ok(f) && (f.0@, f.1@) == found && f.2@ == s.user,
            None => r matches Err(WopiError::NotFound),
        },
    }
}

/// Authorises a WOPI call at time `now` once the file system has said
/// whether the document's candidate path is a regular file.
///
/// A valid token bound to an id that cannot be decoded without cutting a
/// character in two is left out: resolving such an id panics.
pub fn authorise_found(state: &AppState, id: &str, token: &str, now: i64, file_present: bool) -> (r: Result<
    (String, String, String),
    WopiError,
>)
    requires
        validated(state.sessions@, token@, id@, now) is Some ==> decodable_id(id@),
    ensures
        authorise_outcome(state.sessions@, state.config.docs_dir@, id@, token@, now, file_present, r),
{
    let session = match state.sessions.validate_at(token, id, now) {
        Some(s) => s,
        None => return Err(WopiError::Unauthorized),
    };
    match resolve_found(state.config.docs_dir.as_str(), id, file_present) {
        Some((path, name)) => Ok((path, name, session.user)),
        None => Err(WopiError::NotFound),
    }
}

/// Validates the token at time `now` and resolves the document, or fails the
/// WOPI call. On success: the file's path, its name and the session's user.
/// With a valid token the file system is asked about the candidate path; the
/// answer is as `authorise_found` gives it for what it said.
pub fn authorise_at(state: &AppState, id: &str, token: &str, now: i64) -> (r: Result<
    (String, String, String),
    WopiError,
>)
    requires
        validated(state.sessions@, token@, id@, now) is Some ==> decodable_id(id@),
    ensures
        exists|file_present: bool|
            authorise_outcome(state.sessions@, state.config.docs_dir@, id@, token@, now, file_present, r),
{
    let present = match state.sessions.validate_at(token, id, now) {
        Some(_) => candidate_present(&resolve_candidate(state.config.docs_dir.as_str(), id)),
        None => false,
    };
    authorise_found(state, id, token, now, present)
}

/// Validates the token now and resolves the document, or fails the WOPI call;
/// see `authorise_outcome` for the answers at the time of the check.
pub fn authorise(state: &AppState, id: &str, token: &str) -> (r: Result<
    (String, String, String),
    WopiError,
>)
    requires
        state.sessions@.dom().contains(token@) && state.sessions@[token@].doc_id == id@
            ==> decodable_id(id@),
    ensures
        exists|now: i64, file_present: bool|
            authorise_outcome(state.sessions@, state.config.docs_dir@, id@, token@, now, file_present, r),
{
    let now = now_seconds();
    authorise_at(state, id, token, now)
}

/// `<modified>_<size>`: the modification time in Unix seconds and the size.
/// It changes whenever either of them changes, which is what keeps
/// Collabora from serving a stale document from its cache; a rewrite of the
/// same length within the same second keeps it.
pub open spec fn version_text(modified: u64, size: u64) -> Seq<char> {
    dec_spec(modified as nat) + "_"@ + dec_spec(size as nat)
}

/// The version changes whenever the modification time or the size changes:
/// two files report the same version only if both are the same.
pub proof fn lemma_version_text_injective(m1: u64, s1: u64, m2: u64, s2: u64)
    requires
        version_text(m1, s1) == version_text(m2, s2),
    ensures
        m1 == m2,
        s1 == s2,
{
    reveal_strlit("_");
    let a = dec_spec(m1 as nat);
    let b = dec_spec(m2 as nat);
    let x = version_text(m1, s1);
    lemma_dec_spec_digits(m1 as nat);
    lemma_dec_spec_digits(m2 as nat);
    lemma_dec_spec_digits(s1 as nat);
    lemma_dec_spec_digits(s2 as nat);
    assert(x[a.len() as int] == '_');
    assert(version_text(m2, s2)[b.len() as int] == '_');
    if a.len() < b.len() {
        assert(x[a.len() as int] == b[a.len() as int]);
    } else if b.len() < a.len() {
        assert(x[b.len() as int] == a[b.len() as int]);
    }
    assert(a.len() == b.len());
    assert(x.subrange(0, a.len() as int) =~= a);
    assert(version_text(m2, s2).subrange(0, b.len() as int) =~= b);
    lemma_dec_spec_injective(m1 as nat, m2 as nat);
    assert(x.subrange(a.len() as int + 1, x.len() as int) =~= dec_spec(s1 as nat));
    assert(version_text(m2, s2).subrange(b.len() as int + 1, x.len() as int) =~= dec_spec(s2 as nat));
    lemma_dec_spec_injective(s1 as nat, s2 as nat);
}

/// The item version of a file from its metadata, if it could be read: the
/// modification time in Unix seconds (0 when unknown) and the size. A file
/// whose metadata cannot be read has version `0_0`.
pub fn item_version(meta: Option<(Option<u64>, u64)>) -> (r: String)
    ensures
        r@ == (match meta {
            Some((modified, size)) => version_text(modified.unwrap_or(0), size),
            None => "0_0"@,
        }),
{
    match meta {
        Some((modified, size)) => {
            let m = match modified {
                Some(t) => t,
                None => 0,
            };
            let mut s = String::new();
            push_decimal(&mut s, m);
            s.append("_");
            push_decimal(&mut s, size);
            proof {
                assert(s@ =~= version_text(m, size));
            }
            s
        },
        None => to_owned_string("0_0"),
    }
}

/// What CheckFileInfo reports about a document beyond the fixed flags.
pub struct FileInfo {
    pub base_file_name: String,
    pub size: u64,
    /// The owner of every document: the host itself.
    pub owner_id: String,
    /// The WOPI user id and friendly name: the collaborator's name.
    pub user: String,
    /// Every collaborator may edit.
    pub user_can_write: bool,
    /// "Save as" (PutRelativeFile) is not offered.
    pub user_can_not_write_relative: bool,
    pub supports_update: bool,
    /// Locks are acknowledged but not kept: Collabora is the one writer.
    pub supports_locks: bool,
    pub supports_rename: bool,
    pub disable_print: bool,
    pub disable_export: bool,
    pub disable_copy: bool,
    pub hide_user_list: String,
    pub last_modified_time: String,
    pub version: String,
}

/// The file description for CheckFileInfo, from the file's name, the
/// session's user, its size and modification time (Unix seconds, if known).
/// One WOPI user per account, so Collabora shows real names and gives each
/// person their own cursor colour; everyone may write, nobody may "save as".
pub fn file_info(name: String, user: String, size: u64, modified: Option<u64>) -> (r: FileInfo)
    ensures
        r.base_file_name@ == name@,
        r.user@ == user@,
        r.size == size,
        r.owner_id@ == "collab-server"@,
        r.user_can_write,
        r.user_can_not_write_relative,
        r.supports_update,
        !r.supports_locks,
        !r.supports_rename,
        !r.disable_print,
        !r.disable_export,
        !r.disable_copy,
        r.hide_user_list@ == Seq::<char>::empty(),
        r.version@ == version_text(modified.unwrap_or(0), size),
        r.last_modified_time@ == utc_text(modified.unwrap_or(0) as i64),
{
    let m = match modified {
        Some(t) => t,
        None => 0,
    };
    let version = item_version(Some((Some(m), size)));
    FileInfo {
        base_file_name: name,
        size,
        owner_id: to_owned_string("collab-server"),
        user,
        user_can_write: true,
        user_can_not_write_relative: true,
        supports_update: true,
        supports_locks: false,
        supports_rename: false,
        disable_print: false,
        disable_export: false,
        disable_copy: false,
        hide_user_list: String::new(),
        last_modified_time: rfc3339(m as i64),
        version,
    }
}

/// Accepts an upload, or refuses an empty one.
pub fn check_upload(body_len: usize) -> (r: Result<(), WopiError>)
    ensures
        r is Ok <==> body_len > 0,
        r matches Err(e) ==> e is BadRequest,
{
    if body_len == 0 {
        Err(WopiError::BadRequest)
    } else {
        Ok(())
    }
}

/// A request header as the handler reads it: absent, present but not
/// visible ASCII text, or present with its text.
pub enum HeaderText {
    Absent,
    Opaque,
    Text(String),
}

/// Why a document was saved: the `X-LOOL-WOPI-Timestamp` header when present,
/// else `X-COOL-WOPI-Timestamp`, else "autosave". A header that is present
/// but not readable text counts as "autosave".
pub open spec fn save_reason_spec(lool: HeaderText, cool: HeaderText) -> Seq<char> {
    let chosen = match lool {
        HeaderText::Absent => cool,
        _ => lool,
    };
    match chosen {
        HeaderText::Text(t) => t@,
        _ => "autosave"@,
    }
}

pub fn save_reason(lool: HeaderText, cool: HeaderText) -> (r: String)
    ensures
        r@ == save_reason_spec(lool, cool),
{
    let chosen = match lool {
        HeaderText::Absent => cool,
        other => other,
    };
    match chosen {
        HeaderText::Text(t) => t,
        _ => to_owned_string("autosave"),
    }
}

/// The `X-WOPI-Lock` value echoed back to a lock request: the request's own,
/// or empty when it is absent or unreadable.
pub fn lock_echo(lock: HeaderText) -> (r: String)
    ensures
        r@ == (match lock {
            HeaderText::Text(t) => t@,
            _ => Seq::<char>::empty(),
        }),
{
    match lock {
        HeaderText::Text(t) => t,
        _ => String::new(),
    }
}

/// The ISO-8601 text chrono writes for a Unix time: UTC, with milliseconds
/// and a `Z` suffix.
pub uninterp spec fn rfc3339_utc_millis(secs: i64) -> Seq<char>;

/// Unix times whose date chrono can represent: from the first second of the
/// year -262,143 to the last second of the year 262,142.
pub open spec fn in_date_range(secs: i64) -> bool {
    -8_334_601_228_800 <= secs <= 8_210_266_876_799
}

/// The timestamp written for a Unix time: its RFC-3339 text, or that of the
/// epoch for a time chrono cannot represent.
pub open spec fn utc_text(secs: i64) -> Seq<char> {
    if in_date_range(secs) {
        rfc3339_utc_millis(secs)
    } else {
        rfc3339_utc_millis(0)
    }
}

/// `DateTime::<Utc>::from_timestamp(secs, 0)` followed by
/// `to_rfc3339_opts(SecondsFormat::Millis, true)`. chrono returns `None`
/// exactly for seconds whose date falls outside its range of years, so the
/// times of `in_date_range` (the epoch among them) are the ones formatted. The two calls share
/// one item so that no `DateTime<Tz: TimeZone>` value, whose type bound is
/// chrono's own trait, has to pass through the library.
#[verifier::external_body]
fn format_utc_timestamp(secs: i64) -> (r: Option<String>)
    ensures
        r is Some <==> in_date_range(secs),
        r matches Some(t) ==> t@ == rfc3339_utc_millis(secs),
{
    match DateTime::from_timestamp(secs, 0) {
        Some(t) => Some(t.to_rfc3339_opts(chrono::SecondsFormat::Millis, true)),
        None => None,
    }
}

/// WOPI wants ISO-8601 / RFC-3339 timestamps in UTC; times chrono cannot
/// represent are written as the Unix epoch.
pub fn rfc3339(unix_seconds: i64) -> (r: String)
    ensures
        r@ == utc_text(unix_seconds),
{
    match format_utc_timestamp(unix_seconds) {
        Some(t) => t,
        None => match format_utc_timestamp(0) {
            Some(epoch) => epoch,
            None => {
                proof {
                    assert(false);
                }
                String::new()
            },
        },
    }
}

} // verus!
