//! Short-lived WOPI access tokens.
//!
//! One token is minted per (document, user) when a client asks to open a file.
//! Collabora then presents it on every WOPI call. Tokens are kept in memory
//! only: restarting the server simply invalidates them.
use vstd::prelude::*;
use rand::rngs::ThreadRng;
use std::time::{SystemTime, SystemTimeError, Duration};
use crate::text::{str_eq, to_owned_string, push_char};
use crate::keyed::{pairs_map, distinct_keys, lemma_pairs_map_dom, lemma_pairs_map_index};

verus! {

/// Long enough to cover a working day of editing without a surprise logout.
pub const TTL_SECONDS: i64 = 43200;

/// Number of characters in a freshly minted token.
pub const TOKEN_LEN: usize = 40;

/// One WOPI session: the document it unlocks, who opened it, and until when.
pub struct Session {
    pub doc_id: String,
    pub user: String,
    pub expires_at: i64,
}

/// What a session is, as plain values.
pub struct SessionView {
    pub doc_id: Seq<char>,
    pub user: Seq<char>,
    pub expires_at: i64,
}

impl View for Session {
    type V = SessionView;

    open spec fn view(&self) -> SessionView {
        SessionView { doc_id: self.doc_id@, user: self.user@, expires_at: self.expires_at }
    }
}

impl Session {
    /// A field-by-field copy.
    pub fn duplicate(&self) -> (r: Session)
        ensures
            r@ == self@,
    {
        Session { doc_id: self.doc_id.clone(), user: self.user.clone(), expires_at: self.expires_at }
    }
}

/// The live tokens, each mapped to its session.
pub struct Sessions {
    entries: Vec<(String, Session)>,
}

/// The sessions that survive the clean-up at time `now`, with `token` taken out.
pub open spec fn kept_at(
    m: Map<Seq<char>, SessionView>,
    token: Seq<char>,
    now: i64,
) -> Map<Seq<char>, SessionView> {
    Map::new(|k: Seq<char>| m.dom().contains(k) && m[k].expires_at > now && k != token, |k| m[k])
}

/// When a session minted at `now` expires: twelve hours later, or at the
/// last representable second when that would pass the end of the clock.
pub open spec fn expiry_after(now: i64) -> i64 {
    if now <= i64::MAX - TTL_SECONDS {
        (now + TTL_SECONDS) as i64
    } else {
        i64::MAX
    }
}

/// The sessions after `create` at time `now` minted `token`: expired
/// sessions are dropped and the new one is added.
pub open spec fn created(
    m: Map<Seq<char>, SessionView>,
    token: Seq<char>,
    doc_id: Seq<char>,
    user: Seq<char>,
    now: i64,
) -> Map<Seq<char>, SessionView> {
    Map::new(|k: Seq<char>| m.dom().contains(k) && m[k].expires_at > now, |k| m[k]).insert(
        token,
        SessionView { doc_id, user, expires_at: expiry_after(now) },
    )
}

/// What `validate` answers at time `now`: the session when the token is
/// known, bound to this document and not yet expired.
pub open spec fn validated(
    m: Map<Seq<char>, SessionView>,
    token: Seq<char>,
    doc_id: Seq<char>,
    now: i64,
) -> Option<SessionView> {
    if m.dom().contains(token) && m[token].doc_id == doc_id && m[token].expires_at > now {
        Some(m[token])
    } else {
        None
    }
}

/// An ASCII letter or digit, the alphabet of tokens.
pub open spec fn is_alnum_byte(b: u8) -> bool {
    (0x30 <= b <= 0x39) || (0x41 <= b <= 0x5a) || (0x61 <= b <= 0x7a)
}

/// A token as `create` mints it: forty ASCII letters and digits.
pub open spec fn is_token_shape(t: Seq<char>) -> bool {
    t.len() == TOKEN_LEN && forall|i: int| 0 <= i < t.len() ==> is_alnum_byte(#[trigger] t[i] as u8)
        && (t[i] as u32) < 128
}

impl Sessions {
    #[verifier::type_invariant]
    spec fn keys_distinct(self) -> bool {
        distinct_keys(self.pairs())
    }

    spec fn pairs(self) -> Seq<(Seq<char>, SessionView)> {
        self.entries@.map_values(|e: (String, Session)| (e.0@, e.1@))
    }

    /// The live sessions, keyed by token.
    pub closed spec fn view(self) -> Map<Seq<char>, SessionView> {
        pairs_map(self.pairs())
    }

    pub fn new() -> (r: Sessions)
        ensures
            r.view() == Map::<Seq<char>, SessionView>::empty(),
    {
        let r = Sessions { entries: Vec::new() };
        proof {
            assert(r.pairs().len() == 0);
        }
        r
    }

    /// The session of `token` at time `now`, when the token is valid for
    /// `doc_id`. Binding the token to the document matters: without it, a
    /// token handed out for a harmless file would grant access to every other one.
    pub fn validate_at(&self, token: &str, doc_id: &str, now: i64) -> (r: Option<Session>)
        ensures
            r matches Some(s) ==> validated(self.view(), token@, doc_id@, now) == Some(s@),
            r is None ==> validated(self.view(), token@, doc_id@, now) is None,
    {
        proof {
            use_type_invariant(self);
        }
        let n = self.entries.len();
        let ghost e = self.pairs();
        let mut i: usize = 0;
        while i < n
            invariant
                n == self.entries@.len(),
                e == self.pairs(),
                distinct_keys(e),
                0 <= i <= n,
                forall|j: int| 0 <= j < i ==> (#[trigger] e[j]).0 != token@,
            decreases n - i,
        {
            let entry = &self.entries[i];
            assert(e[i as int] == (entry.0@, entry.1@));
            if str_eq(entry.0.as_str(), token) {
                proof {
                    lemma_pairs_map_index(e, i as int);
                }
                if str_eq(entry.1.doc_id.as_str(), doc_id) && entry.1.expires_at > now {
                    return Some(entry.1.duplicate());
                } else {
                    return None;
                }
            }
            i += 1;
        }
        proof {
            lemma_pairs_map_dom(e, token@);
        }
        None
    }

    /// Records a session for `token`, first dropping every session that has
    /// expired by `now` (so the table cannot grow forever).
    pub fn create_at(&mut self, doc_id: &str, user: &str, token: String, now: i64)
        ensures
            final(self).view() == created(old(self).view(), token@, doc_id@, user@, now),
    {
        proof {
            use_type_invariant(&*self);
        }
        let ghost e = self.pairs();
        let ghost m = self.view();
        let n = self.entries.len();
        let mut kept: Vec<(String, Session)> = Vec::new();
        let mut i: usize = 0;
        while i < n
            invariant
                n == self.entries@.len(),
                e == self.pairs(),
                m == pairs_map(e),
                distinct_keys(e),
                0 <= i <= n,
                distinct_keys(kept@.map_values(|e: (String, Session)| (e.0@, e.1@))),
                pairs_map(kept@.map_values(|e: (String, Session)| (e.0@, e.1@))) == kept_at(
                    pairs_map(e.take(i as int)),
                    token@,
                    now,
                ),
                forall|j: int|
                    0 <= j < kept@.len() ==> exists|k: int|
                        0 <= k < i && (#[trigger] kept@[j]).0@ == (#[trigger] e[k]).0,
            decreases n - i,
        {
            let entry = &self.entries[i];
            let ghost kv = kept@.map_values(|e: (String, Session)| (e.0@, e.1@));
            let ghost prev = pairs_map(e.take(i as int));
            assert(e[i as int] == (entry.0@, entry.1@));
            assert(e.take(i as int + 1).drop_last() =~= e.take(i as int));
            assert(pairs_map(e.take(i as int + 1)) == prev.insert(e[i as int].0, e[i as int].1));
            proof {
                lemma_pairs_map_dom(e.take(i as int), e[i as int].0);
                if prev.dom().contains(e[i as int].0) {
                    let k = choose|k: int|
                        0 <= k < e.take(i as int).len() && #[trigger] e.take(i as int)[k].0
                            == e[i as int].0;
                    assert(e[k].0 == e[i as int].0);
                }
            }
            if entry.1.expires_at > now && !str_eq(entry.0.as_str(), token.as_str()) {
                let item = (entry.0.clone(), entry.1.duplicate());
                kept.push(item);
                proof {
                    let kv2 = kept@.map_values(|e: (String, Session)| (e.0@, e.1@));
                    assert(kv2.drop_last() =~= kv);
                    assert(kv2.last() == e[i as int]);
                    assert(kept_at(prev.insert(e[i as int].0, e[i as int].1), token@, now)
                        =~= kept_at(prev, token@, now).insert(e[i as int].0, e[i as int].1));
                    assert forall|a: int, b: int| 0 <= a < b < kv2.len() implies #[trigger] kv2[a].0
                        != #[trigger] kv2[b].0 by {
                        if b == kv2.len() - 1 {
                            assert(kv2[a] == kv[a]);
                            assert(kept@[a].0@ == kv[a].0);
                            let k = choose|k: int| 0 <= k < i && kept@[a].0@ == (#[trigger] e[k]).0;
                        } else {
                            assert(kv2[a] == kv[a] && kv2[b] == kv[b]);
                        }
                    }
                    assert forall|j: int| 0 <= j < kept@.len() implies exists|k: int|
                        0 <= k < i + 1 && (#[trigger] kept@[j]).0@ == (#[trigger] e[k]).0 by {
                        if j == kept@.len() - 1 {
                            assert(kept@[j].0@ == e[i as int].0);
                        } else {
                            let k = choose|k: int|
                                0 <= k < i && (#[trigger] kept@[j]).0@ == (#[trigger] e[k]).0;
                        }
                    }
                }
            } else {
                proof {
                    assert(kept_at(prev.insert(e[i as int].0, e[i as int].1), token@, now)
                        =~= kept_at(prev, token@, now));
                    assert forall|j: int| 0 <= j < kept@.len() implies exists|k: int|
                        0 <= k < i + 1 && (#[trigger] kept@[j]).0@ == (#[trigger] e[k]).0 by {
                        let k = choose|k: int|
                            0 <= k < i && (#[trigger] kept@[j]).0@ == (#[trigger] e[k]).0;
                    }
                }
            }
            i += 1;
        }
        let ghost kv = kept@.map_values(|e: (String, Session)| (e.0@, e.1@));
        assert(e.take(n as int) =~= e);
        let session = Session {
            doc_id: to_owned_string(doc_id),
            user: to_owned_string(user),
            expires_at: if now <= i64::MAX - TTL_SECONDS {
                now + TTL_SECONDS
            } else {
                i64::MAX
            },
        };
        let ghost tok = token@;
        kept.push((token, session));
        proof {
            let kv2 = kept@.map_values(|e: (String, Session)| (e.0@, e.1@));
            assert(kv2.drop_last() =~= kv);
            assert(kv2.last().0 == tok);
            assert forall|a: int, b: int| 0 <= a < b < kv2.len() implies #[trigger] kv2[a].0
                != #[trigger] kv2[b].0 by {
                assert(kv2[a] == kv[a]);
                if b == kv2.len() - 1 {
                    lemma_pairs_map_index(kv, a);
                } else {
                    assert(kv2[b] == kv[b]);
                }
            }
            assert(pairs_map(kv2) =~= created(m, tok, doc_id@, user@, now));
        }
        self.entries = kept;
    }

    /// Mints a token for one document and returns it.
    ///
    /// The token is forty random ASCII letters and digits. The session is
    /// recorded for this document and user at the current time.
    pub fn create(&mut self, doc_id: &str, user: &str) -> (token: String)
        ensures
            is_token_shape(token@),
            exists|now: i64|
                final(self).view() == created(old(self).view(), token@, doc_id@, user@, now),
    {
        let token = random_token();
        let now = now_seconds();
        self.create_at(doc_id, user, token.clone(), now);
        token
    }

    /// The session of `token` when it is valid for `doc_id` right now.
    pub fn validate(&self, token: &str, doc_id: &str) -> (r: Option<Session>)
        ensures
            exists|now: i64|
                {
                    &&& (r matches Some(s) ==> validated(self.view(), token@, doc_id@, now) == Some(
                        s@,
                    ))
                    &&& (r is None ==> validated(self.view(), token@, doc_id@, now) is None)
                },
            r matches Some(s) ==> self.view().dom().contains(token@) && self.view()[token@] == s@
                && s@.doc_id == doc_id@,
    {
        let now = now_seconds();
        self.validate_at(token, doc_id, now)
    }

    /// Whether `token` is recorded for `doc_id`, whether or not it has expired.
    pub fn binds(&self, token: &str, doc_id: &str) -> (r: bool)
        ensures
            r == (self.view().dom().contains(token@) && self.view()[token@].doc_id == doc_id@),
    {
        proof {
            use_type_invariant(self);
        }
        let n = self.entries.len();
        let ghost e = self.pairs();
        let mut i: usize = 0;
        while i < n
            invariant
                n == self.entries@.len(),
                e == self.pairs(),
                distinct_keys(e),
                0 <= i <= n,
                forall|j: int| 0 <= j < i ==> (#[trigger] e[j]).0 != token@,
            decreases n - i,
        {
            let entry = &self.entries[i];
            assert(e[i as int] == (entry.0@, entry.1@));
            if str_eq(entry.0.as_str(), token) {
                proof {
                    lemma_pairs_map_index(e, i as int);
                }
                return str_eq(entry.1.doc_id.as_str(), doc_id);
            }
            i += 1;
        }
        proof {
            lemma_pairs_map_dom(e, token@);
        }
        false
    }
}

/// A token works for its document from the moment it is minted until its
/// expiry, twelve hours later, and the session it unlocks names the user it
/// was minted for; from the expiry on it no longer works.
pub proof fn lemma_created_token_validates(
    m: Map<Seq<char>, SessionView>,
    token: Seq<char>,
    doc_id: Seq<char>,
    user: Seq<char>,
    now: i64,
    later: i64,
)
    requires
        now <= later,
    ensures
        now <= i64::MAX - TTL_SECONDS ==> expiry_after(now) == now + TTL_SECONDS,
        later < expiry_after(now) ==> validated(created(m, token, doc_id, user, now), token, doc_id, later)
            == Some(SessionView { doc_id, user, expires_at: expiry_after(now) }),
        later >= expiry_after(now) ==> validated(created(m, token, doc_id, user, now), token, doc_id, later)
            is None,
{
}

/// A token never unlocks a document other than the one it was minted for.
pub proof fn lemma_token_bound_to_document(
    m: Map<Seq<char>, SessionView>,
    token: Seq<char>,
    doc_id: Seq<char>,
    user: Seq<char>,
    now: i64,
    other_doc: Seq<char>,
    later: i64,
)
    requires
        other_doc != doc_id,
    ensures
        validated(created(m, token, doc_id, user, now), token, other_doc, later) is None,
{
}

/// Once its expiry time has come, a session no longer validates.
pub proof fn lemma_expired_session_rejected(
    m: Map<Seq<char>, SessionView>,
    token: Seq<char>,
    doc_id: Seq<char>,
    now: i64,
)
    requires
        m.dom().contains(token),
        m[token].expires_at <= now,
    ensures
        validated(m, token, doc_id, now) is None,
{
}

/// Minting a token leaves what every other token answers from then on
/// unchanged: the clean-up only drops sessions that had already expired.
pub proof fn lemma_create_keeps_other_tokens(
    m: Map<Seq<char>, SessionView>,
    token: Seq<char>,
    doc_id: Seq<char>,
    user: Seq<char>,
    now: i64,
    other: Seq<char>,
    other_doc: Seq<char>,
    later: i64,
)
    requires
        other != token,
        now <= later,
    ensures
        validated(created(m, token, doc_id, user, now), other, other_doc, later) == validated(
            m,
            other,
            other_doc,
            later,
        ),
{
}

/// After a token is minted at time `now`, no session that had expired by
/// then is left in the table.
pub proof fn lemma_create_drops_expired(
    m: Map<Seq<char>, SessionView>,
    token: Seq<char>,
    doc_id: Seq<char>,
    user: Seq<char>,
    now: i64,
    k: Seq<char>,
)
    requires
        now < i64::MAX,
        created(m, token, doc_id, user, now).dom().contains(k),
    ensures
        created(m, token, doc_id, user, now)[k].expires_at > now,
{
}

/// `rand::thread_rng`: the lazily seeded generator of this thread.
#[verifier::external_body]
fn thread_rng() -> ThreadRng {
    rand::thread_rng()
}

/// `Rng::sample` with the `Alphanumeric` distribution: one byte drawn from
/// the ASCII letters and digits, as rand's documentation states.
#[verifier::external_body]
fn sample_alphanumeric(rng: &mut ThreadRng) -> (b: u8)
    ensures
        is_alnum_byte(b),
{
    rand::Rng::sample(rng, rand::distributions::Alphanumeric)
}

/// Forty random ASCII letters and digits.
fn random_token() -> (t: String)
    ensures
        is_token_shape(t@),
{
    let mut rng = thread_rng();
    let mut t = String::new();
    let mut i: usize = 0;
    while i < TOKEN_LEN
        invariant
            i <= TOKEN_LEN,
            t@.len() == i,
            forall|k: int| 0 <= k < i ==> is_alnum_byte(#[trigger] t@[k] as u8) && (t@[k] as u32)
                < 128,
        decreases TOKEN_LEN - i,
    {
        let b = sample_alphanumeric(&mut rng);
        let c = b as char;
        assert((c as u8) == b && (c as u32) < 128);
        push_char(&mut t, c);
        i += 1;
    }
    t
}

/// `SystemTime::now`.
#[verifier::external_body]
fn system_now() -> SystemTime {
    SystemTime::now()
}

/// `SystemTime::duration_since(UNIX_EPOCH)`.
#[verifier::external_body]
fn since_unix_epoch(t: &SystemTime) -> Result<Duration, SystemTimeError> {
    t.duration_since(std::time::UNIX_EPOCH)
}

/// `Duration::as_secs`.
#[verifier::external_body]
fn whole_seconds(d: &Duration) -> u64 {
    d.as_secs()
}

/// Unix seconds now, or 0 when the clock reads before 1970. Seconds past
/// `i64::MAX` wrap, as an `as` cast does.
pub fn now_seconds() -> i64 {
    let t = system_now();
    match since_unix_epoch(&t) {
        Ok(d) => whole_seconds(&d) as i64,
        Err(_) => 0,
    }
}

} // verus!

verus! {

#[verifier::external_type_specification]
#[verifier::external_body]
pub struct ExThreadRng(ThreadRng);

#[verifier::external_type_specification]
#[verifier::external_body]
pub struct ExSystemTime(SystemTime);

#[verifier::external_type_specification]
#[verifier::external_body]
pub struct ExSystemTimeError(SystemTimeError);

} // verus!
