//! Zero-configuration server discovery over mDNS (Bonjour).
//!
//! The host advertises `_locollab._tcp.local.` with a few TXT records; every
//! client browses for it continuously. This module turns resolved records
//! into servers and keeps the table of what the browser currently sees,
//! keyed by mDNS full name.
//!
//! TXT records published by the host:
//!   name    friendly host name, e.g. "Escritorio - Piso 2"
//!   version server version
//!   cool    Collabora Online base URL, e.g. "http://192.168.1.50:9980"
//!   scheme  "http" or "https" for the REST/WOPI endpoint
use vstd::prelude::*;
use vstd::utf8::encode_utf8;
use vstd::seq_lib::{to_multiset_insert, to_multiset_build, to_multiset_contains};
use crate::text::{
    opt_view, chars_of, push_char, push_decimal, dec_spec, to_owned_string, str_eq, to_lowercase, lowercase,
    bytes_le, bytes_le_exec, lemma_bytes_le_total, lemma_bytes_le_trans,
};
use crate::keyed::{
    pairs_map, distinct_keys, lemma_pairs_map_dom, lemma_pairs_map_index, lemma_pairs_map_take_next,
    lemma_distinct_push,
};

verus! {

/// A collaboration host the client can connect to.
pub struct DiscoveredServer {
    /// mDNS instance full name, or "manual" for a hand-typed address.
    pub id: String,
    pub name: String,
    pub host: String,
    pub port: u16,
    pub base_url: String,
    pub cool_url: String,
    pub version: String,
    pub manual: bool,
}

/// A server as plain values.
pub struct ServerView {
    pub id: Seq<char>,
    pub name: Seq<char>,
    pub host: Seq<char>,
    pub port: u16,
    pub base_url: Seq<char>,
    pub cool_url: Seq<char>,
    pub version: Seq<char>,
    pub manual: bool,
}

impl View for DiscoveredServer {
    type V = ServerView;

    open spec fn view(&self) -> ServerView {
        ServerView {
            id: self.id@,
            name: self.name@,
            host: self.host@,
            port: self.port,
            base_url: self.base_url@,
            cool_url: self.cool_url@,
            version: self.version@,
            manual: self.manual,
        }
    }
}

impl DiscoveredServer {
    /// A field-by-field copy.
    pub fn duplicate(&self) -> (r: DiscoveredServer)
        ensures
            r@ == self@,
    {
        DiscoveredServer {
            id: self.id.clone(),
            name: self.name.clone(),
            host: self.host.clone(),
            port: self.port,
            base_url: self.base_url.clone(),
            cool_url: self.cool_url.clone(),
            version: self.version.clone(),
            manual: self.manual,
        }
    }
}

/// One address of a resolved record, written as `IpAddr`'s `Display` writes it.
pub struct IpText {
    pub is_ipv4: bool,
    pub text: String,
}

/// A resolved mDNS record: its full name, its addresses in the order the
/// resolver lists them, its port, and the TXT properties that are read.
pub struct ServiceRecord {
    pub fullname: String,
    pub addresses: Vec<IpText>,
    pub port: u16,
    pub scheme: Option<String>,
    pub cool: Option<String>,
    pub name: Option<String>,
    pub version: Option<String>,
}

/// The position of the first IPv4 address.
pub open spec fn first_ipv4(a: Seq<IpText>) -> Option<int>
    decreases a.len(),
{
    if a.len() == 0 {
        None
    } else if a[0].is_ipv4 {
        Some(0)
    } else {
        match first_ipv4(a.drop_first()) {
            Some(i) => Some(i + 1),
            None => None,
        }
    }
}

/// The address used to reach a host: its first IPv4 address. Collabora and
/// the WOPI host are reached by literal address, and IPv6 link-local
/// addresses need a zone index that URLs cannot carry, so a host with no
/// IPv4 address has no usable address.
pub open spec fn chosen_address(a: Seq<IpText>) -> Option<Seq<char>> {
    match first_ipv4(a) {
        Some(i) => Some(a[i].text@),
        None => None,
    }
}

/// The text before the first `c`, or all of it.
pub open spec fn before_char(s: Seq<char>, c: char) -> Seq<char>
    decreases s.len(),
{
    if s.len() == 0 || s[0] == c {
        seq![]
    } else {
        seq![s[0]] + before_char(s.drop_first(), c)
    }
}

/// The text with every `c` removed.
pub open spec fn without_char(s: Seq<char>, c: char) -> Seq<char>
    decreases s.len(),
{
    if s.len() == 0 {
        seq![]
    } else if s.last() == c {
        without_char(s.drop_last(), c)
    } else {
        without_char(s.drop_last(), c).push(s.last())
    }
}

/// The friendly name of a host: its `name` property when present and not
/// empty, else the first label of its full name without backslashes
/// ("Escritorio._locollab._tcp.local." gives "Escritorio").
pub open spec fn server_name_spec(prop: Option<Seq<char>>, fullname: Seq<char>) -> Seq<char> {
    match prop {
        Some(v) => if v.len() > 0 {
            v
        } else {
            without_char(before_char(fullname, '.'), '\\')
        },
        None => without_char(before_char(fullname, '.'), '\\'),
    }
}

/// The server a resolved record describes; `None` when it has no IPv4 address.
pub open spec fn to_server_spec(rec: ServiceRecord) -> Option<ServerView> {
    match chosen_address(rec.addresses@) {
        Some(ip) => {
            let scheme = match rec.scheme {
                Some(s) => s@,
                None => "http"@,
            };
            Some(
                ServerView {
                    id: rec.fullname@,
                    name: server_name_spec(opt_view(rec.name), rec.fullname@),
                    host: ip,
                    port: rec.port,
                    base_url: scheme + "://"@ + ip + ":"@ + dec_spec(rec.port as nat),
                    cool_url: match rec.cool {
                        Some(c) => c@,
                        None => "http://"@ + ip + ":9980"@,
                    },
                    version: match rec.version {
                        Some(v) => v@,
                        None => Seq::<char>::empty(),
                    },
                    manual: false,
                },
            )
        },
        None => None,
    }
}

proof fn lemma_first_ipv4(a: Seq<IpText>, i: int)
    requires
        0 <= i <= a.len(),
        forall|k: int| 0 <= k < i ==> !(#[trigger] a[k]).is_ipv4,
    ensures
        i < a.len() && a[i].is_ipv4 ==> first_ipv4(a) == Some(i),
        i == a.len() ==> first_ipv4(a) is None,
    decreases i,
{
    if i > 0 {
        lemma_first_ipv4(a.drop_first(), i - 1);
    }
}

/// The first label of a full name, without backslashes.
fn fallback_name(fullname: &str) -> (r: String)
    ensures
        r@ == without_char(before_char(fullname@, '.'), '\\'),
{
    let v = chars_of(fullname);
    let mut end: usize = 0;
    while end < v.len() && v[end] != '.'
        invariant
            0 <= end <= v@.len(),
            forall|k: int| 0 <= k < end ==> #[trigger] v@[k] != '.',
        decreases v.len() - end,
    {
        end += 1;
    }
    proof {
        lemma_before_char(v@, '.', end as int);
    }
    let mut out = String::new();
    let mut i: usize = 0;
    while i < end
        invariant
            v@ == fullname@,
            end <= v@.len(),
            0 <= i <= end,
            out@ == without_char(v@.take(i as int), '\\'),
        decreases end - i,
    {
        assert(v@.take(i + 1).drop_last() =~= v@.take(i as int));
        if v[i] != '\\' {
            push_char(&mut out, v[i]);
        }
        i += 1;
    }
    out
}

proof fn lemma_before_char(s: Seq<char>, c: char, end: int)
    requires
        0 <= end <= s.len(),
        forall|k: int| 0 <= k < end ==> #[trigger] s[k] != c,
        end == s.len() || s[end] == c,
    ensures
        before_char(s, c) == s.take(end),
    decreases end,
{
    if end > 0 {
        lemma_before_char(s.drop_first(), c, end - 1);
        assert(seq![s[0]] + s.drop_first().take(end - 1) =~= s.take(end));
    } else {
        assert(s.take(0) =~= Seq::<char>::empty());
    }
}

/// Turns a resolved mDNS record into something the UI can display; a host
/// without a usable IPv4 address is ignored rather than shown as a broken entry.
pub fn to_server(rec: &ServiceRecord) -> (r: Option<DiscoveredServer>)
    ensures
        r matches Some(s) ==> to_server_spec(*rec) == Some(s@),
        r is None ==> to_server_spec(*rec) is None,
{
    let n = rec.addresses.len();
    let mut i: usize = 0;
    while i < n && !rec.addresses[i].is_ipv4
        invariant
            n == rec.addresses@.len(),
            0 <= i <= n,
            forall|k: int| 0 <= k < i ==> !(#[trigger] rec.addresses@[k]).is_ipv4,
        decreases n - i,
    {
        i += 1;
    }
    proof {
        lemma_first_ipv4(rec.addresses@, i as int);
    }
    let ip: String = if i < n {
        rec.addresses[i].text.clone()
    } else {
        return None;
    };
    let mut base_url = match &rec.scheme {
        Some(s) => s.clone(),
        None => to_owned_string("http"),
    };
    base_url.append("://");
    base_url.append(ip.as_str());
    base_url.append(":");
    push_decimal(&mut base_url, rec.port as u64);
    let cool_url = match &rec.cool {
        Some(c) => c.clone(),
        None => {
            let mut c = to_owned_string("http://");
            c.append(ip.as_str());
            c.append(":9980");
            c
        },
    };
    let name = match &rec.name {
        Some(v) => if !v.as_str().is_empty() {
            v.clone()
        } else {
            fallback_name(rec.fullname.as_str())
        },
        None => fallback_name(rec.fullname.as_str()),
    };
    let version = match &rec.version {
        Some(v) => v.clone(),
        None => String::new(),
    };
    Some(
        DiscoveredServer {
            id: rec.fullname.clone(),
            name,
            host: ip,
            port: rec.port,
            base_url,
            cool_url,
            version,
            manual: false,
        },
    )
}

/// What the browser reports.
pub enum BrowseEvent {
    /// A service instance was resolved.
    Resolved(ServiceRecord),
    /// The instance with this full name went away.
    Removed(String),
    /// Anything else (searches starting and stopping, ...).
    Other,
}

/// The table after an event.
pub open spec fn after_event(m: Map<Seq<char>, ServerView>, e: BrowseEvent) -> Map<Seq<char>, ServerView> {
    match e {
        BrowseEvent::Resolved(rec) => match to_server_spec(rec) {
            Some(s) => m.insert(s.id, s),
            None => m,
        },
        BrowseEvent::Removed(name) => m.remove(name@),
        BrowseEvent::Other => m,
    }
}

/// Whether an event changes what the UI must show: a resolved record with
/// an IPv4 address, or the removal of a known host.
pub open spec fn event_changes(m: Map<Seq<char>, ServerView>, e: BrowseEvent) -> bool {
    match e {
        BrowseEvent::Resolved(rec) => to_server_spec(rec) is Some,
        BrowseEvent::Removed(name) => m.dom().contains(name@),
        BrowseEvent::Other => false,
    }
}

/// The sort key of a server: its lower-cased name, compared as `String`s are.
pub open spec fn name_key(name: Seq<char>) -> Seq<u8> {
    encode_utf8(lowercase(name))
}

/// Everything the browser currently sees, keyed by mDNS full name.
pub struct Discovery {
    servers: Vec<DiscoveredServer>,
}

impl Discovery {
    spec fn pairs(self) -> Seq<(Seq<char>, ServerView)> {
        self.servers@.map_values(|s: DiscoveredServer| (s.id@, s@))
    }

    #[verifier::type_invariant]
    spec fn ids_distinct(self) -> bool {
        distinct_keys(self.pairs())
    }

    /// The hosts currently seen, keyed by full name.
    pub closed spec fn view(self) -> Map<Seq<char>, ServerView> {
        pairs_map(self.pairs())
    }

    pub fn new() -> (r: Discovery)
        ensures
            r@ == Map::<Seq<char>, ServerView>::empty(),
    {
        let r = Discovery { servers: Vec::new() };
        proof {
            assert(r.pairs().len() == 0);
        }
        r
    }

    /// Forgets every host, so stale hosts disappear when browsing stops.
    pub fn clear(&mut self)
        ensures
            final(self)@ == Map::<Seq<char>, ServerView>::empty(),
    {
        self.servers = Vec::new();
        proof {
            assert(self.pairs().len() == 0);
        }
    }

    /// The table without the host `id`, and whether it was there.
    fn take_out(&self, id: &str) -> (r: (Vec<DiscoveredServer>, bool))
        ensures
            distinct_keys(r.0@.map_values(|s: DiscoveredServer| (s.id@, s@))),
            pairs_map(r.0@.map_values(|s: DiscoveredServer| (s.id@, s@))) == self@.remove(id@),
            forall|j: int| 0 <= j < r.0@.len() ==> (#[trigger] r.0@[j]).id@ != id@,
            r.1 == self@.dom().contains(id@),
    {
        proof {
            use_type_invariant(self);
        }
        let ghost e = self.pairs();
        let n = self.servers.len();
        let mut kept: Vec<DiscoveredServer> = Vec::new();
        let mut found = false;
        let mut i: usize = 0;
        proof {
            assert(e.take(0) =~= Seq::<(Seq<char>, ServerView)>::empty());
            assert(kept@.map_values(|s: DiscoveredServer| (s.id@, s@)) =~= Seq::<(Seq<char>, ServerView)>::empty());
            assert(pairs_map(Seq::<(Seq<char>, ServerView)>::empty()).remove(id@) =~= Map::<Seq<char>, ServerView>::empty());
        }
        while i < n
            invariant
                n == self.servers@.len(),
                e == self.pairs(),
                distinct_keys(e),
                0 <= i <= n,
                distinct_keys(kept@.map_values(|s: DiscoveredServer| (s.id@, s@))),
                pairs_map(kept@.map_values(|s: DiscoveredServer| (s.id@, s@))) == pairs_map(
                    e.take(i as int),
                ).remove(id@),
                forall|j: int| 0 <= j < kept@.len() ==> (#[trigger] kept@[j]).id@ != id@,
                forall|j: int|
                    0 <= j < kept@.len() ==> exists|k: int|
                        0 <= k < i && (#[trigger] kept@[j]).id@ == (#[trigger] e[k]).0,
                found == exists|k: int| 0 <= k < i && (#[trigger] e[k]).0 == id@,
            decreases n - i,
        {
            let s = &self.servers[i];
            assert(e[i as int] == (s.id@, s@));
            let ghost kv = kept@.map_values(|s: DiscoveredServer| (s.id@, s@));
            let ghost prev = pairs_map(e.take(i as int));
            proof {
                lemma_pairs_map_take_next(e, i as int);
            }
            if str_eq(s.id.as_str(), id) {
                found = true;
                proof {
                    assert(prev.insert(e[i as int].0, e[i as int].1).remove(id@) =~= prev.remove(id@));
                }
            } else {
                kept.push(s.duplicate());
                proof {
                    let kv2 = kept@.map_values(|s: DiscoveredServer| (s.id@, s@));
                    assert(kv2 =~= kv.push(e[i as int]));
                    assert forall|a: int| 0 <= a < kv.len() implies (#[trigger] kv[a]).0 != e[i as int].0 by {
                        assert(kv[a].0 == kept@[a].id@);
                        let k = choose|k: int| 0 <= k < i && (#[trigger] kept@[a]).id@ == (#[trigger] e[k]).0;
                    }
                    lemma_distinct_push(kv, e[i as int]);
                    assert(prev.insert(e[i as int].0, e[i as int].1).remove(id@) =~= prev.remove(id@).insert(
                        e[i as int].0,
                        e[i as int].1,
                    ));
                }
            }
            proof {
                assert forall|j: int| 0 <= j < kept@.len() implies exists|k: int|
                    0 <= k < i + 1 && (#[trigger] kept@[j]).id@ == (#[trigger] e[k]).0 by {
                    if j < kv.len() {
                        let k = choose|k: int| 0 <= k < i && (#[trigger] kept@[j]).id@ == (#[trigger] e[k]).0;
                    } else {
                        assert(kept@[j].id@ == e[i as int].0);
                    }
                }
                if found {
                    if e[i as int].0 != id@ {
                        let k = choose|k: int| 0 <= k < i && (#[trigger] e[k]).0 == id@;
                    }
                }
            }
            i += 1;
        }
        proof {
            assert(e.take(n as int) =~= e);
            lemma_pairs_map_dom(e, id@);
        }
        (kept, found)
    }

    /// Applies one browser event; returns whether the visible list changed.
    pub fn apply(&mut self, event: BrowseEvent) -> (changed: bool)
        ensures
            final(self)@ == after_event(old(self)@, event),
            changed == event_changes(old(self)@, event),
    {
        match event {
            BrowseEvent::Resolved(rec) => match to_server(&rec) {
                Some(server) => {
                    let (mut kept, _) = self.take_out(server.id.as_str());
                    let ghost kv = kept@.map_values(|s: DiscoveredServer| (s.id@, s@));
                    let ghost sv = (server.id@, server@);
                    kept.push(server);
                    proof {
                        assert(kept@.map_values(|s: DiscoveredServer| (s.id@, s@)) =~= kv.push(sv));
                        assert forall|a: int| 0 <= a < kv.len() implies (#[trigger] kv[a]).0 != sv.0 by {
                            assert(kv[a].0 == kept@[a].id@);
                        }
                        lemma_distinct_push(kv, sv);
                        assert(old(self)@.remove(sv.0).insert(sv.0, sv.1) =~= old(self)@.insert(sv.0, sv.1));
                    }
                    self.servers = kept;
                    true
                },
                None => false,
            },
            BrowseEvent::Removed(name) => {
                let (kept, found) = self.take_out(name.as_str());
                self.servers = kept;
                found
            },
            BrowseEvent::Other => false,
        }
    }

    /// The hosts currently seen, in no particular order.
    pub fn servers(&self) -> (r: Vec<DiscoveredServer>)
        ensures
            forall|i: int| 0 <= i < r@.len() ==> self@.dom().contains((#[trigger] r@[i]).id@) && self@[r@[i].id@] == r@[i]@,
            forall|k: Seq<char>| #[trigger] self@.dom().contains(k) ==> exists|i: int| 0 <= i < r@.len() && (#[trigger] r@[i]).id@ == k,
            forall|i: int, j: int| 0 <= i < j < r@.len() ==> (#[trigger] r@[i]).id@ != (#[trigger] r@[j]).id@,
    {
        proof {
            use_type_invariant(self);
        }
        let ghost e = self.pairs();
        let mut out: Vec<DiscoveredServer> = Vec::new();
        let mut i: usize = 0;
        while i < self.servers.len()
            invariant
                e == self.pairs(),
                distinct_keys(e),
                0 <= i <= self.servers@.len(),
                out@.len() == i,
                forall|j: int| 0 <= j < i ==> (#[trigger] out@[j])@ == self.servers@[j]@,
            decreases self.servers.len() - i,
        {
            out.push(self.servers[i].duplicate());
            i += 1;
        }
        proof {
            assert forall|i: int| 0 <= i < out@.len() implies self@.dom().contains((#[trigger] out@[i]).id@) && self@[out@[i].id@] == out@[i]@ by {
                assert(e[i] == (out@[i].id@, out@[i]@));
                lemma_pairs_map_index(e, i);
            }
            assert forall|k: Seq<char>| #[trigger] self@.dom().contains(k) implies exists|i: int| 0 <= i < out@.len() && (#[trigger] out@[i]).id@ == k by {
                lemma_pairs_map_dom(e, k);
                let i = choose|i: int| 0 <= i < e.len() && #[trigger] e[i].0 == k;
                assert(out@[i].id@ == e[i].0);
            }
            assert forall|i: int, j: int| 0 <= i < j < out@.len() implies (#[trigger] out@[i]).id@ != (#[trigger] out@[j]).id@ by {
                assert(e[i].0 == out@[i].id@ && e[j].0 == out@[j].id@);
            }
        }
        out
    }

    /// Current snapshot, sorted by lower-cased name so the list does not jump
    /// around between renders.
    pub fn snapshot(&self) -> (r: Vec<DiscoveredServer>)
        ensures
            forall|i: int| 0 <= i < r@.len() ==> self@.dom().contains((#[trigger] r@[i]).id@) && self@[r@[i].id@] == r@[i]@,
            forall|k: Seq<char>| #[trigger] self@.dom().contains(k) ==> exists|i: int| 0 <= i < r@.len() && (#[trigger] r@[i]).id@ == k,
            distinct_ids(r@),
            sorted_by_name(r@),
    {
        let all = self.servers();
        let ghost c = all@;
        let mut rest = all;
        let mut out: Vec<DiscoveredServer> = Vec::new();
        let mut keys: Vec<String> = Vec::new();
        let ghost mut done: int = 0;
        proof {
            assert(c.take(0) =~= Seq::<DiscoveredServer>::empty());
            assert(out@ =~= Seq::<DiscoveredServer>::empty());
        }
        while rest.len() > 0
            invariant
                0 <= done <= c.len(),
                rest@ == c.skip(done),
                keys_match(keys@, out@),
                sorted_by_name(out@),
                out@.to_multiset() == c.take(done).to_multiset(),
                distinct_ids(c),
                distinct_ids(out@),
            decreases rest.len(),
        {
            let s = rest.remove(0);
            assert(s == c[done]);
            let ghost before = out@;
            proof {
                assert forall|j: int| 0 <= j < before.len() implies (#[trigger] before[j]).id@ != s.id@ by {
                    let k = lemma_member_index(before, c, done, j);
                    assert(c[k].id@ != c[done].id@);
                }
            }
            let p = insert_by_name(&mut out, &mut keys, s);
            proof {
                lemma_insert_distinct(before, p as int, s);
                to_multiset_insert(before, p as int, s);
                assert(c.take(done + 1) =~= c.take(done).push(s));
                to_multiset_build(c.take(done), s);
                assert(rest@ =~= c.skip(done + 1));
                done = done + 1;
            }
        }
        proof {
            assert(c.take(done) =~= c);
            assert forall|i: int| 0 <= i < out@.len() implies self@.dom().contains((#[trigger] out@[i]).id@) && self@[out@[i].id@] == out@[i]@ by {
                let j = lemma_member_index(out@, c, c.len() as int, i);
            }
            assert forall|k: Seq<char>| #[trigger] self@.dom().contains(k) implies exists|i: int| 0 <= i < out@.len() && (#[trigger] out@[i]).id@ == k by {
                let j = choose|j: int| 0 <= j < c.len() && (#[trigger] c[j]).id@ == k;
                to_multiset_contains(c, c[j]);
                to_multiset_contains(out@, c[j]);
                assert(c.contains(c[j]));
                let i = choose|i: int| 0 <= i < out@.len() && out@[i] == c[j];
                assert(out@[i].id@ == k);
            }
        }
        out
    }
}

/// An element of a run whose multiset is that of a prefix of `c` is an
/// element of that prefix.
proof fn lemma_member_index(out: Seq<DiscoveredServer>, c: Seq<DiscoveredServer>, done: int, i: int) -> (k: int)
    requires
        0 <= done <= c.len(),
        out.to_multiset() == c.take(done).to_multiset(),
        0 <= i < out.len(),
    ensures
        0 <= k < done,
        c[k] == out[i],
{
    to_multiset_contains(out, out[i]);
    to_multiset_contains(c.take(done), out[i]);
    assert(out.contains(out[i]));
    let k = choose|k: int| 0 <= k < c.take(done).len() && c.take(done)[k] == out[i];
    assert(c[k] == c.take(done)[k]);
    k
}

/// After a record with an address is resolved, its host is shown exactly as
/// the record describes it.
pub proof fn lemma_resolved_host_visible(m: Map<Seq<char>, ServerView>, rec: ServiceRecord)
    requires
        to_server_spec(rec) is Some,
    ensures
        after_event(m, BrowseEvent::Resolved(rec)).dom().contains(rec.fullname@),
        after_event(m, BrowseEvent::Resolved(rec))[rec.fullname@] == to_server_spec(rec).unwrap(),
        event_changes(m, BrowseEvent::Resolved(rec)),
{
}

/// Resolving a new host and then seeing it removed leaves the table as it was.
pub proof fn lemma_resolve_then_remove(m: Map<Seq<char>, ServerView>, rec: ServiceRecord, name: String)
    requires
        to_server_spec(rec) is Some,
        name@ == rec.fullname@,
        !m.dom().contains(rec.fullname@),
    ensures
        after_event(after_event(m, BrowseEvent::Resolved(rec)), BrowseEvent::Removed(name)) == m,
        event_changes(after_event(m, BrowseEvent::Resolved(rec)), BrowseEvent::Removed(name)),
{
    assert(after_event(after_event(m, BrowseEvent::Resolved(rec)), BrowseEvent::Removed(name)) =~= m);
}

/// The removal of a host that is not shown changes nothing, and is not
/// reported as a change.
pub proof fn lemma_remove_unknown(m: Map<Seq<char>, ServerView>, name: String)
    requires
        !m.dom().contains(name@),
    ensures
        after_event(m, BrowseEvent::Removed(name)) == m,
        !event_changes(m, BrowseEvent::Removed(name)),
{
    assert(after_event(m, BrowseEvent::Removed(name)) =~= m);
}

/// Resolving the same record again changes nothing more.
pub proof fn lemma_resolve_idempotent(m: Map<Seq<char>, ServerView>, rec: ServiceRecord)
    ensures
        after_event(after_event(m, BrowseEvent::Resolved(rec)), BrowseEvent::Resolved(rec)) == after_event(
            m,
            BrowseEvent::Resolved(rec),
        ),
{
    assert(after_event(after_event(m, BrowseEvent::Resolved(rec)), BrowseEvent::Resolved(rec)) =~= after_event(
        m,
        BrowseEvent::Resolved(rec),
    ));
}

/// No two servers share an id.
pub open spec fn distinct_ids(s: Seq<DiscoveredServer>) -> bool {
    forall|i: int, j: int| 0 <= i < j < s.len() ==> (#[trigger] s[i]).id@ != (#[trigger] s[j]).id@
}

/// In ascending order of lower-cased name.
pub open spec fn sorted_by_name(s: Seq<DiscoveredServer>) -> bool {
    forall|i: int, j: int| 0 <= i < j < s.len() ==> bytes_le(name_key((#[trigger] s[i]).name@), name_key((#[trigger] s[j]).name@))
}

/// The keys are the lower-cased names of the servers.
pub open spec fn keys_match(keys: Seq<String>, s: Seq<DiscoveredServer>) -> bool {
    keys.len() == s.len() && forall|i: int| 0 <= i < s.len() ==> (#[trigger] keys[i])@ == lowercase(s[i].name@)
}

proof fn lemma_insert_distinct(before: Seq<DiscoveredServer>, p: int, s: DiscoveredServer)
    requires
        0 <= p <= before.len(),
        distinct_ids(before),
        forall|j: int| 0 <= j < before.len() ==> (#[trigger] before[j]).id@ != s.id@,
    ensures
        distinct_ids(before.insert(p, s)),
{
    let out = before.insert(p, s);
    assert forall|i: int, j: int| 0 <= i < j < out.len() implies (#[trigger] out[i]).id@ != (#[trigger] out[j]).id@ by {
        if j < p {
            assert(out[i] == before[i] && out[j] == before[j]);
        } else if j == p {
            assert(out[i] == before[i]);
        } else if i == p {
            assert(out[j] == before[j - 1]);
        } else if i < p {
            assert(out[i] == before[i] && out[j] == before[j - 1]);
        } else {
            assert(out[i] == before[i - 1] && out[j] == before[j - 1]);
        }
    }
}

/// Inserts a server after every server whose name sorts before or with it.
fn insert_by_name(out: &mut Vec<DiscoveredServer>, keys: &mut Vec<String>, s: DiscoveredServer) -> (p: usize)
    requires
        keys_match(old(keys)@, old(out)@),
        sorted_by_name(old(out)@),
    ensures
        p <= old(out)@.len(),
        final(out)@ == old(out)@.insert(p as int, s),
        keys_match(final(keys)@, final(out)@),
        sorted_by_name(final(out)@),
{
    let key = to_lowercase(s.name.as_str());
    let mut p: usize = 0;
    while p < out.len() && bytes_le_exec(keys[p].as_str().as_bytes(), key.as_str().as_bytes())
        invariant
            0 <= p <= out@.len(),
            keys_match(keys@, out@),
            key@ == lowercase(s.name@),
            forall|i: int| 0 <= i < p ==> bytes_le(name_key((#[trigger] out@[i]).name@), name_key(s.name@)),
        decreases out.len() - p,
    {
        p += 1;
    }
    let ghost before = out@;
    let ghost bkeys = keys@;
    proof {
        assert forall|j: int| p <= j < before.len() implies bytes_le(name_key(s.name@), name_key((#[trigger] before[j]).name@)) by {
            assert(!bytes_le(name_key(before[p as int].name@), name_key(s.name@)));
            lemma_bytes_le_total(name_key(before[p as int].name@), name_key(s.name@));
            if j > p {
                lemma_bytes_le_trans(name_key(s.name@), name_key(before[p as int].name@), name_key(before[j].name@));
            }
        }
    }
    let ghost sv = s;
    out.insert(p, s);
    keys.insert(p, key);
    proof {
        assert forall|i: int| 0 <= i < out@.len() implies (#[trigger] keys@[i])@ == lowercase(out@[i].name@) by {
            if i < p {
                assert(out@[i] == before[i] && keys@[i] == bkeys[i]);
            } else if i > p {
                assert(out@[i] == before[i - 1] && keys@[i] == bkeys[i - 1]);
            }
        }
        assert forall|i: int, j: int| 0 <= i < j < out@.len() implies bytes_le(name_key((#[trigger] out@[i]).name@), name_key((#[trigger] out@[j]).name@)) by {
            if j < p {
                assert(out@[i] == before[i] && out@[j] == before[j]);
            } else if j == p {
                assert(out@[i] == before[i]);
            } else if i == p {
                assert(out@[j] == before[j - 1]);
            } else if i < p {
                assert(out@[i] == before[i] && out@[j] == before[j - 1]);
                lemma_bytes_le_trans(name_key(before[i].name@), name_key(sv.name@), name_key(before[j - 1].name@));
            } else {
                assert(out@[i] == before[i - 1] && out@[j] == before[j - 1]);
            }
        }
    }
    p
}

} // verus!
