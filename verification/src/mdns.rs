//! mDNS/Bonjour advertisement of the host.
//!
//! The host announces its name, port and Collabora URL onto the local link,
//! and every client picks it up without anyone typing an IP address.
use vstd::prelude::*;
use crate::text::{
    is_space, trim_start_spec, trim_end_spec, lemma_trim_shape,
    chars_of, push_char, trim, trim_spec, to_owned_string, to_lowercase, lowercase, dec_spec,
    push_decimal,
};
use crate::config::{Config, ipv4_text};

verus! {

/// The DNS-SD service type the host announces and clients browse for.
pub const SERVICE_TYPE: &'static str = "_locollab._tcp.local.";

/// The name with every `.` turned into `-`.
pub open spec fn undotted(name: Seq<char>) -> Seq<char> {
    name.map_values(|c: char| if c == '.' { '-' } else { c })
}

/// mDNS instance labels must not contain dots; everything else is tolerated.
/// A blank result falls back to "LibreOffice-Collab".
pub open spec fn sanitise_instance_spec(name: Seq<char>) -> Seq<char> {
    if trim_spec(undotted(name)).len() == 0 {
        "LibreOffice-Collab"@
    } else {
        trim_spec(undotted(name))
    }
}

/// The instance label is a usable mDNS label: never empty, without dots,
/// without whitespace at either end, and sanitising it again keeps it.
pub proof fn lemma_instance_label(name: Seq<char>)
    ensures
        sanitise_instance_spec(name).len() > 0,
        !sanitise_instance_spec(name).contains('.'),
        trim_spec(sanitise_instance_spec(name)) == sanitise_instance_spec(name),
        sanitise_instance_spec(sanitise_instance_spec(name)) == sanitise_instance_spec(name),
{
    reveal_strlit("LibreOffice-Collab");
    let u = undotted(name);
    let r = sanitise_instance_spec(name);
    lemma_trim_shape(u);
    if trim_spec(u).len() == 0 {
        assert(r == "LibreOffice-Collab"@);
        assert forall|i: int| 0 <= i < r.len() implies #[trigger] r[i] != '.' by {}
        assert(!is_space(r[0]) && !is_space(r.last()));
        assert(trim_start_spec(r) == r);
        assert(trim_end_spec(r) == r);
    } else {
        assert forall|i: int| 0 <= i < r.len() implies #[trigger] r[i] != '.' by {
            assert(u.contains(r[i]));
            let j = choose|j: int| 0 <= j < u.len() && u[j] == r[i];
            assert(u[j] != '.');
        }
    }
    assert(undotted(r) =~= r);
    lemma_trim_shape(r);
}

pub fn sanitise_instance(name: &str) -> (r: String)
    ensures
        r@ == sanitise_instance_spec(name@),
{
    let v = chars_of(name);
    let mut cleaned = String::new();
    let mut i: usize = 0;
    while i < v.len()
        invariant
            v@ == name@,
            0 <= i <= v@.len(),
            cleaned@ == undotted(name@).take(i as int),
        decreases v.len() - i,
    {
        let c = v[i];
        push_char(&mut cleaned, if c == '.' { '-' } else { c });
        proof {
            assert(cleaned@ =~= undotted(name@).take(i + 1));
        }
        i += 1;
    }
    proof {
        assert(undotted(name@).take(v@.len() as int) =~= undotted(name@));
    }
    let t = trim(cleaned.as_str());
    if t.as_str().is_empty() {
        to_owned_string("LibreOffice-Collab")
    } else {
        t
    }
}

/// The host name announced for the service: the lower-cased instance name in `.local.`.
pub fn host_name(name: &str) -> (r: String)
    ensures
        r@ == lowercase(sanitise_instance_spec(name@)) + ".local."@,
{
    let instance = sanitise_instance(name);
    let mut h = to_lowercase(instance.as_str());
    h.append(".local.");
    h
}

/// `<name> @ <ip>:<port>`, for the startup banner.
pub fn describe(config: &Config) -> (r: String)
    ensures
        r@ == config.name@ + " @ "@ + ipv4_text(config.public_ip) + ":"@ + dec_spec(
            config.port as nat,
        ),
{
    let mut s = config.name.clone();
    s.append(" @ ");
    config.public_ip.push_text(&mut s);
    s.append(":");
    push_decimal(&mut s, config.port as u64);
    proof {
        assert(s@ =~= config.name@ + " @ "@ + ipv4_text(config.public_ip) + ":"@ + dec_spec(
            config.port as nat,
        ));
    }
    s
}

/// The TXT records of the advert: the friendly name, the server version,
/// the Collabora URL and the scheme of the REST/WOPI endpoint.
pub fn service_properties(config: &Config, version: &str) -> (r: Vec<(String, String)>)
    ensures
        r@.len() == 4,
        r@[0].0@ == "name"@ && r@[0].1@ == config.name@,
        r@[1].0@ == "version"@ && r@[1].1@ == version@,
        r@[2].0@ == "cool"@ && r@[2].1@ == config.cool_url@,
        r@[3].0@ == "scheme"@ && r@[3].1@ == "http"@,
{
    let mut r: Vec<(String, String)> = Vec::new();
    r.push((to_owned_string("name"), config.name.clone()));
    r.push((to_owned_string("version"), to_owned_string(version)));
    r.push((to_owned_string("cool"), config.cool_url.clone()));
    r.push((to_owned_string("scheme"), to_owned_string("http")));
    r
}

} // verus!
