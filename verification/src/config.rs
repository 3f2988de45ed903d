//! Runtime configuration.
//!
//! Everything has a working default so the server can be started with no
//! arguments. Command-line flags win over environment variables, which win
//! over the defaults.
use vstd::prelude::*;
use crate::paths::{join, path_join};
use crate::text::{clone_opt, digit_char, lemma_dec_spec_digits, dec_spec, push_decimal, str_eq, trim_end_char, trim_end_char_spec, chars_of, to_owned_string};

verus! {

/// The default port of the REST and WOPI endpoints.
pub const DEFAULT_PORT: u16 = 7373;

/// The port Collabora Online listens on next to this host.
pub const COOL_PORT: u64 = 9980;

/// An IPv4 address, by its four octets.
pub struct Ipv4 {
    pub octets: [u8; 4],
}

/// Dotted-decimal notation, as `Ipv4Addr`'s `Display` writes it.
pub open spec fn ipv4_text(ip: Ipv4) -> Seq<char> {
    dec_spec(ip.octets@[0] as nat) + "."@ + dec_spec(ip.octets@[1] as nat) + "."@ + dec_spec(
        ip.octets@[2] as nat,
    ) + "."@ + dec_spec(ip.octets@[3] as nat)
}

impl Ipv4 {
    /// 127.0.0.1, used when the machine has no route to the LAN.
    pub fn localhost() -> (r: Ipv4)
        ensures
            r.octets@ == seq![127u8, 0u8, 0u8, 1u8],
    {
        Ipv4 { octets: [127, 0, 0, 1] }
    }

    /// Appends the dotted-decimal notation of the address.
    pub fn push_text(&self, s: &mut String)
        ensures
            final(s)@ == old(s)@ + ipv4_text(*self),
    {
        push_decimal(s, self.octets[0] as u64);
        s.append(".");
        push_decimal(s, self.octets[1] as u64);
        s.append(".");
        push_decimal(s, self.octets[2] as u64);
        s.append(".");
        push_decimal(s, self.octets[3] as u64);
        proof {
            assert(final(s)@ =~= old(s)@ + ipv4_text(*self));
        }
    }
}

/// Runtime configuration of the host.
pub struct Config {
    /// Folder whose files are offered for collaborative editing, as a path text.
    pub docs_dir: String,
    /// Port for the REST + WOPI endpoints.
    pub port: u16,
    /// Base URL of the Collabora Online container, e.g. "http://192.168.1.50:9980".
    pub cool_url: String,
    /// Friendly name shown in the client's server list.
    pub name: String,
    /// LAN address other machines use to reach this host.
    pub public_ip: Ipv4,
}

/// `http://<ip>:<port>`.
pub open spec fn base_url_spec(ip: Ipv4, port: u16) -> Seq<char> {
    "http://"@ + ipv4_text(ip) + ":"@ + dec_spec(port as nat)
}

impl Config {
    /// Base URL that clients and Collabora use to reach this server.
    pub fn base_url(&self) -> (r: String)
        ensures
            r@ == base_url_spec(self.public_ip, self.port),
    {
        let mut s = String::new();
        s.append("http://");
        self.public_ip.push_text(&mut s);
        s.append(":");
        push_decimal(&mut s, self.port as u64);
        proof {
            assert(s@ =~= base_url_spec(self.public_ip, self.port));
        }
        s
    }

    /// The configuration from the command-line arguments (without the program
    /// name), the `COLLAB_*` environment variables, and the defaults.
    ///
    /// Flags: --dir <path> --port <n> --cool <url> --name <text>
    pub fn from_sources(
        args: &Vec<String>,
        env: &ConfigEnv,
        default_dir: String,
        default_name: String,
        public_ip: Ipv4,
    ) -> (r: Config)
        ensures
            r.port == (match flag_spec(args@.map_values(|a: String| a@), "--port"@) {
                Some(v) => parse_u16_spec(v),
                None => match env.port {
                    Some(v) => parse_u16_spec(v@),
                    None => None,
                },
            }).unwrap_or(DEFAULT_PORT),
            r.cool_url@ == trim_end_char_spec(
                match flag_spec(args@.map_values(|a: String| a@), "--cool"@) {
                    Some(v) => v,
                    None => match env.cool_url {
                        Some(v) => v@,
                        None => "http://"@ + ipv4_text(public_ip) + ":9980"@,
                    },
                },
                '/',
            ),
            r.name@ == (match flag_spec(args@.map_values(|a: String| a@), "--name"@) {
                Some(v) => v,
                None => match env.name {
                    Some(v) => v@,
                    None => default_name@,
                },
            }),
            r.public_ip == public_ip,
            r.docs_dir@ == (match flag_spec(args@.map_values(|a: String| a@), "--dir"@) {
                Some(v) => v,
                None => match env.dir {
                    Some(v) => v@,
                    None => default_dir@,
                },
            }),
    {
        let dir_text = match flag_value(args, "--dir") {
            Some(v) => Some(v),
            None => clone_opt(&env.dir),
        };
        let docs_dir = match dir_text {
            Some(t) => t,
            None => default_dir,
        };
        let port_text = match flag_value(args, "--port") {
            Some(v) => Some(v),
            None => clone_opt(&env.port),
        };
        let port = match port_text {
            Some(t) => match parse_u16(t.as_str()) {
                Some(p) => p,
                None => DEFAULT_PORT,
            },
            None => DEFAULT_PORT,
        };
        let cool_text = match flag_value(args, "--cool") {
            Some(v) => v,
            None => match clone_opt(&env.cool_url) {
                Some(v) => v,
                None => {
                    let mut s = String::new();
                    s.append("http://");
                    public_ip.push_text(&mut s);
                    s.append(":9980");
                    s
                },
            },
        };
        let cool_url = trim_end_char(cool_text.as_str(), '/');
        let name = match flag_value(args, "--name") {
            Some(v) => v,
            None => match clone_opt(&env.name) {
                Some(v) => v,
                None => default_name,
            },
        };
        Config { docs_dir, port, cool_url, name, public_ip }
    }
}

/// The `COLLAB_DIR`, `COLLAB_PORT`, `COLLAB_COOL_URL` and `COLLAB_NAME`
/// environment variables, when set.
pub struct ConfigEnv {
    pub dir: Option<String>,
    pub port: Option<String>,
    pub cool_url: Option<String>,
    pub name: Option<String>,
}

/// The shared folder when none is configured: `<PUBLIC>\Documentos
/// Partilhados` when the `PUBLIC` variable is set (Windows), else
/// `documentos` (relative to the working folder). The argument is the value
/// of `PUBLIC`.
pub fn default_docs_dir(public: Option<String>) -> (r: String)
    ensures
        r@ == (match public {
            Some(p) => path_join(p@, "Documentos Partilhados"@),
            None => "documentos"@,
        }),
{
    match public {
        Some(p) => join(p.as_str(), "Documentos Partilhados"),
        None => to_owned_string("documentos"),
    }
}

/// The host's name when none is configured: the `COMPUTERNAME` variable,
/// else `HOSTNAME`, else "LibreOffice Collab".
pub fn machine_name(computer_name: Option<String>, host_name: Option<String>) -> (r: String)
    ensures
        r@ == (match computer_name {
            Some(c) => c@,
            None => match host_name {
                Some(h) => h@,
                None => "LibreOffice Collab"@,
            },
        }),
{
    match computer_name {
        Some(c) => c,
        None => match host_name {
            Some(h) => h,
            None => to_owned_string("LibreOffice Collab"),
        },
    }
}

/// The first position of `name` among the arguments.
pub open spec fn first_index(args: Seq<Seq<char>>, name: Seq<char>) -> Option<int>
    decreases args.len(),
{
    if args.len() == 0 {
        None
    } else if args[0] == name {
        Some(0)
    } else {
        match first_index(args.drop_first(), name) {
            Some(i) => Some(i + 1),
            None => None,
        }
    }
}

/// The argument that follows the first occurrence of the flag `name`, if any.
pub open spec fn flag_spec(args: Seq<Seq<char>>, name: Seq<char>) -> Option<Seq<char>> {
    match first_index(args, name) {
        Some(i) => if i + 1 < args.len() {
            Some(args[i + 1])
        } else {
            None
        },
        None => None,
    }
}

proof fn lemma_first_index(args: Seq<Seq<char>>, name: Seq<char>, i: int)
    requires
        0 <= i <= args.len(),
        forall|k: int| 0 <= k < i ==> args[k] != name,
    ensures
        i < args.len() && args[i] == name ==> first_index(args, name) == Some(i),
        i == args.len() ==> first_index(args, name) is None,
    decreases i,
{
    if i > 0 {
        lemma_first_index(args.drop_first(), name, i - 1);
    }
}

/// A flag's value is the argument right after its first occurrence; a flag
/// that never occurs, or whose first occurrence is the last argument, has
/// no value.
pub proof fn lemma_flag_value_after_first(args: Seq<Seq<char>>, name: Seq<char>, i: int)
    requires
        0 <= i <= args.len(),
        forall|k: int| 0 <= k < i ==> args[k] != name,
    ensures
        i + 1 < args.len() && args[i] == name ==> flag_spec(args, name) == Some(args[i + 1]),
        i + 1 == args.len() && args[i] == name ==> flag_spec(args, name) is None,
        i == args.len() ==> flag_spec(args, name) is None,
{
    lemma_first_index(args, name, i);
}

/// The value given to flag `name` on the command line.
pub fn flag_value(args: &Vec<String>, name: &str) -> (r: Option<String>)
    ensures
        r matches Some(v) ==> flag_spec(args@.map_values(|a: String| a@), name@) == Some(v@),
        r is None ==> flag_spec(args@.map_values(|a: String| a@), name@) is None,
{
    let ghost views = args@.map_values(|a: String| a@);
    let mut i: usize = 0;
    while i < args.len()
        invariant
            views == args@.map_values(|a: String| a@),
            0 <= i <= args@.len(),
            forall|k: int| 0 <= k < i ==> views[k] != name@,
        decreases args.len() - i,
    {
        if str_eq(args[i].as_str(), name) {
            proof {
                lemma_first_index(views, name@, i as int);
            }
            if i + 1 < args.len() {
                return Some(args[i + 1].clone());
            } else {
                return None;
            }
        }
        i += 1;
    }
    proof {
        lemma_first_index(views, name@, i as int);
    }
    None
}

/// The value of a run of ASCII decimal digits.
pub open spec fn digits_value(s: Seq<char>) -> nat
    decreases s.len(),
{
    if s.len() == 0 {
        0
    } else {
        digits_value(s.drop_last()) * 10 + ((s.last() as u32) - 48) as nat
    }
}

pub open spec fn all_digits(s: Seq<char>) -> bool {
    forall|i: int| 0 <= i < s.len() ==> '0' <= #[trigger] s[i] <= '9'
}

/// The text after an optional leading `+`.
pub open spec fn sign_stripped(s: Seq<char>) -> Seq<char> {
    if s.len() > 0 && s[0] == '+' {
        s.drop_first()
    } else {
        s
    }
}

/// What `str::parse::<u16>` gives: an optional `+` sign followed by at least
/// one decimal digit, with a value that fits in 16 bits.
pub open spec fn parse_u16_spec(s: Seq<char>) -> Option<u16> {
    let digits = sign_stripped(s);
    if digits.len() > 0 && all_digits(digits) && digits_value(digits) <= 65535 {
        Some(digits_value(digits) as u16)
    } else {
        None
    }
}

proof fn lemma_digits_value_monotone(s: Seq<char>, i: int)
    requires
        0 <= i <= s.len(),
        all_digits(s),
    ensures
        digits_value(s.subrange(0, i)) <= digits_value(s),
    decreases s.len() - i,
{
    if i < s.len() {
        lemma_digits_value_monotone(s, i + 1);
        assert(s.subrange(0, i + 1).drop_last() =~= s.subrange(0, i));
    } else {
        assert(s.subrange(0, i) =~= s);
    }
}

proof fn lemma_digits_value_dec(n: nat)
    ensures
        digits_value(dec_spec(n)) == n,
        all_digits(dec_spec(n)),
    decreases n,
{
    lemma_dec_spec_digits(n);
    if n >= 10 {
        lemma_digits_value_dec(n / 10);
        let p = dec_spec(n / 10);
        assert(dec_spec(n) == p.push(digit_char((n % 10) as int)));
        assert(dec_spec(n).drop_last() =~= p);
        assert((dec_spec(n).last() as u32) == 48 + n % 10);
        assert(digits_value(dec_spec(n)) == digits_value(p) * 10 + ((dec_spec(n).last() as u32) - 48) as nat);
        assert(n == (n / 10) * 10 + n % 10);
    } else {
        assert(dec_spec(n) == seq![digit_char(n as int)]);
        assert(dec_spec(n).drop_last() =~= Seq::<char>::empty());
        assert((dec_spec(n).last() as u32) == 48 + n);
        assert(digits_value(dec_spec(n)) == digits_value(Seq::<char>::empty()) * 10 + ((dec_spec(n).last() as u32) - 48) as nat);
    }
}

/// Port numbers read back what `Display` writes: the decimal text of every
/// 16-bit number parses to that number, and a leading `+` is accepted.
pub proof fn lemma_parse_u16_reads_decimal(n: u16)
    ensures
        parse_u16_spec(dec_spec(n as nat)) == Some(n),
        parse_u16_spec(seq!['+'] + dec_spec(n as nat)) == Some(n),
{
    lemma_digits_value_dec(n as nat);
    lemma_dec_spec_digits(n as nat);
    assert(dec_spec(n as nat)[0] != '+');
    assert((seq!['+'] + dec_spec(n as nat)).drop_first() =~= dec_spec(n as nat));
}

/// `str::parse::<u16>`, as a function on the text.
pub fn parse_u16(s: &str) -> (r: Option<u16>)
    ensures
        r == parse_u16_spec(s@),
{
    let v = chars_of(s);
    let start: usize = if v.len() > 0 && v[0] == '+' {
        1
    } else {
        0
    };
    let ghost digits = sign_stripped(s@);
    assert(digits =~= v@.subrange(start as int, v@.len() as int));
    if start >= v.len() {
        return None;
    }
    let mut value: u32 = 0;
    let mut i: usize = start;
    while i < v.len()
        invariant
            v@ == s@,
            start <= i <= v@.len(),
            digits == sign_stripped(s@),
            digits =~= v@.subrange(start as int, v@.len() as int),
            all_digits(v@.subrange(start as int, i as int)),
            value as nat == digits_value(v@.subrange(start as int, i as int)),
            value <= 65535,
        decreases v.len() - i,
    {
        let c = v[i];
        if !('0' <= c && c <= '9') {
            proof {
                assert(digits[i - start] == c);
                assert(!all_digits(digits));
                assert(parse_u16_spec(s@) is None);
            }
            return None;
        }
        let d = (c as u32) - 48;
        proof {
            assert(v@.subrange(start as int, i + 1).drop_last() =~= v@.subrange(start as int, i as int));
            assert(v@.subrange(start as int, i + 1).last() == c);
        }
        if value > 6553 || value * 10 + d > 65535 {
            proof {
                let sub = v@.subrange(start as int, i + 1);
                assert(digits_value(sub) == digits_value(sub.drop_last()) * 10 + ((sub.last() as u32) - 48) as nat);
                assert(digits_value(sub) == value * 10 + d);
                assert(digits_value(v@.subrange(start as int, i + 1)) > 65535);
                assert forall|k: int| 0 <= k < i + 1 - start implies '0' <= #[trigger] v@.subrange(
                    start as int,
                    i + 1,
                )[k] <= '9' by {
                    if k < i - start {
                        assert(v@.subrange(start as int, i + 1)[k] == v@.subrange(
                            start as int,
                            i as int,
                        )[k]);
                    }
                }
                if all_digits(digits) {
                    assert(v@.subrange(start as int, i + 1) =~= digits.subrange(0, i + 1 - start));
                    lemma_digits_value_monotone(digits, i + 1 - start);
                }
                assert(parse_u16_spec(s@) is None);
            }
            return None;
        }
        value = value * 10 + d;
        proof {
            assert forall|k: int| 0 <= k < i + 1 - start implies '0' <= #[trigger] v@.subrange(
                start as int,
                i + 1,
            )[k] <= '9' by {
                if k < i - start {
                    assert(v@.subrange(start as int, i + 1)[k] == v@.subrange(start as int, i as int)[k]);
                }
            }
        }
        i += 1;
    }
    Some(value as u16)
}

} // verus!
