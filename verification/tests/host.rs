use libreoffice_collab::api::{open_session, session_lang, session_links, session_user, urlencode, AppState, ApiError, SessionQuery};
use libreoffice_collab::config::{default_docs_dir, flag_value, machine_name, parse_u16, Config, ConfigEnv, Ipv4};
use libreoffice_collab::docs::{
    decode_id, document_entry, encode_id, extension, is_decodable_id, kind_for, list_entries, resolve, resolve_name,
    sort_newest_first, DirEntryInfo, DocumentDto, FileMeta,
};
use libreoffice_collab::mdns::{describe, host_name, sanitise_instance, service_properties};
use libreoffice_collab::sessions::Sessions;
use std::path::PathBuf;

fn ip(a: u8, b: u8, c: u8, d: u8) -> Ipv4 {
    Ipv4 { octets: [a, b, c, d] }
}

fn config() -> Config {
    Config {
        docs_dir: "/nonexistent-shared-folder".to_string(),
        port: 7373,
        cool_url: "http://192.168.1.50:9980".to_string(),
        name: "Escritorio".to_string(),
        public_ip: ip(192, 168, 1, 50),
    }
}

#[test]
fn urlencode_keeps_unreserved() {
    assert_eq!(urlencode("AZaz09-_.~"), "AZaz09-_.~");
}

#[test]
fn urlencode_escapes_bytes_upper_hex() {
    assert_eq!(urlencode("a b/é"), "a%20b%2F%C3%A9");
    assert_eq!(urlencode("http://h:1/x?y=z&w"), "http%3A%2F%2Fh%3A1%2Fx%3Fy%3Dz%26w");
    assert_eq!(urlencode(""), "");
}

#[test]
fn urlencode_leaves_ids_alone() {
    let id = encode_id("Relatório final.odt");
    assert_eq!(urlencode(&id), id);
}

#[test]
fn encode_id_is_lower_hex_of_utf8() {
    assert_eq!(encode_id("a.odt"), "612e6f6474");
    assert_eq!(encode_id("é"), "c3a9");
    assert_eq!(encode_id(""), "");
}

#[test]
fn decode_id_round_trip() {
    for name in ["a.odt", "Relatório final.odt", "数据.xlsx", "x"] {
        assert_eq!(decode_id(&encode_id(name)).as_deref(), Some(name));
    }
}

#[test]
fn decode_id_rejects_malformed() {
    assert_eq!(decode_id(""), None);
    assert_eq!(decode_id("abc"), None);
    assert_eq!(decode_id("zz"), None);
    assert_eq!(decode_id("ff"), None);
    assert_eq!(decode_id("-1"), None);
}

#[test]
fn decode_id_accepts_upper_case_and_plus_sign() {
    assert_eq!(decode_id("612E").as_deref(), Some("a."));
    assert_eq!(decode_id("+a").as_deref(), Some("\n"));
}

#[test]
fn decodable_ids() {
    assert!(is_decodable_id("612e"));
    assert!(is_decodable_id("abc"));
    assert!(is_decodable_id("éé"));
    assert!(is_decodable_id("aé b"));
    assert!(!is_decodable_id("aéb"));
    assert!(is_decodable_id("zzé"));
}

#[test]
fn resolve_name_refuses_escapes() {
    assert_eq!(resolve_name(&encode_id("a.odt")).as_deref(), Some("a.odt"));
    assert_eq!(resolve_name(&encode_id("../a.odt")), None);
    assert_eq!(resolve_name(&encode_id("sub/a.odt")), None);
    assert_eq!(resolve_name(&encode_id("sub\\a.odt")), None);
    assert_eq!(resolve_name(&encode_id("C:a.odt")), None);
    assert_eq!(resolve_name(&encode_id("a..odt")), None);
    assert_eq!(resolve_name("zz"), None);
}

#[test]
fn resolve_needs_an_existing_file() {
    assert!(resolve("/nonexistent-shared-folder", &encode_id("a.odt")).is_none());
    assert!(resolve("/nonexistent-shared-folder", &encode_id("../etc")).is_none());
}

#[test]
fn kinds_of_extensions() {
    assert_eq!(kind_for("odt"), Some("text"));
    assert_eq!(kind_for("docx"), Some("text"));
    assert_eq!(kind_for("csv"), Some("spreadsheet"));
    assert_eq!(kind_for("pptx"), Some("presentation"));
    assert_eq!(kind_for("odg"), Some("drawing"));
    assert_eq!(kind_for("pdf"), None);
    assert_eq!(kind_for("ODT"), None);
}

#[test]
fn extensions_as_path_reads_them() {
    assert_eq!(extension("a.odt").as_deref(), Some("odt"));
    assert_eq!(extension("a.tar.gz").as_deref(), Some("gz"));
    assert_eq!(extension(".bashrc"), None);
    assert_eq!(extension("noext"), None);
    assert_eq!(extension("a.").as_deref(), Some(""));
    assert_eq!(extension(".."), None);
    assert_eq!(extension(".a.b").as_deref(), Some("b"));
}

#[test]
fn document_entry_filters() {
    let d = document_entry("Plano.ODS".to_string(), true, 10, Some(99)).unwrap();
    assert_eq!(d.id, encode_id("Plano.ODS"));
    assert_eq!(d.name, "Plano.ODS");
    assert_eq!(d.extension, "ods");
    assert_eq!(d.kind, "spreadsheet");
    assert_eq!(d.size, 10);
    assert_eq!(d.modified, 99);
    assert!(document_entry("a.odt".to_string(), false, 1, None).is_none());
    assert!(document_entry(".~lock.a.odt#".to_string(), true, 1, None).is_none());
    assert!(document_entry("~$a.docx".to_string(), true, 1, None).is_none());
    assert!(document_entry("foto.png".to_string(), true, 1, None).is_none());
    assert_eq!(document_entry("a.odt".to_string(), true, 1, None).unwrap().modified, 0);
}

fn dto(name: &str, modified: i64) -> DocumentDto {
    DocumentDto {
        id: encode_id(name),
        name: name.to_string(),
        extension: "odt".to_string(),
        kind: "text".to_string(),
        size: 0,
        modified,
    }
}

#[test]
fn sort_is_newest_first_and_stable() {
    let sorted = sort_newest_first(vec![dto("a", 1), dto("b", 3), dto("c", 1), dto("d", 2), dto("e", 3)]);
    let names: Vec<&str> = sorted.iter().map(|d| d.name.as_str()).collect();
    assert_eq!(names, ["b", "e", "d", "a", "c"]);
}

#[test]
fn list_entries_filters_and_sorts() {
    let entry = |name: &str, meta: Option<(bool, u64)>| DirEntryInfo {
        name: name.to_string(),
        metadata: meta.map(|(is_file, modified)| FileMeta { is_file, size: 1, modified: Some(modified) }),
    };
    let docs = list_entries(vec![
        entry("old.odt", Some((true, 1))),
        entry("pasta.odt", Some((false, 9))),
        entry("new.xlsx", Some((true, 5))),
        entry("broken.odt", None),
        entry("img.png", Some((true, 7))),
    ]);
    let names: Vec<&str> = docs.iter().map(|d| d.name.as_str()).collect();
    assert_eq!(names, ["new.xlsx", "old.odt"]);
}

#[test]
fn parse_port_like_std() {
    for text in ["7373", "+80", "0", "08080", "65535", "65536", "", "+", "-1", "80a", " 80", "99999999999"] {
        assert_eq!(parse_u16(text), text.parse::<u16>().ok(), "{text}");
    }
}

#[test]
fn flag_values() {
    let args: Vec<String> = ["--port", "8000", "--dir", "--name"].iter().map(|s| s.to_string()).collect();
    assert_eq!(flag_value(&args, "--port").as_deref(), Some("8000"));
    assert_eq!(flag_value(&args, "--dir").as_deref(), Some("--name"));
    assert_eq!(flag_value(&args, "--name"), None);
    assert_eq!(flag_value(&args, "--cool"), None);
}

#[test]
fn config_precedence() {
    let args: Vec<String> = ["--port", "x", "--cool", "http://c:9980//"].iter().map(|s| s.to_string()).collect();
    let env = ConfigEnv {
        dir: None,
        port: Some("9000".to_string()),
        cool_url: Some("http://env".to_string()),
        name: Some("Env name".to_string()),
    };
    let c = Config::from_sources(&args, &env, "documentos".to_string(), "Host".to_string(), ip(10, 0, 0, 7));
    // A flag that does not parse does not fall back to the environment.
    assert_eq!(c.port, 7373);
    assert_eq!(c.cool_url, "http://c:9980");
    assert_eq!(c.name, "Env name");
    assert_eq!(c.docs_dir, "documentos");
    let none = ConfigEnv { dir: None, port: None, cool_url: None, name: None };
    let d = Config::from_sources(&vec![], &none, "documentos".to_string(), "Host".to_string(), ip(10, 0, 0, 7));
    assert_eq!(d.port, 7373);
    assert_eq!(d.cool_url, "http://10.0.0.7:9980");
    assert_eq!(d.name, "Host");
    let e = Config::from_sources(&vec!["--dir".to_string(), "/srv/docs".to_string(), "--port".to_string(), "+8080".to_string()], &env, "documentos".to_string(), "Host".to_string(), ip(10, 0, 0, 7));
    assert_eq!(e.docs_dir, "/srv/docs");
    let env_dir = ConfigEnv { dir: Some("/env/docs".to_string()), port: None, cool_url: None, name: None };
    let f = Config::from_sources(&vec![], &env_dir, "documentos".to_string(), "Host".to_string(), ip(10, 0, 0, 7));
    assert_eq!(f.docs_dir, "/env/docs");
    let g = Config::from_sources(&vec!["--dir".to_string(), "/flag".to_string()], &env_dir, "documentos".to_string(), "Host".to_string(), ip(10, 0, 0, 7));
    assert_eq!(g.docs_dir, "/flag");
    let h = Config::from_sources(&vec!["--dir".to_string()], &env_dir, "documentos".to_string(), "Host".to_string(), ip(10, 0, 0, 7));
    assert_eq!(h.docs_dir, "/env/docs");
    assert_eq!(e.port, 8080);
    assert_eq!(e.cool_url, "http://env");
}

#[test]
fn base_url_and_describe() {
    let c = config();
    assert_eq!(c.base_url(), "http://192.168.1.50:7373");
    assert_eq!(describe(&c), "Escritorio @ 192.168.1.50:7373");
    let loopback = Config { public_ip: Ipv4::localhost(), port: 0, ..config() };
    assert_eq!(loopback.base_url(), "http://127.0.0.1:0");
}

#[test]
fn defaults_of_host() {
    assert_eq!(
        PathBuf::from(default_docs_dir(Some("C:\\Users\\Public".to_string()))),
        PathBuf::from("C:\\Users\\Public").join("Documentos Partilhados")
    );
    assert_eq!(default_docs_dir(Some("/home/public".to_string())), "/home/public/Documentos Partilhados");
    assert_eq!(default_docs_dir(None), "documentos");
    assert_eq!(machine_name(Some("PC1".to_string()), Some("h".to_string())), "PC1");
    assert_eq!(machine_name(None, Some("h".to_string())), "h");
    assert_eq!(machine_name(None, None), "LibreOffice Collab");
}

#[test]
fn instance_names() {
    assert_eq!(sanitise_instance("Escritorio.Piso 2"), "Escritorio-Piso 2");
    assert_eq!(sanitise_instance("  a.b  "), "a-b");
    assert_eq!(sanitise_instance("   "), "LibreOffice-Collab");
    assert_eq!(sanitise_instance(""), "LibreOffice-Collab");
    assert_eq!(host_name("Office PC.1"), "office pc-1.local.");
    assert_eq!(host_name(""), "libreoffice-collab.local.");
}

#[test]
fn advert_properties() {
    let props = service_properties(&config(), "1.2.3");
    let pairs: Vec<(&str, &str)> = props.iter().map(|(k, v)| (k.as_str(), v.as_str())).collect();
    assert_eq!(pairs, [("name", "Escritorio"), ("version", "1.2.3"), ("cool", "http://192.168.1.50:9980"), ("scheme", "http")]);
}

#[test]
fn session_defaults() {
    assert_eq!(session_user(None), "Utilizador");
    assert_eq!(session_user(Some(" \t".to_string())), "Utilizador");
    assert_eq!(session_user(Some(" Ana ".to_string())), " Ana ");
    assert_eq!(session_lang(None), "pt-PT");
    assert_eq!(session_lang(Some("en".to_string())), "en");
}

#[test]
fn session_links_format() {
    let links = session_links(&config(), "612e6f6474", "TOKEN1", "pt-PT");
    assert_eq!(links.wopi_src, "http://192.168.1.50:7373/wopi/files/612e6f6474");
    assert_eq!(
        links.editor_url,
        "http://192.168.1.50:9980/browser/dist/cool.html?WOPISrc=http%3A%2F%2F192.168.1.50%3A7373%2Fwopi%2Ffiles%2F612e6f6474&access_token=TOKEN1&lang=pt-PT"
    );
}

#[test]
fn open_session_unknown_document() {
    let mut state = AppState { config: config(), sessions: Sessions::new() };
    let r = open_session(&mut state, &encode_id("missing.odt"), SessionQuery { lang: None, user: None });
    assert!(matches!(r, Err(ApiError::NotFound)));
}

#[test]
fn instance_labels_are_stable() {
    for name in ["Escritório. Piso 2", "   ", "a.b.c", " x "] {
        let once = sanitise_instance(name);
        assert!(!once.is_empty());
        assert!(!once.contains('.'));
        assert_eq!(once.trim(), once);
        assert_eq!(sanitise_instance(&once), once);
    }
}
