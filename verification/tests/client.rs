use libreoffice_collab::discovery::{to_server, BrowseEvent, DiscoveredServer, Discovery, IpText, ServiceRecord};
use libreoffice_collab::github::{latest_release_url, version_of, Release};
use libreoffice_collab::i18n::{fill, strings};
use libreoffice_collab::server::{
    documents_url, editor_title, editor_window, health_url, manual_server, normalise_base_url, server_from_parts, session_request_url, window_label,
    Health, UrlParts,
};
use libreoffice_collab::settings::{language_for_locale, AppSettings};
use libreoffice_collab::updater::{background_plan, next_check_delay, installed_notification, no_update, offered_update, update_notification, with_release_notes};

fn record(fullname: &str, addrs: &[(bool, &str)], name: Option<&str>) -> ServiceRecord {
    ServiceRecord {
        fullname: fullname.to_string(),
        addresses: addrs.iter().map(|(v4, t)| IpText { is_ipv4: *v4, text: t.to_string() }).collect(),
        port: 7373,
        scheme: None,
        cool: None,
        name: name.map(|s| s.to_string()),
        version: None,
    }
}

#[test]
fn to_server_prefers_ipv4() {
    let s = to_server(&record("Esc._locollab._tcp.local.", &[(false, "fe80::1"), (true, "192.168.1.9")], Some("Escritório"))).unwrap();
    assert_eq!(s.id, "Esc._locollab._tcp.local.");
    assert_eq!(s.name, "Escritório");
    assert_eq!(s.host, "192.168.1.9");
    assert_eq!(s.port, 7373);
    assert_eq!(s.base_url, "http://192.168.1.9:7373");
    assert_eq!(s.cool_url, "http://192.168.1.9:9980");
    assert_eq!(s.version, "");
    assert!(!s.manual);
}

#[test]
fn to_server_falls_back() {
    let s = to_server(&record("Es\\ c.ritorio._locollab._tcp.local.", &[(false, "fe80::1"), (true, "10.0.0.3")], Some(""))).unwrap();
    assert_eq!(s.name, "Es c");
    assert_eq!(s.base_url, "http://10.0.0.3:7373");
    assert!(to_server(&record("v6._locollab._tcp.local.", &[(false, "fe80::1"), (false, "::1")], None)).is_none());
    assert!(to_server(&record("x._locollab._tcp.local.", &[], None)).is_none());
    let mut rec = record("y", &[(true, "10.0.0.2")], None);
    rec.scheme = Some("https".to_string());
    rec.cool = Some("http://cool".to_string());
    rec.version = Some("1.0".to_string());
    let t = to_server(&rec).unwrap();
    assert_eq!(t.name, "y");
    assert_eq!(t.base_url, "https://10.0.0.2:7373");
    assert_eq!(t.cool_url, "http://cool");
    assert_eq!(t.version, "1.0");
}

fn names(list: &[DiscoveredServer]) -> Vec<&str> {
    list.iter().map(|s| s.name.as_str()).collect()
}

#[test]
fn discovery_table_events() {
    let mut d = Discovery::new();
    assert!(d.apply(BrowseEvent::Resolved(record("b.x", &[(true, "10.0.0.2")], Some("beta")))));
    assert!(d.apply(BrowseEvent::Resolved(record("a.x", &[(true, "10.0.0.1")], Some("Alfa")))));
    assert!(d.apply(BrowseEvent::Resolved(record("c.x", &[(true, "10.0.0.3")], Some("Charlie")))));
    assert!(!d.apply(BrowseEvent::Resolved(record("z.x", &[], None))));
    assert_eq!(names(&d.snapshot()), ["Alfa", "beta", "Charlie"]);
    assert!(d.apply(BrowseEvent::Resolved(record("b.x", &[(true, "10.0.0.2")], Some("Bravo")))));
    assert_eq!(d.snapshot().len(), 3);
    assert!(d.apply(BrowseEvent::Removed("a.x".to_string())));
    assert!(!d.apply(BrowseEvent::Removed("a.x".to_string())));
    assert!(!d.apply(BrowseEvent::Other));
    assert_eq!(names(&d.snapshot()), ["Bravo", "Charlie"]);
    assert_eq!(d.servers().len(), 2);
    d.clear();
    assert!(d.snapshot().is_empty());
}

#[test]
fn resolve_then_remove_restores() {
    let mut d = Discovery::new();
    d.apply(BrowseEvent::Resolved(record("a.x", &[(true, "10.0.0.1")], Some("Alfa"))));
    d.apply(BrowseEvent::Resolved(record("n.x", &[(true, "10.0.0.5")], Some("Novo"))));
    d.apply(BrowseEvent::Removed("n.x".to_string()));
    assert_eq!(names(&d.snapshot()), ["Alfa"]);
}

#[test]
fn github_release_helpers() {
    assert_eq!(version_of("v1.2.3"), "1.2.3");
    assert_eq!(version_of("1.2.3"), "1.2.3");
    assert_eq!(version_of("vv1"), "v1");
    assert_eq!(version_of(""), "");
    assert_eq!(latest_release_url(), "https://api.github.com/repos/your-org/libreoffice-collab/releases/latest");
}

#[test]
fn strings_by_language() {
    assert_eq!(strings("en").tray_quit, "Quit");
    assert_eq!(strings("pt").tray_quit, "Sair");
    assert_eq!(strings("en-GB").tray_show, "Abrir LibreOffice Collab");
    assert_eq!(strings("").update_installed_title, "Atualização instalada");
}

#[test]
fn fill_placeholders() {
    assert_eq!(fill("A versão {version} já está disponível.", "version", "1.2.3"), "A versão 1.2.3 já está disponível.");
    assert_eq!(fill("{a}{a}-{b}", "a", "x"), "xx-{b}");
    assert_eq!(fill("no placeholder", "version", "1"), "no placeholder");
    assert_eq!(fill("{{v}}", "v", "1"), "{1}");
}

#[test]
fn normalise_addresses() {
    assert_eq!(normalise_base_url(" 192.168.1.5:7373/ "), "http://192.168.1.5:7373");
    assert_eq!(normalise_base_url("https://x//"), "https://x");
    assert_eq!(normalise_base_url("http://h"), "http://h");
    assert_eq!(normalise_base_url(""), "http://");
    assert_eq!(health_url("h:1"), "http://h:1/api/health");
    assert_eq!(documents_url("h:1/"), "http://h:1/api/documents");
}

#[test]
fn session_request_urls() {
    assert_eq!(
        session_request_url("10.0.0.1:7373", "612e", "pt-PT", "Ana Sá"),
        "http://10.0.0.1:7373/api/session/612e?lang=pt-PT&user=Ana%20S%C3%A1"
    );
}

#[test]
fn window_labels_and_titles() {
    assert_eq!(window_label("612e-6f.64"), "editor_612e_6f_64");
    assert_eq!(window_label(""), "editor_");
    assert_eq!(window_label("é"), "editor__");
    assert_eq!(editor_title("a.odt"), "a.odt — LibreOffice Collab");
}

#[test]
fn manual_servers() {
    let h = Health { ok: true, name: String::new(), version: "1.0".to_string(), cool_url: "http://c:9980".to_string() };
    let s = manual_server("http://10.0.0.1:8000".to_string(), h).unwrap();
    assert_eq!(s.id, "manual");
    assert_eq!(s.name, "http://10.0.0.1:8000");
    assert_eq!(s.host, "10.0.0.1");
    assert_eq!(s.port, 8000);
    assert_eq!(s.base_url, "http://10.0.0.1:8000");
    assert_eq!(s.cool_url, "http://c:9980");
    assert_eq!(s.version, "1.0");
    assert!(s.manual);
    let named = Health { ok: true, name: "Sala".to_string(), version: String::new(), cool_url: String::new() };
    let t = manual_server("http://host".to_string(), named).unwrap();
    assert_eq!(t.name, "Sala");
    assert_eq!(t.port, 7373);
    let bad = Health { ok: true, name: String::new(), version: String::new(), cool_url: String::new() };
    assert!(manual_server("http://".to_string(), bad).is_err());
}

#[test]
fn editor_windows() {
    let w = editor_window("612e6f6474", "a.odt", "http://c:9980/browser/dist/cool.html?x=1".to_string()).ok().unwrap();
    assert_eq!(w.label, "editor_612e6f6474");
    assert_eq!(w.title, "a.odt — LibreOffice Collab");
    assert_eq!(w.url, "http://c:9980/browser/dist/cool.html?x=1");
    assert!(editor_window("612e", "a.odt", "not a url".to_string()).is_err());
}

#[test]
fn servers_from_address_parts() {
    let h = Health { ok: true, name: String::new(), version: "2.0".to_string(), cool_url: "http://c:9980".to_string() };
    let s = server_from_parts(
        "http://10.0.0.2:9000".to_string(),
        h,
        UrlParts { host: Some("10.0.0.2".to_string()), port: Some(9000) },
    );
    assert_eq!(s.name, "http://10.0.0.2:9000");
    assert_eq!(s.host, "10.0.0.2");
    assert_eq!(s.port, 9000);
    let named = Health { ok: true, name: "Sala".to_string(), version: String::new(), cool_url: String::new() };
    let t = server_from_parts("file:///x".to_string(), named, UrlParts { host: None, port: None });
    assert_eq!(t.name, "Sala");
    assert_eq!(t.host, "");
    assert_eq!(t.port, 7373);
    assert_eq!(t.id, "manual");
    assert!(t.manual);
}

#[test]
fn languages_from_locale() {
    assert_eq!(language_for_locale(Some("pt_BR.UTF-8".to_string())), "pt");
    assert_eq!(language_for_locale(Some("PT-pt".to_string())), "pt");
    assert_eq!(language_for_locale(Some("en_US".to_string())), "en");
    assert_eq!(language_for_locale(Some(String::new())), "pt");
    assert_eq!(language_for_locale(None), "pt");
}

#[test]
fn settings_defaults_and_saving() {
    let mut s = AppSettings::for_locale(Some("de_DE".to_string()));
    assert_eq!(s.language, "en");
    assert_eq!(s.theme, "system");
    assert!(s.auto_discover);
    assert_eq!(s.server_url, "");
    assert!(!s.auto_install_updates);
    assert!(!s.start_minimized);
    assert_eq!(s.last_update_check, 0);
    let mut new = AppSettings::defaults("pt".to_string());
    new.theme = "dark".to_string();
    assert!(s.replace_with(&new));
    assert_eq!(s.theme, "dark");
    assert!(!s.replace_with(&new));
    s.record_update_check(1234);
    assert_eq!(s.last_update_check, 1234);
    assert_eq!(s.theme, "dark");
}

#[test]
fn update_information() {
    let none = no_update("1.0.0".to_string());
    assert!(!none.available);
    assert_eq!(none.version, "1.0.0");
    assert_eq!(none.notes, "");
    let offer = offered_update("1.0.0".to_string(), "1.1.0".to_string(), Some("manifest".to_string()), None);
    assert!(offer.available);
    let rel = |tag: &str, body: &str| Release { tag_name: tag.to_string(), body: body.to_string(), published_at: "2024-05-01".to_string() };
    let enriched = with_release_notes(offer, Some(rel("v1.1.0", "changelog")));
    assert_eq!(enriched.notes, "changelog");
    assert_eq!(enriched.date, "2024-05-01");
    let blank = with_release_notes(
        offered_update("1.0.0".to_string(), "1.1.0".to_string(), Some("manifest".to_string()), Some("d".to_string())),
        Some(rel("v1.1.0", "  \n")),
    );
    assert_eq!(blank.notes, "manifest");
    assert_eq!(blank.date, "d");
    let other = with_release_notes(offered_update("1.0.0".to_string(), "1.1.0".to_string(), None, None), Some(rel("v1.2.0", "x")));
    assert_eq!(other.notes, "");
    assert_eq!(other.date, "");
}

#[test]
fn background_plans() {
    let p = background_plan(Some(true), true);
    assert!(p.record_check && p.install && !p.notify);
    let q = background_plan(Some(true), false);
    assert!(q.record_check && !q.install && q.notify);
    let r = background_plan(Some(false), true);
    assert!(r.record_check && !r.install && !r.notify);
    let f = background_plan(None, true);
    assert!(!f.record_check && !f.install && !f.notify);
}

#[test]
fn notifications() {
    let (title, body) = update_notification("en", "1.2.3");
    assert_eq!(title, "New version available");
    assert_eq!(body, "Version 1.2.3 is available. Update and restart?");
    let (pt_title, pt_body) = update_notification("pt", "2.0");
    assert_eq!(pt_title, "Nova versão disponível");
    assert_eq!(pt_body, "A versão 2.0 já está disponível. Atualizar e reiniciar?");
    let (done, restart) = installed_notification("en");
    assert_eq!(done, "Update installed");
    assert_eq!(restart, "LibreOffice Collab will restart to finish.");
}

#[test]
fn normalising_twice_changes_nothing() {
    for input in ["  192.168.1.50:7373/ ", "https://h/", "http://x"] {
        let once = normalise_base_url(input);
        assert_eq!(normalise_base_url(&once), once);
    }
    assert_eq!(normalise_base_url("a /"), "http://a ");
    assert_eq!(normalise_base_url("http://a "), "http://a");
}

#[test]
fn update_check_cadence() {
    assert_eq!(next_check_delay(true), 8);
    assert_eq!(next_check_delay(false), 6 * 60 * 60);
}

#[test]
fn fill_single_and_absent_placeholders() {
    assert_eq!(fill("Hi {who}, bye", "who", "Ana"), "Hi Ana, bye");
    assert_eq!(fill("no placeholder {x}", "who", "Ana"), "no placeholder {x}");
}
