use libreoffice_collab::api::{mint_session, open_session_found, ApiError, AppState, SessionQuery};
use libreoffice_collab::docs::{resolve_candidate, resolve_found};
use libreoffice_collab::config::{Config, Ipv4};
use libreoffice_collab::docs::encode_id;
use libreoffice_collab::sessions::{now_seconds, Sessions, TTL_SECONDS};
use libreoffice_collab::wopi::{authorise, authorise_at, authorise_found, check_upload, file_info, item_version, lock_echo, rfc3339, save_reason, HeaderText, WopiError};

fn config() -> Config {
    Config {
        docs_dir: "/nonexistent-shared-folder".to_string(),
        port: 7373,
        cool_url: "http://192.168.1.50:9980".to_string(),
        name: "Escritorio".to_string(),
        public_ip: Ipv4 { octets: [192, 168, 1, 50] },
    }
}

#[test]
fn minted_token_shape() {
    let mut s = Sessions::new();
    let t = s.create("612e6f6474", "Ana");
    assert_eq!(t.len(), 40);
    assert!(t.bytes().all(|b| b.is_ascii_alphanumeric()));
    let t2 = s.create("612e6f6474", "Ana");
    assert_ne!(t, t2);
}

#[test]
fn minted_token_validates_for_its_document() {
    let mut s = Sessions::new();
    let t = s.create("612e6f6474", "Ana");
    let session = s.validate(&t, "612e6f6474").unwrap();
    assert_eq!(session.doc_id, "612e6f6474");
    assert_eq!(session.user, "Ana");
    assert!(session.expires_at > now_seconds());
    assert!(session.expires_at <= now_seconds() + TTL_SECONDS);
}

#[test]
fn token_bound_to_document() {
    let mut s = Sessions::new();
    let t = s.create("612e6f6474", "Ana");
    assert!(s.validate(&t, "622e6f6474").is_none());
    assert!(s.validate("nope", "612e6f6474").is_none());
}

#[test]
fn session_expiry_at_fixed_times() {
    let mut s = Sessions::new();
    s.create_at("6161", "Ana", "tok".to_string(), 1000);
    assert_eq!(s.validate_at("tok", "6161", 1000).unwrap().expires_at, 1000 + TTL_SECONDS);
    assert!(s.validate_at("tok", "6161", 1000 + TTL_SECONDS - 1).is_some());
    assert!(s.validate_at("tok", "6161", 1000 + TTL_SECONDS).is_none());
}

#[test]
fn create_drops_expired_sessions_only() {
    let mut s = Sessions::new();
    s.create_at("6161", "Ana", "old".to_string(), 0);
    s.create_at("6262", "Rui", "live".to_string(), 40000);
    s.create_at("6363", "Eva", "new".to_string(), TTL_SECONDS);
    // "old" expired exactly at TTL_SECONDS and is gone even for earlier clocks.
    assert!(s.validate_at("old", "6161", 1).is_none());
    assert_eq!(s.validate_at("live", "6262", TTL_SECONDS).unwrap().user, "Rui");
    assert_eq!(s.validate_at("new", "6363", TTL_SECONDS).unwrap().user, "Eva");
}

#[test]
fn reminting_a_token_replaces_its_session() {
    let mut s = Sessions::new();
    s.create_at("6161", "Ana", "tok".to_string(), 10);
    s.create_at("6262", "Rui", "tok".to_string(), 20);
    assert!(s.validate_at("tok", "6161", 20).is_none());
    assert_eq!(s.validate_at("tok", "6262", 20).unwrap().user, "Rui");
}

#[test]
fn authorise_refusals() {
    let mut state = AppState { config: config(), sessions: Sessions::new() };
    let id = encode_id("a.odt");
    assert!(matches!(authorise(&state, &id, "bad"), Err(WopiError::Unauthorized)));
    let t = state.sessions.create(&id, "Ana");
    assert!(matches!(authorise(&state, &id, &t), Err(WopiError::NotFound)));
    assert!(matches!(authorise(&state, &encode_id("b.odt"), &t), Err(WopiError::Unauthorized)));
}

#[test]
fn item_versions() {
    assert_eq!(item_version(Some((Some(1700000000), 5120))), "1700000000_5120");
    assert_eq!(item_version(Some((None, 7))), "0_7");
    assert_eq!(item_version(None), "0_0");
    assert_eq!(item_version(Some((Some(u64::MAX), 0))), "18446744073709551615_0");
}

#[test]
fn rfc3339_timestamps() {
    assert_eq!(rfc3339(0), "1970-01-01T00:00:00.000Z");
    assert_eq!(rfc3339(1431648000), "2015-05-15T00:00:00.000Z");
    assert_eq!(rfc3339(-1), "1969-12-31T23:59:59.000Z");
    assert_eq!(rfc3339(i64::MAX), "1970-01-01T00:00:00.000Z");
}

#[test]
fn file_info_fields() {
    let info = file_info("a.odt".to_string(), "Ana".to_string(), 12, Some(1431648000));
    assert_eq!(info.base_file_name, "a.odt");
    assert_eq!(info.user, "Ana");
    assert_eq!(info.size, 12);
    assert_eq!(info.version, "1431648000_12");
    assert_eq!(info.last_modified_time, "2015-05-15T00:00:00.000Z");
    let unknown = file_info("b".to_string(), "Rui".to_string(), 0, None);
    assert_eq!(unknown.version, "0_0");
    assert_eq!(unknown.last_modified_time, "1970-01-01T00:00:00.000Z");
}

#[test]
fn uploads_and_headers() {
    assert!(check_upload(1).is_ok());
    assert!(matches!(check_upload(0), Err(WopiError::BadRequest)));
    assert_eq!(save_reason(HeaderText::Text("2024".to_string()), HeaderText::Text("x".to_string())), "2024");
    assert_eq!(save_reason(HeaderText::Absent, HeaderText::Text("x".to_string())), "x");
    assert_eq!(save_reason(HeaderText::Opaque, HeaderText::Text("x".to_string())), "autosave");
    assert_eq!(save_reason(HeaderText::Absent, HeaderText::Absent), "autosave");
    assert_eq!(lock_echo(HeaderText::Text("L1".to_string())), "L1");
    assert_eq!(lock_echo(HeaderText::Opaque), "");
    assert_eq!(lock_echo(HeaderText::Absent), "");
}

#[test]
fn versions_differ_when_time_or_size_differ() {
    assert_ne!(item_version(Some((Some(1), 23))), item_version(Some((Some(12), 3))));
    assert_ne!(item_version(Some((Some(5), 7))), item_version(Some((Some(5), 8))));
    assert_eq!(item_version(Some((Some(5), 7))), item_version(Some((Some(5), 7))));
}

#[test]
fn minted_session_links_carry_a_valid_token() {
    let mut state = AppState { config: config(), sessions: Sessions::new() };
    let id = encode_id("a.odt");
    let links = mint_session(
        &mut state,
        &id,
        SessionQuery { lang: Some("en".to_string()), user: Some("Ana".to_string()) },
    );
    assert_eq!(links.wopi_src, format!("http://192.168.1.50:7373/wopi/files/{id}"));
    assert!(links.editor_url.ends_with("&lang=en"));
    let token = links.editor_url.split("access_token=").nth(1).unwrap().split('&').next().unwrap();
    assert_eq!(token.len(), 40);
    let session = state.sessions.validate(token, &id).unwrap();
    assert_eq!(session.user, "Ana");
    let blank = mint_session(&mut state, &id, SessionQuery { lang: None, user: Some("  ".to_string()) });
    assert!(blank.editor_url.ends_with("&lang=pt-PT"));
    let t2 = blank.editor_url.split("access_token=").nth(1).unwrap().split('&').next().unwrap();
    assert_eq!(state.sessions.validate(t2, &id).unwrap().user, "Utilizador");
}

#[test]
fn authorise_at_fixed_times() {
    let mut state = AppState { config: config(), sessions: Sessions::new() };
    let id = encode_id("a.odt");
    state.sessions.create_at(&id, "Ana", "tok".to_string(), 1000);
    assert!(matches!(authorise_at(&state, &id, "tok", 1000), Err(WopiError::NotFound)));
    assert!(matches!(authorise_at(&state, &id, "tok", 1000 + TTL_SECONDS), Err(WopiError::Unauthorized)));
    assert!(state.sessions.binds("tok", &id));
    assert!(!state.sessions.binds("tok", &encode_id("b.odt")));
    assert!(!state.sessions.binds("other", &id));
    let escape = encode_id("../a.odt");
    state.sessions.create_at(&escape, "Rui", "tok2".to_string(), 1000);
    assert!(matches!(authorise_at(&state, &escape, "tok2", 1001), Err(WopiError::NotFound)));
}

#[test]
fn file_info_flags() {
    let info = file_info("a.odt".to_string(), "Ana".to_string(), 10, Some(0));
    assert_eq!(info.owner_id, "collab-server");
    assert!(info.user_can_write);
    assert!(info.user_can_not_write_relative);
    assert!(info.supports_update);
    assert!(!info.supports_locks);
    assert!(!info.supports_rename);
    assert!(!info.disable_print && !info.disable_export && !info.disable_copy);
    assert_eq!(info.hide_user_list, "");
}

#[test]
fn expiry_saturates_at_the_end_of_the_clock() {
    let mut s = Sessions::new();
    s.create_at("6161", "Ana", "late".to_string(), i64::MAX - 10);
    assert_eq!(s.validate_at("late", "6161", i64::MAX - 1).unwrap().expires_at, i64::MAX);
}

#[test]
fn timestamps_at_the_ends_of_the_date_range() {
    let epoch = rfc3339(0);
    assert_ne!(rfc3339(8_210_266_876_799), epoch);
    assert_eq!(rfc3339(8_210_266_876_800), epoch);
    assert_ne!(rfc3339(-8_334_601_228_800), epoch);
    assert_eq!(rfc3339(-8_334_601_228_801), epoch);
}

#[test]
fn answers_once_the_file_system_has_spoken() {
    let mut state = AppState { config: config(), sessions: Sessions::new() };
    let id = encode_id("a.odt");
    let (path, name) = resolve_candidate("/srv/docs", &id).unwrap();
    assert_eq!(path, "/srv/docs/a.odt");
    assert_eq!(name, "a.odt");
    assert_eq!(resolve_found("/srv/docs", &id, true), Some(("/srv/docs/a.odt".to_string(), "a.odt".to_string())));
    assert_eq!(resolve_found("/srv/docs", &id, false), None);
    assert_eq!(resolve_found("/srv/docs", &encode_id("../a.odt"), true), None);

    let query = || SessionQuery { lang: None, user: Some("Ana".to_string()) };
    assert!(matches!(open_session_found(&mut state, &id, query(), false), Err(ApiError::NotFound)));
    assert!(!state.sessions.binds("x", &id));
    let links = open_session_found(&mut state, &id, query(), true).ok().unwrap();
    let token = links.editor_url.split("access_token=").nth(1).unwrap().split('&').next().unwrap().to_string();
    assert_eq!(state.sessions.validate(&token, &id).unwrap().user, "Ana");

    state.sessions.create_at(&id, "Rui", "tok".to_string(), 1000);
    let (p, n, u) = authorise_found(&state, &id, "tok", 1000, true).ok().unwrap();
    assert_eq!((p.as_str(), n.as_str(), u.as_str()), ("/nonexistent-shared-folder/a.odt", "a.odt", "Rui"));
    assert!(matches!(authorise_found(&state, &id, "tok", 1000, false), Err(WopiError::NotFound)));
    assert!(matches!(authorise_found(&state, &id, "bad", 1000, true), Err(WopiError::Unauthorized)));
}
