//! Auto-update decisions.
//!
//! The signed `latest.json` behind the updater plugin decides *whether* an
//! update exists; GitHub's release supplies the changelog and date shown in
//! the update dialog. This module holds what is decided from their answers;
//! fetching and installing stay with the application.
use vstd::prelude::*;
use crate::text::{trim, trim_spec, to_owned_string, str_eq};
use crate::github::{Release, version_of, version_of_spec};
use crate::i18n::{strings, strings_spec, fill, replace_all, placeholder};

verus! {

/// What the update dialog shows.
pub struct UpdateInfo {
    pub available: bool,
    pub current_version: String,
    pub version: String,
    pub notes: String,
    pub date: String,
}

/// The answer when the running version is the newest.
pub fn no_update(current_version: String) -> (r: UpdateInfo)
    ensures
        !r.available,
        r.current_version@ == current_version@,
        r.version@ == current_version@,
        r.notes@ == Seq::<char>::empty(),
        r.date@ == Seq::<char>::empty(),
{
    UpdateInfo {
        available: false,
        version: current_version.clone(),
        current_version,
        notes: String::new(),
        date: String::new(),
    }
}

/// The answer when the signed manifest offers `version`, with its own notes
/// and date when it carries them.
pub fn offered_update(current_version: String, version: String, body: Option<String>, date: Option<String>) -> (r: UpdateInfo)
    ensures
        r.available,
        r.current_version@ == current_version@,
        r.version@ == version@,
        r.notes@ == (match body {
            Some(b) => b@,
            None => Seq::<char>::empty(),
        }),
        r.date@ == (match date {
            Some(d) => d@,
            None => Seq::<char>::empty(),
        }),
{
    UpdateInfo {
        available: true,
        current_version,
        version,
        notes: match body {
            Some(b) => b,
            None => String::new(),
        },
        date: match date {
            Some(d) => d,
            None => String::new(),
        },
    }
}

/// Enriches an offer with GitHub's release, when GitHub describes the same
/// version the signed manifest offered: its notes replace the manifest's
/// unless they are blank, and its date fills a missing one. A release of
/// another version, or no release at all, leaves the offer as it is.
pub fn with_release_notes(info: UpdateInfo, release: Option<Release>) -> (r: UpdateInfo)
    ensures
        r.available == info.available,
        r.current_version == info.current_version,
        r.version == info.version,
        (match release {
            Some(rel) => version_of_spec(rel.tag_name@) == info.version@,
            None => false,
        }) ==> {
            let rel = release.unwrap();
            &&& r.notes@ == (if trim_spec(rel.body@).len() > 0 {
                rel.body@
            } else {
                info.notes@
            })
            &&& r.date@ == (if info.date@.len() == 0 {
                rel.published_at@
            } else {
                info.date@
            })
        },
        !(match release {
            Some(rel) => version_of_spec(rel.tag_name@) == info.version@,
            None => false,
        }) ==> r.notes == info.notes && r.date == info.date,
{
    let mut info = info;
    match release {
        Some(rel) => {
            if str_eq(version_of(rel.tag_name.as_str()), info.version.as_str()) {
                let blank = trim(rel.body.as_str()).as_str().is_empty();
                if !blank {
                    info.notes = rel.body;
                }
                if info.date.as_str().is_empty() {
                    info.date = rel.published_at;
                }
            }
            info
        },
        None => info,
    }
}

/// What the background task does after one update check.
pub struct BackgroundPlan {
    /// Record the time of a successful check in the settings.
    pub record_check: bool,
    /// Install the update right away.
    pub install: bool,
    /// Show the one-click prompt and a native notification.
    pub notify: bool,
}

/// The plan after a check that reported whether an update is available
/// (`None` when the check failed): a successful check is recorded; an
/// available update is installed when the user asked for automatic updates,
/// else announced; a failed check only gets logged.
pub fn background_plan(available: Option<bool>, auto_install: bool) -> (r: BackgroundPlan)
    ensures
        r.record_check == available is Some,
        r.install == (available == Some(true) && auto_install),
        r.notify == (available == Some(true) && !auto_install),
{
    match available {
        Some(true) => BackgroundPlan { record_check: true, install: auto_install, notify: !auto_install },
        Some(false) => BackgroundPlan { record_check: true, install: false, notify: false },
        None => BackgroundPlan { record_check: false, install: false, notify: false },
    }
}

/// Delay before the first check, so startup stays snappy on slow machines.
pub const STARTUP_DELAY_SECS: u64 = 8;

/// Silent re-check cadence: every six hours.
pub const CHECK_INTERVAL_SECS: u64 = 21600;

/// How long the background task waits before its next check: a short delay
/// after launch, then six hours between checks.
pub fn next_check_delay(first: bool) -> (s: u64)
    ensures
        s == (if first {
            STARTUP_DELAY_SECS
        } else {
            CHECK_INTERVAL_SECS
        }),
{
    if first {
        STARTUP_DELAY_SECS
    } else {
        CHECK_INTERVAL_SECS
    }
}

/// The native notification announcing `version`: its title and body.
pub fn update_notification(language: &str, version: &str) -> (r: (String, String))
    ensures
        r.0@ == strings_spec(language@).update_title,
        r.1@ == replace_all(strings_spec(language@).update_body, placeholder("version"@), version@),
{
    let s = strings(language);
    (to_owned_string(s.update_title), fill(s.update_body, "version", version))
}

/// The native notification shown once an update is installed: its title and body.
pub fn installed_notification(language: &str) -> (r: (String, String))
    ensures
        r.0@ == strings_spec(language@).update_installed_title,
        r.1@ == strings_spec(language@).update_installed_body,
{
    let s = strings(language);
    (to_owned_string(s.update_installed_title), to_owned_string(s.update_installed_body))
}

} // verus!
