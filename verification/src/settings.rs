//! Durable user preferences.
use vstd::prelude::*;
use std::sync::Mutex;
use crate::text::{to_lowercase, lowercase, starts_with, has_prefix, to_owned_string};

verus! {

/// The user's preferences.
pub struct AppSettings {
    /// "pt" or "en". Portuguese is the product default.
    pub language: String,
    /// "system" | "light" | "dark".
    pub theme: String,
    /// When true, the mDNS browser picks the server; when false `server_url` wins.
    pub auto_discover: bool,
    /// Manual fallback address, e.g. "http://192.168.1.50:7373".
    pub server_url: String,
    pub auto_install_updates: bool,
    pub start_minimized: bool,
    /// Unix seconds of the last successful update check; 0 means never.
    pub last_update_check: i64,
}

/// The initial language for a display locale: anything Portuguese (pt-PT,
/// pt-BR, ...) or unknown stays Portuguese; the rest get English.
pub open spec fn language_for_locale_spec(locale: Option<Seq<char>>) -> Seq<char> {
    let l = lowercase(
        match locale {
            Some(s) => s,
            None => Seq::<char>::empty(),
        },
    );
    if l.len() == 0 || has_prefix(l, "pt"@) {
        "pt"@
    } else {
        "en"@
    }
}

/// The language is always one the app has texts for: "pt" or "en".
pub proof fn lemma_language_is_supported(locale: Option<Seq<char>>)
    ensures
        language_for_locale_spec(locale) == "pt"@ || language_for_locale_spec(locale) == "en"@,
{
}

pub fn language_for_locale(locale: Option<String>) -> (r: String)
    ensures
        r@ == language_for_locale_spec(
            match locale {
                Some(s) => Some(s@),
                None => None,
            },
        ),
        locale matches Some(s) ==> (s@.len() > 0 ==> (r@ == "en"@ <==> !has_prefix(
            lowercase(s@),
            "pt"@,
        ))),
{
    let raw = match locale {
        Some(s) => s,
        None => String::new(),
    };
    let l = to_lowercase(raw.as_str());
    proof {
        reveal_strlit("pt");
        reveal_strlit("en");
        assert("pt"@[0] != "en"@[0]);
    }
    if l.as_str().is_empty() || starts_with(l.as_str(), "pt") {
        to_owned_string("pt")
    } else {
        to_owned_string("en")
    }
}

impl AppSettings {
    /// The defaults, in the given language: system theme, automatic
    /// discovery, no manual server, updates installed only on request, not
    /// minimised, never checked for updates.
    pub fn defaults(language: String) -> (r: AppSettings)
        ensures
            r.language@ == language@,
            r.theme@ == "system"@,
            r.auto_discover,
            r.server_url@ == Seq::<char>::empty(),
            !r.auto_install_updates,
            !r.start_minimized,
            r.last_update_check == 0,
    {
        AppSettings {
            language,
            theme: to_owned_string("system"),
            auto_discover: true,
            server_url: String::new(),
            auto_install_updates: false,
            start_minimized: false,
            last_update_check: 0,
        }
    }

    /// The defaults for a machine whose display locale is `locale`.
    pub fn for_locale(locale: Option<String>) -> (r: AppSettings)
        ensures
            r.language@ == language_for_locale_spec(
                match locale {
                    Some(s) => Some(s@),
                    None => None,
                },
            ),
            r.theme@ == "system"@,
            r.auto_discover,
            r.server_url@ == Seq::<char>::empty(),
            !r.auto_install_updates,
            !r.start_minimized,
            r.last_update_check == 0,
    {
        AppSettings::defaults(language_for_locale(locale))
    }

    /// A field-by-field copy.
    pub fn duplicate(&self) -> (r: AppSettings)
        ensures
            r == *self,
    {
        AppSettings {
            language: self.language.clone(),
            theme: self.theme.clone(),
            auto_discover: self.auto_discover,
            server_url: self.server_url.clone(),
            auto_install_updates: self.auto_install_updates,
            start_minimized: self.start_minimized,
            last_update_check: self.last_update_check,
        }
    }

    /// Replaces the settings with the ones the user saved; returns whether
    /// the language changed, so the tray can be re-labelled.
    pub fn replace_with(&mut self, new: &AppSettings) -> (language_changed: bool)
        ensures
            *final(self) == *new,
            language_changed == (old(self).language@ != new.language@),
    {
        let changed = !(self.language == new.language);
        *self = new.duplicate();
        changed
    }

    /// Records a successful update check at `now`.
    pub fn record_update_check(&mut self, now: i64)
        ensures
            final(self).last_update_check == now,
            final(self).language == old(self).language,
            final(self).theme == old(self).theme,
            final(self).auto_discover == old(self).auto_discover,
            final(self).server_url == old(self).server_url,
            final(self).auto_install_updates == old(self).auto_install_updates,
            final(self).start_minimized == old(self).start_minimized,
    {
        self.last_update_check = now;
    }
}

/// In-memory copy shared with every command, wrapped so writes are serialised.
pub struct SettingsState(pub Mutex<AppSettings>);

} // verus!

verus! {

#[verifier::external_type_specification]
#[verifier::external_body]
#[verifier::reject_recursive_types(T)]
pub struct ExMutex<T: ?Sized>(Mutex<T>);

} // verus!
