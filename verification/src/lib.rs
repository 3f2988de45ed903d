use vstd::prelude::*;

pub mod text;
pub mod keyed;
pub mod paths;
pub mod sessions;
pub mod docs;
pub mod config;
pub mod api;
pub mod wopi;
pub mod mdns;
pub mod github;
pub mod i18n;
pub mod discovery;
pub mod server;
pub mod settings;
pub mod updater;

verus! {

} // verus!
