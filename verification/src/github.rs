//! GitHub Releases API client.
//!
//! The updater plugin decides *whether* an update exists (it is the only path
//! that verifies the signature). This module answers *what changed*, by
//! reading the release GitHub actually published.
use vstd::prelude::*;
use crate::text::to_owned_string;

verus! {

/// Owner of the repository whose releases are read.
pub const OWNER: &'static str = "your-org";

/// Name of the repository whose releases are read.
pub const REPO: &'static str = "libreoffice-collab";

/// Only the fields of a release that are used; GitHub sends a lot more.
pub struct Release {
    pub tag_name: String,
    pub body: String,
    pub published_at: String,
}

/// The API address of the newest published release.
pub open spec fn latest_release_url_spec() -> Seq<char> {
    "https://api.github.com/repos/your-org/libreoffice-collab/releases/latest"@
}

pub fn latest_release_url() -> (r: String)
    ensures
        r@ == latest_release_url_spec(),
{
    let mut s = to_owned_string("https://api.github.com/repos/");
    s.append(OWNER);
    s.append("/");
    s.append(REPO);
    s.append("/releases/latest");
    proof {
        reveal_strlit("https://api.github.com/repos/");
        reveal_strlit("your-org");
        reveal_strlit("/");
        reveal_strlit("libreoffice-collab");
        reveal_strlit("/releases/latest");
        reveal_strlit("https://api.github.com/repos/your-org/libreoffice-collab/releases/latest");
        assert(s@ =~= latest_release_url_spec());
    }
    s
}

/// A tag without its leading `v`.
pub open spec fn version_of_spec(tag: Seq<char>) -> Seq<char> {
    if tag.len() > 0 && tag[0] == 'v' {
        tag.drop_first()
    } else {
        tag
    }
}

/// Strips the leading `v` so "v1.2.3" can be compared with a package version.
pub fn version_of(tag: &str) -> (r: &str)
    ensures
        r@ == version_of_spec(tag@),
{
    let n = tag.unicode_len();
    if n > 0 && tag.get_char(0) == 'v' {
        let r = tag.substring_char(1, n);
        proof {
            assert(r@ =~= tag@.drop_first());
        }
        r
    } else {
        tag
    }
}

} // verus!
