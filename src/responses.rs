//! Records read from repository listings.

use vstd::prelude::*;

verus! {

/// A downloadable asset of a release.
#[derive(Debug)]
pub struct ModOrgAsset {
    pub browser_download_url: String,
}

/// A release and its assets.
#[derive(Debug)]
pub struct ModOrgResponse {
    pub assets: Vec<ModOrgAsset>,
}

/// A file of a repository listing.
#[derive(Debug)]
pub struct ModdedExesFile {
    pub name: String,
    pub download_url: Option<String>,
}

} // verus!
