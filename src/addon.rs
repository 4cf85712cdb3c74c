//! Identifiers of where an addon is downloaded from.

use vstd::prelude::*;

verus! {

/// An addon page on the portal, named by its slug. `updated` is advisory:
/// it only tells that the portal entry changed.
#[derive(Debug, Hash)]
pub struct ModdbLink {
    pub addon_link: String,
    pub updated: String,
}

/// A release of a repository. `tag` may be `latest`; `filename` holds the
/// placeholder `$VERSION`.
#[derive(Debug, Hash)]
pub struct GithubLink {
    pub repo: String,
    pub tag: String,
    pub filename: String,
}

/// A direct download link.
#[derive(Debug, Hash)]
pub struct UrlLink {
    url: String,
}

/// Where an addon's archive comes from.
#[derive(Debug, Hash)]
pub enum AddonKey {
    Moddb(ModdbLink),
    Github(GithubLink),
    Url(UrlLink),
}

/// The configured source of an addon, and which payload folder to take when
/// its archive holds several.
#[derive(Debug)]
pub struct FolderEntry {
    pub download: AddonKey,
    pub addon_folder: Option<String>,
}

/// The mathematical value of an [`AddonKey`]: its variant and the characters
/// of each field.
pub enum AddonKeyView {
    Moddb { addon_link: Seq<char>, updated: Seq<char> },
    Github { repo: Seq<char>, tag: Seq<char>, filename: Seq<char> },
    Url { url: Seq<char> },
}

/// The mathematical value of a [`FolderEntry`].
pub struct FolderEntryView {
    pub download: AddonKeyView,
    pub addon_folder: Option<Seq<char>>,
}

/// The characters of an optional string.
pub open spec fn opt_view(o: Option<String>) -> Option<Seq<char>> {
    match o {
        Some(s) => Some(s@),
        None => None,
    }
}

impl View for AddonKey {
    type V = AddonKeyView;

    open spec fn view(&self) -> AddonKeyView {
        match self {
            AddonKey::Moddb(l) => AddonKeyView::Moddb { addon_link: l.addon_link@, updated: l.updated@ },
            AddonKey::Github(l) => AddonKeyView::Github {
                repo: l.repo@,
                tag: l.tag@,
                filename: l.filename@,
            },
            AddonKey::Url(l) => AddonKeyView::Url { url: l.spec_url() },
        }
    }
}

impl View for FolderEntry {
    type V = FolderEntryView;

    open spec fn view(&self) -> FolderEntryView {
        FolderEntryView { download: self.download@, addon_folder: opt_view(self.addon_folder) }
    }
}

impl UrlLink {
    /// The link.
    pub closed spec fn spec_url(&self) -> Seq<char> {
        self.url@
    }

    /// A link to `url`.
    pub fn new(url: String) -> (r: Self)
        ensures
            r.spec_url() == url@,
    {
        UrlLink { url }
    }

    /// The link itself: a direct link needs no resolution.
    pub fn get_download_url(&self) -> (r: String)
        ensures
            r@ == self.spec_url(),
    {
        self.url.clone()
    }
}

impl Clone for ModdbLink {
    fn clone(&self) -> (r: Self)
        ensures
            r.addon_link@ == self.addon_link@,
            r.updated@ == self.updated@,
    {
        ModdbLink { addon_link: self.addon_link.clone(), updated: self.updated.clone() }
    }
}

impl Clone for GithubLink {
    fn clone(&self) -> (r: Self)
        ensures
            r.repo@ == self.repo@,
            r.tag@ == self.tag@,
            r.filename@ == self.filename@,
    {
        GithubLink { repo: self.repo.clone(), tag: self.tag.clone(), filename: self.filename.clone() }
    }
}

impl Clone for UrlLink {
    fn clone(&self) -> (r: Self)
        ensures
            r.spec_url() == self.spec_url(),
    {
        UrlLink { url: self.url.clone() }
    }
}

impl Clone for AddonKey {
    fn clone(&self) -> (r: Self)
        ensures
            r@ == self@,
    {
        match self {
            AddonKey::Moddb(l) => AddonKey::Moddb(l.clone()),
            AddonKey::Github(l) => AddonKey::Github(l.clone()),
            AddonKey::Url(l) => AddonKey::Url(l.clone()),
        }
    }
}

impl Clone for FolderEntry {
    fn clone(&self) -> (r: Self)
        ensures
            r@ == self@,
    {
        let folder = match &self.addon_folder {
            Some(f) => Some(f.clone()),
            None => None,
        };
        FolderEntry { download: self.download.clone(), addon_folder: folder }
    }
}

impl PartialEq for ModdbLink {
    fn eq(&self, o: &ModdbLink) -> (r: bool) {
        self.addon_link == o.addon_link && self.updated == o.updated
    }
}

impl vstd::std_specs::cmp::PartialEqSpecImpl for ModdbLink {
    open spec fn obeys_eq_spec() -> bool {
        true
    }

    open spec fn eq_spec(&self, o: &ModdbLink) -> bool {
        self.addon_link@ == o.addon_link@ && self.updated@ == o.updated@
    }
}

impl PartialEq for GithubLink {
    fn eq(&self, o: &GithubLink) -> (r: bool) {
        self.repo == o.repo && self.tag == o.tag && self.filename == o.filename
    }
}

impl vstd::std_specs::cmp::PartialEqSpecImpl for GithubLink {
    open spec fn obeys_eq_spec() -> bool {
        true
    }

    open spec fn eq_spec(&self, o: &GithubLink) -> bool {
        self.repo@ == o.repo@ && self.tag@ == o.tag@ && self.filename@ == o.filename@
    }
}

impl PartialEq for UrlLink {
    fn eq(&self, o: &UrlLink) -> (r: bool) {
        self.url == o.url
    }
}

impl vstd::std_specs::cmp::PartialEqSpecImpl for UrlLink {
    open spec fn obeys_eq_spec() -> bool {
        true
    }

    open spec fn eq_spec(&self, o: &UrlLink) -> bool {
        self.spec_url() == o.spec_url()
    }
}

impl PartialEq for AddonKey {
    fn eq(&self, o: &AddonKey) -> (r: bool) {
        match (self, o) {
            (AddonKey::Moddb(a), AddonKey::Moddb(b)) => a == b,
            (AddonKey::Github(a), AddonKey::Github(b)) => a == b,
            (AddonKey::Url(a), AddonKey::Url(b)) => a == b,
            _ => false,
        }
    }
}

impl vstd::std_specs::cmp::PartialEqSpecImpl for AddonKey {
    open spec fn obeys_eq_spec() -> bool {
        true
    }

    open spec fn eq_spec(&self, o: &AddonKey) -> bool {
        self@ == o@
    }
}

impl Eq for AddonKey {
}

impl PartialEq for FolderEntry {
    fn eq(&self, o: &FolderEntry) -> (r: bool) {
        let same_folder = match &self.addon_folder {
            Some(a) => match &o.addon_folder {
                Some(b) => *a == *b,
                None => false,
            },
            None => o.addon_folder.is_none(),
        };
        let same_key = self.download == o.download;
        same_folder && same_key
    }
}

impl vstd::std_specs::cmp::PartialEqSpecImpl for FolderEntry {
    open spec fn obeys_eq_spec() -> bool {
        true
    }

    open spec fn eq_spec(&self, o: &FolderEntry) -> bool {
        self@ == o@
    }
}

impl AddonKey {
    /// A key for a portal page.
    pub fn from_moddb(link: ModdbLink) -> (r: Self)
        ensures
            r@ == (AddonKeyView::Moddb { addon_link: link.addon_link@, updated: link.updated@ }),
    {
        AddonKey::Moddb(link)
    }

    /// A key for a direct link.
    pub fn from_url(link: UrlLink) -> (r: Self)
        ensures
            r@ == (AddonKeyView::Url { url: link.spec_url() }),
    {
        AddonKey::Url(link)
    }

    /// A key for a repository release.
    pub fn from_github(link: GithubLink) -> (r: Self)
        ensures
            r@ == (AddonKeyView::Github { repo: link.repo@, tag: link.tag@, filename: link.filename@ }),
    {
        AddonKey::Github(link)
    }
}

impl FolderEntry {
    /// An entry downloaded from `key`, taking the payload folder named
    /// `folder` when one is given.
    pub fn new(key: AddonKey, folder: Option<String>) -> (r: Self)
        ensures
            r@ == (FolderEntryView { download: key@, addon_folder: opt_view(folder) }),
    {
        FolderEntry { download: key, addon_folder: folder }
    }
}

} // verus!
