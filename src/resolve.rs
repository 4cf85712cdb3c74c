//! Turning an addon key into a download link.
//!
//! Resolution may need pages from the network. [`AddonKey::resolve_step`]
//! takes the responses gathered so far and says what to fetch next, or what
//! the link is; the caller performs the requests.

use vstd::prelude::*;
use crate::addon::{AddonKey, AddonKeyView, GithubLink, ModdbLink};
use crate::text::{
    contains_seq, contains_str, ends_with_seq, ends_with_str, eq_str, url_segment, url_segment_of,
    replace_all, replace_str, starts_with_seq, starts_with_str,
};

verus! {

/// Why a key could not be resolved.
#[derive(Debug, Clone, Copy, PartialEq, Eq, Structural)]
pub enum ResolutionError {
    /// A request failed, or the repository answered with an error status.
    SourceUnreachable,
    /// The repository's latest release redirects to its release index.
    NoReleasesFound,
    /// The portal page holds no download button link.
    DownloadButtonNotFound,
    /// The download page holds no mirror link.
    MirrorLinkNotFound,
}

/// The answer to one request.
#[derive(Debug)]
pub enum Fetched {
    /// The request could not be sent or no response came.
    Unreachable,
    /// A response: whether its status was a success, the path of the URL it
    /// finally came from after redirects, and its body text.
    Page { status_ok: bool, final_path: String, body: String },
}

/// What resolution needs next.
#[derive(Debug)]
pub enum ResolveStep {
    /// A `HEAD` request to this URL, following redirects.
    Head(String),
    /// A `GET` request to this URL.
    Get(String),
    /// Resolution is over.
    Done(Result<String, ResolutionError>),
}

/// The mathematical value of a [`ResolveStep`].
pub enum StepView {
    Head(Seq<char>),
    Get(Seq<char>),
    Done(Result<Seq<char>, ResolutionError>),
}

impl View for ResolveStep {
    type V = StepView;

    open spec fn view(&self) -> StepView {
        match self {
            ResolveStep::Head(u) => StepView::Head(u@),
            ResolveStep::Get(u) => StepView::Get(u@),
            ResolveStep::Done(Ok(u)) => StepView::Done(Ok(u@)),
            ResolveStep::Done(Err(e)) => StepView::Done(Err(*e)),
        }
    }
}

/// The regular expression that finds link attributes in a page.
pub const HREF_PATTERN: &'static str = "href=\"([^\"]*)\"";

/// The text of each match of `pattern` in `text`, leftmost first and without
/// overlap; `None` when `pattern` does not compile: it is not a valid
/// expression, or it exceeds the default size limit.
pub uninterp spec fn regex_find_all(pattern: Seq<char>, text: Seq<char>) -> Option<Seq<Seq<char>>>;

/// The characters of each string of a list.
pub open spec fn strings_view(v: Vec<String>) -> Seq<Seq<char>> {
    v@.map_values(|s: String| s@)
}

/// Relies on `regex::Regex::new` and `Regex::find_iter`: compiles `pattern`
/// and lists the text of its successive non-overlapping matches in `text`.
#[verifier::external_body]
pub(crate) fn find_matches(pattern: &str, text: &str) -> (r: Option<Vec<String>>)
    ensures
        r matches Some(v) ==> regex_find_all(pattern@, text@) == Some(strings_view(v)),
        r is None ==> regex_find_all(pattern@, text@) is None,
{
    match regex::Regex::new(pattern) {
        Ok(re) => Some(re.find_iter(text).map(|m| m.as_str().to_owned()).collect()),
        Err(_) => None,
    }
}

/// The link attributes found in a page, as whole matches.
pub open spec fn href_matches(body: Seq<char>) -> Seq<Seq<char>> {
    match regex_find_all(HREF_PATTERN@, body) {
        Some(ms) => ms,
        None => Seq::empty(),
    }
}

/// The quoted value of a match `href="..."`.
pub open spec fn href_value(m: Seq<char>) -> Option<Seq<char>> {
    if m.len() >= 7 && starts_with_seq(m, "href=\""@) && ends_with_seq(m, "\""@) {
        Some(m.subrange(6, m.len() - 1))
    } else {
        None
    }
}

/// The value of the first match, in order, whose link contains `marker`.
pub open spec fn first_link(ms: Seq<Seq<char>>, marker: Seq<char>) -> Option<Seq<char>>
    decreases ms.len(),
{
    if ms.len() == 0 {
        None
    } else if href_value(ms[0]) matches Some(v) && contains_seq(v, marker) {
        href_value(ms[0])
    } else {
        first_link(ms.subrange(1, ms.len() as int), marker)
    }
}

/// The value of a link attribute match.
pub fn href_value_of(m: &str) -> (r: Option<String>)
    ensures
        r matches Some(v) ==> href_value(m@) == Some(v@),
        r is None ==> href_value(m@) is None,
{
    let n = m.unicode_len();
    if n >= 7 && starts_with_str(m, "href=\"") && ends_with_str(m, "\"") {
        Some(m.substring_char(6, n - 1).to_string())
    } else {
        None
    }
}

/// Among the link attribute matches `ms`, the first link that contains
/// `marker`.
pub fn first_link_containing(ms: &Vec<String>, marker: &str) -> (r: Option<String>)
    ensures
        r matches Some(v) ==> first_link(strings_view(*ms), marker@) == Some(v@),
        r is None ==> first_link(strings_view(*ms), marker@) is None,
{
    let ghost all = strings_view(*ms);
    let mut i: usize = 0;
    assert(all.subrange(0, all.len() as int) =~= all);
    while i < ms.len()
        invariant
            all == strings_view(*ms),
            i <= ms.len(),
            first_link(all.subrange(i as int, all.len() as int), marker@) == first_link(
                all,
                marker@,
            ),
        decreases ms.len() - i,
    {
        let ghost rest = all.subrange(i as int, all.len() as int);
        assert(rest[0] == ms[i as int]@);
        assert(rest.subrange(1, rest.len() as int) =~= all.subrange(i + 1, all.len() as int));
        match href_value_of(&ms[i]) {
            Some(v) => {
                if contains_str(&v, marker) {
                    return Some(v);
                }
            },
            None => {},
        }
        i = i + 1;
    }
    None
}

/// The link attribute matches of a page.
pub fn find_matches_of_links(body: &str) -> (r: Vec<String>)
    ensures
        strings_view(r) == href_matches(body@),
{
    match find_matches(HREF_PATTERN, body) {
        Some(ms) => ms,
        None => {
            let empty: Vec<String> = Vec::new();
            assert(strings_view(empty) =~= Seq::<Seq<char>>::empty());
            empty
        },
    }
}

/// The first link in `body` that contains `marker`.
fn page_link(body: &str, marker: &str) -> (r: Option<String>)
    ensures
        r matches Some(v) ==> first_link(href_matches(body@), marker@) == Some(v@),
        r is None ==> first_link(href_matches(body@), marker@) is None,
{
    let ms = find_matches_of_links(body);
    first_link_containing(&ms, marker)
}

/// The version named by a release tag: the tag without a leading `v`.
pub open spec fn version_of(tag: Seq<char>) -> Seq<char> {
    if starts_with_seq(tag, "v"@) {
        tag.subrange(1, tag.len() as int)
    } else {
        tag
    }
}

/// The download link of a release asset.
pub open spec fn release_url(repo: Seq<char>, tag: Seq<char>, filename: Seq<char>) -> Seq<char> {
    "https://github.com/"@ + repo + "/releases/download/"@ + tag + "/"@ + replace_all(
        filename,
        "$VERSION"@,
        version_of(tag),
    )
}

/// The address that redirects to a repository's latest release.
pub open spec fn latest_url(repo: Seq<char>) -> Seq<char> {
    "https://github.com/"@ + repo + "/releases/latest"@
}

/// The tag that a probe of the latest release gives.
pub open spec fn latest_tag(f: Fetched) -> Result<Seq<char>, ResolutionError> {
    match f {
        Fetched::Unreachable => Err(ResolutionError::SourceUnreachable),
        Fetched::Page { status_ok, final_path, .. } => {
            let seg = url_segment(final_path@);
            if !status_ok {
                Err(ResolutionError::SourceUnreachable)
            } else if seg == "releases"@ || contains_seq(seg, "latest"@) {
                Err(ResolutionError::NoReleasesFound)
            } else {
                Ok(seg)
            }
        },
    }
}

/// The next step for a repository release, given the responses so far.
pub open spec fn github_step(
    repo: Seq<char>,
    tag: Seq<char>,
    filename: Seq<char>,
    rs: Seq<Fetched>,
) -> StepView {
    if tag != "latest"@ {
        StepView::Done(Ok(release_url(repo, tag, filename)))
    } else if rs.len() == 0 {
        StepView::Head(latest_url(repo))
    } else {
        match latest_tag(rs[0]) {
            Ok(t) => StepView::Done(Ok(release_url(repo, t, filename))),
            Err(e) => StepView::Done(Err(e)),
        }
    }
}

/// The portal page of an addon.
pub open spec fn portal_url(slug: Seq<char>) -> Seq<char> {
    "https://www.moddb.com/mods/stalker-anomaly/addons/"@ + slug
}

/// A link of the portal, made absolute.
pub open spec fn site_url(link: Seq<char>) -> Seq<char> {
    "https://www.moddb.com"@ + link
}

/// Marks the portal page's download button link.
pub open spec fn download_marker() -> Seq<char> {
    "addons/start"@
}

/// Marks the download page's mirror link.
pub open spec fn mirror_marker() -> Seq<char> {
    "moddb.com/downloads/mirror"@
}

/// The next step for a portal addon, given the responses so far.
pub open spec fn moddb_step(slug: Seq<char>, rs: Seq<Fetched>) -> StepView {
    if rs.len() == 0 {
        StepView::Get(portal_url(slug))
    } else {
        match rs[0] {
            Fetched::Unreachable => StepView::Done(Err(ResolutionError::SourceUnreachable)),
            Fetched::Page { body, .. } => match first_link(href_matches(body@), download_marker()) {
                None => StepView::Done(Err(ResolutionError::DownloadButtonNotFound)),
                Some(link) => if rs.len() == 1 {
                    StepView::Get(site_url(link))
                } else {
                    match rs[1] {
                        Fetched::Unreachable => StepView::Done(
                            Err(ResolutionError::SourceUnreachable),
                        ),
                        Fetched::Page { body, .. } => match first_link(
                            href_matches(body@),
                            mirror_marker(),
                        ) {
                            None => StepView::Done(Err(ResolutionError::MirrorLinkNotFound)),
                            Some(m) => StepView::Done(Ok(m)),
                        },
                    }
                },
            },
        }
    }
}

/// The next step for any key, given the responses so far.
pub open spec fn resolve_spec(key: AddonKeyView, rs: Seq<Fetched>) -> StepView {
    match key {
        AddonKeyView::Url { url } => StepView::Done(Ok(url)),
        AddonKeyView::Github { repo, tag, filename } => github_step(repo, tag, filename, rs),
        AddonKeyView::Moddb { addon_link, .. } => moddb_step(addon_link, rs),
    }
}

/// The tag without a leading `v`.
pub fn version_of_tag(tag: &str) -> (r: String)
    ensures
        r@ == version_of(tag@),
{
    if starts_with_str(tag, "v") {
        proof {
            reveal_strlit("v");
        }
        let n = tag.unicode_len();
        tag.substring_char(1, n).to_string()
    } else {
        tag.to_string()
    }
}

/// A release asked for as `latest` resolves, if at all, to the link of a
/// concrete tag, one whose text does not hold `latest`.
pub proof fn lemma_latest_resolves_to_concrete_tag(
    repo: Seq<char>,
    filename: Seq<char>,
    rs: Seq<Fetched>,
)
    ensures
        github_step(repo, "latest"@, filename, rs) matches StepView::Done(Ok(u)) ==> exists|t: Seq<
            char,
        >|
            !contains_seq(t, "latest"@) && u == release_url(repo, t, filename),
{
    if rs.len() > 0 {
        if let Ok(t) = latest_tag(rs[0]) {
            assert(!contains_seq(t, "latest"@));
        }
    }
}

impl GithubLink {
    /// The download link of this release's asset under the tag `tag`.
    pub fn release_url(&self, tag: &str) -> (r: String)
        ensures
            r@ == release_url(self.repo@, tag@, self.filename@),
    {
        let version = version_of_tag(tag);
        proof {
            reveal_strlit("$VERSION");
        }
        let filename = replace_str(self.filename.as_str(), "$VERSION", version.as_str());
        let mut r = "https://github.com/".to_string();
        r.append(self.repo.as_str());
        r.append("/releases/download/");
        r.append(tag);
        r.append("/");
        r.append(filename.as_str());
        r
    }

    /// The address whose redirect names the latest release.
    pub fn latest_url(&self) -> (r: String)
        ensures
            r@ == latest_url(self.repo@),
    {
        let mut r = "https://github.com/".to_string();
        r.append(self.repo.as_str());
        r.append("/releases/latest");
        r
    }

    /// The tag named by the answer to a probe of the latest release.
    pub fn tag_from_probe(probe: &Fetched) -> (r: Result<String, ResolutionError>)
        ensures
            r matches Ok(t) ==> latest_tag(*probe) == Ok::<Seq<char>, ResolutionError>(t@),
            r matches Err(e) ==> latest_tag(*probe) == Err::<Seq<char>, ResolutionError>(e),
    {
        match probe {
            Fetched::Unreachable => Err(ResolutionError::SourceUnreachable),
            Fetched::Page { status_ok, final_path, .. } => {
                let seg = url_segment_of(final_path.as_str());
                if !*status_ok {
                    Err(ResolutionError::SourceUnreachable)
                } else if eq_str(seg.as_str(), "releases") || contains_str(seg.as_str(), "latest") {
                    Err(ResolutionError::NoReleasesFound)
                } else {
                    Ok(seg)
                }
            },
        }
    }

    /// The next step of resolving this release, given the responses to the
    /// steps before.
    pub fn get_download_url(&self, responses: &Vec<Fetched>) -> (r: ResolveStep)
        ensures
            r@ == github_step(self.repo@, self.tag@, self.filename@, responses@),
    {
        if !eq_str(self.tag.as_str(), "latest") {
            ResolveStep::Done(Ok(self.release_url(self.tag.as_str())))
        } else if responses.len() == 0 {
            ResolveStep::Head(self.latest_url())
        } else {
            match GithubLink::tag_from_probe(&responses[0]) {
                Ok(t) => ResolveStep::Done(Ok(self.release_url(t.as_str()))),
                Err(e) => ResolveStep::Done(Err(e)),
            }
        }
    }
}

impl ModdbLink {
    /// The next step of resolving this portal addon, given the responses to
    /// the steps before.
    pub fn get_download_url(&self, responses: &Vec<Fetched>) -> (r: ResolveStep)
        ensures
            r@ == moddb_step(self.addon_link@, responses@),
    {
        if responses.len() == 0 {
            let mut u = "https://www.moddb.com/mods/stalker-anomaly/addons/".to_string();
            u.append(self.addon_link.as_str());
            return ResolveStep::Get(u);
        }
        let link = match &responses[0] {
            Fetched::Unreachable => {
                return ResolveStep::Done(Err(ResolutionError::SourceUnreachable));
            },
            Fetched::Page { body, .. } => match page_link(body.as_str(), "addons/start") {
                None => {
                    return ResolveStep::Done(Err(ResolutionError::DownloadButtonNotFound));
                },
                Some(l) => l,
            },
        };
        if responses.len() == 1 {
            let mut u = "https://www.moddb.com".to_string();
            u.append(link.as_str());
            return ResolveStep::Get(u);
        }
        match &responses[1] {
            Fetched::Unreachable => ResolveStep::Done(Err(ResolutionError::SourceUnreachable)),
            Fetched::Page { body, .. } => match page_link(
                body.as_str(),
                "moddb.com/downloads/mirror",
            ) {
                None => ResolveStep::Done(Err(ResolutionError::MirrorLinkNotFound)),
                Some(m) => ResolveStep::Done(Ok(m)),
            },
        }
    }
}

impl AddonKey {
    /// The next step of resolving this key into a download link, given the
    /// responses to the steps before, in order.
    pub fn download_link(&self, responses: &Vec<Fetched>) -> (r: ResolveStep)
        ensures
            r@ == resolve_spec(self@, responses@),
    {
        match self {
            AddonKey::Url(l) => ResolveStep::Done(Ok(l.get_download_url())),
            AddonKey::Github(l) => l.get_download_url(responses),
            AddonKey::Moddb(l) => l.get_download_url(responses),
        }
    }
}

} // verus!
