//! Installing the mod manager and the modified executables: what to
//! download, as decided from the pages the caller fetched.

use vstd::prelude::*;
use crate::resolve::{
    find_matches, find_matches_of_links, href_value, href_value_of, regex_find_all, strings_view,
};
use crate::text::{
    contains_seq, contains_str, ends_with_seq, ends_with_str, url_segment, url_segment_of, replace_all,
    replace_str,
};

verus! {

/// How far a download has come.
#[derive(Debug, Clone, Default)]
pub struct DownloadProgress {
    pub file_name: Option<String>,
    pub size: Option<u64>,
    pub downloaded: u64,
}

/// The expression that finds the file name in a `Content-Disposition`
/// header.
pub const DISPOSITION_PATTERN: &'static str = "filename ?= ?\"?([[:^space:]]*)\"?";

/// The position after `i` if `m` holds `c` there, else `i`.
pub open spec fn skip_char(m: Seq<char>, i: int, c: char) -> int {
    if 0 <= i < m.len() && m[i] == c {
        i + 1
    } else {
        i
    }
}

/// The file name in a match `filename = "name`: what follows the key, the
/// equals sign with an optional space on each side, and an optional
/// opening quote.
pub open spec fn disposition_value(m: Seq<char>) -> Option<Seq<char>> {
    let i1 = skip_char(m, 8, ' ');
    if !(m.len() >= 8 && m.subrange(0, 8) == "filename"@) {
        None
    } else if !(i1 < m.len() && m[i1] == '=') {
        None
    } else {
        let i3 = skip_char(m, skip_char(m, i1 + 1, ' '), '"');
        Some(m.subrange(i3, m.len() as int))
    }
}

/// The file name that a `Content-Disposition` header suggests: the value of
/// the first match of [`DISPOSITION_PATTERN`].
pub open spec fn disposition_file_name(header: Seq<char>) -> Option<Seq<char>> {
    match regex_find_all(DISPOSITION_PATTERN@, header) {
        Some(ms) => if ms.len() > 0 {
            disposition_value(ms[0])
        } else {
            None
        },
        None => None,
    }
}

fn skip_char_exec(m: &str, n: usize, i: usize, c: char) -> (r: usize)
    requires
        n == m@.len(),
        i <= n,
    ensures
        r == skip_char(m@, i as int, c),
        r <= n,
{
    if i < n && m.get_char(i) == c {
        i + 1
    } else {
        i
    }
}

/// The file name in a header match.
pub fn disposition_value_of(m: &str) -> (r: Option<String>)
    ensures
        r matches Some(v) ==> disposition_value(m@) == Some(v@),
        r is None ==> disposition_value(m@) is None,
{
    let n = m.unicode_len();
    proof {
        reveal_strlit("filename");
    }
    if n < 8 || !crate::text::occurs_at_exec(m, "filename", 0) {
        return None;
    }
    let i1 = skip_char_exec(m, n, 8, ' ');
    if !(i1 < n && m.get_char(i1) == '=') {
        return None;
    }
    let i2 = skip_char_exec(m, n, i1 + 1, ' ');
    let i3 = skip_char_exec(m, n, i2, '"');
    Some(m.substring_char(i3, n).to_string())
}

/// The file name that a `Content-Disposition` header suggests.
pub fn suggested_file_name(header: &str) -> (r: Option<String>)
    ensures
        r matches Some(v) ==> disposition_file_name(header@) == Some(v@),
        r is None ==> disposition_file_name(header@) is None,
{
    match find_matches(DISPOSITION_PATTERN, header) {
        Some(ms) => if ms.len() > 0 {
            assert(strings_view(ms)[0] == ms@[0]@);
            disposition_value_of(&ms[0])
        } else {
            None
        },
        None => None,
    }
}

impl DownloadProgress {
    /// Counts a received chunk of `len` bytes; the count stops at the
    /// largest `u64`.
    pub fn record_chunk(&mut self, len: u64)
        ensures
            final(self).downloaded as int == if old(self).downloaded as int + len as int
                <= u64::MAX as int {
                old(self).downloaded as int + len as int
            } else {
                u64::MAX as int
            },
            final(self).size == old(self).size,
            final(self).file_name == old(self).file_name,
    {
        if len <= u64::MAX - self.downloaded {
            self.downloaded = self.downloaded + len;
        } else {
            self.downloaded = u64::MAX;
        }
    }
}

/// The stages of installing the mod manager that are done.
#[derive(Debug, Clone, Default)]
pub struct InstallMo2Progress {
    pub download: Option<DownloadProgress>,
    pub unpacking_done: Option<bool>,
    pub configuring_done: Option<bool>,
    pub finished: bool,
}

/// The paths unpacked so far from an archive.
#[derive(Debug)]
pub struct UnpackZipProgress {
    pub unpacked: Vec<String>,
}

/// Why no download was found on a page.
#[derive(Debug, Clone, Copy, PartialEq, Eq, Structural)]
pub enum ScrapeError {
    /// No link on the page has the expected shape.
    LinkNotFound,
}

/// The first link among `ms` that names a release tag and no release
/// candidate: it holds `tag/` and not `rc`.
pub open spec fn first_release_link(ms: Seq<Seq<char>>) -> Option<Seq<char>>
    decreases ms.len(),
{
    if ms.len() == 0 {
        None
    } else if href_value(ms[0]) matches Some(v) && contains_seq(v, "tag/"@) && !contains_seq(
        v,
        "rc"@,
    ) {
        href_value(ms[0])
    } else {
        first_release_link(ms.subrange(1, ms.len() as int))
    }
}

/// The version of a release link: its last `/`-separated segment without
/// any `v`.
pub open spec fn release_version(link: Seq<char>) -> Seq<char> {
    replace_all(url_segment(link), "v"@, Seq::empty())
}

/// The archive of the mod manager of version `ver`.
pub open spec fn mo2_archive_url(ver: Seq<char>) -> Seq<char> {
    "https://github.com/ModOrganizer2/modorganizer/releases/download/v"@ + ver
        + "/Mod.Organizer-"@ + ver + ".7z"@
}

/// The first link among `ms` to a zip archive other than the repository's
/// own `main.zip`.
pub open spec fn first_archive_link(ms: Seq<Seq<char>>) -> Option<Seq<char>>
    decreases ms.len(),
{
    if ms.len() == 0 {
        None
    } else if href_value(ms[0]) matches Some(v) && ends_with_seq(v, ".zip"@) && !ends_with_seq(
        v,
        "main.zip"@,
    ) {
        href_value(ms[0])
    } else {
        first_archive_link(ms.subrange(1, ms.len() as int))
    }
}

/// The raw download of a repository file link.
pub open spec fn raw_file_url(link: Seq<char>) -> Seq<char> {
    "https://github.com"@ + replace_all(link, "blob"@, "raw"@)
}

/// Position of the first line feed in `s`, or -1.
pub open spec fn first_newline(s: Seq<char>) -> int
    decreases s.len(),
{
    if s.len() == 0 {
        -1
    } else if s[0] == '\n' {
        0
    } else if first_newline(s.subrange(1, s.len() as int)) < 0 {
        -1
    } else {
        first_newline(s.subrange(1, s.len() as int)) + 1
    }
}

/// A line without its trailing carriage return.
pub open spec fn strip_cr(l: Seq<char>) -> Seq<char> {
    if l.len() > 0 && l.last() == '\r' {
        l.drop_last()
    } else {
        l
    }
}

/// A line of the manager's settings with the game's placeholder location
/// replaced, in its forward-slash and in its escaped-backslash spelling.
pub open spec fn configured_line(l: Seq<char>, slashed: Seq<char>, escaped: Seq<char>) -> Seq<char> {
    replace_all(replace_all(l, "D:/Games/Anomaly"@, slashed), "D:\\\\Games\\\\Anomaly"@, escaped)
}

/// The settings text `s`, line by line as `str::lines` splits it, each line
/// configured and ended by a line feed.
pub open spec fn configured_text(s: Seq<char>, slashed: Seq<char>, escaped: Seq<char>) -> Seq<char>
    decreases s.len(),
{
    if s.len() == 0 {
        Seq::empty()
    } else {
        let k = first_newline(s);
        if !(0 <= k < s.len()) {
            configured_line(strip_cr(s), slashed, escaped) + "\n"@
        } else {
            configured_line(strip_cr(s.subrange(0, k)), slashed, escaped) + "\n"@
                + configured_text(s.subrange(k + 1, s.len() as int), slashed, escaped)
        }
    }
}

proof fn lemma_first_newline(s: Seq<char>, j: int)
    requires
        0 <= j <= s.len(),
        forall|k: int| 0 <= k < j ==> s[k] != '\n',
        j < s.len() ==> s[j] == '\n',
    ensures
        first_newline(s) == if j < s.len() {
            j
        } else {
            -1
        },
    decreases s.len(),
{
    if s.len() > 0 && j > 0 {
        let t = s.subrange(1, s.len() as int);
        assert forall|k: int| 0 <= k < j - 1 implies t[k] != '\n' by {
            assert(t[k] == s[k + 1]);
        }
        lemma_first_newline(t, j - 1);
    }
}

/// Installs the mod manager.
pub struct InstallMo2;

impl InstallMo2 {
    /// The manager's settings for a game installed at `anomaly_path`, from
    /// the settings `template` written for the placeholder location
    /// `D:/Games/Anomaly`.
    pub fn configure_mo2(template: &str, anomaly_path: &str) -> (r: String)
        ensures
            r@ == configured_text(
                template@,
                replace_all(anomaly_path@, "\\"@, "/"@),
                replace_all(anomaly_path@, "\\"@, "\\\\"@),
            ),
    {
        proof {
            reveal_strlit("\\");
        }
        let slashed = replace_str(anomaly_path, "\\", "/");
        let escaped = replace_str(anomaly_path, "\\", "\\\\");
        let ghost sl = slashed@;
        let ghost es = escaped@;
        let ghost s = template@;
        let n = template.unicode_len();
        let mut out = String::new();
        let mut i: usize = 0;
        assert(s.subrange(0, n as int) =~= s);
        assert(out@ + configured_text(s, sl, es) =~= configured_text(s, sl, es));
        while i < n
            invariant
                s == template@,
                n == s.len(),
                sl == slashed@,
                es == escaped@,
                i <= n,
                out@ + configured_text(s.subrange(i as int, n as int), sl, es) == configured_text(
                    s,
                    sl,
                    es,
                ),
            decreases n - i,
        {
            let mut j: usize = i;
            while j < n && template.get_char(j) != '\n'
                invariant
                    s == template@,
                    n == s.len(),
                    i <= j <= n,
                    forall|k: int| i <= k < j ==> s[k] != '\n',
                decreases n - j,
            {
                j = j + 1;
            }
            let ghost t = s.subrange(i as int, n as int);
            proof {
                assert forall|k: int| 0 <= k < j - i implies t[k] != '\n' by {
                    assert(t[k] == s[i + k]);
                }
                lemma_first_newline(t, j - i);
            }
            let raw = template.substring_char(i, j);
            let m = raw.unicode_len();
            let line = if m > 0 && raw.get_char(m - 1) == '\r' {
                raw.substring_char(0, m - 1)
            } else {
                raw
            };
            assert(line@ == strip_cr(s.subrange(i as int, j as int)));
            proof {
                reveal_strlit("D:/Games/Anomaly");
                reveal_strlit("D:\\\\Games\\\\Anomaly");
            }
            let a = replace_str(line, "D:/Games/Anomaly", slashed.as_str());
            let b = replace_str(a.as_str(), "D:\\\\Games\\\\Anomaly", escaped.as_str());
            let ghost before = out@;
            out.append(b.as_str());
            out.append("\n");
            if j < n {
                assert(t.subrange(0, j - i) =~= s.subrange(i as int, j as int));
                assert(t.subrange(j - i + 1, t.len() as int) =~= s.subrange(j + 1, n as int));
                assert(out@ + configured_text(s.subrange(j + 1, n as int), sl, es) =~= before
                    + configured_text(t, sl, es));
                i = j + 1;
            } else {
                assert(t =~= s.subrange(i as int, j as int));
                assert(s.subrange(n as int, n as int) =~= Seq::<char>::empty());
                assert(out@ + configured_text(s.subrange(n as int, n as int), sl, es) =~= before
                    + configured_text(t, sl, es));
                i = n;
            }
        }
        assert(s.subrange(n as int, n as int) =~= Seq::<char>::empty());
        assert(out@ + Seq::<char>::empty() =~= out@);
        out
    }

    /// Among the link attribute matches `ms`, the first release link.
    pub fn release_link(ms: &Vec<String>) -> (r: Option<String>)
        ensures
            r matches Some(v) ==> first_release_link(strings_view(*ms)) == Some(v@),
            r is None ==> first_release_link(strings_view(*ms)) is None,
    {
        let ghost all = strings_view(*ms);
        let mut i: usize = 0;
        assert(all.subrange(0, all.len() as int) =~= all);
        while i < ms.len()
            invariant
                all == strings_view(*ms),
                i <= ms.len(),
                first_release_link(all.subrange(i as int, all.len() as int))
                    == first_release_link(all),
            decreases ms.len() - i,
        {
            let ghost rest = all.subrange(i as int, all.len() as int);
            assert(rest[0] == ms[i as int]@);
            assert(rest.subrange(1, rest.len() as int) =~= all.subrange(i + 1, all.len() as int));
            match href_value_of(&ms[i]) {
                Some(v) => {
                    if contains_str(&v, "tag/") && !contains_str(&v, "rc") {
                        return Some(v);
                    }
                },
                None => {},
            }
            i = i + 1;
        }
        None
    }

    /// The archive of the mod manager named by a release link.
    pub fn archive_url(link: &str) -> (r: String)
        ensures
            r@ == mo2_archive_url(release_version(link@)),
    {
        let last = url_segment_of(link);
        proof {
            reveal_strlit("v");
        }
        let ver = replace_str(last.as_str(), "v", "");
        proof {
            reveal_strlit("");
            assert(""@ =~= Seq::<char>::empty());
        }
        let mut r = "https://github.com/ModOrganizer2/modorganizer/releases/download/v".to_string();
        r.append(ver.as_str());
        r.append("/Mod.Organizer-");
        r.append(ver.as_str());
        r.append(".7z");
        r
    }

    /// The archive of the latest stable mod manager, from the release page.
    pub fn scrape_mo2_url(page: &str) -> (r: Result<String, ScrapeError>)
        ensures
            r matches Ok(u) ==> first_release_link(crate::resolve::href_matches(page@)) matches Some(
                l,
            ) && u@ == mo2_archive_url(release_version(l)),
            r is Err ==> first_release_link(crate::resolve::href_matches(page@)) is None,
    {
        let ms = find_matches_of_links(page);
        match InstallMo2::release_link(&ms) {
            Some(l) => Ok(InstallMo2::archive_url(l.as_str())),
            None => Err(ScrapeError::LinkNotFound),
        }
    }
}

/// Installs the modified game executables.
pub struct InstallModdedExes;

impl InstallModdedExes {
    /// Among the link attribute matches `ms`, the first archive link.
    pub fn archive_link(ms: &Vec<String>) -> (r: Option<String>)
        ensures
            r matches Some(v) ==> first_archive_link(strings_view(*ms)) == Some(v@),
            r is None ==> first_archive_link(strings_view(*ms)) is None,
    {
        let ghost all = strings_view(*ms);
        let mut i: usize = 0;
        assert(all.subrange(0, all.len() as int) =~= all);
        while i < ms.len()
            invariant
                all == strings_view(*ms),
                i <= ms.len(),
                first_archive_link(all.subrange(i as int, all.len() as int))
                    == first_archive_link(all),
            decreases ms.len() - i,
        {
            let ghost rest = all.subrange(i as int, all.len() as int);
            assert(rest[0] == ms[i as int]@);
            assert(rest.subrange(1, rest.len() as int) =~= all.subrange(i + 1, all.len() as int));
            match href_value_of(&ms[i]) {
                Some(v) => {
                    if ends_with_str(&v, ".zip") && !ends_with_str(&v, "main.zip") {
                        return Some(v);
                    }
                },
                None => {},
            }
            i = i + 1;
        }
        None
    }

    /// The raw download of the executables archive, from the repository
    /// page.
    pub fn scrape_exes_url(page: &str) -> (r: Result<String, ScrapeError>)
        ensures
            r matches Ok(u) ==> first_archive_link(crate::resolve::href_matches(page@)) matches Some(
                l,
            ) && u@ == raw_file_url(l),
            r is Err ==> first_archive_link(crate::resolve::href_matches(page@)) is None,
    {
        let ms = find_matches_of_links(page);
        match InstallModdedExes::archive_link(&ms) {
            Some(l) => {
                proof {
                    reveal_strlit("blob");
                }
                let raw = replace_str(l.as_str(), "blob", "raw");
                let mut u = "https://github.com".to_string();
                u.append(raw.as_str());
                Ok(u)
            },
            None => Err(ScrapeError::LinkNotFound),
        }
    }
}

/// The external archiver, by the path of its executable.
#[derive(Debug)]
pub struct Unpacker7Zip {
    path: String,
}

impl Unpacker7Zip {
    /// The path of the executable.
    pub closed spec fn spec_path(&self) -> Seq<char> {
        self.path@
    }

    /// The archiver at `path`.
    pub fn new(path: String) -> (r: Self)
        ensures
            r.spec_path() == path@,
    {
        Unpacker7Zip { path }
    }

    /// The path of the executable.
    pub fn path(&self) -> (r: &str)
        ensures
            r@ == self.spec_path(),
    {
        self.path.as_str()
    }

    /// The arguments that extract the archive `file_path` into `out_dir`.
    pub fn unpack_args(&self, file_path: &str, out_dir: &str) -> (r: Vec<String>)
        ensures
            r.len() == 3,
            r[0]@ == "x"@,
            r[1]@ == "-o"@ + out_dir@,
            r[2]@ == file_path@,
    {
        let mut out = "-o".to_string();
        out.append(out_dir);
        vec!["x".to_string(), out, file_path.to_string()]
    }
}

} // verus!
