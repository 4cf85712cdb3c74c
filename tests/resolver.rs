use anomaly_modder::actions::{suggested_file_name, DownloadProgress, InstallMo2, InstallModdedExes, ScrapeError, Unpacker7Zip};
use anomaly_modder::addon::{AddonKey, GithubLink, ModdbLink, UrlLink};
use anomaly_modder::cache::{CacheLookup, DownloadCache};
use anomaly_modder::resolve::{
    first_link_containing, href_value_of, find_matches_of_links, Fetched, ResolutionError, ResolveStep,
};
use anomaly_modder::text::{contains_str, file_name_of, parent_of, replace_str};

fn page(body: &str) -> Fetched {
    Fetched::Page { status_ok: true, final_path: "/".to_owned(), body: body.to_owned() }
}

fn done(step: ResolveStep) -> Result<String, ResolutionError> {
    match step {
        ResolveStep::Done(r) => r,
        other => panic!("not done: {:?}", other),
    }
}

#[test]
fn github_download_link_tagged() {
    let key = GithubLink {
        repo: "ModOrganizer2/modorganizer".to_owned(),
        tag: "v2.4.3".to_owned(),
        filename: "Mod.Organizer-$VERSION.7z".to_owned(),
    };

    let expected = "https://github.com/ModOrganizer2/modorganizer/releases/download/v2.4.3/Mod.Organizer-2.4.3.7z";
    assert_eq!(done(key.get_download_url(&Vec::new())).unwrap(), expected);
}

#[test]
fn github_download_link_latest() {
    let key = GithubLink {
        repo: "ModOrganizer2/modorganizer".to_owned(),
        tag: "latest".to_owned(),
        filename: "Mod.Organizer-$VERSION.7z".to_owned(),
    };
    match key.get_download_url(&Vec::new()) {
        ResolveStep::Head(u) => {
            assert_eq!(u, "https://github.com/ModOrganizer2/modorganizer/releases/latest")
        }
        other => panic!("expected a probe, got {:?}", other),
    }
    let probe = Fetched::Page {
        status_ok: true,
        final_path: "/ModOrganizer2/modorganizer/releases/tag/v2.5.0".to_owned(),
        body: String::new(),
    };
    let not_expected = "https://github.com/ModOrganizer2/modorganizer/releases/download/latest/Mod.Organizer-latest.7z";
    let url = done(key.get_download_url(&vec![probe])).unwrap();
    assert_ne!(url, not_expected);
    assert_eq!(
        url,
        "https://github.com/ModOrganizer2/modorganizer/releases/download/v2.5.0/Mod.Organizer-2.5.0.7z"
    );
}

#[test]
fn versioned_repo_example() {
    let key = AddonKey::from_github(GithubLink {
        repo: "org/name".to_owned(),
        tag: "v2.4.3".to_owned(),
        filename: "Pack-$VERSION.7z".to_owned(),
    });
    let url = done(key.download_link(&Vec::new())).unwrap();
    assert!(url.ends_with("/releases/download/v2.4.3/Pack-2.4.3.7z"));
    assert_eq!(url, "https://github.com/org/name/releases/download/v2.4.3/Pack-2.4.3.7z");
}

#[test]
fn tag_without_v_is_the_version() {
    let key = GithubLink { repo: "o/r".to_owned(), tag: "1.0".to_owned(), filename: "a-$VERSION-$VERSION".to_owned() };
    assert_eq!(
        done(key.get_download_url(&Vec::new())).unwrap(),
        "https://github.com/o/r/releases/download/1.0/a-1.0-1.0"
    );
}

#[test]
fn latest_without_releases() {
    let key = GithubLink { repo: "o/r".to_owned(), tag: "latest".to_owned(), filename: "f".to_owned() };
    let probe = Fetched::Page { status_ok: true, final_path: "/o/r/releases".to_owned(), body: String::new() };
    assert_eq!(done(key.get_download_url(&vec![probe])), Err(ResolutionError::NoReleasesFound));
    let stuck = Fetched::Page { status_ok: true, final_path: "/o/r/releases/latest".to_owned(), body: String::new() };
    assert_eq!(done(key.get_download_url(&vec![stuck])), Err(ResolutionError::NoReleasesFound));
}

#[test]
fn latest_unreachable() {
    let key = GithubLink { repo: "o/r".to_owned(), tag: "latest".to_owned(), filename: "f".to_owned() };
    assert_eq!(done(key.get_download_url(&vec![Fetched::Unreachable])), Err(ResolutionError::SourceUnreachable));
    let bad = Fetched::Page { status_ok: false, final_path: "/o/r/releases/tag/v1".to_owned(), body: String::new() };
    assert_eq!(done(key.get_download_url(&vec![bad])), Err(ResolutionError::SourceUnreachable));
}

#[test]
fn direct_url_is_verbatim() {
    let key = AddonKey::from_url(UrlLink::new("https://example.org/a.zip".to_owned()));
    assert_eq!(done(key.download_link(&Vec::new())).unwrap(), "https://example.org/a.zip");
}

#[test]
fn moddb_two_stage_scrape() {
    let key = AddonKey::from_moddb(ModdbLink {
        addon_link: "anomaly-mod-configuration-menu".to_owned(),
        updated: "Aug 8th, 2022".to_owned(),
    });
    match key.download_link(&Vec::new()) {
        ResolveStep::Get(u) => assert_eq!(
            u,
            "https://www.moddb.com/mods/stalker-anomaly/addons/anomaly-mod-configuration-menu"
        ),
        other => panic!("{:?}", other),
    }
    let first = page(r#"<a href="/news">n</a><a href="/addons/start/222">Download</a><a href="/addons/start/333">x</a>"#);
    let mut rs = vec![first];
    match key.download_link(&rs) {
        ResolveStep::Get(u) => assert_eq!(u, "https://www.moddb.com/addons/start/222"),
        other => panic!("{:?}", other),
    }
    rs.push(page(r#"<a href="https://www.moddb.com/downloads/mirror/222/1/abc">mirror</a>"#));
    assert_eq!(done(key.download_link(&rs)).unwrap(), "https://www.moddb.com/downloads/mirror/222/1/abc");
}

#[test]
fn moddb_missing_links() {
    let key = AddonKey::from_moddb(ModdbLink { addon_link: "x".to_owned(), updated: String::new() });
    assert_eq!(done(key.download_link(&vec![page("<p>nothing</p>")])), Err(ResolutionError::DownloadButtonNotFound));
    let rs = vec![page(r#"<a href="/addons/start/1">"#), page(r#"<a href="/elsewhere">"#)];
    assert_eq!(done(key.download_link(&rs)), Err(ResolutionError::MirrorLinkNotFound));
    let rs = vec![page(r#"<a href="/addons/start/1">"#), Fetched::Unreachable];
    assert_eq!(done(key.download_link(&rs)), Err(ResolutionError::SourceUnreachable));
    assert_eq!(done(key.download_link(&vec![Fetched::Unreachable])), Err(ResolutionError::SourceUnreachable));
}

#[test]
fn link_extraction_finds_attribute_values() {
    let ms = find_matches_of_links(r#"<a href="one">1</a> <img src="x"> <a class="c" href="two/three">"#);
    assert_eq!(ms, vec![r#"href="one""#.to_owned(), r#"href="two/three""#.to_owned()]);
    assert_eq!(href_value_of(&ms[1]), Some("two/three".to_owned()));
    assert_eq!(first_link_containing(&ms, "three"), Some("two/three".to_owned()));
    assert_eq!(first_link_containing(&ms, "four"), None);
    assert!(find_matches_of_links("no links here").is_empty());
}

#[test]
fn text_helpers() {
    assert_eq!(replace_str("a$Vb$V", "$V", "x"), "axbx");
    assert_eq!(replace_str("aaa", "aa", "b"), "ba");
    assert!(contains_str("hello", "ll"));
    assert!(!contains_str("hello", "lo!"));
    assert_eq!(file_name_of(r"a\b/c"), "c");
    assert_eq!(parent_of(r"a\b/c"), r"a\b");
    assert_eq!(parent_of("c"), "");
}

#[test]
fn cache_records_each_key_once() {
    let a = AddonKey::from_url(UrlLink::new("a".to_owned()));
    let b = AddonKey::from_url(UrlLink::new("b".to_owned()));
    let mut cache: DownloadCache<String> = DownloadCache::new();
    assert!(cache.get(&a).is_none());
    cache.insert(a.clone(), "/tmp/a".to_owned());
    assert_eq!(cache.get(&AddonKey::from_url(UrlLink::new("a".to_owned()))), Some(&"/tmp/a".to_owned()));
    assert!(cache.get(&b).is_none());
    cache.insert(b.clone(), "/tmp/b".to_owned());
    assert_eq!(cache.get(&a), Some(&"/tmp/a".to_owned()));
    assert_eq!(cache.get(&b), Some(&"/tmp/b".to_owned()));
}

#[test]
fn key_equality_is_structural() {
    let g = |t: &str| AddonKey::from_github(GithubLink { repo: "r".to_owned(), tag: t.to_owned(), filename: "f".to_owned() });
    assert_eq!(g("1"), g("1"));
    assert_ne!(g("1"), g("2"));
    assert_ne!(g("1"), AddonKey::from_url(UrlLink::new("r".to_owned())));
}

#[test]
fn mod_manager_release_scrape() {
    let body = r#"<a href="/ModOrganizer2/modorganizer/releases/tag/v2.5.0rc1">c</a>
<a href="/ModOrganizer2/modorganizer/releases/tag/v2.4.4">s</a>"#;
    assert_eq!(
        InstallMo2::scrape_mo2_url(body),
        Ok("https://github.com/ModOrganizer2/modorganizer/releases/download/v2.4.4/Mod.Organizer-2.4.4.7z".to_owned())
    );
    assert_eq!(InstallMo2::scrape_mo2_url("<p/>"), Err(ScrapeError::LinkNotFound));
}

#[test]
fn modded_exes_scrape() {
    let body = r#"<a href="/o/r/archive/main.zip">m</a><a href="/o/r/blob/main/exes.zip">e</a>"#;
    assert_eq!(InstallModdedExes::scrape_exes_url(body), Ok("https://github.com/o/r/raw/main/exes.zip".to_owned()));
    assert_eq!(InstallModdedExes::scrape_exes_url(""), Err(ScrapeError::LinkNotFound));
}

#[test]
fn archiver_arguments() {
    let u = Unpacker7Zip::new("7zr.exe".to_owned());
    assert_eq!(u.path(), "7zr.exe");
    assert_eq!(u.unpack_args("a.7z", "out"), vec!["x".to_owned(), "-oout".to_owned(), "a.7z".to_owned()]);
}

#[test]
fn download_progress_counts_and_saturates() {
    let mut p = DownloadProgress::default();
    p.record_chunk(10);
    p.record_chunk(5);
    assert_eq!(p.downloaded, 15);
    p.record_chunk(u64::MAX);
    assert_eq!(p.downloaded, u64::MAX);
}

#[test]
fn mod_manager_settings_point_at_the_game() {
    let template = "[General]\r\ngamePath=@ByteArray(D:\\\\Games\\\\Anomaly)\r\nbase=D:/Games/Anomaly/mo2\r\nlast";
    let out = InstallMo2::configure_mo2(template, "C:\\Stalker\\Anomaly");
    assert_eq!(
        out,
        "[General]\ngamePath=@ByteArray(C:\\\\Stalker\\\\Anomaly)\nbase=C:/Stalker/Anomaly/mo2\nlast\n"
    );
    assert_eq!(InstallMo2::configure_mo2("", "x"), "");
    assert_eq!(InstallMo2::configure_mo2("a\n\nb\n", "x"), "a\n\nb\n");
}

#[test]
fn disposition_file_name() {
    assert_eq!(suggested_file_name("attachment; filename=pack.7z"), Some("pack.7z".to_owned()));
    assert_eq!(suggested_file_name("attachment; filename = \"pack.zip\""), Some("pack.zip\"".to_owned()));
    assert_eq!(suggested_file_name("inline"), None);
}

#[test]
fn release_version_splits_at_slashes_only() {
    let body = r#"<a href="/o/r/releases/tag/v1\v2">x</a>"#;
    assert_eq!(
        InstallMo2::scrape_mo2_url(body),
        Ok("https://github.com/ModOrganizer2/modorganizer/releases/download/v1\\2/Mod.Organizer-1\\2.7z".to_owned())
    );
    let key = GithubLink { repo: "o/r".to_owned(), tag: "latest".to_owned(), filename: "f-$VERSION".to_owned() };
    let probe = Fetched::Page { status_ok: true, final_path: "/o/r/releases/tag/a\\b".to_owned(), body: String::new() };
    assert_eq!(
        done(key.get_download_url(&vec![probe])).unwrap(),
        "https://github.com/o/r/releases/download/a\\b/f-a\\b"
    );
}

#[test]
fn cache_keeps_the_first_directory_of_a_key() {

    let a = AddonKey::from_url(UrlLink::new("a".to_owned()));
    let mut cache: DownloadCache<String> = DownloadCache::new();
    assert!(matches!(cache.lookup(&a), CacheLookup::Fetch));
    assert!(cache.insert(a.clone(), "/first".to_owned()));
    assert!(!cache.insert(a.clone(), "/second".to_owned()));
    match cache.lookup(&a) {
        CacheLookup::Cached(d) => assert_eq!(d, "/first"),
        CacheLookup::Fetch => panic!("a was fetched"),
    }
}
