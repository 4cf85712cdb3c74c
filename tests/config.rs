use anomaly_modder::addon::{AddonKey, FolderEntry, UrlLink};
use anomaly_modder::config::{InstanceConfigData, Metadata, ModpackConfig, Profile};
use anomaly_modder::registry::{Addons, Modpack};

fn strings(v: &[&str]) -> Vec<String> {
    v.iter().map(|s| s.to_string()).collect()
}

#[test]
fn unknown_addons() {
    let dirs = strings(&["ara", "abb", "bba", "hehe"]);

    let entry = FolderEntry::new(AddonKey::Url(UrlLink::new("".to_owned())), None);
    let mut addons = Addons::new();
    addons.insert("ara".to_owned(), entry.clone());
    addons.insert("bba".to_owned(), entry.clone());

    let config = InstanceConfigData::with_parts(
        "mo2".to_owned(),
        "Default".to_owned(),
        addons,
        vec![Profile::default()],
    );

    let expected = vec!["abb", "hehe"];
    let missing = config.unknown_addons(&dirs);

    assert_eq!(missing.len(), expected.len());
    for s in expected {
        assert!(missing.contains(&s.to_owned()));
    }
}

#[test]
fn config_missing_addons() {
    let installed = strings(&["ara", "bba"]);

    let entry = FolderEntry::new(AddonKey::Url(UrlLink::new("".to_owned())), None);
    let mut addons = Addons::new();
    addons.insert("ara".to_owned(), entry.clone());
    addons.insert("abb".to_owned(), entry.clone());
    addons.insert("bba".to_owned(), entry.clone());
    addons.insert("hehe".to_owned(), entry.clone());

    let config = InstanceConfigData::with_parts(
        "mo2".to_owned(),
        "Default".to_owned(),
        addons,
        vec![Profile::default()],
    );

    let expected = vec!["abb", "hehe"];
    let missing = config.missing_addons(&installed);

    assert_eq!(missing.len(), expected.len());
    for s in expected {
        assert!(missing.contains(&s.to_owned()));
    }
}

#[test]
fn new_instance_defaults() {
    let config = InstanceConfigData::new();
    assert_eq!(config.mo_dir(), "mo2");
    assert!(config.missing_addons(&Vec::new()).is_empty());
    let p = Profile::default();
    assert_eq!(p.name, "Default");
    assert!(p.load_order.is_empty());
}

#[test]
fn missing_modpack_addons_by_entry() {
    let known = FolderEntry::new(AddonKey::Url(UrlLink::new("k".to_owned())), None);
    let unknown = FolderEntry::new(AddonKey::Url(UrlLink::new("u".to_owned())), None);
    let mut addons = Addons::new();
    addons.insert("local".to_owned(), known.clone());
    let config = InstanceConfigData::with_parts("mo2".to_owned(), "Default".to_owned(), addons, vec![]);
    let pack = Modpack::from_config(ModpackConfig {
        metadata: Metadata { config_version: 1, name: "p".to_owned() },
        mods: vec![("one".to_owned(), known), ("two".to_owned(), unknown)],
    });
    assert_eq!(config.missing_modpack_addons(&pack), strings(&["two"]));
}
