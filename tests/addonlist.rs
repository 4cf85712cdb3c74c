use std::collections::{HashMap, HashSet};

use anomaly_modder::addon::{AddonKey, FolderEntry, UrlLink};
use anomaly_modder::registry::{Addons, LoadOrder, LoadOrderError, LocateError, Modpack};
use anomaly_modder::config::{Metadata, ModpackConfig};

fn strings(v: &[&str]) -> Vec<String> {
    v.iter().map(|s| s.to_string()).collect()
}

fn url_entry() -> FolderEntry {
    FolderEntry::new(AddonKey::from_url(UrlLink::new("".to_owned())), None)
}

#[test]
fn find_addons() {
    let paths = strings(&[
        r"D:\Tasks\Weird_Tasks_Framework",
        r"D:\Tasks\Weird_Tasks_Framework\gamedata",
        r"D:\Tasks\BaseGame_TP\gamedata",
        r"D:\Tasks\BaseGame_TP\gamedata\abc",
        r"D:\Tasks\BaseGame_TP",
        r"D:\Tasks\GhenTuong_TP\gamedata",
        r"D:\Tasks\GhenTuong_TP",
        r"D:\Tasks\GhenTuong_TP\gamedata",
        r"D:\Tasks\GhenTuong_TP\gamedata\abs",
        r"D:\Tasks\GhenTuong_TP\gamedata\abs\bca",
    ]);

    let expected: HashSet<String> = strings(&[
        r"D:\Tasks\Weird_Tasks_Framework",
        r"D:\Tasks\BaseGame_TP",
        r"D:\Tasks\GhenTuong_TP",
    ])
    .into_iter()
    .collect();

    let found = Addons::find_addons(&paths);
    assert_eq!(found.len(), expected.len());
    assert_eq!(found.into_iter().collect::<HashSet<String>>(), expected)
}

#[test]
fn addons_with_entries() {
    let paths = strings(&[
        r"D:\Tasks",
        r"D:\Tasks\Weird_Tasks_Framework",
        r"D:\Tasks\BaseGame_TP",
        r"D:\Tasks\GhenTuong_TP",
    ]);

    let key = AddonKey::Url(UrlLink::new("".to_owned()));

    let expected: HashMap<String, FolderEntry> = [
        (
            r"D:\Tasks\Weird_Tasks_Framework".to_owned(),
            FolderEntry::new(key.clone(), Some("Weird_Tasks_Framework".to_owned())),
        ),
        (
            r"D:\Tasks\BaseGame_TP".to_owned(),
            FolderEntry::new(key.clone(), Some("BaseGame_TP".to_owned())),
        ),
        (
            r"D:\Tasks\GhenTuong_TP".to_owned(),
            FolderEntry::new(key.clone(), Some("GhenTuong_TP".to_owned())),
        ),
        (r"D:\Tasks".to_owned(), FolderEntry::new(key.clone(), None)),
    ]
    .into_iter()
    .collect();

    let got: HashMap<String, FolderEntry> =
        Addons::with_entries(&paths, &key, r"D:\Tasks").into_iter().collect();
    assert_eq!(got, expected);
}

#[test]
fn modorg_modlist() {
    let entry = url_entry();
    let mut addons = Addons::new();
    addons.insert("community-task-pack".to_owned(), entry.clone());
    addons.insert("BaseGame_Task_Pack".to_owned(), entry.clone());
    addons.insert("GhenTuong_Task_Pack".to_owned(), entry.clone());
    addons.insert("Arszi_Task_Pack".to_owned(), entry.clone());
    addons.insert("Weird_Tasks_Framework".to_owned(), entry.clone());
    addons.insert("Anomaly-Mod-Configuration-Menu".to_owned(), entry.clone());
    addons.insert("Interactive_PDA".to_owned(), entry.clone());
    addons.insert("Igigui".to_owned(), entry);

    let mut modlist = LoadOrder::new();
    modlist.push("community-task-pack".to_owned());
    modlist.push("BaseGame_Task_Pack".to_owned());
    modlist.push("GhenTuong_Task_Pack".to_owned());
    modlist.push("Arszi_Task_Pack".to_owned());
    modlist.push("Weird_Tasks_Framework".to_owned());
    modlist.push("Anomaly-Mod-Configuration-Menu".to_owned());

    let prefix = [
        "# This file was automatically generated by Anomaly Modding Tool. Sorry if it broke lol.\n",
        "+community-task-pack\n",
        "+BaseGame_Task_Pack\n",
        "+GhenTuong_Task_Pack\n",
        "+Arszi_Task_Pack\n",
        "+Weird_Tasks_Framework\n",
        "+Anomaly-Mod-Configuration-Menu\n",
    ]
    .join("");

    let repr = modlist.to_modorg_modlist(&addons);

    assert!(repr.starts_with(&prefix));
    assert!(repr.lines().count() == addons.name_list().len() + 1);
    for k in addons.name_list().iter().filter(|k| !modlist.names().contains(k)) {
        assert!(repr.contains(&("-".to_owned() + k)));
        assert!(!repr.contains(&("+".to_owned() + k)))
    }
}

#[test]
fn addonlist_missing_addons() {
    let mut addons = Addons::new();
    let entry = url_entry();

    let addons_found = [
        "community-task-pack".to_owned(),
        "BaseGame_Task_Pack".to_owned(),
        "GhenTuong_Task_Pack".to_owned(),
    ];
    let mut installed = Vec::new();
    for addon in addons_found {
        installed.push(addon.clone());
        addons.insert(addon, entry.clone());
    }

    let addons_missing = ["Igigui".to_owned(), "Arszi_Task_Pack".to_owned()];
    for addon in &addons_missing {
        addons.insert(addon.clone(), entry.clone());
    }

    let missing = addons.missing_addons(&installed);
    assert_eq!(missing.len(), addons_missing.len());
    for addon in &addons_missing {
        assert!(missing.contains(addon));
    }
}

#[test]
fn render_lists_enabled_then_disabled_once() {
    let mut addons = Addons::new();
    addons.insert("x".to_owned(), url_entry());
    addons.insert("y".to_owned(), url_entry());
    addons.insert("z".to_owned(), url_entry());
    let mut order = LoadOrder::new();
    order.push("x".to_owned());
    order.push("y".to_owned());
    let text = order.to_modorg_modlist(&addons);
    let lines: Vec<&str> = text.lines().collect();
    assert_eq!(
        lines,
        vec![
            "# This file was automatically generated by Anomaly Modding Tool. Sorry if it broke lol.",
            "+x",
            "+y",
            "-z",
        ]
    );
}

#[test]
fn render_with_nothing_enabled() {
    let mut addons = Addons::new();
    addons.insert("a".to_owned(), url_entry());
    let order = LoadOrder::new();
    assert!(order.to_modorg_modlist(&addons).ends_with("lol.\n-a\n"));
}

#[test]
fn change_position_moves_and_keeps_others_in_order() {
    let mut order = LoadOrder::new();
    for n in ["a", "b", "c", "d"] {
        order.push(n.to_owned());
    }
    order.change_position("d", 1).unwrap();
    assert_eq!(order.names(), &strings(&["a", "d", "b", "c"]));
    order.change_position("a", 3).unwrap();
    assert_eq!(order.names(), &strings(&["d", "b", "c", "a"]));
}

#[test]
fn change_position_past_the_end_appends() {
    let mut order = LoadOrder::new();
    for n in ["a", "b", "c"] {
        order.push(n.to_owned());
    }
    order.change_position("a", 10).unwrap();
    assert_eq!(order.names(), &strings(&["b", "c", "a"]));
}

#[test]
fn change_position_unknown_addon() {
    let mut order = LoadOrder::new();
    order.push("a".to_owned());
    assert_eq!(order.change_position("zzz", 0), Err(LoadOrderError::UnknownAddon));
    assert_eq!(order.names(), &strings(&["a"]));
}

#[test]
fn missing_addons_of_three_with_one_installed() {
    let mut addons = Addons::new();
    for n in ["a", "b", "c"] {
        addons.insert(n.to_owned(), url_entry());
    }
    assert_eq!(addons.missing_addons(&strings(&["a"])), strings(&["b", "c"]));
}

#[test]
fn insert_replaces_known_name() {
    let mut addons = Addons::new();
    assert!(addons.insert("a".to_owned(), url_entry()).is_none());
    let other = FolderEntry::new(AddonKey::from_url(UrlLink::new("u".to_owned())), None);
    assert_eq!(addons.insert("a".to_owned(), other.clone()), Some(url_entry()));
    assert_eq!(addons.get("a"), Some(&other));
    assert_eq!(addons.name_list(), strings(&["a"]));
    assert!(addons.get("b").is_none());
}

#[test]
fn locator_picks_the_only_candidate() {
    let folders = strings(&["root", "root/sub", "root/sub/gamedata"]);
    let entry = url_entry();
    assert_eq!(Addons::find_addon_folder(&entry, &folders, "root"), Ok("root/sub".to_owned()));
}

#[test]
fn locator_picks_the_named_candidate() {
    let folders = strings(&["root", "root/sub", "root/sub/gamedata"]);
    let entry = FolderEntry::new(AddonKey::from_url(UrlLink::new("".to_owned())), Some("sub".to_owned()));
    assert_eq!(Addons::find_addon_folder(&entry, &folders, "root"), Ok("root/sub".to_owned()));
}

#[test]
fn locator_fails_without_marker_directory() {
    let folders = strings(&["root", "root/sub", "root/sub/data"]);
    assert_eq!(
        Addons::find_addon_folder(&url_entry(), &folders, "root"),
        Err(LocateError::AmbiguousOrMissingAddonFolder)
    );
}

#[test]
fn locator_prefers_root_among_several() {
    let folders = strings(&["root", "root/gamedata", "root/b", "root/b/gamedata"]);
    assert_eq!(Addons::find_addon_folder(&url_entry(), &folders, "root"), Ok("root".to_owned()));
    let folders = strings(&["root", "root/a/gamedata", "root/b/gamedata"]);
    assert_eq!(
        Addons::find_addon_folder(&url_entry(), &folders, "root"),
        Err(LocateError::AmbiguousOrMissingAddonFolder)
    );
}

#[test]
fn modpack_from_config_keeps_order() {
    let config = ModpackConfig {
        metadata: Metadata { config_version: 1, name: "pack".to_owned() },
        mods: vec![("b".to_owned(), url_entry()), ("a".to_owned(), url_entry())],
    };
    let pack = Modpack::from_config(config);
    assert_eq!(pack.order().names(), &strings(&["b", "a"]));
    assert_eq!(pack.addons().name_list(), strings(&["b", "a"]));
    assert_eq!(pack.missing_addons(&strings(&["a"])), strings(&["b"]));
    assert!(pack.modlist().ends_with("+b\n+a\n"));
}

#[test]
fn get_after_insert_returns_the_new_entry() {
    let mut addons = Addons::new();
    addons.insert("a".to_owned(), url_entry());
    addons.insert("b".to_owned(), url_entry());
    let other = FolderEntry::new(AddonKey::from_url(UrlLink::new("new".to_owned())), Some("s".to_owned()));
    addons.insert("a".to_owned(), other.clone());
    assert_eq!(addons.get("a"), Some(&other));
    assert_eq!(addons.get("b"), Some(&url_entry()));
    let missing = addons.missing_addons(&Vec::new());
    assert_eq!(missing, strings(&["a", "b"]));
}
