//! The configured catalogue of a modpack and the state of an instance.

use vstd::prelude::*;
use crate::addon::{FolderEntry, FolderEntryView};
use crate::registry::{absent_names, contains_name, unmatched_entries, Addons, Modpack};
use crate::resolve::strings_view;

verus! {

/// Describes a modpack catalogue.
#[derive(Debug)]
pub struct Metadata {
    pub config_version: u8,
    pub name: String,
}

/// A modpack catalogue: its metadata and its addons, each under the name of
/// the directory it installs to, in load order. Names are unique, as keys of
/// the catalogue document.
#[derive(Debug)]
pub struct ModpackConfig {
    pub metadata: Metadata,
    pub mods: Vec<(String, FolderEntry)>,
}

impl ModpackConfig {
    /// The addon names, in order.
    pub open spec fn names(&self) -> Seq<Seq<char>> {
        self.mods@.map_values(|p: (String, FolderEntry)| p.0@)
    }

    /// The addons, in order.
    pub open spec fn entries(&self) -> Seq<(Seq<char>, FolderEntryView)> {
        self.mods@.map_values(|p: (String, FolderEntry)| (p.0@, p.1@))
    }
}

/// An entry of a profile's load order.
#[derive(Debug)]
pub enum AddonEntry {
    Modpack(String),
    Addon(String),
}

/// A named load order.
#[derive(Debug)]
pub struct Profile {
    pub name: String,
    pub load_order: Vec<AddonEntry>,
}

impl Default for Profile {
    fn default() -> (r: Self)
        ensures
            r.name@ == "Default"@,
            r.load_order@.len() == 0,
    {
        Profile { name: "Default".to_string(), load_order: Vec::new() }
    }
}

/// The state of an installation: where the mod manager lives, the current
/// profile, the known addons and the profiles.
pub struct InstanceConfigData {
    mo_dir: String,
    current_profile: String,
    addons: Addons,
    profiles: Vec<Profile>,
}

impl InstanceConfigData {
    /// The directory of the mod manager.
    pub closed spec fn spec_mo_dir(&self) -> Seq<char> {
        self.mo_dir@
    }

    /// The known addons.
    pub closed spec fn spec_addons(&self) -> Addons {
        self.addons
    }

    /// The current profile's name.
    pub closed spec fn spec_current_profile(&self) -> Seq<char> {
        self.current_profile@
    }

    /// The profiles.
    pub closed spec fn spec_profiles(&self) -> Seq<Profile> {
        self.profiles@
    }

    /// A fresh instance: the mod manager in `mo2`, no addons, and one empty
    /// profile `Default`, which is current.
    pub fn new() -> (r: Self)
        ensures
            r.spec_mo_dir() == "mo2"@,
            r.spec_current_profile() == "Default"@,
            r.spec_addons()@.len() == 0,
            r.spec_addons().wf(),
            r.spec_profiles().len() == 1,
            r.spec_profiles()[0].name@ == "Default"@,
            r.spec_profiles()[0].load_order@.len() == 0,
    {
        let profile = Profile { name: "Default".to_string(), load_order: Vec::new() };
        InstanceConfigData {
            addons: Addons::new(),
            profiles: vec![profile],
            mo_dir: "mo2".to_string(),
            current_profile: "Default".to_string(),
        }
    }

    /// An instance with the given parts.
    pub fn with_parts(
        mo_dir: String,
        current_profile: String,
        addons: Addons,
        profiles: Vec<Profile>,
    ) -> (r: Self)
        ensures
            r.spec_mo_dir() == mo_dir@,
            r.spec_current_profile() == current_profile@,
            r.spec_addons() == addons,
            r.spec_profiles() == profiles@,
    {
        InstanceConfigData { mo_dir, current_profile, addons, profiles }
    }

    /// The directory of the mod manager.
    pub fn mo_dir(&self) -> (r: &str)
        ensures
            r@ == self.spec_mo_dir(),
    {
        self.mo_dir.as_str()
    }

    /// The known addons whose directory is not among `installed`, the names
    /// of the directories in the mods directory.
    pub fn missing_addons(&self, installed: &Vec<String>) -> (r: Vec<String>)
        ensures
            strings_view(r) == absent_names(self.spec_addons().names(), strings_view(*installed)),
            self.spec_addons().wf() ==> strings_view(r).no_duplicates(),
    {
        self.addons.missing_addons(installed)
    }

    /// The addons of `modpack` whose entry no known addon has, in the
    /// modpack's order.
    pub fn missing_modpack_addons(&self, modpack: &Modpack) -> (r: Vec<String>)
        ensures
            strings_view(r) == unmatched_entries(modpack.spec_addons()@, self.spec_addons()@),
    {
        let pack = modpack.addons();
        pack.missing_from(&self.addons)
    }

    /// The directories among `dirs`, the names in the mods directory, that
    /// no known addon installs to.
    pub fn unknown_addons(&self, dirs: &Vec<String>) -> (r: Vec<String>)
        ensures
            strings_view(r) == absent_names(strings_view(*dirs), self.spec_addons().names()),
    {
        let names = self.addons.name_list();
        let mut r: Vec<String> = Vec::new();
        let ghost ds = strings_view(*dirs);
        let mut i: usize = 0;
        assert(ds.subrange(0, 0) =~= Seq::<Seq<char>>::empty());
        assert(strings_view(r) =~= Seq::<Seq<char>>::empty());
        while i < dirs.len()
            invariant
                ds == strings_view(*dirs),
                strings_view(names) == self.spec_addons().names(),
                i <= dirs.len(),
                strings_view(r) == absent_names(ds.subrange(0, i as int), strings_view(names)),
            decreases dirs.len() - i,
        {
            assert(ds.subrange(0, i + 1).drop_last() =~= ds.subrange(0, i as int));
            assert(ds[i as int] == dirs@[i as int]@);
            if !contains_name(&names, dirs[i].as_str()) {
                let ghost before = strings_view(r);
                r.push(dirs[i].clone());
                assert(strings_view(r) =~= before.push(ds[i as int]));
            }
            i = i + 1;
        }
        assert(ds.subrange(0, i as int) =~= ds);
        r
    }
}

} // verus!
