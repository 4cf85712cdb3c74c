//! The catalogue of known addons and the order in which enabled ones load.

use vstd::prelude::*;
use crate::addon::{AddonKey, FolderEntry, FolderEntryView, opt_view};
use crate::config::ModpackConfig;
use crate::transaction::{BasicTransaction, ComplexTransaction, InDir};
use crate::resolve::strings_view;
use crate::text::{eq_str, file_name, file_name_of, parent, parent_of};

verus! {

broadcast use {vstd::seq_lib::to_multiset_remove, vstd::seq_lib::to_multiset_insert};

/// The first line of a rendered mod list.
pub const LOADORDER_HEADER: &'static str =
    "# This file was automatically generated by Anomaly Modding Tool. Sorry if it broke lol.\n";

/// Whether the list `v` holds the string `x`.
pub fn contains_name(v: &Vec<String>, x: &str) -> (r: bool)
    ensures
        r == strings_view(*v).contains(x@),
{
    let mut i: usize = 0;
    while i < v.len()
        invariant
            i <= v.len(),
            forall|j: int| 0 <= j < i ==> v@[j]@ != x@,
        decreases v.len() - i,
    {
        if eq_str(v[i].as_str(), x) {
            assert(strings_view(*v)[i as int] == x@);
            return true;
        }
        i = i + 1;
    }
    assert forall|j: int| 0 <= j < strings_view(*v).len() implies strings_view(*v)[j] != x@ by {
        assert(v@[j]@ != x@);
    }
    false
}

/// The first position of `x` in `v`.
pub fn index_of(v: &Vec<String>, x: &str) -> (r: Option<usize>)
    ensures
        r matches Some(i) ==> is_first_index(strings_view(*v), x@, i as int),
        r is None ==> !strings_view(*v).contains(x@),
{
    let mut i: usize = 0;
    while i < v.len()
        invariant
            i <= v.len(),
            forall|j: int| 0 <= j < i ==> strings_view(*v)[j] != x@,
        decreases v.len() - i,
    {
        if eq_str(v[i].as_str(), x) {
            return Some(i);
        }
        i = i + 1;
    }
    None
}

/// One line `mark name` for each of `ns`, in order, each ended by a line
/// feed.
pub open spec fn prefixed_lines(mark: Seq<char>, ns: Seq<Seq<char>>) -> Seq<char>
    decreases ns.len(),
{
    if ns.len() == 0 {
        Seq::empty()
    } else {
        prefixed_lines(mark, ns.drop_last()) + mark + ns.last() + "\n"@
    }
}

/// The mod list of a load order over the catalogue names `names`: the
/// header, `+name` for each enabled addon in load order, then `-name` for
/// each other addon in catalogue order.
pub open spec fn modlist_text(order: Seq<Seq<char>>, names: Seq<Seq<char>>) -> Seq<char> {
    LOADORDER_HEADER@ + prefixed_lines("+"@, order) + prefixed_lines(
        "-"@,
        absent_names(names, order),
    )
}

/// A position clamped to a length: past the end means at the end.
pub open spec fn clamp_position(pos: int, len: int) -> int {
    if pos <= len {
        pos
    } else {
        len
    }
}

/// `s` with its element at `ix` taken out and put back at `pos`.
pub open spec fn moved(s: Seq<Seq<char>>, ix: int, pos: int) -> Seq<Seq<char>> {
    s.remove(ix).insert(clamp_position(pos, s.len() - 1), s[ix])
}

/// `ix` is the first position of `x` in `s`.
pub open spec fn is_first_index(s: Seq<Seq<char>>, x: Seq<char>, ix: int) -> bool {
    0 <= ix < s.len() && s[ix] == x && forall|j: int| 0 <= j < ix ==> s[j] != x
}

/// Moving an element is a reordering: the result holds the same names as
/// many times, the moved name stands at the requested (clamped) position,
/// and without it the others stand in their original relative order.
pub proof fn lemma_move_is_reordering(s: Seq<Seq<char>>, ix: int, pos: int)
    requires
        0 <= ix < s.len(),
        0 <= pos,
    ensures
        moved(s, ix, pos).to_multiset() == s.to_multiset(),
        moved(s, ix, pos)[clamp_position(pos, s.len() - 1)] == s[ix],
        moved(s, ix, pos).remove(clamp_position(pos, s.len() - 1)) == s.remove(ix),
        moved(s, ix, pos).len() == s.len(),
{
    let p = clamp_position(pos, s.len() - 1);
    let r = s.remove(ix);
    assert(r.insert(p, s[ix]).remove(p) =~= r);
    assert(s.to_multiset().remove(s[ix]).insert(s[ix]) =~= s.to_multiset()) by {
        vstd::seq_lib::to_multiset_contains(s, s[ix]);
        assert(s.contains(s[ix]));
    }
}

/// The enabled addons, in load order: the first loads first.
pub struct LoadOrder {
    names: Vec<String>,
}

/// Why a load order could not be changed.
#[derive(Debug, Clone, Copy, PartialEq, Eq, Structural)]
pub enum LoadOrderError {
    /// The name is not in the load order.
    UnknownAddon,
}

impl View for LoadOrder {
    type V = Seq<Seq<char>>;

    closed spec fn view(&self) -> Seq<Seq<char>> {
        strings_view(self.names)
    }
}

impl LoadOrder {
    /// An empty load order.
    pub fn new() -> (r: Self)
        ensures
            r@ == Seq::<Seq<char>>::empty(),
    {
        let r = LoadOrder { names: Vec::new() };
        assert(r@ =~= Seq::<Seq<char>>::empty());
        r
    }

    /// Appends `addon` as the last to load.
    pub fn push(&mut self, addon: String)
        ensures
            final(self)@ == old(self)@.push(addon@),
    {
        self.names.push(addon);
        assert(self@ =~= old(self)@.push(addon@));
    }

    /// The names, in load order.
    pub fn names(&self) -> (r: &Vec<String>)
        ensures
            strings_view(*r) == self@,
    {
        &self.names
    }

    /// Moves `addon` from its first position to `pos`, shifting the others;
    /// a position past the end moves it to the end.
    pub fn change_position(&mut self, addon: &str, pos: usize) -> (r: Result<(), LoadOrderError>)
        ensures
            r is Err <==> !old(self)@.contains(addon@),
            r is Err ==> final(self)@ == old(self)@,
            r is Ok ==> exists|ix: int|
                is_first_index(old(self)@, addon@, ix) && final(self)@ == moved(
                    old(self)@,
                    ix,
                    pos as int,
                ),
    {
        let ghost s = self@;
        let i = match index_of(&self.names, addon) {
            Some(i) => i,
            None => {
                return Err(LoadOrderError::UnknownAddon);
            },
        };
        assert(is_first_index(s, addon@, i as int));
        let a = self.names.remove(i);
        let p = if pos <= self.names.len() {
            pos
        } else {
            self.names.len()
        };
        self.names.insert(p, a);
        assert(self@ =~= moved(s, i as int, pos as int));
        Ok(())
    }

    /// The mod list text: the header line, `+name` for each enabled addon in
    /// load order, then `-name` for each addon of `all` that is not enabled.
    pub fn to_modorg_modlist(&self, all: &Addons) -> (r: String)
        ensures
            r@ == modlist_text(self@, all.names()),
    {
        let mut s = LOADORDER_HEADER.to_string();
        let mut i: usize = 0;
        let ghost order = self@;
        assert(order.subrange(0, 0) =~= Seq::<Seq<char>>::empty());
        while i < self.names.len()
            invariant
                order == self@,
                i <= self.names.len(),
                s@ == LOADORDER_HEADER@ + prefixed_lines("+"@, order.subrange(0, i as int)),
            decreases self.names.len() - i,
        {
            assert(order.subrange(0, i + 1).drop_last() =~= order.subrange(0, i as int));
            s.append("+");
            s.append(self.names[i].as_str());
            s.append("\n");
            i = i + 1;
        }
        assert(order.subrange(0, i as int) =~= order);
        let ghost head = s@;
        let ghost names = all.names();
        let mut k: usize = 0;
        assert(names.subrange(0, 0) =~= Seq::<Seq<char>>::empty());
        while k < all.entries.len()
            invariant
                order == self@,
                names == all.names(),
                names.len() == all.entries.len(),
                k <= all.entries.len(),
                s@ == head + prefixed_lines("-"@, absent_names(names.subrange(0, k as int), order)),
            decreases all.entries.len() - k,
        {
            assert(names.subrange(0, k + 1).drop_last() =~= names.subrange(0, k as int));
            assert(names[k as int] == all.entries[k as int].0@);
            let ghost prev = absent_names(names.subrange(0, k as int), order);
            assert(prev.push(names[k as int]).drop_last() =~= prev);
            if !contains_name(&self.names, all.entries[k].0.as_str()) {
                s.append("-");
                s.append(all.entries[k].0.as_str());
                s.append("\n");
            }
            k = k + 1;
        }
        assert(names.subrange(0, k as int) =~= names);
        s
    }
}

/// The names of `names` that `present` does not hold, in order.
pub open spec fn absent_names(names: Seq<Seq<char>>, present: Seq<Seq<char>>) -> Seq<Seq<char>>
    decreases names.len(),
{
    if names.len() == 0 {
        Seq::empty()
    } else if present.contains(names.last()) {
        absent_names(names.drop_last(), present)
    } else {
        absent_names(names.drop_last(), present).push(names.last())
    }
}

/// Whether some pair of `known` has the entry `e`.
pub open spec fn has_entry(known: Seq<(Seq<char>, FolderEntryView)>, e: FolderEntryView) -> bool {
    exists|k: int| 0 <= k < known.len() && known[k].1 == e
}

/// The names of `pairs` whose entry no pair of `known` has, in order.
pub open spec fn unmatched_entries(
    pairs: Seq<(Seq<char>, FolderEntryView)>,
    known: Seq<(Seq<char>, FolderEntryView)>,
) -> Seq<Seq<char>>
    decreases pairs.len(),
{
    if pairs.len() == 0 {
        Seq::empty()
    } else if has_entry(known, pairs.last().1) {
        unmatched_entries(pairs.drop_last(), known)
    } else {
        unmatched_entries(pairs.drop_last(), known).push(pairs.last().0)
    }
}

/// The names of `names` that `present` does not hold are exactly those
/// that are not present, and they repeat none when `names` repeats none.
pub proof fn lemma_absent_names(names: Seq<Seq<char>>, present: Seq<Seq<char>>)
    ensures
        forall|x: Seq<char>|
            #[trigger] absent_names(names, present).contains(x) <==> (names.contains(x)
                && !present.contains(x)),
        names.no_duplicates() ==> absent_names(names, present).no_duplicates(),
    decreases names.len(),
{
    if names.len() > 0 {
        let init = names.drop_last();
        lemma_absent_names(init, present);
        assert forall|x: Seq<char>| names.contains(x) <==> (init.contains(x) || x == names.last()) by {
            if names.contains(x) {
                let i = choose|i: int| 0 <= i < names.len() && names[i] == x;
                if i < names.len() - 1 {
                    assert(init[i] == x);
                }
            }
            if init.contains(x) {
                let i = choose|i: int| 0 <= i < init.len() && init[i] == x;
                assert(names[i] == x);
            }
            if x == names.last() {
                assert(names[names.len() - 1] == x);
            }
        }
        let rest = absent_names(init, present);
        let y = names.last();
        if !present.contains(y) {
            assert(absent_names(names, present) == rest.push(y));
            assert forall|x: Seq<char>| rest.push(y).contains(x) <==> (rest.contains(x) || x == y) by {
                if rest.push(y).contains(x) {
                    let i = choose|i: int| 0 <= i < rest.push(y).len() && rest.push(y)[i] == x;
                    if i < rest.len() {
                        assert(rest[i] == x);
                    }
                }
                if rest.contains(x) {
                    let i = choose|i: int| 0 <= i < rest.len() && rest[i] == x;
                    assert(rest.push(y)[i] == x);
                }
                if x == y {
                    assert(rest.push(y)[rest.len() as int] == x);
                }
            }
        } else {
            assert(absent_names(names, present) == rest);
        }
        assert forall|x: Seq<char>|
            #[trigger] absent_names(names, present).contains(x) <==> (names.contains(x)
                && !present.contains(x)) by {
            assert(rest.contains(x) <==> (init.contains(x) && !present.contains(x)));
            assert(names.contains(x) <==> (init.contains(x) || x == names.last()));
        }
        if names.no_duplicates() {
            assert(init.no_duplicates()) by {
                assert forall|i: int, j: int|
                    0 <= i < init.len() && 0 <= j < init.len() && i != j implies init[i]
                    != init[j] by {
                    assert(init[i] == names[i] && init[j] == names[j]);
                }
            }
            assert(!init.contains(names.last())) by {
                if init.contains(names.last()) {
                    let i = choose|i: int| 0 <= i < init.len() && init[i] == names.last();
                    assert(names[i] == names[names.len() - 1]);
                }
            }
            if !present.contains(y) {
                assert(!rest.contains(y));
                assert forall|i: int, j: int|
                    0 <= i < rest.push(y).len() && 0 <= j < rest.push(y).len() && i != j implies rest.push(
                    y,
                )[i] != rest.push(y)[j] by {
                    if i < rest.len() && j < rest.len() {
                    } else if i < rest.len() {
                        assert(rest.contains(rest[i]));
                    } else if j < rest.len() {
                        assert(rest.contains(rest[j]));
                    }
                }
            }
        }
    } else {
        assert forall|x: Seq<char>| !#[trigger] absent_names(names, present).contains(x) by {}
    }
}

/// The rendered mod list names every addon of the catalogue exactly once:
/// with unique names, and a load order of known names without repeats, an
/// enabled addon appears among the `+` lines only and once there, and any
/// other appears among the `-` lines only and once there.
pub proof fn lemma_modlist_names_each_addon_once(names: Seq<Seq<char>>, order: Seq<Seq<char>>)
    requires
        names.no_duplicates(),
        order.no_duplicates(),
        forall|x: Seq<char>| order.contains(x) ==> names.contains(x),
    ensures
        forall|x: Seq<char>|
            names.contains(x) ==> (order.contains(x) != #[trigger] absent_names(
                names,
                order,
            ).contains(x)),
        forall|x: Seq<char>| #[trigger] absent_names(names, order).contains(x) ==> names.contains(x),
        absent_names(names, order).no_duplicates(),
{
    lemma_absent_names(names, order);
}

/// A path that names the content marker directory of an addon.
pub open spec fn is_marker_path(p: Seq<char>) -> bool {
    file_name(p) == "gamedata"@
}

/// The payload folder candidates among `folders`: the parent of each marker
/// directory, once each, in order of first appearance.
pub open spec fn payload_candidates(folders: Seq<Seq<char>>) -> Seq<Seq<char>>
    decreases folders.len(),
{
    if folders.len() == 0 {
        Seq::empty()
    } else {
        let rest = payload_candidates(folders.drop_last());
        let f = folders.last();
        if is_marker_path(f) && !rest.contains(parent(f)) {
            rest.push(parent(f))
        } else {
            rest
        }
    }
}

/// The `j`-th of `folders` is a marker directory whose parent is `p`.
pub open spec fn marks_parent(folders: Seq<Seq<char>>, j: int, p: Seq<char>) -> bool {
    0 <= j < folders.len() && is_marker_path(folders[j]) && parent(folders[j]) == p
}

/// The payload folder candidates are exactly the parents of the marker
/// directories among `folders`, each once.
pub proof fn lemma_payload_candidates(folders: Seq<Seq<char>>)
    ensures
        forall|p: Seq<char>|
            #[trigger] payload_candidates(folders).contains(p) <==> exists|j: int|
                marks_parent(folders, j, p),
        payload_candidates(folders).no_duplicates(),
    decreases folders.len(),
{
    if folders.len() > 0 {
        let init = folders.drop_last();
        lemma_payload_candidates(init);
        let rest = payload_candidates(init);
        let f = folders.last();
        let grows = is_marker_path(f) && !rest.contains(parent(f));
        assert forall|p: Seq<char>|
            #[trigger] payload_candidates(folders).contains(p) <==> exists|j: int|
                marks_parent(folders, j, p) by {
            if grows {
                assert(payload_candidates(folders) == rest.push(parent(f)));
                if rest.push(parent(f)).contains(p) {
                    let q = rest.push(parent(f));
                    let i = choose|i: int| 0 <= i < q.len() && q[i] == p;
                    if i < rest.len() {
                        assert(rest.contains(p));
                        let j = choose|j: int| marks_parent(init, j, p);
                        assert(folders[j] == init[j]);
                        assert(marks_parent(folders, j, p));
                    } else {
                        assert(folders[folders.len() - 1] == f);
                        assert(marks_parent(folders, folders.len() - 1, p));
                    }
                }
                if exists|j: int| marks_parent(folders, j, p) {
                    let j = choose|j: int| marks_parent(folders, j, p);
                    if j < folders.len() - 1 {
                        assert(init[j] == folders[j]);
                        assert(marks_parent(init, j, p));
                        assert(rest.contains(p));
                        let i = choose|i: int| 0 <= i < rest.len() && rest[i] == p;
                        assert(rest.push(parent(f))[i] == p);
                    } else {
                        assert(rest.push(parent(f))[rest.len() as int] == p);
                    }
                }
            } else {
                assert(payload_candidates(folders) == rest);
                if rest.contains(p) {
                    let j = choose|j: int| marks_parent(init, j, p);
                    assert(folders[j] == init[j]);
                    assert(marks_parent(folders, j, p));
                }
                if exists|j: int| marks_parent(folders, j, p) {
                    let j = choose|j: int| marks_parent(folders, j, p);
                    if j < folders.len() - 1 {
                        assert(init[j] == folders[j]);
                        assert(marks_parent(init, j, p));
                    } else {
                        assert(folders[j] == f);
                        assert(rest.contains(parent(f)));
                    }
                }
            }
        }
        if grows {
            assert forall|a: int, b: int|
                0 <= a < rest.push(parent(f)).len() && 0 <= b < rest.push(parent(f)).len() && a != b
                implies rest.push(parent(f))[a] != rest.push(parent(f))[b] by {
                if a < rest.len() && b < rest.len() {
                } else if a < rest.len() {
                    assert(rest.contains(rest[a]));
                } else if b < rest.len() {
                    assert(rest.contains(rest[b]));
                }
            }
        }
    }
}

/// The first candidate whose last component is `name`.
pub open spec fn first_named(cands: Seq<Seq<char>>, name: Seq<char>) -> Option<Seq<char>>
    decreases cands.len(),
{
    if cands.len() == 0 {
        None
    } else if file_name(cands[0]) == name {
        Some(cands[0])
    } else {
        first_named(cands.subrange(1, cands.len() as int), name)
    }
}

/// The payload folder chosen among `cands` for an archive unpacked at
/// `root`: the one named by `folder` if any is; else `root` if it is a
/// candidate; else the only candidate; else none.
pub open spec fn select_payload(
    folder: Option<Seq<char>>,
    cands: Seq<Seq<char>>,
    root: Seq<char>,
) -> Option<Seq<char>> {
    let named = match folder {
        Some(n) => first_named(cands, n),
        None => None,
    };
    if named is Some {
        named
    } else if cands.contains(root) {
        Some(root)
    } else if cands.len() == 1 {
        Some(cands[0])
    } else {
        None
    }
}

/// The entry recorded for a payload folder found at `p` in an archive
/// unpacked at `root`.
pub open spec fn folder_entry_for(
    key: crate::addon::AddonKeyView,
    p: Seq<char>,
    root: Seq<char>,
) -> FolderEntryView {
    FolderEntryView {
        download: key,
        addon_folder: if p == root {
            None
        } else {
            Some(file_name(p))
        },
    }
}

/// Why no payload folder could be chosen.
#[derive(Debug, Clone, Copy, PartialEq, Eq, Structural)]
pub enum LocateError {
    /// No candidate, or several and none chosen by name or by being the root.
    AmbiguousOrMissingAddonFolder,
}

/// Known addons, by the name of the directory each is installed under.
pub struct Addons {
    entries: Vec<(String, FolderEntry)>,
}

impl View for Addons {
    type V = Seq<(Seq<char>, FolderEntryView)>;

    closed spec fn view(&self) -> Seq<(Seq<char>, FolderEntryView)> {
        self.entries@.map_values(|p: (String, FolderEntry)| (p.0@, p.1@))
    }
}

impl Addons {
    /// The addon names, in the order they were first inserted.
    pub open spec fn names(&self) -> Seq<Seq<char>> {
        self@.map_values(|p: (Seq<char>, FolderEntryView)| p.0)
    }

    /// Names are unique.
    pub open spec fn wf(&self) -> bool {
        self.names().no_duplicates()
    }

    /// An empty catalogue.
    pub fn new() -> (r: Self)
        ensures
            r.wf(),
            r@ == Seq::<(Seq<char>, FolderEntryView)>::empty(),
            r.names() == Seq::<Seq<char>>::empty(),
    {
        let r = Addons { entries: Vec::new() };
        assert(r@ =~= Seq::<(Seq<char>, FolderEntryView)>::empty());
        assert(r.names() =~= Seq::<Seq<char>>::empty());
        r
    }

    /// Position of `name`, if it is known.
    fn position(&self, name: &str) -> (r: Option<usize>)
        ensures
            r matches Some(i) ==> i < self.entries.len() && self.names()[i as int] == name@,
            r is None ==> !self.names().contains(name@),
    {
        let mut i: usize = 0;
        while i < self.entries.len()
            invariant
                i <= self.entries.len(),
                forall|j: int| 0 <= j < i ==> self.names()[j] != name@,
            decreases self.entries.len() - i,
        {
            if eq_str(self.entries[i].0.as_str(), name) {
                return Some(i);
            }
            i = i + 1;
        }
        None
    }

    /// Records `entry` under `name`: replaces the entry of a known name in
    /// place and hands back the old one, or appends a new name.
    pub fn insert(&mut self, name: String, entry: FolderEntry) -> (r: Option<FolderEntry>)
        requires
            old(self).wf(),
        ensures
            final(self).wf(),
            r matches Some(e) ==> exists|i: int|
                0 <= i < old(self)@.len() && old(self)@[i].0 == name@ && old(self)@[i].1 == e@
                    && final(self)@ == old(self)@.update(i, (name@, entry@)) && final(self).names()
                    == old(self).names(),
            r is None ==> !old(self).names().contains(name@) && final(self)@ == old(self)@.push(
                (name@, entry@),
            ) && final(self).names() == old(self).names().push(name@),
    {
        match self.position(name.as_str()) {
            Some(i) => {
                let ghost nm = name@;
                let ghost ev = entry@;
                let prev = self.entries.remove(i);
                self.entries.insert(i, (name, entry));
                assert(self@ =~= old(self)@.update(i as int, (nm, ev)));
                assert(self.names() =~= old(self).names());
                Some(prev.1)
            },
            None => {
                let ghost nm = name@;
                let ghost ev = entry@;
                self.entries.push((name, entry));
                assert(self@ =~= old(self)@.push((nm, ev)));
                assert(self.names() =~= old(self).names().push(nm));
                None
            },
        }
    }

    /// The entry of the addon named `folder`.
    pub fn get(&self, folder: &str) -> (r: Option<&FolderEntry>)
        ensures
            r matches Some(e) ==> exists|i: int|
                0 <= i < self@.len() && self@[i].0 == folder@ && self@[i].1 == e@,
            r is None ==> !self.names().contains(folder@),
    {
        match self.position(folder) {
            Some(i) => {
                assert(self@[i as int].0 == folder@);
                Some(&self.entries[i].1)
            },
            None => None,
        }
    }

    /// Whether some known addon has exactly this entry.
    pub fn has(&self, entry: &FolderEntry) -> (r: bool)
        ensures
            r == exists|i: int| 0 <= i < self@.len() && self@[i].1 == entry@,
    {
        let mut i: usize = 0;
        while i < self.entries.len()
            invariant
                i <= self.entries.len(),
                forall|j: int| 0 <= j < i ==> self@[j].1 != entry@,
            decreases self.entries.len() - i,
        {
            if self.entries[i].1 == *entry {
                assert(self@[i as int].1 == entry@);
                return true;
            }
            i = i + 1;
        }
        false
    }

    /// The known addons whose directory is not among `installed`, the
    /// names of the directories present in the mods directory.
    pub fn missing_addons(&self, installed: &Vec<String>) -> (r: Vec<String>)
        ensures
            strings_view(r) == absent_names(self.names(), strings_view(*installed)),
            self.wf() ==> strings_view(r).no_duplicates(),
    {
        proof {
            lemma_absent_names(self.names(), strings_view(*installed));
        }
        let mut r: Vec<String> = Vec::new();
        let ghost names = self.names();
        let ghost present = strings_view(*installed);
        let mut i: usize = 0;
        assert(names.subrange(0, 0) =~= Seq::<Seq<char>>::empty());
        assert(strings_view(r) =~= Seq::<Seq<char>>::empty());
        while i < self.entries.len()
            invariant
                names == self.names(),
                present == strings_view(*installed),
                i <= self.entries.len(),
                strings_view(r) == absent_names(names.subrange(0, i as int), present),
            decreases self.entries.len() - i,
        {
            assert(names.subrange(0, i + 1).drop_last() =~= names.subrange(0, i as int));
            assert(names[i as int] == self.entries[i as int].0@);
            if !contains_name(installed, self.entries[i].0.as_str()) {
                let ghost before = strings_view(r);
                r.push(self.entries[i].0.clone());
                assert(strings_view(r) =~= before.push(names[i as int]));
            }
            i = i + 1;
        }
        assert(names.subrange(0, i as int) =~= names);
        r
    }

    /// The payload folder candidates among `folders`, the paths found in an
    /// unpacked archive: each parent of a directory named `gamedata`.
    pub fn find_addons(folders: &Vec<String>) -> (r: Vec<String>)
        ensures
            strings_view(r) == payload_candidates(strings_view(*folders)),
    {
        let mut r: Vec<String> = Vec::new();
        let ghost fs = strings_view(*folders);
        let mut i: usize = 0;
        assert(fs.subrange(0, 0) =~= Seq::<Seq<char>>::empty());
        assert(strings_view(r) =~= Seq::<Seq<char>>::empty());
        while i < folders.len()
            invariant
                fs == strings_view(*folders),
                i <= folders.len(),
                strings_view(r) == payload_candidates(fs.subrange(0, i as int)),
            decreases folders.len() - i,
        {
            assert(fs.subrange(0, i + 1).drop_last() =~= fs.subrange(0, i as int));
            assert(fs[i as int] == folders@[i as int]@);
            let name = file_name_of(folders[i].as_str());
            if eq_str(name.as_str(), "gamedata") {
                let par = parent_of(folders[i].as_str());
                if !contains_name(&r, par.as_str()) {
                    let ghost before = strings_view(r);
                    let ghost pv = par@;
                    r.push(par);
                    assert(strings_view(r) =~= before.push(pv));
                }
            }
            i = i + 1;
        }
        assert(fs.subrange(0, i as int) =~= fs);
        r
    }

    /// The entry to record for each payload folder in `addons`, found in an
    /// archive downloaded from `key` and unpacked at `root_folder`: the root
    /// needs no folder name, any other is named by its last component.
    pub fn with_entries(addons: &Vec<String>, key: &AddonKey, root_folder: &str) -> (r: Vec<
        (String, FolderEntry),
    >)
        ensures
            r.len() == addons.len(),
            forall|i: int|
                0 <= i < r.len() ==> r[i].0@ == addons[i]@ && r[i].1@ == folder_entry_for(
                    key@,
                    addons[i]@,
                    root_folder@,
                ),
    {
        let mut r: Vec<(String, FolderEntry)> = Vec::new();
        let mut i: usize = 0;
        while i < addons.len()
            invariant
                i <= addons.len(),
                r.len() == i,
                forall|j: int|
                    0 <= j < i ==> r[j].0@ == addons[j]@ && r[j].1@ == folder_entry_for(
                        key@,
                        addons[j]@,
                        root_folder@,
                    ),
            decreases addons.len() - i,
        {
            let p = &addons[i];
            let folder = if eq_str(p.as_str(), root_folder) {
                None
            } else {
                Some(file_name_of(p.as_str()))
            };
            let e = FolderEntry::new(key.clone(), folder);
            r.push((p.clone(), e));
            i = i + 1;
        }
        r
    }

    /// The first of `cands` whose last component is `name`.
    fn first_named_in(cands: &Vec<String>, name: &str) -> (r: Option<String>)
        ensures
            r matches Some(v) ==> first_named(strings_view(*cands), name@) == Some(v@),
            r is None ==> first_named(strings_view(*cands), name@) is None,
    {
        let ghost all = strings_view(*cands);
        let mut i: usize = 0;
        assert(all.subrange(0, all.len() as int) =~= all);
        while i < cands.len()
            invariant
                all == strings_view(*cands),
                i <= cands.len(),
                first_named(all.subrange(i as int, all.len() as int), name@) == first_named(
                    all,
                    name@,
                ),
            decreases cands.len() - i,
        {
            let ghost rest = all.subrange(i as int, all.len() as int);
            assert(rest[0] == cands[i as int]@);
            assert(rest.subrange(1, rest.len() as int) =~= all.subrange(i + 1, all.len() as int));
            let f = file_name_of(cands[i].as_str());
            if eq_str(f.as_str(), name) {
                return Some(cands[i].clone());
            }
            i = i + 1;
        }
        None
    }

    /// Chooses the payload folder among the candidates `cands` of an archive
    /// unpacked at `root`, for an entry that names `folder` or none.
    pub fn choose_addon_folder(folder: &Option<String>, cands: &Vec<String>, root: &str) -> (r:
        Result<String, LocateError>)
        ensures
            r matches Ok(p) ==> select_payload(opt_view(*folder), strings_view(*cands), root@)
                == Some(p@),
            r is Err ==> select_payload(opt_view(*folder), strings_view(*cands), root@) is None,
    {
        let named = match folder {
            Some(n) => Addons::first_named_in(cands, n.as_str()),
            None => None,
        };
        match named {
            Some(p) => Ok(p),
            None => {
                if contains_name(cands, root) {
                    Ok(root.to_string())
                } else if cands.len() == 1 {
                    Ok(cands[0].clone())
                } else {
                    Err(LocateError::AmbiguousOrMissingAddonFolder)
                }
            },
        }
    }

    /// The payload folder of an addon whose archive was unpacked at
    /// `dl_dir`, given every path found under it.
    pub fn find_addon_folder(entry: &FolderEntry, folders: &Vec<String>, dl_dir: &str) -> (r:
        Result<String, LocateError>)
        ensures
            r matches Ok(p) ==> select_payload(
                opt_view(entry.addon_folder),
                payload_candidates(strings_view(*folders)),
                dl_dir@,
            ) == Some(p@),
            r is Err ==> select_payload(
                opt_view(entry.addon_folder),
                payload_candidates(strings_view(*folders)),
                dl_dir@,
            ) is None,
    {
        let cands = Addons::find_addons(folders);
        Addons::choose_addon_folder(&entry.addon_folder, &cands, dl_dir)
    }

    /// The names, in order.
    pub fn name_list(&self) -> (r: Vec<String>)
        ensures
            strings_view(r) == self.names(),
    {
        let mut r: Vec<String> = Vec::new();
        let mut i: usize = 0;
        while i < self.entries.len()
            invariant
                i <= self.entries.len(),
                r.len() == i,
                forall|j: int| 0 <= j < i ==> r@[j]@ == self.names()[j],
            decreases self.entries.len() - i,
        {
            r.push(self.entries[i].0.clone());
            i = i + 1;
        }
        assert(strings_view(r) =~= self.names());
        r
    }

    /// The names whose entry no addon of `known` has, in order.
    pub fn missing_from(&self, known: &Addons) -> (r: Vec<String>)
        ensures
            strings_view(r) == unmatched_entries(self@, known@),
    {
        let mut r: Vec<String> = Vec::new();
        let ghost pairs = self@;
        let mut i: usize = 0;
        assert(pairs.subrange(0, 0) =~= Seq::<(Seq<char>, FolderEntryView)>::empty());
        assert(strings_view(r) =~= Seq::<Seq<char>>::empty());
        while i < self.entries.len()
            invariant
                pairs == self@,
                i <= self.entries.len(),
                strings_view(r) == unmatched_entries(pairs.subrange(0, i as int), known@),
            decreases self.entries.len() - i,
        {
            assert(pairs.subrange(0, i + 1).drop_last() =~= pairs.subrange(0, i as int));
            if !known.has(&self.entries[i].1) {
                let ghost before = strings_view(r);
                r.push(self.entries[i].0.clone());
                assert(strings_view(r) =~= before.push(pairs[i as int].0));
            }
            i = i + 1;
        }
        assert(pairs.subrange(0, i as int) =~= pairs);
        r
    }
}

/// A modpack: its addons and the order in which they load.
pub struct Modpack {
    addons: Addons,
    order: LoadOrder,
}

impl Modpack {
    /// The addons.
    pub closed spec fn spec_addons(&self) -> Addons {
        self.addons
    }

    /// The load order.
    pub closed spec fn spec_order(&self) -> Seq<Seq<char>> {
        self.order@
    }

    /// No addons.
    pub fn new() -> (r: Self)
        ensures
            r.spec_addons().wf(),
            r.spec_addons()@.len() == 0,
            r.spec_order().len() == 0,
    {
        Modpack { addons: Addons::new(), order: LoadOrder::new() }
    }

    /// The modpack of a catalogue, whose names are unique: every addon
    /// enabled, in catalogue order.
    pub fn from_config(config: ModpackConfig) -> (r: Self)
        requires
            config.names().no_duplicates(),
        ensures
            r.spec_addons().wf(),
            r.spec_order() == config.names(),
            r.spec_addons()@ == config.entries(),
    {
        let ghost names = config.names();
        let ghost ents = config.entries();
        let mut pack = Modpack::new();
        let mut mods = config.mods;
        let mut i: usize = 0;
        let ghost all = mods@;
        let total = mods.len();
        assert(names.subrange(0, 0) =~= Seq::<Seq<char>>::empty());
        assert(ents.subrange(0, 0) =~= Seq::<(Seq<char>, FolderEntryView)>::empty());
        while mods.len() > 0
            invariant
                names == all.map_values(|p: (String, FolderEntry)| p.0@),
                ents == all.map_values(|p: (String, FolderEntry)| (p.0@, p.1@)),
                mods@ == all.subrange(i as int, all.len() as int),
                mods@.len() == all.len() - i,
                all.len() == total,
                i <= all.len(),
                pack.addons.wf(),
                pack.order@ == names.subrange(0, i as int),
                names.no_duplicates() ==> pack.addons@ == ents.subrange(0, i as int)
                    && pack.addons.names() == names.subrange(0, i as int),
            decreases all.len() - i,
        {
            let pair = mods.remove(0);
            assert(mods@ =~= all.subrange(i + 1, all.len() as int));
            match pair {
                (folder, entry) => {
                    assert(folder@ == names[i as int]);
                    assert(ents[i as int] == (folder@, entry@));
                    proof {
                        if names.no_duplicates() {
                            assert(!names.subrange(0, i as int).contains(names[i as int]));
                        }
                    }
                    let ghost before = pack.addons@;
                    pack.order.push(folder.clone());
                    let prev = pack.addons.insert(folder, entry);
                    proof {
                        if names.no_duplicates() {
                            if prev is Some {
                                let k = choose|k: int|
                                    0 <= k < before.len() && before[k].0 == names[i as int];
                                assert(names.subrange(0, i as int)[k] == names[i as int]);
                            }
                        }
                    }
                    assert(names.subrange(0, i + 1) =~= names.subrange(0, i as int).push(
                        names[i as int],
                    ));
                    assert(ents.subrange(0, i + 1) =~= ents.subrange(0, i as int).push(
                        ents[i as int],
                    ));
                    i = i + 1;
                },
            }
        }
        assert(names.subrange(0, i as int) =~= names);
        assert(ents.subrange(0, i as int) =~= ents);
        pack
    }

    /// The addons.
    pub fn addons(&self) -> (r: &Addons)
        ensures
            *r == self.spec_addons(),
    {
        &self.addons
    }

    /// The load order.
    pub fn order(&self) -> (r: &LoadOrder)
        ensures
            r@ == self.spec_order(),
    {
        &self.order
    }

    /// The mod list text of this modpack.
    pub fn modlist(&self) -> (r: String)
        ensures
            r@ == modlist_text(self.spec_order(), self.spec_addons().names()),
    {
        self.order.to_modorg_modlist(&self.addons)
    }

    /// The addons of this modpack whose directory is not among `installed`.
    pub fn missing_addons(&self, installed: &Vec<String>) -> (r: Vec<String>)
        ensures
            strings_view(r) == absent_names(self.spec_addons().names(), strings_view(*installed)),
            self.spec_addons().wf() ==> strings_view(r).no_duplicates(),
    {
        self.addons.missing_addons(installed)
    }

    /// The merge that installs the staged payloads: each payload under a
    /// directory named after its addon, one after the other.
    pub fn staging(staged: Vec<(String, BasicTransaction)>) -> (r: ComplexTransaction<
        InDir<BasicTransaction>,
    >)
        ensures
            r.parts().len() == staged.len(),
            forall|i: int|
                0 <= i < staged.len() ==> r.parts()[i].dir() == staged@[i].0@ && r.parts()[i].inner()
                    == staged@[i].1,
    {
        let mut tr: ComplexTransaction<InDir<BasicTransaction>> = ComplexTransaction::new();
        let ghost all = staged@;
        let mut rest = staged;
        let total = rest.len();
        let mut i: usize = 0;
        while rest.len() > 0
            invariant
                rest@ == all.subrange(i as int, all.len() as int),
                rest@.len() == all.len() - i,
                all.len() == total,
                i <= all.len(),
                tr.parts().len() == i,
                forall|j: int|
                    0 <= j < i ==> tr.parts()[j].dir() == all[j].0@ && tr.parts()[j].inner()
                        == all[j].1,
            decreases all.len() - i,
        {
            let (name, payload) = rest.remove(0);
            assert(rest@ =~= all.subrange(i + 1, all.len() as int));
            tr.add(InDir::new(payload, name.as_str()));
            i = i + 1;
        }
        tr
    }
}

} // verus!
