//! Directory merges planned as values, and the guard that backs up what a
//! merge overwrites so that a failed merge can be undone.
//!
//! A transaction lists the files it writes, relative to the directory it is
//! applied to, and the copies that apply it. The caller performs the copies.

use vstd::prelude::*;
use crate::resolve::strings_view;
use crate::text::{is_sep, join, join_path, occurs_at_exec};

verus! {

/// One path found by walking a directory tree, the tree's root included.
#[derive(Debug)]
pub struct WalkEntry {
    pub path: String,
    pub is_file: bool,
}

/// What walking a directory found.
#[derive(Debug)]
pub enum DirListing {
    /// The path is not a directory.
    NotADirectory,
    /// Some entry under the directory could not be read.
    Unreadable,
    /// Every entry of the tree.
    Entries(Vec<WalkEntry>),
}

/// Why a transaction could not be made or did not complete.
#[derive(Debug, Clone, PartialEq, Eq)]
pub enum TransactionError {
    /// The source of a merge is not a directory.
    NotADirectory,
    /// The source tree could not be read completely.
    Unreadable,
    /// The walk of the source tree gave a file outside it.
    EntryOutsideRoot,
    /// The backup path is a file, or a directory that is not empty.
    BackupTargetNotClean,
    /// The merge failed and every file it touched was restored.
    InstallFailedButReverted(String),
    /// The merge failed and restoring failed too; the backup is kept.
    InstallFailedAndUnrecoverable { error: String, rollback_error: String, backup_dir: String },
}

/// Copy the tree under `source` into `dest`, overwriting, creating
/// directories as needed; `files` are the files of the tree, relative to
/// `source`.
#[derive(Debug)]
pub struct CopyStep {
    pub source: String,
    pub dest: String,
    pub files: Vec<String>,
}

/// The mathematical value of a [`CopyStep`].
pub struct CopyStepView {
    pub source: Seq<char>,
    pub dest: Seq<char>,
    pub files: Seq<Seq<char>>,
}

impl View for CopyStep {
    type V = CopyStepView;

    open spec fn view(&self) -> CopyStepView {
        CopyStepView { source: self.source@, dest: self.dest@, files: strings_view(self.files) }
    }
}

/// The values of a list of copies.
pub open spec fn steps_view(v: Vec<CopyStep>) -> Seq<CopyStepView> {
    v@.map_values(|s: CopyStep| s@)
}

/// The files that one copy writes.
pub open spec fn step_writes(s: CopyStepView) -> Seq<Seq<char>> {
    s.files.map_values(|f: Seq<char>| join(s.dest, f))
}

/// The files that a sequence of copies writes, in order.
pub open spec fn plan_writes(plan: Seq<CopyStepView>) -> Seq<Seq<char>>
    decreases plan.len(),
{
    if plan.len() == 0 {
        Seq::empty()
    } else {
        plan_writes(plan.drop_last()) + step_writes(plan.last())
    }
}

/// Each of `paths` placed under `root`.
pub open spec fn under_root(root: Seq<char>, paths: Seq<Seq<char>>) -> Seq<Seq<char>> {
    paths.map_values(|p: Seq<char>| join(root, p))
}

/// `p` relative to `root`, when `p` lies under it: what follows `root` and
/// a separator, or, when `root` itself ends in a separator (`d/`, `C:\`),
/// what follows `root`. The result is never empty.
pub open spec fn relative_to(root: Seq<char>, p: Seq<char>) -> Option<Seq<char>> {
    if root.len() > 0 && is_sep(root.last()) {
        if p.len() > root.len() && p.subrange(0, root.len() as int) == root {
            Some(p.subrange(root.len() as int, p.len() as int))
        } else {
            None
        }
    } else if p.len() > root.len() + 1 && p.subrange(0, root.len() as int) == root && is_sep(
        p[root.len() as int],
    ) {
        Some(p.subrange(root.len() + 1 as int, p.len() as int))
    } else {
        None
    }
}

/// A merge source, applied to a destination directory.
pub trait Transaction {
    /// The files written, relative to the destination.
    spec fn paths(&self) -> Seq<Seq<char>>;

    /// The copies that apply it to `root`, in order.
    spec fn plan(&self, root: Seq<char>) -> Seq<CopyStepView>;

    /// The files written, relative to the destination.
    fn relative_file_paths(&self) -> (r: Vec<String>)
        ensures
            strings_view(r) == self.paths(),
    ;

    /// The copies that apply it to `root`, in order.
    fn run_plan(&self, root: &str) -> (r: Vec<CopyStep>)
        ensures
            steps_view(r) == self.plan(root@),
    ;

    /// Applying to `root` writes exactly the listed paths under `root`.
    proof fn lemma_plan_writes_paths(&self, root: Seq<char>)
        ensures
            plan_writes(self.plan(root)) == under_root(root, self.paths()),
    ;
}

/// The whole tree under a directory, merged as it is.
pub struct BasicTransaction {
    root: String,
    files: Vec<String>,
}

/// The files among `entries` that lie under `root`, relative to it; `None`
/// when a file lies elsewhere.
pub open spec fn walked_files(root: Seq<char>, entries: Seq<WalkEntry>) -> Option<Seq<Seq<char>>>
    decreases entries.len(),
{
    if entries.len() == 0 {
        Some(Seq::empty())
    } else {
        match walked_files(root, entries.drop_last()) {
            None => None,
            Some(rest) => {
                let e = entries.last();
                if !e.is_file {
                    Some(rest)
                } else {
                    match relative_to(root, e.path@) {
                        Some(rel) => Some(rest.push(rel)),
                        None => None,
                    }
                }
            },
        }
    }
}

/// `p` relative to `root`, when `p` lies under it.
pub fn relative_path(root: &str, p: &str) -> (r: Option<String>)
    ensures
        r matches Some(v) ==> relative_to(root@, p@) == Some(v@),
        r is None ==> relative_to(root@, p@) is None,
{
    let n = p.unicode_len();
    let m = root.unicode_len();
    if m > 0 {
        let last = root.get_char(m - 1);
        if last == '/' || last == '\\' {
            if n > m && occurs_at_exec(p, root, 0) {
                return Some(p.substring_char(m, n).to_string());
            }
            return None;
        }
    }
    if n <= m || n - m <= 1 {
        return None;
    }
    if !occurs_at_exec(p, root, 0) {
        return None;
    }
    let c = p.get_char(m);
    if c == '/' || c == '\\' {
        Some(p.substring_char(m + 1, n).to_string())
    } else {
        None
    }
}

/// A copy of a list of strings.
pub fn clone_strings(v: &Vec<String>) -> (r: Vec<String>)
    ensures
        strings_view(r) == strings_view(*v),
{
    let mut r: Vec<String> = Vec::new();
    let mut i: usize = 0;
    while i < v.len()
        invariant
            i <= v.len(),
            r.len() == i,
            forall|j: int| 0 <= j < i ==> r@[j]@ == v@[j]@,
        decreases v.len() - i,
    {
        r.push(v[i].clone());
        i = i + 1;
    }
    assert(strings_view(r) =~= strings_view(*v));
    r
}

impl BasicTransaction {
    /// The directory whose tree is merged.
    pub closed spec fn source(&self) -> Seq<char> {
        self.root@
    }

    /// The files of the tree, relative to its root.
    pub closed spec fn files_view(&self) -> Seq<Seq<char>> {
        strings_view(self.files)
    }

    /// The merge of the tree under `root`, given what walking it found.
    pub fn new(root: String, listing: DirListing) -> (r: Result<Self, TransactionError>)
        ensures
            listing is NotADirectory ==> r matches Err(TransactionError::NotADirectory),
            listing is Unreadable ==> r matches Err(TransactionError::Unreadable),
            listing matches DirListing::Entries(es) ==> match walked_files(root@, es@) {
                Some(fs) => r matches Ok(t) && t.paths() == fs && t.source() == root@,
                None => r matches Err(TransactionError::EntryOutsideRoot),
            },
    {
        let entries = match &listing {
            DirListing::NotADirectory => {
                return Err(TransactionError::NotADirectory);
            },
            DirListing::Unreadable => {
                return Err(TransactionError::Unreadable);
            },
            DirListing::Entries(es) => es,
        };
        let ghost es = entries@;
        let mut files: Vec<String> = Vec::new();
        let mut i: usize = 0;
        assert(es.subrange(0, 0) =~= Seq::<WalkEntry>::empty());
        assert(strings_view(files) =~= Seq::<Seq<char>>::empty());
        while i < entries.len()
            invariant
                es == entries@,
                listing matches DirListing::Entries(x) && x@ == es,
                i <= entries.len(),
                walked_files(root@, es.subrange(0, i as int)) == Some(strings_view(files)),
            decreases entries.len() - i,
        {
            assert(es.subrange(0, i + 1).drop_last() =~= es.subrange(0, i as int));
            let e = &entries[i];
            if e.is_file {
                match relative_path(root.as_str(), e.path.as_str()) {
                    Some(rel) => {
                        let ghost before = strings_view(files);
                        let ghost rv = rel@;
                        files.push(rel);
                        assert(strings_view(files) =~= before.push(rv));
                    },
                    None => {
                        assert(walked_files(root@, es.subrange(0, i + 1)) is None);
                        proof {
                            lemma_walk_failure_persists(root@, es, i + 1, es.len() as int);
                        }
                        assert(es.subrange(0, es.len() as int) =~= es);
                        return Err(TransactionError::EntryOutsideRoot);
                    },
                }
            }
            i = i + 1;
        }
        assert(es.subrange(0, i as int) =~= es);
        Ok(BasicTransaction { root, files })
    }
}

proof fn lemma_walk_failure_persists(root: Seq<char>, es: Seq<WalkEntry>, i: int, k: int)
    requires
        0 <= i <= k <= es.len(),
        walked_files(root, es.subrange(0, i)) is None,
    ensures
        walked_files(root, es.subrange(0, k)) is None,
    decreases k - i,
{
    if k > i {
        lemma_walk_failure_persists(root, es, i, k - 1);
        assert(es.subrange(0, k).drop_last() =~= es.subrange(0, k - 1));
    }
}

impl Transaction for BasicTransaction {
    open spec fn paths(&self) -> Seq<Seq<char>> {
        self.files_view()
    }

    open spec fn plan(&self, root: Seq<char>) -> Seq<CopyStepView> {
        seq![CopyStepView { source: self.source(), dest: root, files: self.paths() }]
    }

    fn relative_file_paths(&self) -> (r: Vec<String>) {
        clone_strings(&self.files)
    }

    fn run_plan(&self, root: &str) -> (r: Vec<CopyStep>) {
        let step = CopyStep {
            source: self.root.clone(),
            dest: root.to_string(),
            files: clone_strings(&self.files),
        };
        let r = vec![step];
        assert(steps_view(r) =~= self.plan(root@));
        r
    }

    proof fn lemma_plan_writes_paths(&self, root: Seq<char>) {
        let p = self.plan(root);
        assert(p.drop_last() =~= Seq::<CopyStepView>::empty());
        assert(plan_writes(p.drop_last()) == Seq::<Seq<char>>::empty());
        assert(step_writes(p.last()) =~= under_root(root, self.paths()));
        assert(plan_writes(p) == plan_writes(p.drop_last()) + step_writes(p.last()));
        assert(plan_writes(p) =~= under_root(root, self.paths()));
    }
}

/// Applying a merge writes exactly the files it lists: against an empty
/// destination `root`, the files present afterwards are its relative paths,
/// each placed under `root`.
pub proof fn lemma_apply_writes_listed_files<T: Transaction>(t: T, root: Seq<char>)
    ensures
        plan_writes(t.plan(root)).to_set() == under_root(root, t.paths()).to_set(),
{
    t.lemma_plan_writes_paths(root);
}

/// A merge relocated under a subdirectory of the destination.
pub struct InDir<T: Transaction> {
    transaction: T,
    dir: String,
}

impl<T: Transaction> InDir<T> {
    /// The relocated merge.
    pub closed spec fn inner(&self) -> T {
        self.transaction
    }

    /// The subdirectory it is applied under.
    pub closed spec fn dir(&self) -> Seq<char> {
        self.dir@
    }

    /// `tr`, applied under the subdirectory `dir` of the destination.
    pub fn new(tr: T, dir: &str) -> (r: Self)
        ensures
            r.inner() == tr,
            r.dir() == dir@,
    {
        InDir { transaction: tr, dir: dir.to_string() }
    }
}

impl<T: Transaction> Transaction for InDir<T> {
    open spec fn paths(&self) -> Seq<Seq<char>> {
        under_root(self.dir(), self.inner().paths())
    }

    open spec fn plan(&self, root: Seq<char>) -> Seq<CopyStepView> {
        self.inner().plan(join(root, self.dir()))
    }

    fn relative_file_paths(&self) -> (r: Vec<String>) {
        let inner = self.transaction.relative_file_paths();
        let mut r: Vec<String> = Vec::new();
        let mut i: usize = 0;
        while i < inner.len()
            invariant
                i <= inner.len(),
                r.len() == i,
                forall|j: int| 0 <= j < i ==> r@[j]@ == join(self.dir@, inner@[j]@),
            decreases inner.len() - i,
        {
            r.push(join_path(self.dir.as_str(), inner[i].as_str()));
            i = i + 1;
        }
        assert(strings_view(r) =~= self.paths());
        r
    }

    fn run_plan(&self, root: &str) -> (r: Vec<CopyStep>) {
        let actual_root = join_path(root, self.dir.as_str());
        self.transaction.run_plan(actual_root.as_str())
    }

    proof fn lemma_plan_writes_paths(&self, root: Seq<char>) {
        let sub = join(root, self.dir());
        self.inner().lemma_plan_writes_paths(sub);
        assert forall|j: int| 0 <= j < self.inner().paths().len() implies join(
            sub,
            #[trigger] self.inner().paths()[j],
        ) == join(root, join(self.dir(), self.inner().paths()[j])) by {
            let p = self.inner().paths()[j];
            assert(join(sub, p) =~= join(root, join(self.dir(), p)));
        }
        assert(under_root(sub, self.inner().paths()) =~= under_root(root, self.paths()));
    }
}

/// The files that the parts list, one part after the other.
pub open spec fn parts_paths<T: Transaction>(parts: Seq<T>) -> Seq<Seq<char>>
    decreases parts.len(),
{
    if parts.len() == 0 {
        Seq::empty()
    } else {
        parts_paths(parts.drop_last()) + parts.last().paths()
    }
}

/// The copies of the parts applied to `root`, one part after the other.
pub open spec fn parts_plan<T: Transaction>(parts: Seq<T>, root: Seq<char>) -> Seq<CopyStepView>
    decreases parts.len(),
{
    if parts.len() == 0 {
        Seq::empty()
    } else {
        parts_plan(parts.drop_last(), root) + parts.last().plan(root)
    }
}

proof fn lemma_plan_writes_append(a: Seq<CopyStepView>, b: Seq<CopyStepView>)
    ensures
        plan_writes(a + b) == plan_writes(a) + plan_writes(b),
    decreases b.len(),
{
    if b.len() == 0 {
        assert(a + b =~= a);
        assert(plan_writes(a) + plan_writes(b) =~= plan_writes(a));
    } else {
        assert((a + b).drop_last() =~= a + b.drop_last());
        assert((a + b).last() == b.last());
        lemma_plan_writes_append(a, b.drop_last());
        assert(plan_writes(a) + plan_writes(b) =~= plan_writes(a) + plan_writes(b.drop_last())
            + step_writes(b.last()));
    }
}

proof fn lemma_under_root_append(root: Seq<char>, a: Seq<Seq<char>>, b: Seq<Seq<char>>)
    ensures
        under_root(root, a + b) == under_root(root, a) + under_root(root, b),
{
    assert(under_root(root, a + b) =~= under_root(root, a) + under_root(root, b));
}

proof fn lemma_parts_write_paths<T: Transaction>(parts: Seq<T>, root: Seq<char>)
    ensures
        plan_writes(parts_plan(parts, root)) == under_root(root, parts_paths(parts)),
    decreases parts.len(),
{
    if parts.len() == 0 {
        assert(under_root(root, Seq::<Seq<char>>::empty()) =~= Seq::<Seq<char>>::empty());
    } else {
        lemma_parts_write_paths(parts.drop_last(), root);
        parts.last().lemma_plan_writes_paths(root);
        lemma_plan_writes_append(parts_plan(parts.drop_last(), root), parts.last().plan(root));
        lemma_under_root_append(root, parts_paths(parts.drop_last()), parts.last().paths());
    }
}

/// Several merges applied in order; a later part overwrites what an earlier
/// one wrote at the same path.
pub struct ComplexTransaction<T: Transaction> {
    parts: Vec<T>,
}

impl<T: Transaction> ComplexTransaction<T> {
    /// The parts, in the order they apply.
    pub closed spec fn parts(&self) -> Seq<T> {
        self.parts@
    }

    /// No parts.
    pub fn new() -> (r: Self)
        ensures
            r.parts() == Seq::<T>::empty(),
    {
        ComplexTransaction { parts: Vec::new() }
    }

    /// The parts `parts`, in order.
    pub fn from_parts(parts: Vec<T>) -> (r: Self)
        ensures
            r.parts() == parts@,
    {
        ComplexTransaction { parts }
    }

    /// Appends `tr` as the last part.
    pub fn add(&mut self, tr: T)
        ensures
            final(self).parts() == old(self).parts().push(tr),
    {
        self.parts.push(tr);
    }
}

impl<T: Transaction> Transaction for ComplexTransaction<T> {
    open spec fn paths(&self) -> Seq<Seq<char>> {
        parts_paths(self.parts())
    }

    open spec fn plan(&self, root: Seq<char>) -> Seq<CopyStepView> {
        parts_plan(self.parts(), root)
    }

    fn relative_file_paths(&self) -> (r: Vec<String>) {
        let mut r: Vec<String> = Vec::new();
        let mut i: usize = 0;
        let ghost ps = self.parts@;
        assert(ps.subrange(0, 0) =~= Seq::<T>::empty());
        assert(strings_view(r) =~= Seq::<Seq<char>>::empty());
        while i < self.parts.len()
            invariant
                ps == self.parts@,
                i <= self.parts.len(),
                strings_view(r) == parts_paths(ps.subrange(0, i as int)),
            decreases self.parts.len() - i,
        {
            assert(ps.subrange(0, i + 1).drop_last() =~= ps.subrange(0, i as int));
            let mut more = self.parts[i].relative_file_paths();
            let ghost before = strings_view(r);
            let ghost added = strings_view(more);
            r.append(&mut more);
            assert(strings_view(r) =~= before + added);
            i = i + 1;
        }
        assert(ps.subrange(0, i as int) =~= ps);
        r
    }

    fn run_plan(&self, root: &str) -> (r: Vec<CopyStep>) {
        let mut r: Vec<CopyStep> = Vec::new();
        let mut i: usize = 0;
        let ghost ps = self.parts@;
        assert(ps.subrange(0, 0) =~= Seq::<T>::empty());
        assert(steps_view(r) =~= Seq::<CopyStepView>::empty());
        while i < self.parts.len()
            invariant
                ps == self.parts@,
                i <= self.parts.len(),
                steps_view(r) == parts_plan(ps.subrange(0, i as int), root@),
            decreases self.parts.len() - i,
        {
            assert(ps.subrange(0, i + 1).drop_last() =~= ps.subrange(0, i as int));
            let mut more = self.parts[i].run_plan(root);
            let ghost before = steps_view(r);
            let ghost added = steps_view(more);
            r.append(&mut more);
            assert(steps_view(r) =~= before + added);
            i = i + 1;
        }
        assert(ps.subrange(0, i as int) =~= ps);
        r
    }

    proof fn lemma_plan_writes_paths(&self, root: Seq<char>) {
        lemma_parts_write_paths(self.parts(), root);
    }
}

/// What stands at the backup path before a guarded merge.
#[derive(Debug, Clone, Copy, PartialEq, Eq, Structural)]
pub enum BackupDirState {
    Missing,
    IsFile,
    EmptyDir,
    NonEmptyDir,
}

/// A merge guarded by a backup of every file it overwrites.
///
/// Applying it to `root`: copy each pair of [`SafeTransaction::backup_plan`]
/// whose source exists; run the inner merge's copies; if one fails, delete
/// each path of [`SafeTransaction::reverse_plan`] (a missing file is no
/// error), copy the backup tree back over `root`, and report through
/// [`SafeTransaction::settle`]. The backup directory is removed afterwards
/// unless [`SafeTransaction::keeps_backup`] says otherwise.
pub struct SafeTransaction<T: Transaction> {
    transaction: T,
    backup_dir: String,
}

impl<T: Transaction> SafeTransaction<T> {
    /// The guarded merge.
    pub closed spec fn inner(&self) -> T {
        self.transaction
    }

    /// The backup directory.
    pub closed spec fn backup(&self) -> Seq<char> {
        self.backup_dir@
    }

    /// A backup path can take a backup when nothing is there or an empty
    /// directory is.
    pub fn check_backup_dir(state: BackupDirState) -> (r: Result<(), TransactionError>)
        ensures
            r is Ok <==> (state == BackupDirState::Missing || state == BackupDirState::EmptyDir),
            r is Err ==> r matches Err(TransactionError::BackupTargetNotClean),
    {
        match state {
            BackupDirState::Missing | BackupDirState::EmptyDir => Ok(()),
            _ => Err(TransactionError::BackupTargetNotClean),
        }
    }

    /// `tr` guarded by a backup under `backup`, where `state` is what stands
    /// there now; the caller creates the directory when it is missing.
    pub fn new(tr: T, backup: String, state: BackupDirState) -> (r: Result<
        Self,
        TransactionError,
    >)
        ensures
            r is Ok <==> (state == BackupDirState::Missing || state == BackupDirState::EmptyDir),
            r matches Ok(g) ==> g.inner() == tr && g.backup() == backup@,
            r is Err ==> r matches Err(TransactionError::BackupTargetNotClean),
    {
        match Self::check_backup_dir(state) {
            Ok(()) => Ok(SafeTransaction { transaction: tr, backup_dir: backup }),
            Err(e) => Err(e),
        }
    }

    /// For each file of the merge, where it lies under `root` and where its
    /// backup goes.
    pub fn backup_plan(&self, root: &str) -> (r: Vec<(String, String)>)
        ensures
            r.len() == self.inner().paths().len(),
            forall|i: int|
                0 <= i < r.len() ==> r[i].0@ == join(root@, self.inner().paths()[i]) && r[i].1@
                    == join(self.backup(), self.inner().paths()[i]),
    {
        let paths = self.transaction.relative_file_paths();
        let mut r: Vec<(String, String)> = Vec::new();
        let mut i: usize = 0;
        while i < paths.len()
            invariant
                strings_view(paths) == self.inner().paths(),
                i <= paths.len(),
                r.len() == i,
                forall|j: int|
                    0 <= j < i ==> r[j].0@ == join(root@, paths@[j]@) && r[j].1@ == join(
                        self.backup_dir@,
                        paths@[j]@,
                    ),
            decreases paths.len() - i,
        {
            let from = join_path(root, paths[i].as_str());
            let to = join_path(self.backup_dir.as_str(), paths[i].as_str());
            r.push((from, to));
            i = i + 1;
        }
        r
    }

    /// The files to delete under `root` before the backup is copied back.
    pub fn reverse_plan(&self, root: &str) -> (r: Vec<String>)
        ensures
            strings_view(r) == under_root(root@, self.inner().paths()),
    {
        let paths = self.transaction.relative_file_paths();
        let mut r: Vec<String> = Vec::new();
        let mut i: usize = 0;
        while i < paths.len()
            invariant
                strings_view(paths) == self.inner().paths(),
                i <= paths.len(),
                r.len() == i,
                forall|j: int| 0 <= j < i ==> r@[j]@ == join(root@, paths@[j]@),
            decreases paths.len() - i,
        {
            r.push(join_path(root, paths[i].as_str()));
            i = i + 1;
        }
        assert(strings_view(r) =~= under_root(root@, self.inner().paths()));
        r
    }

    /// What to undo after the merge ran: nothing when it succeeded; when it
    /// failed with `apply_error`, the files to delete under `root`, after
    /// which the backup is copied back over `root`.
    pub fn rollback_plan(&self, root: &str, apply_error: &Option<String>) -> (r: Option<
        Vec<String>,
    >)
        ensures
            r is None <==> apply_error is None,
            r matches Some(v) ==> strings_view(v) == under_root(root@, self.inner().paths()),
    {
        match apply_error {
            None => None,
            Some(_) => Some(self.reverse_plan(root)),
        }
    }

    /// The outcome of a guarded merge: success when the merge succeeded;
    /// otherwise its error, with the rollback's error and the backup's
    /// location when restoring failed too.
    pub fn settle(&self, apply_error: Option<String>, rollback_error: Option<String>) -> (r: Result<
        (),
        TransactionError,
    >)
        ensures
            apply_error is None ==> r is Ok,
            apply_error matches Some(e) ==> match rollback_error {
                None => r matches Err(TransactionError::InstallFailedButReverted(x)) && x@ == e@,
                Some(re) => r matches Err(
                    TransactionError::InstallFailedAndUnrecoverable { error, rollback_error, backup_dir },
                ) && error@ == e@ && rollback_error@ == re@ && backup_dir@ == self.backup(),
            },
    {
        match apply_error {
            None => Ok(()),
            Some(e) => match rollback_error {
                None => Err(TransactionError::InstallFailedButReverted(e)),
                Some(re) => Err(
                    TransactionError::InstallFailedAndUnrecoverable {
                        error: e,
                        rollback_error: re,
                        backup_dir: self.backup_dir.clone(),
                    },
                ),
            },
        }
    }

    /// The backup is kept only when restoring failed.
    pub fn keeps_backup(result: &Result<(), TransactionError>) -> (r: bool)
        ensures
            r <==> (result matches Err(TransactionError::InstallFailedAndUnrecoverable { .. })),
    {
        match result {
            Err(TransactionError::InstallFailedAndUnrecoverable { .. }) => true,
            _ => false,
        }
    }
}

impl<T: Transaction> Transaction for SafeTransaction<T> {
    open spec fn paths(&self) -> Seq<Seq<char>> {
        self.inner().paths()
    }

    open spec fn plan(&self, root: Seq<char>) -> Seq<CopyStepView> {
        self.inner().plan(root)
    }

    fn relative_file_paths(&self) -> (r: Vec<String>) {
        self.transaction.relative_file_paths()
    }

    fn run_plan(&self, root: &str) -> (r: Vec<CopyStep>) {
        self.transaction.run_plan(root)
    }

    proof fn lemma_plan_writes_paths(&self, root: Seq<char>) {
        self.inner().lemma_plan_writes_paths(root);
    }
}

/// What follows `root` and its separator in `k`.
pub open spec fn rel_under(root: Seq<char>, k: Seq<char>) -> Seq<char> {
    k.subrange(root.len() + 1 as int, k.len() as int)
}

/// The files, by relative path, that a backup of `paths` under `root`
/// holds: the content of each one that existed.
pub open spec fn backup_image(
    fs: Map<Seq<char>, Seq<u8>>,
    root: Seq<char>,
    paths: Seq<Seq<char>>,
) -> Map<Seq<char>, Seq<u8>> {
    Map::new(
        |p: Seq<char>| paths.contains(p) && fs.contains_key(join(root, p)),
        |p: Seq<char>| fs[join(root, p)],
    )
}

/// The files after a rollback: every file of the merge under `root` is
/// deleted from `after`, then the backup is copied back over `root`.
pub open spec fn restored(
    after: Map<Seq<char>, Seq<u8>>,
    root: Seq<char>,
    paths: Seq<Seq<char>>,
    backup: Map<Seq<char>, Seq<u8>>,
) -> Map<Seq<char>, Seq<u8>> {
    Map::new(
        |k: Seq<char>|
            if under_root(root, paths).contains(k) {
                backup.contains_key(rel_under(root, k))
            } else {
                after.contains_key(k)
            },
        |k: Seq<char>|
            if under_root(root, paths).contains(k) {
                backup[rel_under(root, k)]
            } else {
                after[k]
            },
    )
}

/// A rollback undoes a failed merge exactly. Whatever the merge managed to
/// write before it failed, as long as it wrote only its own files under
/// `root` (which its copies do), deleting those files and copying back the
/// backup taken before it began gives the files as they were, byte for byte:
/// overwritten files come back, new files are gone, others are untouched.
pub proof fn lemma_rollback_restores(
    fs: Map<Seq<char>, Seq<u8>>,
    after: Map<Seq<char>, Seq<u8>>,
    root: Seq<char>,
    paths: Seq<Seq<char>>,
)
    requires
        forall|k: Seq<char>|
            #![trigger under_root(root, paths).contains(k)]
            !under_root(root, paths).contains(k) ==> (after.contains_key(k) == fs.contains_key(k)
                && (fs.contains_key(k) ==> after[k] == fs[k])),
    ensures
        restored(after, root, paths, backup_image(fs, root, paths)) == fs,
{
    let b = backup_image(fs, root, paths);
    let r = restored(after, root, paths, b);
    assert forall|k: Seq<char>| #[trigger] r.contains_key(k) == fs.contains_key(k) && (
    fs.contains_key(k) ==> r[k] == fs[k]) by {
        if under_root(root, paths).contains(k) {
            let i = choose|i: int| 0 <= i < under_root(root, paths).len() && under_root(root, paths)[i] == k;
            let p = paths[i];
            assert(k == join(root, p));
            assert(rel_under(root, k) =~= p);
            assert(paths.contains(p));
            assert(b.contains_key(p) == fs.contains_key(k));
            assert(r.contains_key(k) == b.contains_key(p));
            if fs.contains_key(k) {
                assert(r[k] == b[p]);
            }
        } else {
            assert(after.contains_key(k) == fs.contains_key(k));
            assert(r.contains_key(k) == after.contains_key(k));
            if fs.contains_key(k) {
                assert(r[k] == after[k]);
            }
        }
    }
    assert(r =~= fs);
}

/// `k` is the file `p` of a merge placed under `root`, for some `p` that
/// `src` holds.
pub open spec fn written_by(root: Seq<char>, src: Map<Seq<char>, Seq<u8>>, k: Seq<char>) -> bool {
    k.len() > root.len() && join(root, rel_under(root, k)) == k && src.contains_key(
        rel_under(root, k),
    )
}

/// The files after a successful merge of the files `src`, by relative path,
/// into `root`: each file of `src` with its new content under `root`, every
/// other file as it was.
pub open spec fn merged(
    fs: Map<Seq<char>, Seq<u8>>,
    root: Seq<char>,
    src: Map<Seq<char>, Seq<u8>>,
) -> Map<Seq<char>, Seq<u8>> {
    Map::new(
        |k: Seq<char>| written_by(root, src, k) || fs.contains_key(k),
        |k: Seq<char>|
            if written_by(root, src, k) {
                src[rel_under(root, k)]
            } else {
                fs[k]
            },
    )
}

/// A successful merge overwrites and adds exactly its own files: under
/// `root`, each file of `src` holds its new content, and every other file,
/// including those of the destination that the merge does not list, keeps
/// its old content, or stays absent.
pub proof fn lemma_merge_overwrites_only_its_files(
    fs: Map<Seq<char>, Seq<u8>>,
    root: Seq<char>,
    src: Map<Seq<char>, Seq<u8>>,
)
    ensures
        forall|p: Seq<char>|
            #[trigger] src.contains_key(p) ==> merged(fs, root, src).contains_key(join(root, p))
                && merged(fs, root, src)[join(root, p)] == src[p],
        forall|k: Seq<char>|
            (forall|p: Seq<char>| src.contains_key(p) ==> k != #[trigger] join(root, p)) ==> (
            merged(fs, root, src).contains_key(k) == fs.contains_key(k) && (fs.contains_key(k)
                ==> merged(fs, root, src)[k] == fs[k])),
{
    assert forall|p: Seq<char>| #[trigger] src.contains_key(p) implies merged(
        fs,
        root,
        src,
    ).contains_key(join(root, p)) && merged(fs, root, src)[join(root, p)] == src[p] by {
        assert(rel_under(root, join(root, p)) =~= p);
        assert(written_by(root, src, join(root, p)));
    }
    assert forall|k: Seq<char>|
        (forall|p: Seq<char>| src.contains_key(p) ==> k != #[trigger] join(root, p)) implies (
        merged(fs, root, src).contains_key(k) == fs.contains_key(k) && (fs.contains_key(k)
            ==> merged(fs, root, src)[k] == fs[k])) by {
        if written_by(root, src, k) {
            let p = rel_under(root, k);
            assert(src.contains_key(p) ==> k != join(root, p));
        }
    }
}

/// The files after copying each of `files`, relative paths of the tree at
/// `source`, to the same relative path under `dest`, in order, where `disk`
/// gives each source file's content.
pub open spec fn copy_files(
    fs: Map<Seq<char>, Seq<u8>>,
    dest: Seq<char>,
    source: Seq<char>,
    files: Seq<Seq<char>>,
    disk: Map<Seq<char>, Seq<u8>>,
) -> Map<Seq<char>, Seq<u8>>
    decreases files.len(),
{
    if files.len() == 0 {
        fs
    } else {
        copy_files(fs, dest, source, files.drop_last(), disk).insert(
            join(dest, files.last()),
            disk[join(source, files.last())],
        )
    }
}

/// The files after carrying out the copies of `plan`, in order.
pub open spec fn apply_plan(
    fs: Map<Seq<char>, Seq<u8>>,
    plan: Seq<CopyStepView>,
    disk: Map<Seq<char>, Seq<u8>>,
) -> Map<Seq<char>, Seq<u8>>
    decreases plan.len(),
{
    if plan.len() == 0 {
        fs
    } else {
        let s = plan.last();
        copy_files(apply_plan(fs, plan.drop_last(), disk), s.dest, s.source, s.files, disk)
    }
}

/// The files of the tree at `source`, by relative path, with their contents.
pub open spec fn tree_contents(
    source: Seq<char>,
    files: Seq<Seq<char>>,
    disk: Map<Seq<char>, Seq<u8>>,
) -> Map<Seq<char>, Seq<u8>> {
    Map::new(|p: Seq<char>| files.contains(p), |p: Seq<char>| disk[join(source, p)])
}

proof fn lemma_copy_files_is_merge(
    fs: Map<Seq<char>, Seq<u8>>,
    root: Seq<char>,
    source: Seq<char>,
    files: Seq<Seq<char>>,
    disk: Map<Seq<char>, Seq<u8>>,
)
    ensures
        copy_files(fs, root, source, files, disk) == merged(
            fs,
            root,
            tree_contents(source, files, disk),
        ),
    decreases files.len(),
{
    let t1 = tree_contents(source, files, disk);
    let m1 = merged(fs, root, t1);
    if files.len() == 0 {
        assert forall|k: Seq<char>| !written_by(root, t1, k) by {}
        assert(m1 =~= fs);
    } else {
        let init = files.drop_last();
        let f = files.last();
        lemma_copy_files_is_merge(fs, root, source, init, disk);
        let t0 = tree_contents(source, init, disk);
        let m0 = merged(fs, root, t0);
        assert forall|x: Seq<char>| files.contains(x) <==> (init.contains(x) || x == f) by {
            if files.contains(x) {
                let i = choose|i: int| 0 <= i < files.len() && files[i] == x;
                if i < files.len() - 1 {
                    assert(init[i] == x);
                }
            }
            if init.contains(x) {
                let i = choose|i: int| 0 <= i < init.len() && init[i] == x;
                assert(files[i] == x);
            }
            if x == f {
                assert(files[files.len() - 1] == x);
            }
        }
        let jf = join(root, f);
        assert(rel_under(root, jf) =~= f);
        let m = m0.insert(jf, disk[join(source, f)]);
        assert forall|k: Seq<char>|
            #[trigger] m.contains_key(k) == m1.contains_key(k) && (m.contains_key(k) ==> m[k]
                == m1[k]) by {
            if k == jf {
                assert(written_by(root, t1, k));
            } else {
                assert(written_by(root, t1, k) == written_by(root, t0, k));
            }
        }
        assert(m =~= m1);
    }
}

impl BasicTransaction {
    /// Carrying out the copy plan of a tree merge into `root` gives the
    /// merge of the tree's files, with their contents from `disk`, into the
    /// files of `root`.
    pub proof fn lemma_plan_is_merge(
        &self,
        fs: Map<Seq<char>, Seq<u8>>,
        root: Seq<char>,
        disk: Map<Seq<char>, Seq<u8>>,
    )
        ensures
            apply_plan(fs, self.plan(root), disk) == merged(
                fs,
                root,
                tree_contents(self.source(), self.paths(), disk),
            ),
    {
        let p = self.plan(root);
        assert(p.drop_last() =~= Seq::<CopyStepView>::empty());
        assert(apply_plan(fs, p.drop_last(), disk) == fs);
        assert(p.last() == CopyStepView { source: self.source(), dest: root, files: self.paths() });
        lemma_copy_files_is_merge(fs, root, self.source(), self.paths(), disk);
    }
}

/// A guarded tree merge that succeeds leaves under `root` each file of the
/// tree with its new content, and every other file, such as one of the
/// destination that the tree does not hold, as it was, or absent: the plan
/// that the guard carries out is the tree's own.
pub proof fn lemma_guarded_merge_success(
    g: SafeTransaction<BasicTransaction>,
    fs: Map<Seq<char>, Seq<u8>>,
    root: Seq<char>,
    disk: Map<Seq<char>, Seq<u8>>,
)
    ensures
        forall|p: Seq<char>|
            #[trigger] g.paths().contains(p) ==> apply_plan(fs, g.plan(root), disk).contains_key(
                join(root, p),
            ) && apply_plan(fs, g.plan(root), disk)[join(root, p)] == disk[join(
                g.inner().source(),
                p,
            )],
        forall|k: Seq<char>|
            (forall|p: Seq<char>| g.paths().contains(p) ==> k != #[trigger] join(root, p)) ==> (
            apply_plan(fs, g.plan(root), disk).contains_key(k) == fs.contains_key(k) && (
            fs.contains_key(k) ==> apply_plan(fs, g.plan(root), disk)[k] == fs[k])),
{
    let t = tree_contents(g.inner().source(), g.paths(), disk);
    g.inner().lemma_plan_is_merge(fs, root, disk);
    lemma_merge_overwrites_only_its_files(fs, root, t);
    assert forall|p: Seq<char>| #[trigger] g.paths().contains(p) implies t.contains_key(p) by {}
}

} // verus!
