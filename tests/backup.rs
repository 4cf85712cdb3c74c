use anomaly_modder::transaction::{
    BackupDirState, BasicTransaction, ComplexTransaction, DirListing, InDir, SafeTransaction,
    Transaction, TransactionError, WalkEntry,
};
use anomaly_modder::registry::Modpack;

fn dir(p: &str) -> WalkEntry {
    WalkEntry { path: p.to_owned(), is_file: false }
}

fn file(p: &str) -> WalkEntry {
    WalkEntry { path: p.to_owned(), is_file: true }
}

fn sample_tree() -> BasicTransaction {
    let listing = DirListing::Entries(vec![
        dir("/tmp/t"),
        dir("/tmp/t/dir"),
        dir("/tmp/t/dir2"),
        dir("/tmp/t/dir2/dir2"),
        file("/tmp/t/config.rs"),
        file("/tmp/t/uwu.rs"),
        file("/tmp/t/dir/config.rs"),
        file("/tmp/t/dir2/config.rs"),
        file("/tmp/t/dir2/dir2/config.rs"),
    ]);
    BasicTransaction::new("/tmp/t".to_owned(), listing).unwrap()
}

#[test]
fn relative_paths() {
    let tr = sample_tree();

    let paths = tr.relative_file_paths();
    let expected = ["config.rs", "uwu.rs", "dir/config.rs", "dir2/config.rs", "dir2/dir2/config.rs"];
    assert_eq!(paths.len(), expected.len());

    for x in expected {
        assert!(paths.iter().any(|e| e == x))
    }
}

#[test]
fn relative_paths_prefix() {
    let tr = sample_tree();
    let indir = InDir::new(tr, "mo2");

    let paths = indir.relative_file_paths();
    let expected = [
        "mo2/config.rs",
        "mo2/uwu.rs",
        "mo2/dir/config.rs",
        "mo2/dir2/config.rs",
        "mo2/dir2/dir2/config.rs",
    ];
    assert_eq!(paths.len(), expected.len());

    for x in expected {
        assert!(paths.iter().any(|e| e == x))
    }
}

#[test]
fn backup() {
    let listing = DirListing::Entries(vec![
        dir("/src"),
        dir("/src/resources"),
        file("/src/resources/ModOrganizer.ini"),
        file("/src/resources/nxmhandler.ini"),
    ]);
    let tr = BasicTransaction::new("/src".to_owned(), listing).unwrap();
    let backup = SafeTransaction::new(tr, "/bk".to_owned(), BackupDirState::EmptyDir).unwrap();
    let plan = backup.backup_plan("/cwd");
    assert_eq!(
        plan,
        vec![
            ("/cwd/resources/ModOrganizer.ini".to_owned(), "/bk/resources/ModOrganizer.ini".to_owned()),
            ("/cwd/resources/nxmhandler.ini".to_owned(), "/bk/resources/nxmhandler.ini".to_owned()),
        ]
    );
    assert!(!SafeTransaction::<BasicTransaction>::keeps_backup(&backup.settle(None, None)));
}

#[test]
fn source_must_be_a_readable_directory() {
    assert_eq!(BasicTransaction::new("/x".to_owned(), DirListing::NotADirectory).err(), Some(TransactionError::NotADirectory));
    assert_eq!(BasicTransaction::new("/x".to_owned(), DirListing::Unreadable).err(), Some(TransactionError::Unreadable));
    let stray = DirListing::Entries(vec![file("/y/a")]);
    assert_eq!(BasicTransaction::new("/x".to_owned(), stray).err(), Some(TransactionError::EntryOutsideRoot));
}

#[test]
fn empty_source_plans_nothing_to_back_up() {
    let tr = BasicTransaction::new("/e".to_owned(), DirListing::Entries(vec![dir("/e")])).unwrap();
    assert!(tr.relative_file_paths().is_empty());
    let g = SafeTransaction::new(tr, "/bk".to_owned(), BackupDirState::Missing).unwrap();
    assert!(g.backup_plan("/root").is_empty());
    assert!(g.reverse_plan("/root").is_empty());
    assert_eq!(g.settle(None, None), Ok(()));
}

#[test]
fn backup_dir_must_be_clean() {
    for st in [BackupDirState::IsFile, BackupDirState::NonEmptyDir] {
        let tr = sample_tree();
        assert_eq!(SafeTransaction::new(tr, "/bk".to_owned(), st).err(), Some(TransactionError::BackupTargetNotClean));
    }
    assert!(SafeTransaction::<BasicTransaction>::check_backup_dir(BackupDirState::Missing).is_ok());
}

#[test]
fn guarded_merge_over_existing_files() {
    let src = BasicTransaction::new(
        "/new".to_owned(),
        DirListing::Entries(vec![dir("/new"), file("/new/A"), file("/new/C")]),
    )
    .unwrap();
    let g = SafeTransaction::new(src, "/bk".to_owned(), BackupDirState::Missing).unwrap();
    assert_eq!(
        g.backup_plan("/dest"),
        vec![("/dest/A".to_owned(), "/bk/A".to_owned()), ("/dest/C".to_owned(), "/bk/C".to_owned())]
    );
    assert_eq!(g.reverse_plan("/dest"), vec!["/dest/A".to_owned(), "/dest/C".to_owned()]);
    let steps = g.run_plan("/dest");
    assert_eq!(steps.len(), 1);
    assert_eq!(steps[0].source, "/new");
    assert_eq!(steps[0].dest, "/dest");
    assert_eq!(steps[0].files, vec!["A".to_owned(), "C".to_owned()]);

    let reverted = g.settle(Some("disk full".to_owned()), None);
    assert_eq!(reverted, Err(TransactionError::InstallFailedButReverted("disk full".to_owned())));
    assert!(!SafeTransaction::<BasicTransaction>::keeps_backup(&reverted));
    let lost = g.settle(Some("disk full".to_owned()), Some("locked".to_owned()));
    assert_eq!(
        lost,
        Err(TransactionError::InstallFailedAndUnrecoverable {
            error: "disk full".to_owned(),
            rollback_error: "locked".to_owned(),
            backup_dir: "/bk".to_owned(),
        })
    );
    assert!(SafeTransaction::<BasicTransaction>::keeps_backup(&lost));
}

#[test]
fn composite_applies_parts_in_order() {
    let a = BasicTransaction::new("/a".to_owned(), DirListing::Entries(vec![file("/a/x")])).unwrap();
    let b = BasicTransaction::new("/b".to_owned(), DirListing::Entries(vec![file("/b/y")])).unwrap();
    let staged = Modpack::staging(vec![("one".to_owned(), a), ("two".to_owned(), b)]);
    assert_eq!(staged.relative_file_paths(), vec!["one/x".to_owned(), "two/y".to_owned()]);
    let steps = staged.run_plan("/mods");
    assert_eq!(steps.len(), 2);
    assert_eq!(steps[0].dest, "/mods/one");
    assert_eq!(steps[1].source, "/b");
    assert_eq!(steps[1].dest, "/mods/two");

    let mut c: ComplexTransaction<BasicTransaction> = ComplexTransaction::new();
    assert!(c.relative_file_paths().is_empty());
    c.add(BasicTransaction::new("/a".to_owned(), DirListing::Entries(vec![file("/a/x")])).unwrap());
    assert_eq!(c.relative_file_paths(), vec!["x".to_owned()]);
}

#[test]
fn composite_from_parts_keeps_order() {
    let a = BasicTransaction::new("/a".to_owned(), DirListing::Entries(vec![file("/a/x")])).unwrap();
    let b = BasicTransaction::new("/b".to_owned(), DirListing::Entries(vec![file("/b/x"), file("/b/z")])).unwrap();
    let c = ComplexTransaction::from_parts(vec![a, b]);
    assert_eq!(c.relative_file_paths(), vec!["x".to_owned(), "x".to_owned(), "z".to_owned()]);
    let steps = c.run_plan("/d");
    assert_eq!(steps[0].source, "/a");
    assert_eq!(steps[1].source, "/b");
}

#[test]
fn rollback_only_after_a_failed_merge() {
    let src = BasicTransaction::new(
        "/new".to_owned(),
        DirListing::Entries(vec![dir("/new"), file("/new/A"), file("/new/C")]),
    )
    .unwrap();
    let g = SafeTransaction::new(src, "/bk".to_owned(), BackupDirState::EmptyDir).unwrap();
    assert_eq!(g.rollback_plan("/dest", &None), None);
    assert_eq!(
        g.rollback_plan("/dest", &Some("copy failed".to_owned())),
        Some(vec!["/dest/A".to_owned(), "/dest/C".to_owned()])
    );
}

#[test]
fn root_with_trailing_separator() {
    let tr = BasicTransaction::new(
        "d/".to_owned(),
        DirListing::Entries(vec![dir("d/"), file("d/x"), dir("d/s"), file("d/s/y")]),
    )
    .unwrap();
    assert_eq!(tr.relative_file_paths(), vec!["x".to_owned(), "s/y".to_owned()]);
    let tr = BasicTransaction::new(
        "C:\\".to_owned(),
        DirListing::Entries(vec![dir("C:\\"), file("C:\\a.txt")]),
    )
    .unwrap();
    assert_eq!(tr.relative_file_paths(), vec!["a.txt".to_owned()]);
    let stray = DirListing::Entries(vec![dir("d/"), file("e/x")]);
    assert_eq!(BasicTransaction::new("d/".to_owned(), stray).err(), Some(TransactionError::EntryOutsideRoot));
}
