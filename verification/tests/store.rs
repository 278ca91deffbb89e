use aurene::error::Error;
use aurene::profile::Profile;
use aurene::store::{Origin, ProfileStore};

fn profile(name: &str) -> Profile {
    Profile::found("/profiles", name).unwrap()
}

#[test]
fn restore_after_installs_gives_back_the_first_contents() {
    let mut store = ProfileStore::new(b"initial".to_vec(), false);
    store.snapshot();
    assert_eq!(store.install(&profile("a.dat"), Ok(b"alpha".to_vec())), Ok(()));
    assert_eq!(store.contents(), b"alpha");
    assert_eq!(*store.origin(), Origin::Profile("/profiles/a.dat".to_string()));
    assert_eq!(store.install(&profile("b.dat"), Ok(b"beta".to_vec())), Ok(()));
    assert_eq!(store.contents(), b"beta");
    assert_eq!(store.snapshot_blob(), Some(&b"initial".to_vec()));
    assert_eq!(store.restore(Ok(())), Ok(()));
    assert_eq!(store.contents(), b"initial");
    assert_eq!(*store.origin(), Origin::Untouched);
}

#[test]
fn install_followed_by_restore_is_undone() {
    let mut store = ProfileStore::new(vec![1, 2, 3], false);
    store.snapshot();
    store.install(&profile("a.dat"), Ok(vec![9])).unwrap();
    store.restore(Ok(())).unwrap();
    assert_eq!(*store.contents(), vec![1, 2, 3]);
}

#[test]
fn second_snapshot_does_not_replace_the_first() {
    let mut store = ProfileStore::new(b"initial".to_vec(), false);
    store.snapshot();
    store.install(&profile("a.dat"), Ok(b"alpha".to_vec())).unwrap();
    store.snapshot();
    store.restore(Ok(())).unwrap();
    assert_eq!(store.contents(), b"initial");
}

#[test]
fn failed_install_changes_nothing() {
    let mut store = ProfileStore::new(b"initial".to_vec(), false);
    store.snapshot();
    assert_eq!(
        store.install(&profile("a.dat"), Err("permission denied".to_string())),
        Err(Error::InstallError("permission denied".to_string()))
    );
    assert_eq!(store.contents(), b"initial");
    assert_eq!(*store.origin(), Origin::Untouched);
}

#[test]
fn failed_restore_is_reported_and_changes_nothing() {
    let mut store = ProfileStore::new(b"initial".to_vec(), false);
    store.snapshot();
    store.install(&profile("a.dat"), Ok(b"alpha".to_vec())).unwrap();
    assert_eq!(
        store.restore(Err("file is gone".to_string())),
        Err(Error::RestoreError("file is gone".to_string()))
    );
    assert_eq!(store.contents(), b"alpha");
    assert!(store.restorable());
}

#[test]
fn restore_without_snapshot_does_nothing() {
    let mut store = ProfileStore::new(b"initial".to_vec(), false);
    assert!(!store.restorable());
    assert_eq!(store.snapshot_blob(), None);
    store.install(&profile("a.dat"), Ok(b"alpha".to_vec())).unwrap();
    assert_eq!(store.restore(Ok(())), Ok(()));
    assert_eq!(store.restore(Err("ignored".to_string())), Ok(()));
    assert_eq!(store.contents(), b"alpha");
}

#[test]
fn no_restore_makes_snapshot_and_restore_do_nothing() {
    let mut store = ProfileStore::new(b"initial".to_vec(), true);
    store.snapshot();
    assert!(!store.restorable());
    assert_eq!(store.snapshot_blob(), None);
    store.install(&profile("a.dat"), Ok(b"alpha".to_vec())).unwrap();
    assert_eq!(store.restore(Ok(())), Ok(()));
    assert_eq!(store.contents(), b"alpha");
    assert_eq!(*store.origin(), Origin::Profile("/profiles/a.dat".to_string()));
}
