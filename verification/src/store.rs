//! The active login slot: the one place the game reads its login data from.
//!
//! The store keeps the image of the slot: what it holds and where that came
//! from. The caller does the copying on disk and tells the store how each
//! copy went.

use crate::error::Error;
use crate::profile::Profile;
use vstd::prelude::*;

verus! {

/// Where the contents of the slot came from.
pub enum OriginView {
    /// Nothing was installed in this run.
    Untouched,
    /// The profile at this path was installed.
    Profile(Seq<char>),
}

/// What the slot holds.
pub struct SlotView {
    pub origin: OriginView,
    pub blob: Seq<u8>,
}

/// What a store is: the slot, the snapshot if one was taken, and whether
/// the run leaves the slot as the last install made it.
pub struct StoreView {
    pub no_restore: bool,
    pub slot: SlotView,
    pub saved: Option<SlotView>,
}

impl StoreView {
    /// The store of an untouched slot.
    pub open spec fn fresh(blob: Seq<u8>, no_restore: bool) -> StoreView {
        StoreView {
            no_restore,
            slot: SlotView { origin: OriginView::Untouched, blob },
            saved: None,
        }
    }

    /// After `snapshot`: the slot is recorded, unless the store never
    /// restores or a snapshot is there already.
    pub open spec fn snapshot(self) -> StoreView {
        if self.no_restore || self.saved is Some {
            self
        } else {
            StoreView { saved: Some(self.slot), ..self }
        }
    }

    /// After an install that went well.
    pub open spec fn install(self, path: Seq<char>, blob: Seq<u8>) -> StoreView {
        StoreView { slot: SlotView { origin: OriginView::Profile(path), blob }, ..self }
    }

    /// After an install, however it went: a failed one changes nothing.
    pub open spec fn install_outcome(self, path: Seq<char>, copied: Option<Seq<u8>>) -> StoreView {
        match copied {
            Some(blob) => self.install(path, blob),
            None => self,
        }
    }

    /// There is something for `restore` to put back.
    pub open spec fn restorable(self) -> bool {
        !self.no_restore && self.saved is Some
    }

    /// After a restore that went well: the slot is as the snapshot recorded
    /// it. Without a snapshot nothing changes.
    pub open spec fn restore(self) -> StoreView {
        if self.restorable() {
            StoreView { slot: self.saved->0, ..self }
        } else {
            self
        }
    }

    /// After a series of installs, each given by the profile's path and, if
    /// the copy went well, the bytes copied.
    pub open spec fn installs(self, series: Seq<(Seq<char>, Option<Seq<u8>>)>) -> StoreView
        decreases series.len(),
    {
        if series.len() == 0 {
            self
        } else {
            self.installs(series.drop_last()).install_outcome(series.last().0, series.last().1)
        }
    }
}

/// Installs change neither the snapshot nor whether the store restores.
pub proof fn lemma_installs_keep_snapshot(
    store: StoreView,
    series: Seq<(Seq<char>, Option<Seq<u8>>)>,
)
    ensures
        store.installs(series).saved == store.saved,
        store.installs(series).no_restore == store.no_restore,
    decreases series.len(),
{
    if series.len() > 0 {
        lemma_installs_keep_snapshot(store, series.drop_last());
    }
}

/// A snapshot, then any installs, then a restore: the slot holds again what
/// it held before the snapshot, byte for byte, and counts as untouched or
/// installed as it did then.
pub proof fn lemma_restore_undoes_installs(
    store: StoreView,
    series: Seq<(Seq<char>, Option<Seq<u8>>)>,
)
    requires
        !store.no_restore,
        store.saved is None,
    ensures
        store.snapshot().installs(series).restore().slot == store.slot,
{
    lemma_installs_keep_snapshot(store.snapshot(), series);
}

/// A store that never restores is not changed by `snapshot` or `restore`.
pub proof fn lemma_no_restore_is_inert(store: StoreView)
    requires
        store.no_restore,
    ensures
        store.snapshot() == store,
        store.restore() == store,
{
}

/// Where the contents of the slot came from.
#[derive(Debug, Clone, PartialEq, Eq)]
pub enum Origin {
    /// Nothing was installed in this run.
    Untouched,
    /// The profile at this path was installed.
    Profile(String),
}

impl View for Origin {
    type V = OriginView;

    open spec fn view(&self) -> OriginView {
        match self {
            Origin::Untouched => OriginView::Untouched,
            Origin::Profile(path) => OriginView::Profile(path@),
        }
    }
}

/// Copies a blob.
pub fn copy_bytes(blob: &Vec<u8>) -> (out: Vec<u8>)
    ensures
        out@ == blob@,
{
    let mut out: Vec<u8> = Vec::new();
    let mut i: usize = 0;
    while i < blob.len()
        invariant
            i <= blob.len(),
            out@ == blob@.take(i as int),
        decreases blob.len() - i,
    {
        out.push(blob[i]);
        assert(out@ =~= blob@.take(i + 1));
        i += 1;
    }
    assert(blob@.take(blob.len() as int) =~= blob@);
    out
}

/// The image of the active slot, with the snapshot that `restore` puts
/// back.
#[derive(Debug)]
pub struct ProfileStore {
    no_restore: bool,
    origin: Origin,
    blob: Vec<u8>,
    saved: Option<(Origin, Vec<u8>)>,
}

impl View for ProfileStore {
    type V = StoreView;

    closed spec fn view(&self) -> StoreView {
        StoreView {
            no_restore: self.no_restore,
            slot: SlotView { origin: self.origin@, blob: self.blob@ },
            saved: match self.saved {
                Some((origin, blob)) => Some(SlotView { origin: origin@, blob: blob@ }),
                None => None,
            },
        }
    }
}

impl ProfileStore {
    /// The store of a slot that holds `blob` and that this run has not
    /// touched. With `no_restore` it never takes a snapshot and never
    /// restores.
    pub fn new(blob: Vec<u8>, no_restore: bool) -> (store: ProfileStore)
        ensures
            store@ == StoreView::fresh(blob@, no_restore),
    {
        ProfileStore { no_restore, origin: Origin::Untouched, blob, saved: None }
    }

    /// Records what the slot holds, to be put back by `restore`. Does
    /// nothing if the store never restores, or after the first snapshot.
    pub fn snapshot(&mut self)
        ensures
            final(self)@ == old(self)@.snapshot(),
    {
        if !self.no_restore && self.saved.is_none() {
            let origin = match &self.origin {
                Origin::Untouched => Origin::Untouched,
                Origin::Profile(path) => Origin::Profile(path.clone()),
            };
            self.saved = Some((origin, copy_bytes(&self.blob)));
        }
    }

    /// Takes note of an install: the caller has tried to copy the profile's
    /// file into the slot and says how it went, with the bytes copied or
    /// with the reason of the failure. A failure leaves the store as it was
    /// and is returned as an `InstallError` with that reason.
    pub fn install(&mut self, profile: &Profile, copied: Result<Vec<u8>, String>) -> (result:
        Result<(), Error>)
        ensures
            match copied {
                Ok(blob) => result is Ok && final(self)@ == old(self)@.install(
                    profile@.path,
                    blob@,
                ),
                Err(reason) => {
                    &&& result matches Err(Error::InstallError(r))
                    &&& r@ == reason@
                    &&& final(self)@ == old(self)@
                },
            },
    {
        match copied {
            Ok(blob) => {
                self.origin = Origin::Profile(profile.path().clone());
                self.blob = blob;
                Ok(())
            },
            Err(reason) => Err(Error::InstallError(reason)),
        }
    }

    /// Whether a restore has anything to put back.
    pub fn restorable(&self) -> (yes: bool)
        ensures
            yes == self@.restorable(),
    {
        !self.no_restore && self.saved.is_some()
    }

    /// The bytes that a restore puts back into the slot, if it has any.
    pub fn snapshot_blob(&self) -> (blob: Option<&Vec<u8>>)
        ensures
            blob is Some == self@.restorable(),
            blob matches Some(b) ==> b@ == self@.saved->0.blob,
    {
        if self.no_restore {
            return None;
        }
        match &self.saved {
            Some((_, blob)) => Some(blob),
            None => None,
        }
    }

    /// Takes note of a restore: the caller has tried to write the snapshot
    /// back into the slot and says how it went. Where there is nothing to
    /// put back this does nothing and succeeds. A failure leaves the store
    /// as it was and is returned as a `RestoreError` with the reason.
    pub fn restore(&mut self, written: Result<(), String>) -> (result: Result<(), Error>)
        ensures
            !old(self)@.restorable() ==> result is Ok && final(self)@ == old(self)@,
            old(self)@.restorable() ==> match written {
                Ok(_) => result is Ok && final(self)@ == old(self)@.restore(),
                Err(reason) => {
                    &&& result matches Err(Error::RestoreError(r))
                    &&& r@ == reason@
                    &&& final(self)@ == old(self)@
                },
            },
    {
        if self.no_restore {
            return Ok(());
        }
        match &self.saved {
            None => Ok(()),
            Some((origin, blob)) => match written {
                Ok(_) => {
                    let origin = match origin {
                        Origin::Untouched => Origin::Untouched,
                        Origin::Profile(path) => Origin::Profile(path.clone()),
                    };
                    let blob = copy_bytes(blob);
                    self.origin = origin;
                    self.blob = blob;
                    Ok(())
                },
                Err(reason) => Err(Error::RestoreError(reason)),
            },
        }
    }

    /// The bytes that the slot holds.
    pub fn contents(&self) -> (blob: &Vec<u8>)
        ensures
            blob@ == self@.slot.blob,
    {
        &self.blob
    }

    /// Where the contents of the slot came from.
    pub fn origin(&self) -> (origin: &Origin)
        ensures
            origin@ == self@.slot.origin,
    {
        &self.origin
    }
}

} // verus!
