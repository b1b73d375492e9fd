use std::hash::BuildHasher;
use vstd::prelude::*;

verus! {

/// Largest snapshot, in bytes, that is ever written out.
pub const MAX_SNAPSHOT_BYTES: usize = 50000000;

/// One sync decision: a snapshot is written when it fits and differs from the
/// last one written; the result is the new last-written hash and whether to
/// write.
pub open spec fn sync_step(last_written: Option<u64>, hash: u64, size: usize) -> (
    Option<u64>,
    bool,
) {
    if size <= MAX_SNAPSHOT_BYTES && last_written != Some(hash) {
        (Some(hash), true)
    } else {
        (last_written, false)
    }
}

/// What the periodic sync remembers between cycles.
#[derive(Debug, Clone, Copy, PartialEq, Eq)]
pub struct PersistState {
    /// Hash of the last snapshot written out, if any was.
    pub last_written: Option<u64>,
}

/// Relies on `BuildHasher::hash_one` with `std::hash::DefaultHasher`: some
/// hash of the snapshot text.
#[verifier::external_body]
fn snapshot_hash(snapshot: &str) -> (r: u64) {
    std::hash::BuildHasherDefault::<std::hash::DefaultHasher>::default().hash_one(snapshot)
}

impl PersistState {
    /// A sync that has written nothing yet.
    pub fn new() -> (r: Self)
        ensures
            r.last_written is None,
    {
        PersistState { last_written: None }
    }

    /// Decides whether a snapshot with this hash and size in bytes is written,
    /// and records it if so.
    pub fn observe(&mut self, hash: u64, size: usize) -> (write: bool)
        ensures
            (final(self).last_written, write) == sync_step(old(self).last_written, hash, size),
    {
        if size <= MAX_SNAPSHOT_BYTES && self.last_written != Some(hash) {
            self.last_written = Some(hash);
            true
        } else {
            false
        }
    }

    /// One cycle of the sync over a serialized snapshot: whether to write it.
    pub fn cycle(&mut self, snapshot: &str) -> (write: bool)
        ensures
            exists|h: u64|
                (final(self).last_written, write) == #[trigger] sync_step(
                    old(self).last_written,
                    h,
                    snapshot.len() as usize,
                ),
            write ==> snapshot.len() <= MAX_SNAPSHOT_BYTES,
    {
        let hash = snapshot_hash(snapshot);
        let size = snapshot.len();
        let write = self.observe(hash, size);
        assert(size == snapshot.len() as usize);
        assert((self.last_written, write) == sync_step(old(self).last_written, hash, size));
        write
    }
}

/// Two sync cycles over the same snapshot write it once: the first writes it
/// (it fits, and differs from what was last written), the second does not.
pub proof fn lemma_unchanged_snapshot_written_once(
    last_written: Option<u64>,
    hash: u64,
    size: usize,
)
    requires
        size <= MAX_SNAPSHOT_BYTES,
        last_written != Some(hash),
    ensures
        sync_step(last_written, hash, size).1,
        !sync_step(sync_step(last_written, hash, size).0, hash, size).1,
{
}

} // verus!
