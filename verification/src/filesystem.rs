//! The on-disk layout of the world store.
//!
//! Every world lives in its own directory under `worlds/`: a
//! human-readable metadata file, an atomically replaced snapshot, and an
//! `events` directory holding the write-ahead log.  The path derivations
//! are plain string logic and verified here; the host performs the
//! actual reads, writes and renames around them.

use vstd::prelude::*;
use vstd::string::StringExecFns;

verus! {

/// The layout of a filesystem-backed world store rooted at a base path.
#[derive(Debug)]
pub struct FilesystemStore {
    /// The root under which all worlds are stored.
    pub base_path: String,
}

impl FilesystemStore {
    /// A store layout rooted at the given path.
    pub fn at(base_path: String) -> (r: FilesystemStore)
        ensures
            r.base_path@ == base_path@,
    {
        FilesystemStore { base_path }
    }

    /// The root path.
    pub fn base_path(&self) -> (r: &str)
        ensures
            r@ == self.base_path@,
    {
        self.base_path.as_str()
    }

    /// The directory that holds all worlds.
    pub fn worlds_dir(&self) -> (r: String)
        ensures
            r@ == self.base_path@ + "/worlds"@,
    {
        let mut s = self.base_path.clone();
        s.append("/worlds");
        s
    }

    /// The directory of one world.
    pub fn world_dir(&self, world_id: &str) -> (r: String)
        ensures
            r@ == self.base_path@ + "/worlds/"@ + world_id@,
    {
        let mut s = self.base_path.clone();
        s.append("/worlds/");
        s.append(world_id);
        proof {
            assert(s@ =~= self.base_path@ + "/worlds/"@ + world_id@);
        }
        s
    }

    /// The metadata file of one world.
    pub fn meta_path(&self, world_id: &str) -> (r: String)
        ensures
            r@ == self.base_path@ + "/worlds/"@ + world_id@ + "/meta.txt"@,
    {
        let mut s = self.world_dir(world_id);
        s.append("/meta.txt");
        s
    }

    /// The snapshot file of one world.
    pub fn snapshot_path(&self, world_id: &str) -> (r: String)
        ensures
            r@ == self.base_path@ + "/worlds/"@ + world_id@ + "/snapshot.bin"@,
    {
        let mut s = self.world_dir(world_id);
        s.append("/snapshot.bin");
        s
    }

    /// The event-log directory of one world.
    pub fn events_dir(&self, world_id: &str) -> (r: String)
        ensures
            r@ == self.base_path@ + "/worlds/"@ + world_id@ + "/events"@,
    {
        let mut s = self.world_dir(world_id);
        s.append("/events");
        s
    }
}

} // verus!
