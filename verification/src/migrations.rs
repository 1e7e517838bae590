//! Format migrations for persisted world metadata.

use vstd::prelude::*;

use crate::types::{WorldMeta, CURRENT_FORMAT_VERSION};

verus! {

/// Whether a world's metadata predates the current format.
pub fn needs_migration(meta: &WorldMeta) -> (b: bool)
    ensures
        b == (meta.format_version < CURRENT_FORMAT_VERSION),
{
    meta.format_version < CURRENT_FORMAT_VERSION
}

/// Migrate metadata to the current format version.  Returns whether a
/// migration was needed; a version at or above the current one is left
/// untouched.
pub fn migrate_meta(meta: &mut WorldMeta) -> (migrated: bool)
    ensures
        migrated == (old(meta).format_version < CURRENT_FORMAT_VERSION),
        final(meta)@ == (crate::types::MetaView {
            format_version: if old(meta).format_version < CURRENT_FORMAT_VERSION {
                CURRENT_FORMAT_VERSION
            } else {
                old(meta).format_version
            },
            ..old(meta)@
        }),
{
    if meta.format_version >= CURRENT_FORMAT_VERSION {
        return false;
    }
    meta.format_version = CURRENT_FORMAT_VERSION;
    true
}

} // verus!
