//! Versions of the index database's schema, and what opening an index of a
//! given version has to do.

use vstd::prelude::*;

verus! {

/// Version of the schema this library writes.
pub const SCHEMA_VERSION: i32 = 2;

/// What opening an index does to bring its schema up to date.
#[derive(Clone, Copy, Debug, PartialEq, Eq, Structural)]
pub enum SchemaMigration {
    /// A fresh index: record the current version.
    RecordVersion,
    /// An index from before RAW pairing: add the companion RAW columns and
    /// record the current version.
    AddCompanionRawColumns,
    /// Nothing to do.
    UpToDate,
}

/// The migration for an index whose recorded version is `found` (none
/// recorded counts as version 0).
pub open spec fn migration_for(found: Option<i32>) -> SchemaMigration {
    let current = match found {
        Some(v) => v,
        None => 0,
    };
    if current == 0 {
        SchemaMigration::RecordVersion
    } else if current < SCHEMA_VERSION {
        SchemaMigration::AddCompanionRawColumns
    } else {
        SchemaMigration::UpToDate
    }
}

/// Decides how to bring an index of recorded version `found` up to date.
pub fn schema_migration(found: Option<i32>) -> (m: SchemaMigration)
    ensures
        m == migration_for(found),
{
    let current: i32 = match found {
        Some(v) => v,
        None => 0,
    };
    if current == 0 {
        SchemaMigration::RecordVersion
    } else if current < SCHEMA_VERSION {
        SchemaMigration::AddCompanionRawColumns
    } else {
        SchemaMigration::UpToDate
    }
}

} // verus!
