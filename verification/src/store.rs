use vstd::prelude::*;

use crate::error::{Error, SchemaCondition};
use crate::text::concat;

verus! {

/// The schema version this library reads and writes.
pub const CURRENT_SCHEMA_VERSION: i32 = 3;

/// `db_path` with `suffix` appended, naming a sibling file such as the
/// write-ahead log.
pub fn sibling_with_suffix(db_path: &str, suffix: &str) -> (p: String)
    ensures
        p@ == db_path@ + suffix@,
{
    concat(db_path, suffix)
}

/// The files removed, in this order, to rebuild an unreadable index: the
/// write-ahead log, the shared-memory file, then the database itself.
pub fn rebuild_targets(db_path: &str) -> (paths: Vec<String>)
    ensures
        paths@.len() == 3,
        paths@[0]@ == db_path@ + "-wal"@,
        paths@[1]@ == db_path@ + "-shm"@,
        paths@[2]@ == db_path@,
{
    let mut paths: Vec<String> = Vec::new();
    paths.push(sibling_with_suffix(db_path, "-wal"));
    paths.push(sibling_with_suffix(db_path, "-shm"));
    paths.push(String::from_str(db_path));
    paths
}

/// What the migration loop does at a stored schema version.
#[derive(Debug, Clone, PartialEq, Eq)]
pub enum MigrationStep {
    /// The schema is current.
    UpToDate,
    /// Run the migration out of this version, then look again.
    Apply(i32),
    /// The version is newer than this library, or unknown.
    Refuse(Error),
}

/// The step for a stored version: current is done; 0, 1 and 2 migrate; any
/// other version is refused with a migration error naming it.
pub fn migration_step(version: i32) -> (step: MigrationStep)
    ensures
        version == CURRENT_SCHEMA_VERSION ==> step == MigrationStep::UpToDate,
        0 <= version < CURRENT_SCHEMA_VERSION ==> step == MigrationStep::Apply(version),
        (version < 0 || version > CURRENT_SCHEMA_VERSION) ==> step == MigrationStep::Refuse(
            Error::Migration { expected: CURRENT_SCHEMA_VERSION as i64, found: version as i64 },
        ),
{
    if version == CURRENT_SCHEMA_VERSION {
        MigrationStep::UpToDate
    } else if version > CURRENT_SCHEMA_VERSION {
        MigrationStep::Refuse(Error::Migration { expected: CURRENT_SCHEMA_VERSION as i64, found: version as i64 })
    } else if version == 0 || version == 1 || version == 2 {
        MigrationStep::Apply(version)
    } else {
        MigrationStep::Refuse(Error::Migration { expected: CURRENT_SCHEMA_VERSION as i64, found: version as i64 })
    }
}

/// Whether an index at the stored version (`None` when it could not be read)
/// can be served: only the current version can.
pub fn check_serve_schema(version: Option<i32>) -> (r: Result<(), Error>)
    ensures
        version == Some(CURRENT_SCHEMA_VERSION) ==> r is Ok,
        forall|v: i32|
            version == Some(v) && v != CURRENT_SCHEMA_VERSION ==> r == Err::<(), Error>(
                Error::IncompatibleSchema {
                    expected: CURRENT_SCHEMA_VERSION as i64,
                    condition: SchemaCondition::VersionMismatch(v as i64),
                },
            ),
        version is None ==> r == Err::<(), Error>(
            Error::IncompatibleSchema { expected: CURRENT_SCHEMA_VERSION as i64, condition: SchemaCondition::Unreadable },
        ),
{
    match version {
        Some(v) => if v == CURRENT_SCHEMA_VERSION {
            Ok(())
        } else {
            Err(
                Error::IncompatibleSchema {
                    expected: CURRENT_SCHEMA_VERSION as i64,
                    condition: SchemaCondition::VersionMismatch(v as i64),
                },
            )
        },
        None => Err(
            Error::IncompatibleSchema { expected: CURRENT_SCHEMA_VERSION as i64, condition: SchemaCondition::Unreadable },
        ),
    }
}

} // verus!
