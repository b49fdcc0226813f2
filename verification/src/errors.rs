//! The catalog's error taxonomy and its mapping onto HTTP status codes for
//! an HTTP collaborator.

use vstd::prelude::*;

use crate::types::InfluxColumnType;

verus! {

/// Everything that a catalog operation can fail with.
#[derive(Debug, Clone, PartialEq, Eq)]
pub enum CatalogError {
    /// The entity is absent.
    NotFound,
    /// A table was looked up in a database that does not hold it.
    TableNotFound { db_name: String, table_name: String },
    /// The entity already exists.
    AlreadyExists,
    /// The entity is already soft deleted with a scheduled hard-delete time.
    AlreadyDeleted,
    /// The configured database count would be exceeded.
    TooManyDbs(usize),
    /// The configured table count would be exceeded.
    TooManyTables(usize),
    /// The configured per-table column count would be exceeded.
    TooManyColumns(usize),
    /// The per-table tag column count would be exceeded.
    TooManyTagColumns,
    /// A client or programmer error in the requested configuration.
    InvalidConfiguration,
    /// A column was declared with a type the catalog refuses.
    InvalidColumnType,
    /// A column exists with a different type than the one being added.
    FieldTypeMismatch {
        table_name: String,
        column_name: String,
        existing: InfluxColumnType,
        attempted: InfluxColumnType,
    },
    /// A node re-registered with a different instance uuid.
    InvalidNodeRegistration,
    /// A generation level already has a different duration (nanoseconds).
    CannotChangeGenerationDuration { level: u8, existing_ns: u64, attempted_ns: u64 },
    /// A token of that name already exists.
    TokenNameAlreadyExists(String),
    /// The operator token was asked to regenerate but does not exist.
    MissingAdminTokenToUpdate,
    /// The operator token cannot be deleted.
    CannotDeleteOperatorToken,
    /// The reserved internal database cannot be hard deleted.
    CannotDeleteInternalDatabase,
    /// The named trigger is absent.
    ProcessingEngineTriggerNotFound { database_name: String, trigger_name: String },
    /// A different trigger of that name already exists.
    ProcessingEngineTriggerExists { database_name: String, trigger_name: String },
    /// The trigger is running and force was not given.
    ProcessingEngineTriggerRunning { trigger_name: String },
}

/// The errors that applying a catalog batch can surface. The errors that
/// only the composition of a batch raises — an idempotent replay, a reserved
/// name, a quota on databases — never come out of application.
pub open spec fn apply_error(e: CatalogError) -> bool {
    &&& !(e is AlreadyDeleted)
    &&& !(e is TokenNameAlreadyExists)
    &&& !(e is CannotDeleteInternalDatabase)
    &&& !(e is CannotDeleteOperatorToken)
    &&& !(e is TooManyDbs)
}

impl CatalogError {
    /// The HTTP status that an HTTP collaborator reports for this error:
    /// absence 404; conflicts 409; quota breaches 422; invalid requests 400;
    /// the protected operator token 405; everything else an internal 500.
    pub fn http_status(&self) -> (r: u16)
        ensures
            r == match self {
                CatalogError::NotFound | CatalogError::TableNotFound { .. } => 404u16,
                CatalogError::AlreadyExists
                | CatalogError::AlreadyDeleted
                | CatalogError::TokenNameAlreadyExists(..) => 409u16,
                CatalogError::TooManyDbs(..)
                | CatalogError::TooManyTables(..)
                | CatalogError::TooManyColumns(..)
                | CatalogError::TooManyTagColumns => 422u16,
                CatalogError::InvalidConfiguration
                | CatalogError::InvalidColumnType
                | CatalogError::FieldTypeMismatch { .. } => 400u16,
                CatalogError::CannotDeleteOperatorToken => 405u16,
                _ => 500u16,
            },
    {
        match self {
            CatalogError::NotFound | CatalogError::TableNotFound { .. } => 404,
            CatalogError::AlreadyExists
            | CatalogError::AlreadyDeleted
            | CatalogError::TokenNameAlreadyExists(..) => 409,
            CatalogError::TooManyDbs(..)
            | CatalogError::TooManyTables(..)
            | CatalogError::TooManyColumns(..)
            | CatalogError::TooManyTagColumns => 422,
            CatalogError::InvalidConfiguration
            | CatalogError::InvalidColumnType
            | CatalogError::FieldTypeMismatch { .. } => 400,
            CatalogError::CannotDeleteOperatorToken => 405,
            _ => 500,
        }
    }
}

} // verus!
