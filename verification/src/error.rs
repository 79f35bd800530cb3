//! The library's error type.

use vstd::prelude::*;

verus! {

/// Why an operation was refused.
#[derive(Debug)]
pub enum AppError {
    /// The input or a stored file breaks the project schema.
    Schema(String),
    /// The named project file does not exist.
    ProjectNotFound(String),
    /// The user cancelled the running job.
    Cancelled,
}

pub type AppResult<T> = Result<T, AppError>;

impl AppError {
    /// The human-readable message.
    pub fn message(&self) -> (r: String)
        ensures
            self matches AppError::Schema(m) ==> r@ == m@,
            self matches AppError::ProjectNotFound(p) ==> r@ == "project not found: "@ + p@,
            self is Cancelled ==> r@ == "cancelled"@,
    {
        match self {
            AppError::Schema(m) => m.clone(),
            AppError::ProjectNotFound(p) => {
                let mut s = String::new();
                s.append("project not found: ");
                s.append(p.as_str());
                s
            },
            AppError::Cancelled => {
                let mut s = String::new();
                s.append("cancelled");
                s
            },
        }
    }
}

/// A schema error whose message is `m`.
pub open spec fn schema_error<T>(r: AppResult<T>, m: Seq<char>) -> bool {
    r matches Err(AppError::Schema(e)) && e@ == m
}

} // verus!
