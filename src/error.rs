//! The errors a run or a query can end with.
use vstd::prelude::*;
use crate::extract::ParseError;
use crate::geocode::GeocodeError;
use crate::query::PageError;

verus! {

/// Every way a pipeline run or a directory query can fail.
#[derive(Debug, Clone, PartialEq, Eq)]
pub enum AppError {
    /// The store refused an operation.
    Database(String),
    /// The backup command could not be run.
    BackupExecution(String),
    /// No timestamp could be made for the backup file.
    TimestampGeneration(String),
    /// Reading or writing a file failed.
    Io(String),
    /// The object store refused the backup.
    OssOperation(String),
    /// A caller's input is malformed.
    Validation(String),
    /// The configuration is incomplete.
    Configuration(String),
    /// The backup command exited with a failure.
    CommandExecution { code: Option<i32>, stderr: String },
    /// The rendered page could not be read as a store list.
    Parse(ParseError),
    /// An address could not be geocoded.
    Geocoder(GeocodeError),
    /// The page never listed enough stores.
    Scrape(String),
}

/// The HTTP status a query answers an error with: a bad request for malformed
/// input, an internal error for everything else.
pub open spec fn status_of(e: AppError) -> u16 {
    match e {
        AppError::Validation(_) => 400,
        _ => 500,
    }
}

impl AppError {
    /// The HTTP status this error is answered with.
    pub fn http_status(&self) -> (r: u16)
        ensures
            r == status_of(*self),
    {
        match self {
            AppError::Validation(_) => 400,
            _ => 500,
        }
    }

    /// The error for a refused page request.
    pub fn from_page_error(e: PageError) -> (r: AppError)
        ensures
            match r {
                AppError::Validation(m) => m@ == match e {
                    PageError::Incomplete => "page_index and page_size must be given together"@,
                    PageError::NotPositive => "page_index and page_size must be greater than 0"@,
                },
                _ => false,
            },
    {
        match e {
            PageError::Incomplete => AppError::Validation(
                String::from_str("page_index and page_size must be given together"),
            ),
            PageError::NotPositive => AppError::Validation(
                String::from_str("page_index and page_size must be greater than 0"),
            ),
        }
    }
}

} // verus!
