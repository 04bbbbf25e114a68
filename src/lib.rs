//! Request-deduplicating, batching result cache for first-name gender and
//! country lookups.
//!
//! The library holds the decisions: which names still need a lookup, how the
//! names are cut into bulk requests, how a finished request updates the
//! per-name records, how an HTTP status is classified, how the query string
//! is spelled, and which error messages are on display. Performing the
//! requests and running the timers is left to the caller, which hands the
//! outcomes back as plain values.

pub mod api;
pub mod batch;
pub mod db;
pub mod errors;
pub mod names;
pub mod remote;

pub use api::{check_status, confidence_label, fmt_params, ApiError, CountryResult, Gender, GenderResult, API_CHUNKS};
pub use batch::api_chunks;
pub use db::{ApiResult, Db};
pub use errors::{ErrorEntry, ErrorQueue, AUTO_REMOVAL_TIME};
pub use names::{normalise_name, parse_names, IGNORED_NAME};
pub use remote::Remote;
