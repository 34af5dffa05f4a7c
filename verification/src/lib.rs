//! Conformance and link-consistency engine for OParl endpoints.
//!
//! An OParl server publishes a graph of typed objects as paginated JSON
//! lists. This crate holds the rules by which such a server is judged:
//!
//! - [`visit`]: findings, typed objects, and the visitor that walks an
//!   object and records what it finds in the store;
//! - [`storage`]: the store of visited ids, of references with their
//!   sources, of other URLs and of findings;
//! - [`crawl`]: paging through one list, with retries and with recovery
//!   from pages that do not fit the schema;
//! - [`reconcile`]: probing the objects that are referenced but were seen
//!   in no list, and reporting them;
//! - [`grouping`] and [`report`]: grouping the findings and writing the
//!   summary and the detailed report;
//! - [`validate`]: the steps of the validation of one endpoint.
//!
//! Nothing here touches the network or the file system. Whatever has to be
//! fetched is asked of the caller, step by step, and every function is
//! verified against its contract.

pub mod batch;
pub mod cache;
pub mod crawl;
pub mod endpoints;
pub mod external_list;
pub mod grouping;
pub mod json;
pub mod reconcile;
pub mod report;
pub mod schema;
pub mod storage;
pub mod text;
pub mod validate;
pub mod visit;
