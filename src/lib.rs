//! A versioned object-store client with conditional writes, an in-memory
//! reference backend, the request and response logic of a cloud backend,
//! and an expiring lease protocol built on the storage contract.

pub mod client;
pub mod decimal;
pub mod gcs;
pub mod inmemory;
pub mod lease;

pub use client::{
    Condition, Error, GetRequest, GetResponse, Metadata, PatchRequest, PatchResponse, Path,
    PathError, PutRequest, PutResponse, Version,
};
pub use gcs::parse_path;
pub use inmemory::InMemoryStore;
pub use lease::{
    get_expiry, get_owner, is_lease_alive, AcquireRequest, Lease, LeaseError, DEFAULT_TTL_SECS,
    EXPIRY_HEADER,
    OWNER_HEADER,
};
