//! Tag-indexed image store.
//!
//! The library keeps a collection of images indexed by user-assigned tags,
//! maintains the symmetric image/tag membership relation with referential
//! integrity and garbage collection of unused tags, answers
//! inclusion/exclusion queries over the index, and reconciles the store
//! against a directory listing.

pub mod config;
pub mod error;
pub mod laws;
pub mod model;
pub mod models;
pub mod scan;
pub mod store;

pub use config::ConfigPatch;
pub use config::TifariConfig;
pub use error::BackendError;
pub use models::APIStatusEnum;
pub use models::AddTagsRequest;
pub use models::ErrorResponse;
pub use models::Image;
pub use models::RemoveTagsRequest;
pub use models::Tag;
pub use models::TagQueueSizeResponse;
pub use models::TagWithUsage;
pub use scan::ScanData;
pub use store::TifariDb;
