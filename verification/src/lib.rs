//! Platform-independent core of the moto routing app: the verified part.
//!
//! Region files (layout, structural validation, writing, the region key
//! that rematching goes by), the rider's section and tag model, recorded
//! tracks and the checks on what is appended to them, GPX time handling
//! and text scanning, the export containers and the import plan, and the
//! plain types the app's bindings carry.

pub mod error;
pub mod le;
pub mod section;
pub mod overlap;
pub mod draft;
pub mod favourites;
pub mod tag;
pub mod types;
pub mod region;
pub mod gpx;
pub mod exchange;
pub mod ffi;
pub mod store;
pub mod track;
pub mod rematch;
