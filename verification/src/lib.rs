//! A host that applies a filter from a dynamically loaded module to an
//! image, and the two filters that come with it.
//!
//! [`pipeline`] sequences one run of the host, [`marshal`] turns the
//! parameter text into what crosses to a filter, [`mirror`] and [`blur`] are
//! the filters, [`pixels`] is the layout of the buffer they work on.

pub mod args;
pub mod blur;
pub mod error;
pub mod marshal;
pub mod mirror;
pub mod params;
pub mod pipeline;
pub mod pixels;

pub use pipeline::process_image;
