//! Duplicate-photo detection: scan planning, RAW companion pairing,
//! duplicate clustering and the small rules around sessions and review.

pub mod text;
pub mod unionfind;
pub mod config;
pub mod types;
pub mod error;
pub mod paths;
pub mod textmap;
pub mod hash;
pub mod raw;
pub mod cluster;
pub mod exif;
pub mod thumbnail;
pub mod session;
pub mod review;
pub mod scan;
pub mod connectivity;
pub mod cluster_laws;
pub mod plan_laws;
pub mod cluster_shape;
pub mod schema;
pub mod timestamps;
pub mod cluster_disjoint;
pub mod imaging;
pub mod unionfind_laws;
pub mod rule_laws;
