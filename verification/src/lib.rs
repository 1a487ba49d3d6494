//! Verified core of a mediated-device (mdev) management tool: the layout of
//! the configuration and sysfs trees, the device and device-type models, the
//! JSON forms they are stored in, and the decisions taken while listing,
//! defining and creating devices.

pub mod active;
pub mod creation;
pub mod defined;
pub mod definition;
pub mod device_type;
pub mod device_uuid;
pub mod environment;
pub mod error;
pub mod json;
pub mod lifecycle;
pub mod listing_text;
pub mod mdev;
pub mod supported_types;
pub mod text;
pub mod text_map;
