//! Partition layout reconstruction for a storage device, the decisions of the
//! layout-changing operations, and the text derived from the disk service's data.
pub mod drive;
pub mod error;
pub mod layout;
pub mod operation;
pub mod session;
pub mod text;
