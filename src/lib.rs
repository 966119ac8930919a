//! Installed-application catalog, usage counting and frequency ranking.
pub mod text;
pub mod category;
pub mod descriptor;
pub mod icon;
pub mod usage;
pub mod ranking;
pub mod catalog;
pub mod transcode;

pub use descriptor::AppInfo;
pub use usage::AppUsage;
