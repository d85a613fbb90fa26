//! Verified core of an Android task limiter: it reads which applications are in the
//! foreground or background from `dumpsys` output, decides which processes to put to sleep
//! and which to wake, and keeps the groups of sleeping processes.
use vstd::prelude::*;

pub mod app_list;
pub mod config;
pub mod control;
pub mod info_sync;
pub mod lru_info;
pub mod misc;
pub mod nap_group;
pub mod text;
pub mod toml_doc;

pub use config::Config;
