//! A rolling file appender whose decisions are verified.
//!
//! Data is appended to a dated file inside a folder. A rolling condition,
//! based on the calendar (daily, hourly, every minute) and/or on a size limit,
//! decides before each write whether to move on to a new file. Older files
//! beyond a retention cap are deleted, and a pointer named after the prefix
//! follows the file opened last:
//!
//! - `log.log` (the pointer to the file opened last)
//! - `log.log.yyyymmdd.hhmmss` (for instance `log.log.20240520.010101`)
//!
//! The appender itself touches no file. Each operation hands out the next
//! [`Action`] to carry out on the file system and takes back an [`Event`]
//! telling how it went, so every decision is a function of plain values.

pub mod appender;
pub mod condition;
pub mod datetime;
pub mod folder;
pub mod frequency;
pub mod machine;
pub mod naming;
pub mod protocol;
pub mod retention;
pub mod text;

pub use crate::appender::{BasicRollingFileAppender, RollingFileAppender};
pub use crate::condition::{RollingCondition, RollingConditionBasic};
pub use crate::datetime::LocalDateTime;
pub use crate::frequency::RollingFrequency;
pub use crate::protocol::{Action, Event, Failure, Outcome};
