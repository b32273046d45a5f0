//! Watches a shared text buffer for short two-digit-year dates and rewrites
//! them in a four-digit-year form.
//!
//! The library holds the verified core: parsing `MM/DD/YY` text into a
//! validated [`CalendarDate`], formatting such a date as `MM/DD/YYYY`, and the
//! change-detection decision of the polling loop. The process entry point and
//! the clipboard provider live outside the library.

pub mod date;
pub mod text;
pub mod watch;

pub use date::CalendarDate;
pub use date::format_date_for_irs;
pub use date::parse_date;
pub use watch::Watcher;
