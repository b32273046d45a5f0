//! The decision core of the change-watch loop.
//!
//! The loop itself — reading the clipboard, sleeping between polls, writing
//! back — is I/O and lives outside the library. What is verified here is the
//! decision taken on every tick: whether the newly read content counts as a
//! change, whether it transcodes to a date, and what, if anything, should be
//! written back.

use vstd::prelude::*;
use crate::date::{parse_spec, format_spec, parse_date, format_date_for_irs};

verus! {

/// The state the polling loop carries between ticks: the baseline, its
/// record of the last clipboard content it has already processed.
pub struct Watcher {
    baseline: String,
}

impl Watcher {
    /// The recorded baseline content.
    pub closed spec fn baseline(self) -> Seq<char> {
        self.baseline@
    }

    /// Starts watching with the content read once at startup as the
    /// baseline.
    pub fn new(initial: String) -> (w: Watcher)
        ensures
            w.baseline() == initial@,
    {
        Watcher { baseline: initial }
    }

    /// One poll tick, given the content just read.
    ///
    /// Returns the text to write back: present exactly when the content
    /// differs from the baseline and transcodes as a date, in which case it
    /// is that date formatted as `MM/DD/YYYY`. Content equal to the baseline
    /// is a no-op tick, and content that yields no date is left alone. The
    /// baseline becomes the content just read — the pre-transform value, not
    /// the written text; the formatted output never re-parses, so observing
    /// the write-back on the next tick triggers no second transformation.
    pub fn observe(&mut self, current: String) -> (write_back: Option<String>)
        ensures
            final (self).baseline() == current@,
            write_back is Some <==> (current@ != old(self).baseline() && parse_spec(current@)
                is Some),
            write_back matches Some(text) ==> (parse_spec(current@) matches Some(ymd) && text@
                == format_spec(ymd.0, ymd.1, ymd.2)),
    {
        let mut write_back: Option<String> = None;
        if current != self.baseline {
            if let Some(date) = parse_date(current.as_str()) {
                write_back = Some(format_date_for_irs(&date));
            }
        }
        self.baseline = current;
        write_back
    }
}

} // verus!
