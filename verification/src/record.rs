//! The parsed transcript entry and its mathematical view.

use vstd::prelude::*;

verus! {

/// One parsed transcript entry: the raw timestamp fragment, the speaker, the
/// line content, the start time in milliseconds, and — once the duration
/// resolver has run — the end time.
pub struct TimedRecord {
    /// The raw matched timestamp fragment, `hour:minute:second.fraction`.
    pub timestamp_text: String,
    /// Who produced the line: the field before the tab, trimmed.
    pub speaker: String,
    /// The line content after the tab, trimmed.
    pub text: String,
    /// Milliseconds from stream start.
    pub start_ms: u32,
    /// Milliseconds from stream start; `None` until durations are resolved.
    pub end_ms: Option<u32>,
}

/// The view of a [`TimedRecord`]: the same fields over `Seq<char>`.
#[verifier::ext_equal]
pub ghost struct RecordView {
    pub timestamp_text: Seq<char>,
    pub speaker: Seq<char>,
    pub text: Seq<char>,
    pub start_ms: u32,
    pub end_ms: Option<u32>,
}

impl View for TimedRecord {
    type V = RecordView;

    open spec fn view(&self) -> RecordView {
        RecordView {
            timestamp_text: self.timestamp_text@,
            speaker: self.speaker@,
            text: self.text@,
            start_ms: self.start_ms,
            end_ms: self.end_ms,
        }
    }
}

/// The views of a sequence of records.
pub open spec fn views_of(s: Seq<TimedRecord>) -> Seq<RecordView> {
    s.map_values(|r: TimedRecord| r@)
}

/// The end time a serializer renders: the resolved end time, or the
/// three-second fallback where none was ever assigned.
pub open spec fn end_or_fallback(r: RecordView) -> int {
    match r.end_ms {
        Some(e) => e as int,
        None => r.start_ms + 3000,
    }
}

/// A record a serializer can render without overflow: a missing end time can
/// only be substituted when the three-second fallback still fits in `u32`.
pub open spec fn serializable(r: RecordView) -> bool {
    r.end_ms is None ==> r.start_ms + 3000 <= u32::MAX
}

} // verus!
