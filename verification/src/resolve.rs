//! Duration resolver: gives every record an end time.  Each record ends
//! where the next one starts; the last record is shown for a fixed three
//! seconds.  No ordering of the start times is assumed or enforced, so a
//! non-monotonic input passes through unchanged.

use vstd::prelude::*;

use crate::record::RecordView;
use crate::record::TimedRecord;
use crate::record::views_of;

verus! {

/// The sequence with every end time assigned: each record but the last ends
/// at its successor's start, and the last ends three seconds after its own
/// start.  No other field changes.
pub open spec fn resolved(s: Seq<RecordView>) -> Seq<RecordView> {
    Seq::new(
        s.len(),
        |i: int|
            RecordView {
                end_ms: Some(
                    if i + 1 < s.len() {
                        s[i + 1].start_ms
                    } else {
                        (s[i].start_ms + 3000) as u32
                    },
                ),
                ..s[i]
            },
    )
}

/// Assigns every record its end time, in place: the next record's start, or
/// start plus three seconds for the last record.
pub fn resolve_durations(records: &mut Vec<TimedRecord>)
    requires
        old(records)@.len() > 0 ==> old(records)@[old(records)@.len() - 1].start_ms + 3000
            <= u32::MAX,
    ensures
        views_of(final(records)@) == resolved(views_of(old(records)@)),
{
    let ghost vs = views_of(records@);
    let n = records.len();
    let mut out: Vec<TimedRecord> = Vec::new();
    let mut i: usize = 0;
    while i < n
        invariant
            0 <= i <= n,
            n == records@.len(),
            vs == views_of(records@),
            n > 0 ==> records@[n - 1].start_ms + 3000 <= u32::MAX,
            views_of(out@) == resolved(vs).take(i as int),
        decreases n - i,
    {
        let ghost old_out = out@;
        let end = if i + 1 < n {
            records[i + 1].start_ms
        } else {
            records[i].start_ms + 3000
        };
        let r = &records[i];
        let nr = TimedRecord {
            timestamp_text: r.timestamp_text.clone(),
            speaker: r.speaker.clone(),
            text: r.text.clone(),
            start_ms: r.start_ms,
            end_ms: Some(end),
        };
        let ghost nrv = nr@;
        out.push(nr);
        proof {
            assert(views_of(out@) =~= views_of(old_out).push(nrv));
            assert(nrv =~~= resolved(vs)[i as int]);
            assert(resolved(vs).take(i + 1) =~= resolved(vs).take(i as int).push(
                resolved(vs)[i as int],
            ));
            assert(views_of(out@) =~~= resolved(vs).take(i + 1));
        }
        i = i + 1;
    }
    proof {
        assert(resolved(vs).take(n as int) =~= resolved(vs));
    }
    *records = out;
}

} // verus!
