//! SRT serializer: renders the record sequence as SubRip text, one
//! 1-indexed, blank-line-separated block per record.

use vstd::prelude::*;
use vstd::string::StringExecFns;

use crate::codec::append_dec;
use crate::codec::dec_rep;
use crate::codec::ms_to_srt_time;
use crate::codec::srt_time;
use crate::record::RecordView;
use crate::record::TimedRecord;
use crate::record::end_or_fallback;
use crate::record::serializable;
use crate::record::views_of;

verus! {

/// One SRT block: the 1-based index, the time range, and
/// `speaker: text`, followed by a blank line.
pub open spec fn srt_block(idx: nat, r: RecordView) -> Seq<char> {
    dec_rep(idx) + "\n"@ + srt_time(r.start_ms as nat) + " --> "@ + srt_time(
        end_or_fallback(r) as nat,
    ) + "\n"@ + r.speaker + ": "@ + r.text + "\n\n"@
}

/// The whole SRT document: the blocks in sequence order, indexed from 1.
/// An empty sequence yields the empty document.
pub open spec fn srt_doc(s: Seq<RecordView>) -> Seq<char>
    decreases s.len(),
{
    if s.len() == 0 {
        Seq::empty()
    } else {
        srt_doc(s.drop_last()) + srt_block(s.len(), s.last())
    }
}

/// Renders one record as its SRT block.
fn srt_block_str(idx: u64, e: &TimedRecord) -> (b: String)
    requires
        serializable(e@),
        idx >= 1,
    ensures
        b@ == srt_block(idx as nat, e@),
{
    let mut out = String::new();
    append_dec(&mut out, idx);
    out.append("\n");
    let st = ms_to_srt_time(e.start_ms);
    out.append(st.as_str());
    out.append(" --> ");
    let end_ms = match e.end_ms {
        Some(x) => x,
        None => e.start_ms + 3000,
    };
    let et = ms_to_srt_time(end_ms);
    out.append(et.as_str());
    out.append("\n");
    out.append(e.speaker.as_str());
    out.append(": ");
    out.append(e.text.as_str());
    out.append("\n\n");
    proof {
        assert(out@ =~= srt_block(idx as nat, e@));
    }
    out
}

/// Renders the record sequence as SRT text.  A record without a resolved
/// end time is defensively shown for three seconds.
pub fn convert_to_srt(entries: &[TimedRecord]) -> (r: String)
    requires
        forall|i: int| 0 <= i < entries@.len() ==> serializable((#[trigger] entries@[i])@),
    ensures
        r@ == srt_doc(views_of(entries@)),
{
    let ghost vs = views_of(entries@);
    let mut out = String::new();
    let n = entries.len();
    let mut i: usize = 0;
    proof {
        assert(out@ =~= srt_doc(vs.take(0)));
    }
    while i < n
        invariant
            0 <= i <= n,
            n == entries@.len(),
            vs == views_of(entries@),
            forall|k: int| 0 <= k < entries@.len() ==> serializable((#[trigger] entries@[k])@),
            out@ == srt_doc(vs.take(i as int)),
        decreases n - i,
    {
        let e = &entries[i];
        let b = srt_block_str((i + 1) as u64, e);
        out.append(b.as_str());
        proof {
            assert(vs.take(i + 1).drop_last() =~= vs.take(i as int));
            assert(vs.take(i + 1).last() == vs[i as int]);
            assert(out@ =~= srt_doc(vs.take(i + 1)));
        }
        i = i + 1;
    }
    proof {
        assert(vs.take(n as int) =~= vs);
    }
    out
}

} // verus!
