//! ASS serializer: renders the record sequence as an Advanced SubStation
//! Alpha document with a fixed script header, one fixed default style, and
//! one `Dialogue:` event per record.

use vstd::prelude::*;
use vstd::string::StringExecFns;

use crate::codec::ass_time;
use crate::codec::ms_to_ass_time;
use crate::record::RecordView;
use crate::record::TimedRecord;
use crate::record::end_or_fallback;
use crate::record::serializable;
use crate::record::views_of;

verus! {

/// The fixed document head: script info, the single default style, and the
/// event format line.  Nothing in it is derived from the input.
pub open spec fn ass_header() -> Seq<char> {
    "[Script Info]\n"@ + "Title: LRC转换字幕\n"@ + "ScriptType: v4.00+\n"@ + "\n"@
        + "[V4+ Styles]\n"@
        + "Format: Name, Fontname, Fontsize, PrimaryColour, SecondaryColour, OutlineColour, BackColour, Bold, Italic, Underline, StrikeOut, ScaleX, ScaleY, Spacing, Angle, BorderStyle, Outline, Shadow, Alignment, MarginL, MarginR, MarginV, Encoding\n"@
        + "Style: Default,Arial,16,&Hffffff,&Hffffff,&H0,&H0,0,0,0,0,100,100,0,0,1,2,0,2,10,10,10,1\n"@
        + "\n"@ + "[Events]\n"@
        + "Format: Layer, Start, End, Style, Name, MarginL, MarginR, MarginV, Effect, Text\n"@
}

/// One dialogue event: the time range, then the speaker wrapped in an
/// inline colour tag, a colour reset, and the content.
pub open spec fn ass_dialogue(r: RecordView) -> Seq<char> {
    "Dialogue: 0,"@ + ass_time(r.start_ms as nat) + ","@ + ass_time(end_or_fallback(r) as nat)
        + ",Default,,0,0,0,,{\\c&H00ffff&}"@ + r.speaker + "{\\c&Hffffff&}: "@ + r.text + "\n"@
}

/// The dialogue events of `s`, in sequence order.
pub open spec fn ass_events(s: Seq<RecordView>) -> Seq<char>
    decreases s.len(),
{
    if s.len() == 0 {
        Seq::empty()
    } else {
        ass_events(s.drop_last()) + ass_dialogue(s.last())
    }
}

/// The whole ASS document: the fixed head, then one event per record.
pub open spec fn ass_doc(s: Seq<RecordView>) -> Seq<char> {
    ass_header() + ass_events(s)
}

/// Renders the fixed document head.
fn ass_header_str() -> (h: String)
    ensures
        h@ == ass_header(),
{
    let mut out = String::new();
    out.append("[Script Info]\n");
    out.append("Title: LRC转换字幕\n");
    out.append("ScriptType: v4.00+\n");
    out.append("\n");
    out.append("[V4+ Styles]\n");
    out.append(
        "Format: Name, Fontname, Fontsize, PrimaryColour, SecondaryColour, OutlineColour, BackColour, Bold, Italic, Underline, StrikeOut, ScaleX, ScaleY, Spacing, Angle, BorderStyle, Outline, Shadow, Alignment, MarginL, MarginR, MarginV, Encoding\n",
    );
    out.append(
        "Style: Default,Arial,16,&Hffffff,&Hffffff,&H0,&H0,0,0,0,0,100,100,0,0,1,2,0,2,10,10,10,1\n",
    );
    out.append("\n");
    out.append("[Events]\n");
    out.append("Format: Layer, Start, End, Style, Name, MarginL, MarginR, MarginV, Effect, Text\n");
    proof {
        assert(out@ =~= ass_header());
    }
    out
}

/// Renders one record as its dialogue event line.
fn ass_dialogue_str(e: &TimedRecord) -> (b: String)
    requires
        serializable(e@),
    ensures
        b@ == ass_dialogue(e@),
{
    let mut out = String::new();
    out.append("Dialogue: 0,");
    let st = ms_to_ass_time(e.start_ms);
    out.append(st.as_str());
    out.append(",");
    let end_ms = match e.end_ms {
        Some(x) => x,
        None => e.start_ms + 3000,
    };
    let et = ms_to_ass_time(end_ms);
    out.append(et.as_str());
    out.append(",Default,,0,0,0,,{\\c&H00ffff&}");
    out.append(e.speaker.as_str());
    out.append("{\\c&Hffffff&}: ");
    out.append(e.text.as_str());
    out.append("\n");
    proof {
        assert(out@ =~= ass_dialogue(e@));
    }
    out
}

/// Renders the record sequence as an ASS document.  A record without a
/// resolved end time is defensively shown for three seconds.
pub fn convert_to_ass(entries: &[TimedRecord]) -> (r: String)
    requires
        forall|i: int| 0 <= i < entries@.len() ==> serializable((#[trigger] entries@[i])@),
    ensures
        r@ == ass_doc(views_of(entries@)),
{
    let ghost vs = views_of(entries@);
    let mut out = ass_header_str();
    let n = entries.len();
    let mut i: usize = 0;
    proof {
        assert(out@ =~= ass_header() + ass_events(vs.take(0)));
    }
    while i < n
        invariant
            0 <= i <= n,
            n == entries@.len(),
            vs == views_of(entries@),
            forall|k: int| 0 <= k < entries@.len() ==> serializable((#[trigger] entries@[k])@),
            out@ == ass_header() + ass_events(vs.take(i as int)),
        decreases n - i,
    {
        let e = &entries[i];
        let b = ass_dialogue_str(e);
        out.append(b.as_str());
        proof {
            assert(vs.take(i + 1).drop_last() =~= vs.take(i as int));
            assert(vs.take(i + 1).last() == vs[i as int]);
            assert(out@ =~= ass_header() + ass_events(vs.take(i + 1)));
        }
        i = i + 1;
    }
    proof {
        assert(vs.take(n as int) =~= vs);
    }
    out
}

} // verus!
