//! Conversion of timestamped lyric transcripts (LRC-like lines) into SRT and
//! ASS subtitle documents: a line parser, a timestamp codec, a duration
//! resolver, and one serializer per output format.

mod ass;
mod codec;
mod parser;
mod record;
mod resolve;
mod srt;

pub use ass::convert_to_ass;
pub use srt::convert_to_srt;
pub use codec::ms_to_ass_time;
pub use codec::ms_to_srt_time;
pub use codec::parse_time_fields;
pub use parser::parse_lrc;
pub use parser::parse_records;
pub use record::TimedRecord;
pub use resolve::resolve_durations;
